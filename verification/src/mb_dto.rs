//! MusicBrainz records as clients receive them: the same fields, moved one for one from
//! the service's records.
use vstd::prelude::*;

use crate::musicbrainz;

verus! {

#[derive(Debug, PartialEq, Eq)]
pub struct ArtistSearchResult {
    pub id: String,
    pub name: String,
    pub country: Option<String>,
    pub disambiguation: Option<String>,
}

#[derive(Debug, PartialEq, Eq)]
pub struct ArtistSearchResponse {
    pub artist_count: usize,
    pub artists: Vec<ArtistSearchResult>,
}

#[derive(Debug, PartialEq, Eq)]
pub struct MbReleaseGroup {
    pub primary_type: Option<String>,
    pub disambiguation: Option<String>,
    pub id: String,
    pub first_release_date: Option<String>,
    pub title: String,
}

#[derive(Debug, PartialEq, Eq)]
pub struct ReleaseGroupResponse {
    pub release_group_count: usize,
    pub release_groups: Vec<MbReleaseGroup>,
}

#[derive(Debug, PartialEq, Eq)]
pub struct LifeSpan {
    pub begin: Option<String>,
    pub end: Option<String>,
    pub ended: bool,
}

#[derive(Debug, PartialEq, Eq)]
pub struct Area {
    pub id: String,
    pub name: String,
    pub sort_name: Option<String>,
    pub disambiguation: Option<String>,
    pub area_type: Option<String>,
    pub type_id: Option<String>,
}

#[derive(Debug, PartialEq, Eq)]
pub struct Alias {
    pub name: Option<String>,
    pub sort_name: Option<String>,
    pub locale: Option<String>,
    pub alias_type: Option<String>,
    pub type_id: Option<String>,
    pub primary: Option<bool>,
    pub begin: Option<String>,
    pub end: Option<String>,
    pub ended: Option<bool>,
}

#[derive(Debug, PartialEq, Eq)]
pub struct MbArtist {
    pub id: String,
    pub name: String,
    pub sort_name: Option<String>,
    pub disambiguation: Option<String>,
    pub country: Option<String>,
    pub artist_type: Option<String>,
    pub type_id: Option<String>,
    pub gender: Option<String>,
    pub gender_id: Option<String>,
    pub life_span: Option<LifeSpan>,
    pub area: Option<Area>,
    pub begin_area: Option<Area>,
    pub end_area: Option<Area>,
    pub aliases: Option<Vec<Alias>>,
    pub isnis: Option<Vec<String>>,
    pub ipis: Option<Vec<String>>,
}

pub open spec fn result_of(r: musicbrainz::ArtistSearchResult) -> ArtistSearchResult {
    ArtistSearchResult { id: r.id, name: r.name, country: r.country, disambiguation: r.disambiguation }
}

pub open spec fn group_of(g: musicbrainz::ReleaseGroup) -> MbReleaseGroup {
    MbReleaseGroup {
        primary_type: g.primary_type,
        disambiguation: g.disambiguation,
        id: g.id,
        first_release_date: g.first_release_date,
        title: g.title,
    }
}

pub open spec fn area_of(a: musicbrainz::Area) -> Area {
    Area {
        id: a.id,
        name: a.name,
        sort_name: a.sort_name,
        disambiguation: a.disambiguation,
        area_type: a.area_type,
        type_id: a.type_id,
    }
}

pub open spec fn alias_of(a: musicbrainz::Alias) -> Alias {
    Alias {
        name: a.name,
        sort_name: a.sort_name,
        locale: a.locale,
        alias_type: a.alias_type,
        type_id: a.type_id,
        primary: a.primary,
        begin: a.begin,
        end: a.end,
        ended: a.ended,
    }
}

pub open spec fn opt_area_of(a: Option<musicbrainz::Area>) -> Option<Area> {
    match a {
        Some(a) => Some(area_of(a)),
        None => None,
    }
}

impl ArtistSearchResult {
    pub fn from(result: musicbrainz::ArtistSearchResult) -> (r: ArtistSearchResult)
        ensures
            r == result_of(result),
    {
        ArtistSearchResult {
            id: result.id,
            name: result.name,
            country: result.country,
            disambiguation: result.disambiguation,
        }
    }
}

impl ArtistSearchResponse {
    pub fn from(resp: musicbrainz::ArtistSearchResponse) -> (r: ArtistSearchResponse)
        ensures
            r.artist_count == resp.artist_count,
            r.artists@ == resp.artists@.map_values(|a: musicbrainz::ArtistSearchResult| result_of(a)),
    {
        let musicbrainz::ArtistSearchResponse { artist_count, artists } = resp;
        let ghost orig = artists@;
        let n = artists.len();
        let mut rev = crate::discovery::into_reversed(artists);
        let mut out: Vec<ArtistSearchResult> = Vec::new();
        let mut i: usize = 0;
        while i < n
            invariant
                i <= n,
                orig.len() == n,
                rev@.len() == n - i,
                forall|k: int| 0 <= k < rev@.len() ==> #[trigger] rev@[k] == orig[n - 1 - k],
                out@ == orig.take(i as int).map_values(|a: musicbrainz::ArtistSearchResult| result_of(a)),
            decreases n - i,
        {
            let a = rev.pop().unwrap();
            assert(a == orig[i as int]);
            out.push(ArtistSearchResult::from(a));
            assert(orig.take(i + 1) =~= orig.take(i as int).push(a));
            assert(out@ =~= orig.take(i + 1).map_values(|a: musicbrainz::ArtistSearchResult| result_of(a)));
            i = i + 1;
        }
        assert(orig.take(n as int) =~= orig);
        ArtistSearchResponse { artist_count, artists: out }
    }
}

impl MbReleaseGroup {
    pub fn from(group: musicbrainz::ReleaseGroup) -> (r: MbReleaseGroup)
        ensures
            r == group_of(group),
    {
        MbReleaseGroup {
            primary_type: group.primary_type,
            disambiguation: group.disambiguation,
            id: group.id,
            first_release_date: group.first_release_date,
            title: group.title,
        }
    }
}

impl ReleaseGroupResponse {
    pub fn from(resp: musicbrainz::ReleaseGroupResponse) -> (r: ReleaseGroupResponse)
        ensures
            r.release_group_count == resp.release_group_count,
            r.release_groups@ == resp.release_groups@.map_values(
                |g: musicbrainz::ReleaseGroup| group_of(g),
            ),
    {
        let musicbrainz::ReleaseGroupResponse { release_group_count, release_groups } = resp;
        let ghost orig = release_groups@;
        let n = release_groups.len();
        let mut rev = crate::discovery::into_reversed(release_groups);
        let mut out: Vec<MbReleaseGroup> = Vec::new();
        let mut i: usize = 0;
        while i < n
            invariant
                i <= n,
                orig.len() == n,
                rev@.len() == n - i,
                forall|k: int| 0 <= k < rev@.len() ==> #[trigger] rev@[k] == orig[n - 1 - k],
                out@ == orig.take(i as int).map_values(|g: musicbrainz::ReleaseGroup| group_of(g)),
            decreases n - i,
        {
            let g = rev.pop().unwrap();
            assert(g == orig[i as int]);
            out.push(MbReleaseGroup::from(g));
            assert(orig.take(i + 1) =~= orig.take(i as int).push(g));
            assert(out@ =~= orig.take(i + 1).map_values(|g: musicbrainz::ReleaseGroup| group_of(g)));
            i = i + 1;
        }
        assert(orig.take(n as int) =~= orig);
        ReleaseGroupResponse { release_group_count, release_groups: out }
    }
}

impl LifeSpan {
    pub fn from(life_span: musicbrainz::LifeSpan) -> (r: LifeSpan)
        ensures
            r == (LifeSpan { begin: life_span.begin, end: life_span.end, ended: life_span.ended }),
    {
        LifeSpan { begin: life_span.begin, end: life_span.end, ended: life_span.ended }
    }
}

impl Area {
    pub fn from(area: musicbrainz::Area) -> (r: Area)
        ensures
            r == area_of(area),
    {
        Area {
            id: area.id,
            name: area.name,
            sort_name: area.sort_name,
            disambiguation: area.disambiguation,
            area_type: area.area_type,
            type_id: area.type_id,
        }
    }
}

impl Alias {
    pub fn from(alias: musicbrainz::Alias) -> (r: Alias)
        ensures
            r == alias_of(alias),
    {
        Alias {
            name: alias.name,
            sort_name: alias.sort_name,
            locale: alias.locale,
            alias_type: alias.alias_type,
            type_id: alias.type_id,
            primary: alias.primary,
            begin: alias.begin,
            end: alias.end,
            ended: alias.ended,
        }
    }
}

fn opt_area(a: Option<musicbrainz::Area>) -> (r: Option<Area>)
    ensures
        r == opt_area_of(a),
{
    match a {
        Some(a) => Some(Area::from(a)),
        None => None,
    }
}

impl MbArtist {
    pub fn from(artist: musicbrainz::Artist) -> (r: MbArtist)
        ensures
            r.id == artist.id,
            r.name == artist.name,
            r.sort_name == artist.sort_name,
            r.disambiguation == artist.disambiguation,
            r.country == artist.country,
            r.artist_type == artist.artist_type,
            r.type_id == artist.type_id,
            r.gender == artist.gender,
            r.gender_id == artist.gender_id,
            r.life_span == match artist.life_span {
                Some(l) => Some(LifeSpan { begin: l.begin, end: l.end, ended: l.ended }),
                None => None,
            },
            r.area == opt_area_of(artist.area),
            r.begin_area == opt_area_of(artist.begin_area),
            r.end_area == opt_area_of(artist.end_area),
            match artist.aliases {
                Some(a) => r.aliases matches Some(b) && b@ == a@.map_values(
                    |x: musicbrainz::Alias| alias_of(x),
                ),
                None => r.aliases is None,
            },
            r.isnis == artist.isnis,
            r.ipis == artist.ipis,
    {
        let aliases = match artist.aliases {
            None => None,
            Some(list) => {
                let ghost orig = list@;
                let n = list.len();
                let mut rev = crate::discovery::into_reversed(list);
                let mut out: Vec<Alias> = Vec::new();
                let mut i: usize = 0;
                while i < n
                    invariant
                        i <= n,
                        orig.len() == n,
                        rev@.len() == n - i,
                        forall|k: int| 0 <= k < rev@.len() ==> #[trigger] rev@[k] == orig[n - 1 - k],
                        out@ == orig.take(i as int).map_values(|x: musicbrainz::Alias| alias_of(x)),
                    decreases n - i,
                {
                    let a = rev.pop().unwrap();
                    assert(a == orig[i as int]);
                    out.push(Alias::from(a));
                    assert(orig.take(i + 1) =~= orig.take(i as int).push(a));
                    assert(out@ =~= orig.take(i + 1).map_values(|x: musicbrainz::Alias| alias_of(x)));
                    i = i + 1;
                }
                assert(orig.take(n as int) =~= orig);
                Some(out)
            },
        };
        MbArtist {
            id: artist.id,
            name: artist.name,
            sort_name: artist.sort_name,
            disambiguation: artist.disambiguation,
            country: artist.country,
            artist_type: artist.artist_type,
            type_id: artist.type_id,
            gender: artist.gender,
            gender_id: artist.gender_id,
            life_span: match artist.life_span {
                Some(l) => Some(LifeSpan::from(l)),
                None => None,
            },
            area: opt_area(artist.area),
            begin_area: opt_area(artist.begin_area),
            end_area: opt_area(artist.end_area),
            aliases,
            isnis: artist.isnis,
            ipis: artist.ipis,
        }
    }
}

} // verus!
