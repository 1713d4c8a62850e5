//! Reconciling what a scan found on disk with the catalog: which album each album
//! directory belongs to, and where each catalog album now lives.
use vstd::prelude::*;

use crate::filesystem::{
    filesystem_safe_component, lemma_component_spacing, leading_space_matters, run_space_matters,
    lemma_safe_component_is_ascii, lemma_safe_component_lower,
    safe_component, unknown_album, unknown_artist,
};
use crate::sort::{
    key_of, lemma_sort_map, lemma_sort_strict, sort_by, sort_by_key_vec, strictly_sorted_by,
    Keyed,
};
use crate::text::{
    ascii_lower, chars_of, collapse_state, collapse_whitespace, collapse_ws, is_ascii_text,
    lemma_ascii_lower_twice, lemma_collapse_ascii, lemma_collapse_lower, str_equal, string_of,
    to_lowercase, unicode_lowercase,
};

verus! {

/// An album directory found on disk, `artist/title` or `artist/title (year)`.
#[derive(Debug, PartialEq, Eq)]
pub struct AlbumCandidate {
    pub primary_artist: String,
    pub title: String,
    pub release_year: Option<i32>,
    pub relative_path: String,
}

/// A catalog album as reconciliation sees it; `primary_artist` is the name of the
/// first credited artist, when there is one.
#[derive(Debug, PartialEq, Eq)]
pub struct CatalogAlbum {
    pub id: String,
    pub primary_artist: Option<String>,
    pub title: String,
    pub release_year: i32,
    pub relative_path: Option<String>,
}

/// A change to a catalog album's recorded location, guarded by the location it had.
#[derive(Debug, PartialEq, Eq)]
pub struct LocationUpdate {
    pub album_id: String,
    pub previous_path: Option<String>,
    pub relative_path: Option<String>,
}

/// What applying a location update did.
#[derive(Debug, Clone, Copy, PartialEq, Eq, Structural)]
pub enum LocationOutcome {
    Attached,
    Changed,
    Cleared,
    Unchanged,
}

/// What importing a matched album did.
#[derive(Debug, PartialEq, Eq)]
pub enum ImportOutcome {
    Imported,
    Location(LocationOutcome),
    Duplicate { stored_path: Option<String> },
}

/// Where a catalog album should live after a scan.
#[derive(Debug, PartialEq, Eq)]
pub enum LocationDecision {
    Keep(String),
    Attach(String),
    Change(String),
    Clear,
    NoLocation,
}

/// The directories that more than one candidate claims for the same album.
#[derive(Debug, PartialEq, Eq)]
pub struct DuplicateLocations {
    pub album_id: String,
    pub paths: Vec<String>,
}

/// Everything reconciliation decides, before any of it is applied.
#[derive(Debug, PartialEq, Eq)]
pub struct ReconciliationPlan {
    pub locations: Vec<LocationUpdate>,
    pub unchanged_locations: usize,
    pub unknown_candidates: Vec<AlbumCandidate>,
    pub ambiguous_candidates: Vec<AlbumCandidate>,
    pub duplicate_paths_by_album_id: Vec<DuplicateLocations>,
}

pub open spec fn opt_view(o: Option<String>) -> Option<Seq<char>> {
    match o {
        Some(s) => Some(s@),
        None => None,
    }
}

pub struct CandidateView {
    pub primary_artist: Seq<char>,
    pub title: Seq<char>,
    pub release_year: Option<i32>,
    pub relative_path: Seq<char>,
}

pub struct AlbumView {
    pub id: Seq<char>,
    pub primary_artist: Option<Seq<char>>,
    pub title: Seq<char>,
    pub release_year: i32,
    pub relative_path: Option<Seq<char>>,
}

pub struct UpdateView {
    pub album_id: Seq<char>,
    pub previous_path: Option<Seq<char>>,
    pub relative_path: Option<Seq<char>>,
}

pub enum DecisionView {
    Keep(Seq<char>),
    Attach(Seq<char>),
    Change(Seq<char>),
    Clear,
    NoLocation,
}

pub struct DuplicateView {
    pub album_id: Seq<char>,
    pub paths: Seq<Seq<char>>,
}

impl View for AlbumCandidate {
    type V = CandidateView;

    open spec fn view(&self) -> CandidateView {
        CandidateView {
            primary_artist: self.primary_artist@,
            title: self.title@,
            release_year: self.release_year,
            relative_path: self.relative_path@,
        }
    }
}

impl View for CatalogAlbum {
    type V = AlbumView;

    open spec fn view(&self) -> AlbumView {
        AlbumView {
            id: self.id@,
            primary_artist: opt_view(self.primary_artist),
            title: self.title@,
            release_year: self.release_year,
            relative_path: opt_view(self.relative_path),
        }
    }
}

impl View for LocationUpdate {
    type V = UpdateView;

    open spec fn view(&self) -> UpdateView {
        UpdateView {
            album_id: self.album_id@,
            previous_path: opt_view(self.previous_path),
            relative_path: opt_view(self.relative_path),
        }
    }
}

impl View for LocationDecision {
    type V = DecisionView;

    open spec fn view(&self) -> DecisionView {
        match self {
            LocationDecision::Keep(p) => DecisionView::Keep(p@),
            LocationDecision::Attach(p) => DecisionView::Attach(p@),
            LocationDecision::Change(p) => DecisionView::Change(p@),
            LocationDecision::Clear => DecisionView::Clear,
            LocationDecision::NoLocation => DecisionView::NoLocation,
        }
    }
}

impl View for DuplicateLocations {
    type V = DuplicateView;

    open spec fn view(&self) -> DuplicateView {
        DuplicateView { album_id: self.album_id@, paths: string_views(self.paths@) }
    }
}

impl Keyed for AlbumCandidate {
    open spec fn key(&self) -> Seq<char> {
        self.relative_path@
    }

    fn key_text(&self) -> (r: Vec<char>) {
        chars_of(self.relative_path.as_str())
    }
}

impl Keyed for LocationUpdate {
    open spec fn key(&self) -> Seq<char> {
        self.album_id@
    }

    fn key_text(&self) -> (r: Vec<char>) {
        chars_of(self.album_id.as_str())
    }
}

impl Keyed for DuplicateLocations {
    open spec fn key(&self) -> Seq<char> {
        self.album_id@
    }

    fn key_text(&self) -> (r: Vec<char>) {
        chars_of(self.album_id.as_str())
    }
}

impl Keyed for String {
    open spec fn key(&self) -> Seq<char> {
        self@
    }

    fn key_text(&self) -> (r: Vec<char>) {
        chars_of(self.as_str())
    }
}

pub open spec fn candidate_view_fn() -> spec_fn(AlbumCandidate) -> CandidateView {
    |c: AlbumCandidate| c@
}

pub open spec fn album_view_fn() -> spec_fn(CatalogAlbum) -> AlbumView {
    |a: CatalogAlbum| a@
}

pub open spec fn update_view_fn() -> spec_fn(LocationUpdate) -> UpdateView {
    |u: LocationUpdate| u@
}

pub open spec fn duplicate_view_fn() -> spec_fn(DuplicateLocations) -> DuplicateView {
    |d: DuplicateLocations| d@
}

pub open spec fn string_view_fn() -> spec_fn(String) -> Seq<char> {
    |p: String| p@
}

pub open spec fn candidate_views(s: Seq<AlbumCandidate>) -> Seq<CandidateView> {
    s.map_values(candidate_view_fn())
}

pub open spec fn album_views(s: Seq<CatalogAlbum>) -> Seq<AlbumView> {
    s.map_values(album_view_fn())
}

pub open spec fn update_views(s: Seq<LocationUpdate>) -> Seq<UpdateView> {
    s.map_values(update_view_fn())
}

pub open spec fn duplicate_views(s: Seq<DuplicateLocations>) -> Seq<DuplicateView> {
    s.map_values(duplicate_view_fn())
}

pub open spec fn string_views(s: Seq<String>) -> Seq<Seq<char>> {
    s.map_values(string_view_fn())
}

pub open spec fn candidate_paths(s: Seq<AlbumCandidate>) -> Seq<Seq<char>> {
    s.map_values(|c: AlbumCandidate| c.relative_path@)
}

pub open spec fn candidate_path_key() -> spec_fn(CandidateView) -> Seq<char> {
    |c: CandidateView| c.relative_path
}

pub open spec fn update_id_key() -> spec_fn(UpdateView) -> Seq<char> {
    |u: UpdateView| u.album_id
}

pub open spec fn duplicate_id_key() -> spec_fn(DuplicateView) -> Seq<char> {
    |d: DuplicateView| d.album_id
}

pub open spec fn text_key() -> spec_fn(Seq<char>) -> Seq<char> {
    |p: Seq<char>| p
}

/// A name as matching compares it: made filesystem-safe, whitespace collapsed, lowercase.
pub open spec fn normalized_component(value: Seq<char>, fallback: Seq<char>) -> Seq<char> {
    unicode_lowercase(collapse_ws(safe_component(value, fallback)))
}

/// The identity under which an artist's album is matched.
pub open spec fn identity_of(artist: Seq<char>, title: Seq<char>) -> (Seq<char>, Seq<char>) {
    (normalized_component(artist, unknown_artist()), normalized_component(title, unknown_album()))
}

/// A name as matching compares it when the name and its fallback are ASCII text, where
/// lowercasing is ASCII lowercasing.
pub open spec fn ascii_normalized_component(value: Seq<char>, fallback: Seq<char>) -> Seq<char> {
    ascii_lower(collapse_ws(safe_component(value, fallback)))
}

/// The identity under which an artist's album is matched, for ASCII names.
pub open spec fn ascii_identity_of(artist: Seq<char>, title: Seq<char>) -> (Seq<char>, Seq<char>) {
    (
        ascii_normalized_component(artist, unknown_artist()),
        ascii_normalized_component(title, unknown_album()),
    )
}

/// The normalized form of one name component.
pub fn normalized_matching_component(value: &str, fallback: &str) -> (r: String)
    ensures
        r@ == normalized_component(value@, fallback@),
        is_ascii_text(value@) && is_ascii_text(fallback@) ==> r@ == ascii_normalized_component(
            value@,
            fallback@,
        ),
{
    let safe = filesystem_safe_component(value, fallback);
    let collapsed = string_of(&collapse_whitespace(&chars_of(safe.as_str())));
    proof {
        if is_ascii_text(value@) && is_ascii_text(fallback@) {
            lemma_safe_component_is_ascii(value@, fallback@);
            lemma_collapse_ascii(safe@);
        }
    }
    to_lowercase(collapsed.as_str())
}

/// The normalized artist and title under which an album is matched.
pub fn identity(artist: &str, title: &str) -> (r: (String, String))
    ensures
        r.0@ == identity_of(artist@, title@).0,
        r.1@ == identity_of(artist@, title@).1,
        is_ascii_text(artist@) && is_ascii_text(title@) ==> r.0@ == ascii_identity_of(
            artist@,
            title@,
        ).0 && r.1@ == ascii_identity_of(artist@, title@).1,
{
    proof {
        reveal_strlit("Unknown artist");
        reveal_strlit("Unknown album");
    }
    (
        normalized_matching_component(artist, "Unknown artist"),
        normalized_matching_component(title, "Unknown album"),
    )
}

proof fn lemma_normalized_ignores_ascii_case(value: Seq<char>, fallback: Seq<char>)
    ensures
        ascii_normalized_component(ascii_lower(value), fallback) == ascii_normalized_component(
            value,
            fallback,
        ),
{
    lemma_safe_component_lower(value, fallback);
    let t = safe_component(value, fallback);
    lemma_collapse_lower(t);
    lemma_ascii_lower_twice(collapse_state(t).0);
}

/// Matching ignores letter case: the ASCII names of an album identify it exactly as
/// their lowercase forms do, and those forms are ASCII names too.
pub proof fn law_identity_ignores_ascii_case(artist: Seq<char>, title: Seq<char>)
    requires
        is_ascii_text(artist),
        is_ascii_text(title),
    ensures
        is_ascii_text(ascii_lower(artist)),
        is_ascii_text(ascii_lower(title)),
        ascii_identity_of(ascii_lower(artist), ascii_lower(title)) == ascii_identity_of(
            artist,
            title,
        ),
{
    lemma_normalized_ignores_ascii_case(artist, unknown_artist());
    lemma_normalized_ignores_ascii_case(title, unknown_album());
    crate::text::lemma_ascii_lower_len(artist);
    crate::text::lemma_ascii_lower_len(title);
    assert forall|i: int| 0 <= i < ascii_lower(artist).len() implies (#[trigger] ascii_lower(
        artist,
    )[i] as u32) < 128 by {
        crate::text::lemma_ascii_lower_char(artist[i]);
    }
    assert forall|i: int| 0 <= i < ascii_lower(title).len() implies (#[trigger] ascii_lower(
        title,
    )[i] as u32) < 128 by {
        crate::text::lemma_ascii_lower_char(title[i]);
    }
}

/// Taking out the space at `k` of a double space, where it does not change how the name is
/// made safe.
pub open spec fn run_space_removable(value: Seq<char>, k: int) -> bool {
    1 <= k < value.len() && value[k - 1] == ' ' && value[k] == ' ' && !run_space_matters(value, k)
}

/// Matching ignores spacing: a space added after an artist or a title never changes the
/// identity, nor does a space added in front or one space taken out of a double space,
/// except where that space changes how the name is made safe next to a path separator.
pub proof fn law_identity_ignores_extra_spaces(artist: Seq<char>, title: Seq<char>, k: int)
    ensures
        identity_of(artist.push(' '), title) == identity_of(artist, title),
        identity_of(artist, title.push(' ')) == identity_of(artist, title),
        !leading_space_matters(artist) ==> identity_of(seq![' '] + artist, title) == identity_of(
            artist,
            title,
        ),
        !leading_space_matters(title) ==> identity_of(artist, seq![' '] + title) == identity_of(
            artist,
            title,
        ),
        run_space_removable(artist, k) ==> identity_of(artist.remove(k), title) == identity_of(
            artist,
            title,
        ),
        run_space_removable(title, k) ==> identity_of(artist, title.remove(k)) == identity_of(
            artist,
            title,
        ),
{
    lemma_component_spacing(artist, unknown_artist(), k);
    lemma_component_spacing(title, unknown_album(), k);
}

/// `b` differs from `a` by one edit that matching ignores: ASCII letter case, a space added
/// or removed at the end, or, where it does not change how the name is made safe, a space
/// added or removed in front or added to or taken from a run of spaces.
pub open spec fn ignored_edit(a: Seq<char>, b: Seq<char>) -> bool {
    ||| ascii_lower(a) == ascii_lower(b)
    ||| b == a.push(' ')
    ||| a == b.push(' ')
    ||| (b == seq![' '] + a && !leading_space_matters(a))
    ||| (a == seq![' '] + b && !leading_space_matters(b))
    ||| exists|k: int| run_space_removable(a, k) && b == #[trigger] a.remove(k)
    ||| exists|k: int| run_space_removable(b, k) && a == #[trigger] b.remove(k)
}

/// Each name of the chain differs from the one before by an edit that matching ignores.
pub open spec fn ignored_edits(names: Seq<Seq<char>>) -> bool {
    forall|i: int| 0 <= i < names.len() - 1 ==> #[trigger] ignored_edit(names[i], names[i + 1])
}

proof fn lemma_ignored_edit(a: Seq<char>, b: Seq<char>, fallback: Seq<char>)
    requires
        ignored_edit(a, b),
    ensures
        ascii_normalized_component(b, fallback) == ascii_normalized_component(a, fallback),
{
    lemma_normalized_ignores_ascii_case(a, fallback);
    lemma_normalized_ignores_ascii_case(b, fallback);
    lemma_component_spacing(a, fallback, 0);
    lemma_component_spacing(b, fallback, 0);
    if exists|k: int| run_space_removable(a, k) && b == #[trigger] a.remove(k) {
        let k = choose|k: int| run_space_removable(a, k) && b == #[trigger] a.remove(k);
        lemma_component_spacing(a, fallback, k);
    }
    if exists|k: int| run_space_removable(b, k) && a == #[trigger] b.remove(k) {
        let k = choose|k: int| run_space_removable(b, k) && a == #[trigger] b.remove(k);
        lemma_component_spacing(b, fallback, k);
    }
}

proof fn lemma_ignored_edits(names: Seq<Seq<char>>, fallback: Seq<char>)
    requires
        names.len() > 0,
        ignored_edits(names),
    ensures
        ascii_normalized_component(names.last(), fallback) == ascii_normalized_component(
            names[0],
            fallback,
        ),
    decreases names.len(),
{
    if names.len() > 1 {
        let d = names.drop_last();
        assert forall|i: int| 0 <= i < d.len() - 1 implies #[trigger] ignored_edit(d[i], d[i + 1]) by {
            assert(ignored_edit(names[i], names[i + 1]));
        }
        lemma_ignored_edits(d, fallback);
        let i = names.len() - 2;
        assert(ignored_edit(names[i], names[i + 1]));
        assert(d.last() == names[i]);
        lemma_ignored_edit(names[i], names[i + 1], fallback);
    }
}

/// Matching ignores letter case and spacing: names reached from an artist and a title by
/// any number of edits that matching ignores identify the album as the first ones do. For
/// ASCII names this is the identity `identity` returns.
pub proof fn law_identity_ignores_case_and_spacing(
    artists: Seq<Seq<char>>,
    titles: Seq<Seq<char>>,
)
    requires
        artists.len() > 0,
        titles.len() > 0,
        ignored_edits(artists),
        ignored_edits(titles),
    ensures
        ascii_identity_of(artists.last(), titles.last()) == ascii_identity_of(artists[0], titles[0]),
{
    lemma_ignored_edits(artists, unknown_artist());
    lemma_ignored_edits(titles, unknown_album());
}

/// The location decision for a catalog album: an observed stored location is kept;
/// otherwise a unique candidate is attached (or replaces the stored location), and
/// without one the stored location is cleared.
pub open spec fn decide_location_spec(
    stored: Option<Seq<char>>,
    observed: bool,
    paths: Seq<Seq<char>>,
) -> DecisionView {
    if stored is Some && observed {
        DecisionView::Keep(stored.unwrap())
    } else if paths.len() == 1 {
        if stored is None {
            DecisionView::Attach(paths[0])
        } else {
            DecisionView::Change(paths[0])
        }
    } else if stored is Some {
        DecisionView::Clear
    } else {
        DecisionView::NoLocation
    }
}

fn decide_for_paths(stored: Option<&str>, observed: bool, paths: &Vec<String>) -> (r:
    LocationDecision)
    ensures
        r@ == decide_location_spec(
            match stored {
                Some(s) => Some(s@),
                None => None,
            },
            observed,
            string_views(paths@),
        ),
{
    if let Some(path) = stored {
        if observed {
            return LocationDecision::Keep(path.to_owned());
        }
    }
    if paths.len() == 1 {
        let unique = paths[0].clone();
        match stored {
            None => LocationDecision::Attach(unique),
            Some(_) => LocationDecision::Change(unique),
        }
    } else {
        match stored {
            Some(_) => LocationDecision::Clear,
            None => LocationDecision::NoLocation,
        }
    }
}

/// Decides where a catalog album lives, given its stored location, whether that
/// location was observed on disk, and the candidates that belong to it.
pub fn decide_location(stored_path: Option<&str>, observed: bool, candidates: &[AlbumCandidate]) -> (r:
    LocationDecision)
    ensures
        r@ == decide_location_spec(
            match stored_path {
                Some(s) => Some(s@),
                None => None,
            },
            observed,
            candidate_paths(candidates@),
        ),
{
    let mut paths: Vec<String> = Vec::new();
    let mut i: usize = 0;
    while i < candidates.len()
        invariant
            i <= candidates@.len(),
            string_views(paths@) == candidate_paths(candidates@.take(i as int)),
        decreases candidates.len() - i,
    {
        let ghost before = paths@;
        paths.push(candidates[i].relative_path.clone());
        assert(string_views(paths@) =~= string_views(before).push(candidates@[i as int].relative_path@));
        assert(candidates@.take(i + 1) == candidates@.take(i as int).push(candidates@[i as int]));
        assert(candidate_paths(candidates@.take(i + 1)) =~= candidate_paths(candidates@.take(i as int)).push(candidates@[i as int].relative_path@));
        i = i + 1;
    }
    assert(candidates@.take(candidates@.len() as int) == candidates@);
    decide_for_paths(stored_path, observed, &paths)
}

/// The album that records `path` as its location; the last one when several do.
pub open spec fn owner_of(albums: Seq<AlbumView>, path: Seq<char>) -> Option<Seq<char>>
    decreases albums.len(),
{
    if albums.len() == 0 {
        None
    } else if albums.last().relative_path == Some(path) {
        Some(albums.last().id)
    } else {
        owner_of(albums.drop_last(), path)
    }
}

/// Whether a catalog album has the candidate's identity and, when the candidate names a
/// year, that year.
pub open spec fn album_matches(a: AlbumView, c: CandidateView) -> bool {
    &&& a.primary_artist is Some
    &&& identity_of(a.primary_artist.unwrap(), a.title) == identity_of(c.primary_artist, c.title)
    &&& (c.release_year is None || c.release_year.unwrap() == a.release_year)
}

/// The ids of the catalog albums that match a candidate, in catalog order.
pub open spec fn matching_ids(albums: Seq<AlbumView>, c: CandidateView) -> Seq<Seq<char>>
    decreases albums.len(),
{
    if albums.len() == 0 {
        Seq::empty()
    } else {
        let rest = matching_ids(albums.drop_last(), c);
        if album_matches(albums.last(), c) {
            rest.push(albums.last().id)
        } else {
            rest
        }
    }
}

pub enum Assignment {
    Album(Seq<char>),
    Unknown,
    Ambiguous,
}

/// Which album a candidate belongs to: the album whose stored location it is, else the
/// only album with its identity; with none it is unknown, with several ambiguous.
pub open spec fn assignment(albums: Seq<AlbumView>, c: CandidateView) -> Assignment {
    match owner_of(albums, c.relative_path) {
        Some(id) => Assignment::Album(id),
        None => {
            let ids = matching_ids(albums, c);
            if ids.len() == 1 {
                Assignment::Album(ids[0])
            } else if ids.len() == 0 {
                Assignment::Unknown
            } else {
                Assignment::Ambiguous
            }
        },
    }
}

/// The candidates that belong to no catalog album, in discovery order.
pub open spec fn unknown_of(albums: Seq<AlbumView>, cands: Seq<CandidateView>) -> Seq<CandidateView>
    decreases cands.len(),
{
    if cands.len() == 0 {
        Seq::empty()
    } else {
        let rest = unknown_of(albums, cands.drop_last());
        if assignment(albums, cands.last()) is Unknown {
            rest.push(cands.last())
        } else {
            rest
        }
    }
}

/// The candidates that match several catalog albums, in discovery order.
pub open spec fn ambiguous_of(albums: Seq<AlbumView>, cands: Seq<CandidateView>) -> Seq<CandidateView>
    decreases cands.len(),
{
    if cands.len() == 0 {
        Seq::empty()
    } else {
        let rest = ambiguous_of(albums, cands.drop_last());
        if assignment(albums, cands.last()) is Ambiguous {
            rest.push(cands.last())
        } else {
            rest
        }
    }
}

/// The paths of the candidates that belong to album `id`, in discovery order.
pub open spec fn paths_for(albums: Seq<AlbumView>, cands: Seq<CandidateView>, id: Seq<char>) -> Seq<
    Seq<char>,
>
    decreases cands.len(),
{
    if cands.len() == 0 {
        Seq::empty()
    } else {
        let rest = paths_for(albums, cands.drop_last(), id);
        if assignment(albums, cands.last()) == Assignment::Album(id) {
            rest.push(cands.last().relative_path)
        } else {
            rest
        }
    }
}

/// Whether some candidate lies at `path`.
pub open spec fn observed(cands: Seq<CandidateView>, path: Seq<char>) -> bool {
    exists|i: int| 0 <= i < cands.len() && (#[trigger] cands[i]).relative_path == path
}

pub open spec fn decision_for(albums: Seq<AlbumView>, cands: Seq<CandidateView>, a: AlbumView) -> DecisionView {
    decide_location_spec(
        a.relative_path,
        a.relative_path is Some && observed(cands, a.relative_path.unwrap()),
        paths_for(albums, cands, a.id),
    )
}

/// The location updates for the albums of `prefix`, in catalog order.
pub open spec fn updates_of(
    albums: Seq<AlbumView>,
    prefix: Seq<AlbumView>,
    cands: Seq<CandidateView>,
) -> Seq<UpdateView>
    decreases prefix.len(),
{
    if prefix.len() == 0 {
        Seq::empty()
    } else {
        let rest = updates_of(albums, prefix.drop_last(), cands);
        let a = prefix.last();
        match decision_for(albums, cands, a) {
            DecisionView::Attach(p) => rest.push(
                UpdateView { album_id: a.id, previous_path: a.relative_path, relative_path: Some(p) },
            ),
            DecisionView::Change(p) => rest.push(
                UpdateView { album_id: a.id, previous_path: a.relative_path, relative_path: Some(p) },
            ),
            DecisionView::Clear => rest.push(
                UpdateView { album_id: a.id, previous_path: a.relative_path, relative_path: None },
            ),
            _ => rest,
        }
    }
}

/// How many albums of `prefix` keep their observed location.
pub open spec fn kept_count(albums: Seq<AlbumView>, prefix: Seq<AlbumView>, cands: Seq<CandidateView>) -> nat
    decreases prefix.len(),
{
    if prefix.len() == 0 {
        0
    } else {
        kept_count(albums, prefix.drop_last(), cands) + if decision_for(
            albums,
            cands,
            prefix.last(),
        ) is Keep {
            1nat
        } else {
            0nat
        }
    }
}

pub open spec fn has_duplicate_entry(s: Seq<DuplicateView>, id: Seq<char>) -> bool {
    exists|i: int| 0 <= i < s.len() && (#[trigger] s[i]).album_id == id
}

/// One entry per album id that more than one candidate belongs to, with those
/// candidates' paths in order, in catalog order.
pub open spec fn duplicates_of(
    albums: Seq<AlbumView>,
    prefix: Seq<AlbumView>,
    cands: Seq<CandidateView>,
) -> Seq<DuplicateView>
    decreases prefix.len(),
{
    if prefix.len() == 0 {
        Seq::empty()
    } else {
        let rest = duplicates_of(albums, prefix.drop_last(), cands);
        let id = prefix.last().id;
        let paths = paths_for(albums, cands, id);
        if paths.len() > 1 && !has_duplicate_entry(rest, id) {
            rest.push(DuplicateView { album_id: id, paths: sort_by(paths, text_key()) })
        } else {
            rest
        }
    }
}


/// A copy of a candidate.
pub fn clone_candidate(c: &AlbumCandidate) -> (r: AlbumCandidate)
    ensures
        r@ == c@,
{
    AlbumCandidate {
        primary_artist: c.primary_artist.clone(),
        title: c.title.clone(),
        release_year: c.release_year,
        relative_path: c.relative_path.clone(),
    }
}

fn album_key(a: &CatalogAlbum) -> (r: Option<(String, String)>)
    ensures
        match r {
            Some(k) => a.primary_artist is Some && k.0@ == identity_of(
                a.primary_artist.unwrap()@,
                a.title@,
            ).0 && k.1@ == identity_of(a.primary_artist.unwrap()@, a.title@).1,
            None => a.primary_artist is None,
        },
{
    match &a.primary_artist {
        Some(artist) => Some(identity(artist.as_str(), a.title.as_str())),
        None => None,
    }
}

fn owner_index(albums: &[CatalogAlbum], path: &str) -> (r: Option<usize>)
    ensures
        match owner_of(album_views(albums@), path@) {
            Some(id) => r is Some && r.unwrap() < albums@.len() && albums@[r.unwrap() as int].id@
                == id,
            None => r is None,
        },
{
    let ghost av = album_views(albums@);
    let mut n: usize = albums.len();
    assert(av.take(n as int) == av);
    while n > 0
        invariant
            n <= albums@.len(),
            av == album_views(albums@),
            owner_of(av, path@) == owner_of(av.take(n as int), path@),
        decreases n,
    {
        assert(av.take(n as int).drop_last() == av.take(n - 1));
        assert(av.take(n as int).last() == albums@[n - 1]@);
        let matches = match &albums[n - 1].relative_path {
            Some(p) => str_equal(p.as_str(), path),
            None => false,
        };
        if matches {
            return Some(n - 1);
        }
        n = n - 1;
    }
    None
}

fn keys_equal(a: &(String, String), b: &(String, String)) -> (r: bool)
    ensures
        r == (a.0@ == b.0@ && a.1@ == b.1@),
{
    str_equal(a.0.as_str(), b.0.as_str()) && str_equal(a.1.as_str(), b.1.as_str())
}

proof fn lemma_matching_ids_len(albums: Seq<AlbumView>, c: CandidateView)
    ensures
        matching_ids(albums, c).len() <= albums.len(),
    decreases albums.len(),
{
    if albums.len() > 0 {
        lemma_matching_ids_len(albums.drop_last(), c);
    }
}

/// How many catalog albums match the candidate, and the index of the first of them.
fn count_matches(
    albums: &[CatalogAlbum],
    keys: &Vec<Option<(String, String)>>,
    c: &AlbumCandidate,
) -> (r: (usize, usize))
    requires
        keys@.len() == albums@.len(),
        forall|j: int|
            0 <= j < albums@.len() ==> match #[trigger] keys@[j] {
                Some(k) => albums@[j].primary_artist is Some && k.0@ == identity_of(
                    albums@[j].primary_artist.unwrap()@,
                    albums@[j].title@,
                ).0 && k.1@ == identity_of(albums@[j].primary_artist.unwrap()@, albums@[j].title@).1,
                None => albums@[j].primary_artist is None,
            },
    ensures
        r.0 == matching_ids(album_views(albums@), c@).len(),
        r.0 >= 1 ==> r.1 < albums@.len() && albums@[r.1 as int].id@ == matching_ids(
            album_views(albums@),
            c@,
        )[0],
{
    let ghost av = album_views(albums@);
    let key = identity(c.primary_artist.as_str(), c.title.as_str());
    let mut count: usize = 0;
    let mut first: usize = 0;
    let mut j: usize = 0;
    while j < albums.len()
        invariant
            j <= albums@.len(),
            keys@.len() == albums@.len(),
            av == album_views(albums@),
            forall|j: int|
                0 <= j < albums@.len() ==> match #[trigger] keys@[j] {
                    Some(k) => albums@[j].primary_artist is Some && k.0@ == identity_of(
                        albums@[j].primary_artist.unwrap()@,
                        albums@[j].title@,
                    ).0 && k.1@ == identity_of(
                        albums@[j].primary_artist.unwrap()@,
                        albums@[j].title@,
                    ).1,
                    None => albums@[j].primary_artist is None,
                },
            key.0@ == identity_of(c.primary_artist@, c.title@).0,
            key.1@ == identity_of(c.primary_artist@, c.title@).1,
            count == matching_ids(av.take(j as int), c@).len(),
            count >= 1 ==> first < j && albums@[first as int].id@ == matching_ids(
                av.take(j as int),
                c@,
            )[0],
        decreases albums.len() - j,
    {
        assert(av.take(j + 1).drop_last() == av.take(j as int));
        assert(av.take(j + 1).last() == albums@[j as int]@);
        proof {
            lemma_matching_ids_len(av.take(j as int), c@);
        }
        let m = match &keys[j] {
            Some(k) => {
                let year_ok = match c.release_year {
                    None => true,
                    Some(y) => y == albums[j].release_year,
                };
                year_ok && keys_equal(k, &key)
            },
            None => false,
        };
        proof {
            let a = albums@[j as int]@;
            assert(m == album_matches(a, c@));
        }
        if m {
            if count == 0 {
                first = j;
            }
            count = count + 1;
        }
        j = j + 1;
    }
    assert(av.take(albums@.len() as int) == av);
    (count, first)
}

/// Whether some candidate lies at `path`.
pub fn is_observed(candidates: &[AlbumCandidate], path: &str) -> (r: bool)
    ensures
        r == observed(candidate_views(candidates@), path@),
{
    let ghost cv = candidate_views(candidates@);
    let mut i: usize = 0;
    while i < candidates.len()
        invariant
            i <= candidates@.len(),
            cv == candidate_views(candidates@),
            forall|j: int| 0 <= j < i ==> (#[trigger] cv[j]).relative_path != path@,
        decreases candidates.len() - i,
    {
        if str_equal(candidates[i].relative_path.as_str(), path) {
            assert(cv[i as int].relative_path == path@);
            return true;
        }
        i = i + 1;
    }
    false
}

/// Matches each candidate to a catalog album and decides every album's location: a
/// candidate at an album's stored location belongs to that album, otherwise to the only
/// album with its artist and title identity (and year, when the directory names one).
/// Unknown and ambiguous candidates are returned sorted by path, location updates
/// sorted by album id, and albums claimed by several candidates sorted by album id.
pub fn reconcile(candidates: &[AlbumCandidate], catalog_albums: &[CatalogAlbum]) -> (plan:
    ReconciliationPlan)
    ensures
        ({
            let av = album_views(catalog_albums@);
            let cv = candidate_views(candidates@);
            &&& update_views(plan.locations@) == sort_by(updates_of(av, av, cv), update_id_key())
            &&& plan.unchanged_locations == kept_count(av, av, cv)
            &&& candidate_views(plan.unknown_candidates@) == sort_by(
                unknown_of(av, cv),
                candidate_path_key(),
            )
            &&& candidate_views(plan.ambiguous_candidates@) == sort_by(
                ambiguous_of(av, cv),
                candidate_path_key(),
            )
            &&& duplicate_views(plan.duplicate_paths_by_album_id@) == sort_by(
                duplicates_of(av, av, cv),
                duplicate_id_key(),
            )
        }),
{
    let ghost av = album_views(catalog_albums@);
    let ghost cv = candidate_views(candidates@);
    let mut keys: Vec<Option<(String, String)>> = Vec::new();
    let mut k: usize = 0;
    while k < catalog_albums.len()
        invariant
            k <= catalog_albums@.len(),
            keys@.len() == k,
            forall|j: int|
                0 <= j < k ==> match #[trigger] keys@[j] {
                    Some(key) => catalog_albums@[j].primary_artist is Some && key.0@ == identity_of(
                        catalog_albums@[j].primary_artist.unwrap()@,
                        catalog_albums@[j].title@,
                    ).0 && key.1@ == identity_of(
                        catalog_albums@[j].primary_artist.unwrap()@,
                        catalog_albums@[j].title@,
                    ).1,
                    None => catalog_albums@[j].primary_artist is None,
                },
        decreases catalog_albums.len() - k,
    {
        keys.push(album_key(&catalog_albums[k]));
        k = k + 1;
    }
    // Which album each candidate belongs to, as an index of an album with that id.
    let mut assigned: Vec<Option<usize>> = Vec::new();
    let mut unknown: Vec<AlbumCandidate> = Vec::new();
    let mut ambiguous: Vec<AlbumCandidate> = Vec::new();
    let mut i: usize = 0;
    while i < candidates.len()
        invariant
            i <= candidates@.len(),
            av == album_views(catalog_albums@),
            cv == candidate_views(candidates@),
            keys@.len() == catalog_albums@.len(),
            forall|j: int|
                0 <= j < catalog_albums@.len() ==> match #[trigger] keys@[j] {
                    Some(key) => catalog_albums@[j].primary_artist is Some && key.0@ == identity_of(
                        catalog_albums@[j].primary_artist.unwrap()@,
                        catalog_albums@[j].title@,
                    ).0 && key.1@ == identity_of(
                        catalog_albums@[j].primary_artist.unwrap()@,
                        catalog_albums@[j].title@,
                    ).1,
                    None => catalog_albums@[j].primary_artist is None,
                },
            assigned@.len() == i,
            forall|j: int|
                0 <= j < i ==> match #[trigger] assigned@[j] {
                    Some(x) => x < catalog_albums@.len() && assignment(av, cv[j])
                        == Assignment::Album(catalog_albums@[x as int].id@),
                    None => !(assignment(av, cv[j]) is Album),
                },
            candidate_views(unknown@) == unknown_of(av, cv.take(i as int)),
            candidate_views(ambiguous@) == ambiguous_of(av, cv.take(i as int)),
        decreases candidates.len() - i,
    {
        let c = &candidates[i];
        assert(cv[i as int] == c@);
        assert(cv.take(i + 1).drop_last() == cv.take(i as int));
        assert(cv.take(i + 1).last() == c@);
        let owner = owner_index(catalog_albums, c.relative_path.as_str());
        match owner {
            Some(x) => {
                assigned.push(Some(x));
            },
            None => {
                let (count, first) = count_matches(catalog_albums, &keys, c);
                if count == 1 {
                    assigned.push(Some(first));
                } else if count == 0 {
                    assigned.push(None);
                    let ghost before = unknown@;
                    unknown.push(clone_candidate(c));
                    assert(candidate_views(unknown@) =~= candidate_views(before).push(c@));
                } else {
                    assigned.push(None);
                    let ghost before = ambiguous@;
                    ambiguous.push(clone_candidate(c));
                    assert(candidate_views(ambiguous@) =~= candidate_views(before).push(c@));
                }
            },
        }
        i = i + 1;
    }
    assert(cv.take(candidates@.len() as int) == cv);
    let mut updates: Vec<LocationUpdate> = Vec::new();
    let mut duplicates: Vec<DuplicateLocations> = Vec::new();
    let mut kept: usize = 0;
    let mut k: usize = 0;
    while k < catalog_albums.len()
        invariant
            k <= catalog_albums@.len(),
            av == album_views(catalog_albums@),
            cv == candidate_views(candidates@),
            assigned@.len() == candidates@.len(),
            forall|j: int|
                0 <= j < candidates@.len() ==> match #[trigger] assigned@[j] {
                    Some(x) => x < catalog_albums@.len() && assignment(av, cv[j])
                        == Assignment::Album(catalog_albums@[x as int].id@),
                    None => !(assignment(av, cv[j]) is Album),
                },
            update_views(updates@) == updates_of(av, av.take(k as int), cv),
            kept == kept_count(av, av.take(k as int), cv),
            kept <= k,
            duplicate_views(duplicates@) == duplicates_of(av, av.take(k as int), cv),
        decreases catalog_albums.len() - k,
    {
        let album = &catalog_albums[k];
        assert(av.take(k + 1).drop_last() == av.take(k as int));
        assert(av.take(k + 1).last() == album@);
        let mut paths: Vec<String> = Vec::new();
        let mut j: usize = 0;
        while j < candidates.len()
            invariant
                j <= candidates@.len(),
                cv == candidate_views(candidates@),
                assigned@.len() == candidates@.len(),
                forall|j: int|
                    0 <= j < candidates@.len() ==> match #[trigger] assigned@[j] {
                        Some(x) => x < catalog_albums@.len() && assignment(av, cv[j])
                            == Assignment::Album(catalog_albums@[x as int].id@),
                        None => !(assignment(av, cv[j]) is Album),
                    },
                string_views(paths@) == paths_for(av, cv.take(j as int), album@.id),
            decreases candidates.len() - j,
        {
            assert(cv.take(j + 1).drop_last() == cv.take(j as int));
            assert(cv.take(j + 1).last() == cv[j as int]);
            let belongs = match assigned[j] {
                Some(x) => str_equal(catalog_albums[x].id.as_str(), album.id.as_str()),
                None => false,
            };
            if belongs {
                let ghost before = paths@;
                paths.push(candidates[j].relative_path.clone());
                assert(string_views(paths@) =~= string_views(before).push(cv[j as int].relative_path));
            }
            j = j + 1;
        }
        assert(cv.take(candidates@.len() as int) == cv);
        let stored: Option<&str> = match &album.relative_path {
            Some(p) => Some(p.as_str()),
            None => None,
        };
        let seen = match &album.relative_path {
            Some(p) => is_observed(candidates, p.as_str()),
            None => false,
        };
        if paths.len() > 1 {
            let mut present = false;
            let mut d: usize = 0;
            while d < duplicates.len()
                invariant
                    d <= duplicates@.len(),
                    present == has_duplicate_entry(duplicate_views(duplicates@.take(d as int)), album@.id),
                decreases duplicates.len() - d,
            {
                let ghost prev = duplicate_views(duplicates@.take(d as int));
                assert(duplicate_views(duplicates@.take(d + 1)) =~= prev.push(duplicates@[d as int]@));
                if str_equal(duplicates[d].album_id.as_str(), album.id.as_str()) {
                    assert(duplicate_views(duplicates@.take(d + 1))[d as int].album_id == album@.id);
                    present = true;
                } else {
                    assert(has_duplicate_entry(duplicate_views(duplicates@.take(d + 1)), album@.id) == has_duplicate_entry(prev, album@.id)) by {
                        if has_duplicate_entry(duplicate_views(duplicates@.take(d + 1)), album@.id) {
                            let w = choose|w: int| 0 <= w < d + 1 && (#[trigger] duplicate_views(duplicates@.take(d + 1))[w]).album_id == album@.id;
                            assert(w < d);
                            assert(prev[w] == duplicate_views(duplicates@.take(d + 1))[w]);
                        }
                        if has_duplicate_entry(prev, album@.id) {
                            let w = choose|w: int| 0 <= w < d && (#[trigger] prev[w]).album_id == album@.id;
                            assert(prev[w] == duplicate_views(duplicates@.take(d + 1))[w]);
                        }
                    }
                }
                d = d + 1;
            }
            assert(duplicates@.take(duplicates@.len() as int) == duplicates@);
            if !present {
                let ghost unsorted = paths@;
                let mut copied: Vec<String> = Vec::new();
                let mut q: usize = 0;
                while q < paths.len()
                    invariant
                        q <= paths@.len(),
                        copied@ == paths@.take(q as int),
                    decreases paths.len() - q,
                {
                    assert(paths@.take(q + 1) == paths@.take(q as int).push(paths@[q as int]));
                    copied.push(paths[q].clone());
                    q = q + 1;
                }
                assert(paths@.take(paths@.len() as int) == paths@);
                let sorted = sort_by_key_vec(copied);
                proof {
                    lemma_sort_map(paths@, string_view_fn(), key_of::<String>(), text_key());
                    assert(forall|x: String| #[trigger] key_of::<String>()(x) == text_key()(string_view_fn()(x)));
                }
                let ghost before = duplicates@;
                duplicates.push(DuplicateLocations { album_id: album.id.clone(), paths: sorted });
                assert(duplicate_views(duplicates@) =~= duplicate_views(before).push(duplicates@.last()@));
            }
        }
        let decision = decide_for_paths(stored, seen, &paths);
        proof {
            assert(decision@ == decision_for(av, cv, album@));
        }
        let ghost before = updates@;
        match decision {
            LocationDecision::Keep(_) => {
                kept = kept + 1;
            },
            LocationDecision::NoLocation => {},
            LocationDecision::Attach(path) => {
                updates.push(
                    LocationUpdate {
                        album_id: album.id.clone(),
                        previous_path: album.relative_path.clone(),
                        relative_path: Some(path),
                    },
                );
                assert(update_views(updates@) =~= update_views(before).push(updates@.last()@));
            },
            LocationDecision::Change(path) => {
                updates.push(
                    LocationUpdate {
                        album_id: album.id.clone(),
                        previous_path: album.relative_path.clone(),
                        relative_path: Some(path),
                    },
                );
                assert(update_views(updates@) =~= update_views(before).push(updates@.last()@));
            },
            LocationDecision::Clear => {
                updates.push(
                    LocationUpdate {
                        album_id: album.id.clone(),
                        previous_path: album.relative_path.clone(),
                        relative_path: None,
                    },
                );
                assert(update_views(updates@) =~= update_views(before).push(updates@.last()@));
            },
        }
        k = k + 1;
    }
    assert(av.take(catalog_albums@.len() as int) == av);
    let ghost u0 = updates@;
    let ghost n0 = unknown@;
    let ghost a0 = ambiguous@;
    let ghost d0 = duplicates@;
    let locations = sort_by_key_vec(updates);
    let unknown_candidates = sort_by_key_vec(unknown);
    let ambiguous_candidates = sort_by_key_vec(ambiguous);
    let duplicate_paths_by_album_id = sort_by_key_vec(duplicates);
    proof {
        assert(forall|x: LocationUpdate| #[trigger] key_of::<LocationUpdate>()(x) == update_id_key()(update_view_fn()(x)));
        lemma_sort_map(u0, update_view_fn(), key_of::<LocationUpdate>(), update_id_key());
        assert(forall|x: AlbumCandidate| #[trigger] key_of::<AlbumCandidate>()(x) == candidate_path_key()(candidate_view_fn()(x)));
        lemma_sort_map(n0, candidate_view_fn(), key_of::<AlbumCandidate>(), candidate_path_key());
        lemma_sort_map(a0, candidate_view_fn(), key_of::<AlbumCandidate>(), candidate_path_key());
        assert(forall|x: DuplicateLocations| #[trigger] key_of::<DuplicateLocations>()(x) == duplicate_id_key()(duplicate_view_fn()(x)));
        lemma_sort_map(d0, duplicate_view_fn(), key_of::<DuplicateLocations>(), duplicate_id_key());
    }
    ReconciliationPlan {
        locations,
        unchanged_locations: kept,
        unknown_candidates,
        ambiguous_candidates,
        duplicate_paths_by_album_id,
    }
}


/// A location is attached, or changed, only to the one candidate when exactly one belongs
/// to the album; a stored location is kept exactly when it was observed on disk.
pub proof fn law_location_needs_unique_candidate(
    stored: Option<Seq<char>>,
    observed: bool,
    paths: Seq<Seq<char>>,
)
    ensures
        decide_location_spec(stored, observed, paths) is Keep <==> (stored is Some && observed),
        decide_location_spec(stored, observed, paths) matches DecisionView::Attach(p) ==> paths.len()
            == 1 && p == paths[0] && stored is None,
        decide_location_spec(stored, observed, paths) matches DecisionView::Change(p) ==> paths.len()
            == 1 && p == paths[0] && stored is Some && !observed,
        decide_location_spec(stored, observed, paths) is Clear ==> stored is Some && !observed
            && paths.len() != 1,
{
}

/// Only directories that no catalog album claims are searched on Tidal: each unknown
/// candidate is one of the scanned candidates, no album records its path, and no album
/// has its identity; and no candidate is both unknown and ambiguous.
pub proof fn law_only_unclaimed_directories_are_unknown(
    albums: Seq<AlbumView>,
    cands: Seq<CandidateView>,
)
    ensures
        forall|k: int|
            0 <= k < unknown_of(albums, cands).len() ==> cands.contains(
                #[trigger] unknown_of(albums, cands)[k],
            ) && owner_of(albums, unknown_of(albums, cands)[k].relative_path) is None
                && matching_ids(albums, unknown_of(albums, cands)[k]).len() == 0,
        unknown_of(albums, cands).len() + ambiguous_of(albums, cands).len() <= cands.len(),
    decreases cands.len(),
{
    if cands.len() > 0 {
        let rest = cands.drop_last();
        law_only_unclaimed_directories_are_unknown(albums, rest);
        let u = unknown_of(albums, cands);
        let ur = unknown_of(albums, rest);
        assert forall|k: int| 0 <= k < u.len() implies cands.contains(#[trigger] u[k]) && owner_of(
            albums,
            u[k].relative_path,
        ) is None && matching_ids(albums, u[k]).len() == 0 by {
            if k < ur.len() {
                assert(u[k] == ur[k]);
                let j = choose|j: int| 0 <= j < rest.len() && rest[j] == ur[k];
                assert(cands[j] == u[k]);
            } else {
                assert(u[k] == cands.last());
                assert(cands[cands.len() - 1] == u[k]);
            }
        }
    }
}

/// No two catalog albums share an id.
pub open spec fn distinct_album_ids(albums: Seq<AlbumView>) -> bool {
    forall|i: int, j: int| 0 <= i < j < albums.len() ==> (#[trigger] albums[i]).id != (#[trigger] albums[j]).id
}

/// No two catalog albums record the same location.
pub open spec fn distinct_stored_paths(albums: Seq<AlbumView>) -> bool {
    forall|i: int, j: int|
        0 <= i < j < albums.len() && (#[trigger] albums[i]).relative_path is Some ==> albums[i].relative_path
            != (#[trigger] albums[j]).relative_path
}

/// No two candidates lie at the same path.
pub open spec fn distinct_candidate_paths(cands: Seq<CandidateView>) -> bool {
    forall|i: int, j: int|
        0 <= i < j < cands.len() ==> (#[trigger] cands[i]).relative_path != (#[trigger] cands[j]).relative_path
}

proof fn lemma_paths_for_source(albums: Seq<AlbumView>, cands: Seq<CandidateView>, id: Seq<char>, k: int)
    requires
        0 <= k < paths_for(albums, cands, id).len(),
    ensures
        exists|i: int|
            0 <= i < cands.len() && (#[trigger] cands[i]).relative_path == paths_for(albums, cands, id)[k]
                && assignment(albums, cands[i]) == Assignment::Album(id),
    decreases cands.len(),
{
    let rest = paths_for(albums, cands.drop_last(), id);
    if k < rest.len() {
        lemma_paths_for_source(albums, cands.drop_last(), id, k);
        let i = choose|i: int|
            0 <= i < cands.drop_last().len() && (#[trigger] cands.drop_last()[i]).relative_path == rest[k]
                && assignment(albums, cands.drop_last()[i]) == Assignment::Album(id);
        assert(cands[i] == cands.drop_last()[i]);
    } else {
        assert(cands[cands.len() - 1] == cands.last());
    }
}

proof fn lemma_owner_of(albums: Seq<AlbumView>, path: Seq<char>)
    ensures
        owner_of(albums, path) matches Some(id) ==> exists|i: int|
            0 <= i < albums.len() && (#[trigger] albums[i]).id == id && albums[i].relative_path == Some(path),
        (exists|i: int| 0 <= i < albums.len() && (#[trigger] albums[i]).relative_path == Some(path))
            ==> owner_of(albums, path) is Some,
    decreases albums.len(),
{
    if albums.len() > 0 {
        lemma_owner_of(albums.drop_last(), path);
        assert(albums[albums.len() - 1] == albums.last());
        if owner_of(albums, path) is Some && albums.last().relative_path != Some(path) {
            let i = choose|i: int|
                0 <= i < albums.drop_last().len() && (#[trigger] albums.drop_last()[i]).id
                    == owner_of(albums, path).unwrap() && albums.drop_last()[i].relative_path == Some(path);
            assert(albums[i] == albums.drop_last()[i]);
        }
        if exists|i: int| 0 <= i < albums.len() && (#[trigger] albums[i]).relative_path == Some(path) {
            let i = choose|i: int| 0 <= i < albums.len() && (#[trigger] albums[i]).relative_path == Some(path);
            if i < albums.len() - 1 {
                assert(albums.drop_last()[i] == albums[i]);
            }
        }
    }
}

/// Each update comes from an album of `prefix` whose decision it carries; no two come
/// from the same album.
proof fn lemma_updates_of(albums: Seq<AlbumView>, prefix: Seq<AlbumView>, cands: Seq<CandidateView>)
    requires
        distinct_album_ids(prefix),
    ensures
        forall|k: int|
            0 <= k < updates_of(albums, prefix, cands).len() ==> exists|i: int|
                0 <= i < prefix.len() && (#[trigger] updates_of(albums, prefix, cands)[k]).album_id
                    == (#[trigger] prefix[i]).id && match updates_of(albums, prefix, cands)[k].relative_path {
                    Some(p) => decision_for(albums, cands, prefix[i]) == DecisionView::Attach(p)
                        || decision_for(albums, cands, prefix[i]) == DecisionView::Change(p),
                    None => true,
                },
        forall|k: int, l: int|
            0 <= k < l < updates_of(albums, prefix, cands).len() ==> (#[trigger] updates_of(
                albums,
                prefix,
                cands,
            )[k]).album_id != (#[trigger] updates_of(albums, prefix, cands)[l]).album_id,
    decreases prefix.len(),
{
    if prefix.len() > 0 {
        let init = prefix.drop_last();
        assert(distinct_album_ids(init)) by {
            assert forall|i: int, j: int| 0 <= i < j < init.len() implies (#[trigger] init[i]).id
                != (#[trigger] init[j]).id by {
                assert(init[i] == prefix[i]);
                assert(init[j] == prefix[j]);
            }
        }
        lemma_updates_of(albums, init, cands);
        let rest = updates_of(albums, init, cands);
        let u = updates_of(albums, prefix, cands);
        let a = prefix.last();
        assert(prefix[prefix.len() - 1] == a);
        assert forall|k: int| 0 <= k < rest.len() implies exists|i: int|
            0 <= i < init.len() && (#[trigger] rest[k]).album_id == (#[trigger] init[i]).id && rest[k].album_id
                != a.id by {
            let i = choose|i: int|
                0 <= i < init.len() && (#[trigger] updates_of(albums, init, cands)[k]).album_id
                    == (#[trigger] init[i]).id && match updates_of(albums, init, cands)[k].relative_path {
                    Some(p) => decision_for(albums, cands, init[i]) == DecisionView::Attach(p)
                        || decision_for(albums, cands, init[i]) == DecisionView::Change(p),
                    None => true,
                };
            assert(init[i] == prefix[i]);
            assert(prefix[i].id != prefix[prefix.len() - 1].id);
        }
        assert forall|k: int| 0 <= k < u.len() implies exists|i: int|
            0 <= i < prefix.len() && (#[trigger] u[k]).album_id == (#[trigger] prefix[i]).id && match u[k].relative_path {
                Some(p) => decision_for(albums, cands, prefix[i]) == DecisionView::Attach(p)
                    || decision_for(albums, cands, prefix[i]) == DecisionView::Change(p),
                None => true,
            } by {
            if k < rest.len() {
                assert(u[k] == rest[k]);
                let i = choose|i: int|
                    0 <= i < init.len() && (#[trigger] updates_of(albums, init, cands)[k]).album_id
                        == (#[trigger] init[i]).id && match updates_of(albums, init, cands)[k].relative_path {
                        Some(p) => decision_for(albums, cands, init[i]) == DecisionView::Attach(p)
                            || decision_for(albums, cands, init[i]) == DecisionView::Change(p),
                        None => true,
                    };
                assert(init[i] == prefix[i]);
            } else {
                assert(u[k].album_id == prefix[prefix.len() - 1].id);
            }
        }
        assert forall|k: int, l: int| 0 <= k < l < u.len() implies (#[trigger] u[k]).album_id
            != (#[trigger] u[l]).album_id by {
            if l < rest.len() {
                assert(u[k] == rest[k]);
                assert(u[l] == rest[l]);
            } else {
                assert(u[k] == rest[k]);
                assert(u[l].album_id == a.id);
                let i = choose|i: int| 0 <= i < init.len() && (#[trigger] rest[k]).album_id == (#[trigger] init[i]).id
                    && rest[k].album_id != a.id;
            }
        }
    }
}

/// Applying a plan keeps locations unique: when album ids, stored locations and candidate
/// paths are each distinct, every location an update sets is a scanned candidate's path,
/// is no album's stored location, and is set by no other update.
pub proof fn law_new_locations_are_unique(albums: Seq<AlbumView>, cands: Seq<CandidateView>)
    requires
        distinct_album_ids(albums),
        distinct_stored_paths(albums),
        distinct_candidate_paths(cands),
    ensures
        forall|k: int|
            0 <= k < updates_of(albums, albums, cands).len() && (#[trigger] updates_of(albums, albums, cands)[k]).relative_path
                is Some ==> {
                let p = updates_of(albums, albums, cands)[k].relative_path.unwrap();
                &&& observed(cands, p)
                &&& forall|i: int| 0 <= i < albums.len() ==> (#[trigger] albums[i]).relative_path != Some(p)
                &&& forall|l: int|
                    0 <= l < updates_of(albums, albums, cands).len() && l != k ==> (#[trigger] updates_of(
                        albums,
                        albums,
                        cands,
                    )[l]).relative_path != Some(p)
            },
{
    let u = updates_of(albums, albums, cands);
    lemma_updates_of(albums, albums, cands);
    assert forall|k: int| 0 <= k < u.len() && (#[trigger] u[k]).relative_path is Some implies {
        let p = u[k].relative_path.unwrap();
        &&& observed(cands, p)
        &&& forall|i: int| 0 <= i < albums.len() ==> (#[trigger] albums[i]).relative_path != Some(p)
        &&& forall|l: int| 0 <= l < u.len() && l != k ==> (#[trigger] u[l]).relative_path != Some(p)
    } by {
        let p = u[k].relative_path.unwrap();
        let ia = choose|i: int|
            0 <= i < albums.len() && (#[trigger] u[k]).album_id == (#[trigger] albums[i]).id && match u[k].relative_path {
                Some(p) => decision_for(albums, cands, albums[i]) == DecisionView::Attach(p)
                    || decision_for(albums, cands, albums[i]) == DecisionView::Change(p),
                None => true,
            };
        let a = albums[ia];
        let paths = paths_for(albums, cands, a.id);
        law_location_needs_unique_candidate(a.relative_path, a.relative_path is Some && observed(cands, a.relative_path.unwrap()), paths);
        assert(paths.len() == 1 && paths[0] == p);
        lemma_paths_for_source(albums, cands, a.id, 0);
        let ic = choose|i: int|
            0 <= i < cands.len() && (#[trigger] cands[i]).relative_path == paths[0]
                && assignment(albums, cands[i]) == Assignment::Album(a.id);
        assert(observed(cands, p));
        assert forall|i: int| 0 <= i < albums.len() implies (#[trigger] albums[i]).relative_path != Some(p) by {
            if albums[i].relative_path == Some(p) {
                lemma_owner_of(albums, p);
                let oid = owner_of(albums, p).unwrap();
                let io = choose|j: int| 0 <= j < albums.len() && (#[trigger] albums[j]).id == oid && albums[j].relative_path == Some(p);
                if io != i {
                    if io < i {
                        assert(albums[io].relative_path != albums[i].relative_path);
                    } else {
                        assert(albums[i].relative_path != albums[io].relative_path);
                    }
                }
                assert(assignment(albums, cands[ic]) == Assignment::Album(oid));
                assert(oid == a.id);
                if io != ia {
                    if io < ia {
                        assert(albums[io].id != albums[ia].id);
                    } else {
                        assert(albums[ia].id != albums[io].id);
                    }
                }
                assert(a.relative_path == Some(p));
                assert(decision_for(albums, cands, a) is Keep);
            }
        }
        assert forall|l: int| 0 <= l < u.len() && l != k implies (#[trigger] u[l]).relative_path != Some(p) by {
            if u[l].relative_path == Some(p) {
                let ib = choose|i: int|
                    0 <= i < albums.len() && (#[trigger] u[l]).album_id == (#[trigger] albums[i]).id && match u[l].relative_path {
                        Some(q) => decision_for(albums, cands, albums[i]) == DecisionView::Attach(q)
                            || decision_for(albums, cands, albums[i]) == DecisionView::Change(q),
                        None => true,
                    };
                let b = albums[ib];
                let bpaths = paths_for(albums, cands, b.id);
                law_location_needs_unique_candidate(b.relative_path, b.relative_path is Some && observed(cands, b.relative_path.unwrap()), bpaths);
                lemma_paths_for_source(albums, cands, b.id, 0);
                let jc = choose|i: int|
                    0 <= i < cands.len() && (#[trigger] cands[i]).relative_path == bpaths[0]
                        && assignment(albums, cands[i]) == Assignment::Album(b.id);
                if jc != ic {
                    if jc < ic {
                        assert(cands[jc].relative_path != cands[ic].relative_path);
                    } else {
                        assert(cands[ic].relative_path != cands[jc].relative_path);
                    }
                }
                assert(b.id == a.id);
                if k < l {
                    assert(u[k].album_id != u[l].album_id);
                } else {
                    assert(u[l].album_id != u[k].album_id);
                }
            }
        }
    }
}

/// The elements of `s` that `f` keeps, as `f` maps them, in order.
spec fn pick<A, B>(s: Seq<A>, f: spec_fn(A) -> Option<B>) -> Seq<B>
    decreases s.len(),
{
    if s.len() == 0 {
        Seq::empty()
    } else {
        let rest = pick(s.drop_last(), f);
        match f(s.last()) {
            Some(b) => rest.push(b),
            None => rest,
        }
    }
}

proof fn lemma_pick_remove<A, B>(s: Seq<A>, f: spec_fn(A) -> Option<B>, k: int)
    requires
        0 <= k < s.len(),
    ensures
        pick(s, f).to_multiset() == match f(s[k]) {
            Some(b) => pick(s.remove(k), f).to_multiset().insert(b),
            None => pick(s.remove(k), f).to_multiset(),
        },
    decreases s.len(),
{
    broadcast use vstd::seq_lib::group_to_multiset_ensures, vstd::multiset::group_multiset_axioms;

    if k == s.len() - 1 {
        assert(s.remove(k) =~= s.drop_last());
    } else {
        let d = s.drop_last();
        lemma_pick_remove(d, f, k);
        assert(s.remove(k).drop_last() =~= d.remove(k));
        assert(s.remove(k).last() == s.last());
        assert(d[k] == s[k]);
        let m = pick(d.remove(k), f).to_multiset();
        match f(s[k]) {
            Some(b) => match f(s.last()) {
                Some(c) => {
                    assert(m.insert(b).insert(c) =~= m.insert(c).insert(b));
                },
                None => {},
            },
            None => {},
        }
    }
}

/// Picking from two orders of the same elements gives the same elements as often.
proof fn lemma_pick_permutation<A, B>(s1: Seq<A>, s2: Seq<A>, f: spec_fn(A) -> Option<B>)
    requires
        s1.to_multiset() == s2.to_multiset(),
    ensures
        pick(s1, f).to_multiset() == pick(s2, f).to_multiset(),
    decreases s1.len(),
{
    broadcast use vstd::seq_lib::group_to_multiset_ensures, vstd::multiset::group_multiset_axioms;

    assert(s1.len() == s1.to_multiset().len());
    assert(s2.len() == s2.to_multiset().len());
    if s1.len() == 0 {
        assert(s2 =~= s1);
    } else {
        let x = s1.last();
        let d1 = s1.drop_last();
        assert(s1 =~= d1.push(x));
        assert(s2.to_multiset().count(x) > 0);
        assert(s2.contains(x));
        let k = choose|k: int| 0 <= k < s2.len() && s2[k] == x;
        let r2 = s2.remove(k);
        assert(r2.to_multiset() =~= d1.to_multiset());
        lemma_pick_permutation(d1, r2, f);
        lemma_pick_remove(s2, f, k);
    }
}

/// A pick that keeps elements as they are holds only elements of `s`.
proof fn lemma_pick_within<A>(s: Seq<A>, f: spec_fn(A) -> Option<A>)
    requires
        forall|a: A| #[trigger] f(a) is Some ==> f(a) == Some(a),
    ensures
        forall|i: int| 0 <= i < pick(s, f).len() ==> s.contains(#[trigger] pick(s, f)[i]),
    decreases s.len(),
{
    if s.len() > 0 {
        let d = s.drop_last();
        lemma_pick_within(d, f);
        assert forall|i: int| 0 <= i < pick(s, f).len() implies s.contains(#[trigger] pick(s, f)[i]) by {
            if i < pick(d, f).len() {
                assert(pick(s, f)[i] == pick(d, f)[i]);
                let j = choose|j: int| 0 <= j < d.len() && d[j] == pick(d, f)[i];
                assert(s[j] == d[j]);
            } else {
                assert(pick(s, f)[i] == s[s.len() - 1]);
            }
        }
    }
}

spec fn unknown_pick(albums: Seq<AlbumView>) -> spec_fn(CandidateView) -> Option<CandidateView> {
    |c: CandidateView|
        if assignment(albums, c) is Unknown {
            Some(c)
        } else {
            None
        }
}

spec fn ambiguous_pick(albums: Seq<AlbumView>) -> spec_fn(CandidateView) -> Option<CandidateView> {
    |c: CandidateView|
        if assignment(albums, c) is Ambiguous {
            Some(c)
        } else {
            None
        }
}

spec fn paths_pick(albums: Seq<AlbumView>, id: Seq<char>) -> spec_fn(CandidateView) -> Option<
    Seq<char>,
> {
    |c: CandidateView|
        if assignment(albums, c) == Assignment::Album(id) {
            Some(c.relative_path)
        } else {
            None
        }
}

proof fn lemma_picks(albums: Seq<AlbumView>, cands: Seq<CandidateView>, id: Seq<char>)
    ensures
        unknown_of(albums, cands) == pick(cands, unknown_pick(albums)),
        ambiguous_of(albums, cands) == pick(cands, ambiguous_pick(albums)),
        paths_for(albums, cands, id) == pick(cands, paths_pick(albums, id)),
    decreases cands.len(),
{
    if cands.len() > 0 {
        lemma_picks(albums, cands.drop_last(), id);
    }
}

/// Two orders of the same candidates observe the same paths and give every album the
/// same candidate paths, as often; so every album gets the same decision.
proof fn lemma_decision_ignores_candidate_order(
    albums: Seq<AlbumView>,
    c1: Seq<CandidateView>,
    c2: Seq<CandidateView>,
    a: AlbumView,
)
    requires
        c1.to_multiset() == c2.to_multiset(),
    ensures
        paths_for(albums, c1, a.id).to_multiset() == paths_for(albums, c2, a.id).to_multiset(),
        decision_for(albums, c1, a) == decision_for(albums, c2, a),
{
    broadcast use vstd::seq_lib::group_to_multiset_ensures, vstd::multiset::group_multiset_axioms;

    lemma_picks(albums, c1, a.id);
    lemma_picks(albums, c2, a.id);
    lemma_pick_permutation(c1, c2, paths_pick(albums, a.id));
    let p1 = paths_for(albums, c1, a.id);
    let p2 = paths_for(albums, c2, a.id);
    assert(p1.len() == p1.to_multiset().len());
    assert(p2.len() == p2.to_multiset().len());
    if p1.len() == 1 {
        assert(p1.to_multiset().count(p1[0]) > 0);
        assert(p2.contains(p1[0]));
    }
    if a.relative_path is Some {
        let p = a.relative_path.unwrap();
        if observed(c1, p) {
            let i = choose|i: int| 0 <= i < c1.len() && (#[trigger] c1[i]).relative_path == p;
            assert(c1.contains(c1[i]));
            assert(c1.to_multiset().count(c1[i]) > 0);
            assert(c2.contains(c1[i]));
        }
        if observed(c2, p) {
            let i = choose|i: int| 0 <= i < c2.len() && (#[trigger] c2[i]).relative_path == p;
            assert(c2.contains(c2[i]));
            assert(c2.to_multiset().count(c2[i]) > 0);
            assert(c1.contains(c2[i]));
        }
    }
}

proof fn lemma_plan_parts_ignore_candidate_order(
    albums: Seq<AlbumView>,
    prefix: Seq<AlbumView>,
    c1: Seq<CandidateView>,
    c2: Seq<CandidateView>,
)
    requires
        c1.to_multiset() == c2.to_multiset(),
    ensures
        updates_of(albums, prefix, c1) == updates_of(albums, prefix, c2),
        kept_count(albums, prefix, c1) == kept_count(albums, prefix, c2),
        duplicates_of(albums, prefix, c1) == duplicates_of(albums, prefix, c2),
    decreases prefix.len(),
{
    broadcast use vstd::seq_lib::group_to_multiset_ensures;

    if prefix.len() > 0 {
        let a = prefix.last();
        lemma_plan_parts_ignore_candidate_order(albums, prefix.drop_last(), c1, c2);
        lemma_decision_ignores_candidate_order(albums, c1, c2, a);
        let p1 = paths_for(albums, c1, a.id);
        let p2 = paths_for(albums, c2, a.id);
        assert(p1.len() == p1.to_multiset().len());
        assert(p2.len() == p2.to_multiset().len());
        crate::sort::law_sort_orders_and_keeps_elements(p1, text_key());
        crate::sort::law_sort_orders_and_keeps_elements(p2, text_key());
        let q1 = sort_by(p1, text_key());
        crate::sort::lemma_sorted_by_unique(q1, sort_by(p2, text_key()), text_key());
    }
}

/// Sorting by path two orders of the same candidates, taken from candidates at distinct
/// paths, gives one sequence.
proof fn lemma_sorted_candidates_agree(
    cands: Seq<CandidateView>,
    x1: Seq<CandidateView>,
    x2: Seq<CandidateView>,
)
    requires
        distinct_candidate_paths(cands),
        x1.to_multiset() == x2.to_multiset(),
        forall|i: int| 0 <= i < x1.len() ==> cands.contains(#[trigger] x1[i]),
    ensures
        sort_by(x1, candidate_path_key()) == sort_by(x2, candidate_path_key()),
{
    broadcast use vstd::seq_lib::group_to_multiset_ensures;

    crate::sort::law_sort_orders_and_keeps_elements(x1, candidate_path_key());
    crate::sort::law_sort_orders_and_keeps_elements(x2, candidate_path_key());
    let y = sort_by(x1, candidate_path_key());
    assert forall|i: int, j: int|
        0 <= i < y.len() && 0 <= j < y.len() && candidate_path_key()(#[trigger] y[i])
            == candidate_path_key()(#[trigger] y[j]) implies y[i] == y[j] by {
        assert(y.to_multiset().count(y[i]) > 0);
        assert(y.to_multiset().count(y[j]) > 0);
        assert(x1.contains(y[i]));
        assert(x1.contains(y[j]));
        let a = choose|a: int| 0 <= a < x1.len() && x1[a] == y[i];
        let b = choose|b: int| 0 <= b < x1.len() && x1[b] == y[j];
        assert(cands.contains(x1[a]));
        assert(cands.contains(x1[b]));
        let ia = choose|k: int| 0 <= k < cands.len() && cands[k] == x1[a];
        let ib = choose|k: int| 0 <= k < cands.len() && cands[k] == x1[b];
        if ia < ib {
            assert(cands[ia].relative_path != cands[ib].relative_path);
        } else if ib < ia {
            assert(cands[ib].relative_path != cands[ia].relative_path);
        }
    }
    crate::sort::lemma_sorted_by_unique(y, sort_by(x2, candidate_path_key()), candidate_path_key());
}

/// The plan does not depend on the order in which the scan found the candidates: the
/// same candidates, at distinct paths, in any order give the same location updates,
/// kept count, unknown and ambiguous candidates and duplicate locations.
pub proof fn law_plan_ignores_candidate_order(
    albums: Seq<AlbumView>,
    c1: Seq<CandidateView>,
    c2: Seq<CandidateView>,
)
    requires
        c1.to_multiset() == c2.to_multiset(),
        distinct_candidate_paths(c1),
    ensures
        sort_by(updates_of(albums, albums, c1), update_id_key()) == sort_by(
            updates_of(albums, albums, c2),
            update_id_key(),
        ),
        kept_count(albums, albums, c1) == kept_count(albums, albums, c2),
        sort_by(unknown_of(albums, c1), candidate_path_key()) == sort_by(
            unknown_of(albums, c2),
            candidate_path_key(),
        ),
        sort_by(ambiguous_of(albums, c1), candidate_path_key()) == sort_by(
            ambiguous_of(albums, c2),
            candidate_path_key(),
        ),
        sort_by(duplicates_of(albums, albums, c1), duplicate_id_key()) == sort_by(
            duplicates_of(albums, albums, c2),
            duplicate_id_key(),
        ),
{
    lemma_plan_parts_ignore_candidate_order(albums, albums, c1, c2);
    let id: Seq<char> = Seq::empty();
    lemma_picks(albums, c1, id);
    lemma_picks(albums, c2, id);
    lemma_pick_permutation(c1, c2, unknown_pick(albums));
    lemma_pick_permutation(c1, c2, ambiguous_pick(albums));
    lemma_pick_within(c1, unknown_pick(albums));
    lemma_pick_within(c1, ambiguous_pick(albums));
    lemma_sorted_candidates_agree(c1, unknown_of(albums, c1), unknown_of(albums, c2));
    lemma_sorted_candidates_agree(c1, ambiguous_of(albums, c1), ambiguous_of(albums, c2));
}

/// Each element that a pick keeps is what `f` makes of some element of `s`.
proof fn lemma_pick_source<A, B>(s: Seq<A>, f: spec_fn(A) -> Option<B>)
    ensures
        forall|i: int|
            0 <= i < pick(s, f).len() ==> exists|k: int|
                0 <= k < s.len() && f(#[trigger] s[k]) == Some(#[trigger] pick(s, f)[i]),
    decreases s.len(),
{
    if s.len() > 0 {
        let d = s.drop_last();
        lemma_pick_source(d, f);
        assert forall|i: int| 0 <= i < pick(s, f).len() implies exists|k: int|
            0 <= k < s.len() && f(#[trigger] s[k]) == Some(#[trigger] pick(s, f)[i]) by {
            if i < pick(d, f).len() {
                assert(pick(s, f)[i] == pick(d, f)[i]);
                let k = choose|k: int| 0 <= k < d.len() && f(#[trigger] d[k]) == Some(pick(d, f)[i]);
                assert(s[k] == d[k]);
            } else {
                assert(f(s[s.len() - 1]) == Some(pick(s, f)[i]));
            }
        }
    }
}

proof fn lemma_pick_congruent<A, B>(s: Seq<A>, f: spec_fn(A) -> Option<B>, g: spec_fn(A) -> Option<B>)
    requires
        forall|i: int| 0 <= i < s.len() ==> f(#[trigger] s[i]) == g(s[i]),
    ensures
        pick(s, f) == pick(s, g),
    decreases s.len(),
{
    if s.len() > 0 {
        let d = s.drop_last();
        assert forall|i: int| 0 <= i < d.len() implies f(#[trigger] d[i]) == g(d[i]) by {
            assert(d[i] == s[i]);
        }
        lemma_pick_congruent(d, f, g);
        assert(f(s[s.len() - 1]) == g(s[s.len() - 1]));
    }
}

/// Sorting by a key what is picked from two orders of the same elements gives one
/// sequence, when the key of a picked value tells apart the elements it comes from.
proof fn lemma_sorted_picks_agree<A, B>(
    s1: Seq<A>,
    s2: Seq<A>,
    f: spec_fn(A) -> Option<B>,
    g: spec_fn(A) -> Option<B>,
    key: spec_fn(B) -> Seq<char>,
)
    requires
        s1.to_multiset() == s2.to_multiset(),
        forall|i: int| 0 <= i < s2.len() ==> f(#[trigger] s2[i]) == g(s2[i]),
        forall|i: int, j: int|
            0 <= i < s1.len() && 0 <= j < s1.len() && f(#[trigger] s1[i]) is Some && f(
                #[trigger] s1[j],
            ) is Some && key(f(s1[i]).unwrap()) == key(f(s1[j]).unwrap()) ==> i == j,
    ensures
        sort_by(pick(s1, f), key) == sort_by(pick(s2, g), key),
{
    broadcast use vstd::seq_lib::group_to_multiset_ensures;

    lemma_pick_permutation(s1, s2, f);
    lemma_pick_congruent(s2, f, g);
    let x = pick(s1, f);
    lemma_pick_source(s1, f);
    crate::sort::law_sort_orders_and_keeps_elements(x, key);
    crate::sort::law_sort_orders_and_keeps_elements(pick(s2, g), key);
    let y = sort_by(x, key);
    assert forall|i: int, j: int|
        0 <= i < y.len() && 0 <= j < y.len() && key(#[trigger] y[i]) == key(#[trigger] y[j]) implies y[i]
        == y[j] by {
        assert(y.to_multiset().count(y[i]) > 0);
        assert(y.to_multiset().count(y[j]) > 0);
        assert(x.contains(y[i]));
        assert(x.contains(y[j]));
        let a = choose|a: int| 0 <= a < x.len() && x[a] == y[i];
        let b = choose|b: int| 0 <= b < x.len() && x[b] == y[j];
        let k = choose|k: int| 0 <= k < s1.len() && f(#[trigger] s1[k]) == Some(x[a]);
        let l = choose|l: int| 0 <= l < s1.len() && f(#[trigger] s1[l]) == Some(x[b]);
        assert(f(s1[k]) is Some && f(s1[l]) is Some);
    }
    crate::sort::lemma_sorted_by_unique(y, sort_by(pick(s2, g), key), key);
}

proof fn lemma_owner_ignores_album_order(a1: Seq<AlbumView>, a2: Seq<AlbumView>, p: Seq<char>)
    requires
        a1.to_multiset() == a2.to_multiset(),
        distinct_stored_paths(a1),
        distinct_stored_paths(a2),
    ensures
        owner_of(a1, p) == owner_of(a2, p),
{
    broadcast use vstd::seq_lib::group_to_multiset_ensures;

    lemma_owner_of(a1, p);
    lemma_owner_of(a2, p);
    if owner_of(a1, p) is Some {
        let i = choose|i: int|
            0 <= i < a1.len() && (#[trigger] a1[i]).id == owner_of(a1, p).unwrap() && a1[i].relative_path
                == Some(p);
        assert(a1.to_multiset().count(a1[i]) > 0);
        assert(a2.contains(a1[i]));
        let j = choose|j: int| 0 <= j < a2.len() && a2[j] == a1[i];
        assert(a2[j].relative_path == Some(p));
        let jj = choose|jj: int|
            0 <= jj < a2.len() && (#[trigger] a2[jj]).id == owner_of(a2, p).unwrap() && a2[jj].relative_path
                == Some(p);
        if j < jj {
            assert(a2[j].relative_path != a2[jj].relative_path);
        } else if jj < j {
            assert(a2[jj].relative_path != a2[j].relative_path);
        }
    }
    if owner_of(a2, p) is Some {
        let j = choose|j: int|
            0 <= j < a2.len() && (#[trigger] a2[j]).id == owner_of(a2, p).unwrap() && a2[j].relative_path
                == Some(p);
        assert(a2.to_multiset().count(a2[j]) > 0);
        assert(a1.contains(a2[j]));
        let i = choose|i: int| 0 <= i < a1.len() && a1[i] == a2[j];
        assert(a1[i].relative_path == Some(p));
    }
}

spec fn match_pick(c: CandidateView) -> spec_fn(AlbumView) -> Option<Seq<char>> {
    |a: AlbumView|
        if album_matches(a, c) {
            Some(a.id)
        } else {
            None
        }
}

proof fn lemma_matching_pick(albums: Seq<AlbumView>, c: CandidateView)
    ensures
        matching_ids(albums, c) == pick(albums, match_pick(c)),
    decreases albums.len(),
{
    if albums.len() > 0 {
        lemma_matching_pick(albums.drop_last(), c);
    }
}

proof fn lemma_assignment_ignores_album_order(a1: Seq<AlbumView>, a2: Seq<AlbumView>, c: CandidateView)
    requires
        a1.to_multiset() == a2.to_multiset(),
        distinct_stored_paths(a1),
        distinct_stored_paths(a2),
    ensures
        assignment(a1, c) == assignment(a2, c),
{
    broadcast use vstd::seq_lib::group_to_multiset_ensures;

    lemma_owner_ignores_album_order(a1, a2, c.relative_path);
    lemma_matching_pick(a1, c);
    lemma_matching_pick(a2, c);
    lemma_pick_permutation(a1, a2, match_pick(c));
    let m1 = matching_ids(a1, c);
    let m2 = matching_ids(a2, c);
    assert(m1.len() == m1.to_multiset().len());
    assert(m2.len() == m2.to_multiset().len());
    if m1.len() == 1 {
        assert(m1.to_multiset().count(m1[0]) > 0);
        assert(m2.contains(m1[0]));
    }
}

proof fn lemma_candidate_parts_ignore_album_order(
    a1: Seq<AlbumView>,
    a2: Seq<AlbumView>,
    cands: Seq<CandidateView>,
    id: Seq<char>,
)
    requires
        a1.to_multiset() == a2.to_multiset(),
        distinct_stored_paths(a1),
        distinct_stored_paths(a2),
    ensures
        unknown_of(a1, cands) == unknown_of(a2, cands),
        ambiguous_of(a1, cands) == ambiguous_of(a2, cands),
        paths_for(a1, cands, id) == paths_for(a2, cands, id),
    decreases cands.len(),
{
    if cands.len() > 0 {
        lemma_candidate_parts_ignore_album_order(a1, a2, cands.drop_last(), id);
        lemma_assignment_ignores_album_order(a1, a2, cands.last());
    }
}

spec fn update_pick(albums: Seq<AlbumView>, cands: Seq<CandidateView>) -> spec_fn(AlbumView) -> Option<
    UpdateView,
> {
    |a: AlbumView|
        match decision_for(albums, cands, a) {
            DecisionView::Attach(p) => Some(
                UpdateView { album_id: a.id, previous_path: a.relative_path, relative_path: Some(p) },
            ),
            DecisionView::Change(p) => Some(
                UpdateView { album_id: a.id, previous_path: a.relative_path, relative_path: Some(p) },
            ),
            DecisionView::Clear => Some(
                UpdateView { album_id: a.id, previous_path: a.relative_path, relative_path: None },
            ),
            _ => None,
        }
}

spec fn keep_pick(albums: Seq<AlbumView>, cands: Seq<CandidateView>) -> spec_fn(AlbumView) -> Option<
    AlbumView,
> {
    |a: AlbumView|
        if decision_for(albums, cands, a) is Keep {
            Some(a)
        } else {
            None
        }
}

spec fn duplicate_pick(albums: Seq<AlbumView>, cands: Seq<CandidateView>) -> spec_fn(AlbumView) -> Option<
    DuplicateView,
> {
    |a: AlbumView|
        if paths_for(albums, cands, a.id).len() > 1 {
            Some(DuplicateView { album_id: a.id, paths: sort_by(paths_for(albums, cands, a.id), text_key()) })
        } else {
            None
        }
}

proof fn lemma_prefix_picks(albums: Seq<AlbumView>, prefix: Seq<AlbumView>, cands: Seq<CandidateView>)
    ensures
        updates_of(albums, prefix, cands) == pick(prefix, update_pick(albums, cands)),
        kept_count(albums, prefix, cands) == pick(prefix, keep_pick(albums, cands)).len(),
        distinct_album_ids(prefix) ==> duplicates_of(albums, prefix, cands) == pick(
            prefix,
            duplicate_pick(albums, cands),
        ),
    decreases prefix.len(),
{
    if prefix.len() > 0 {
        let d = prefix.drop_last();
        let id = prefix.last().id;
        lemma_prefix_picks(albums, d, cands);
        if distinct_album_ids(prefix) {
            assert forall|i: int, j: int| 0 <= i < j < d.len() implies (#[trigger] d[i]).id != (
            #[trigger] d[j]).id by {
                assert(d[i] == prefix[i] && d[j] == prefix[j]);
            }
            let rest = duplicates_of(albums, d, cands);
            lemma_pick_source(d, duplicate_pick(albums, cands));
            if has_duplicate_entry(rest, id) {
                let i = choose|i: int| 0 <= i < rest.len() && (#[trigger] rest[i]).album_id == id;
                let k = choose|k: int|
                    0 <= k < d.len() && duplicate_pick(albums, cands)(#[trigger] d[k]) == Some(rest[i]);
                assert(d[k] == prefix[k]);
                assert(prefix[prefix.len() - 1] == prefix.last());
                assert(prefix[k].id != prefix[prefix.len() - 1].id);
            }
        }
    }
}

/// Another order of albums with distinct ids and distinct stored locations has them too.
proof fn lemma_distinct_albums_permuted(a1: Seq<AlbumView>, a2: Seq<AlbumView>)
    requires
        a1.to_multiset() == a2.to_multiset(),
        distinct_album_ids(a1),
        distinct_stored_paths(a1),
    ensures
        distinct_album_ids(a2),
        distinct_stored_paths(a2),
{
    broadcast use vstd::seq_lib::group_to_multiset_ensures;

    assert(a1.no_duplicates()) by {
        assert forall|i: int, j: int| 0 <= i < a1.len() && 0 <= j < a1.len() && i != j implies a1[i]
            != a1[j] by {
            if i < j {
                assert(a1[i].id != a1[j].id);
            } else {
                assert(a1[j].id != a1[i].id);
            }
        }
    }
    a1.lemma_multiset_has_no_duplicates();
    a2.lemma_multiset_has_no_duplicates_conv();
    assert forall|i: int, j: int| 0 <= i < j < a2.len() implies (#[trigger] a2[i]).id != (
    #[trigger] a2[j]).id && (a2[i].relative_path is Some ==> a2[i].relative_path
        != a2[j].relative_path) by {
        assert(a2[i] != a2[j]);
        assert(a2.to_multiset().count(a2[i]) > 0);
        assert(a2.to_multiset().count(a2[j]) > 0);
        assert(a1.contains(a2[i]));
        assert(a1.contains(a2[j]));
        let p = choose|p: int| 0 <= p < a1.len() && a1[p] == a2[i];
        let q = choose|q: int| 0 <= q < a1.len() && a1[q] == a2[j];
        if p < q {
            assert(a1[p].id != a1[q].id);
        } else {
            assert(a1[q].id != a1[p].id);
        }
        if a2[i].relative_path is Some && a2[j].relative_path == a2[i].relative_path {
            if p < q {
                assert(a1[p].relative_path != a1[q].relative_path);
            } else {
                assert(a1[q].relative_path != a1[p].relative_path);
            }
        }
    }
}

/// The plan does not depend on the order of the catalog albums: two orders of the same
/// albums, with distinct ids and distinct stored locations, give the same location
/// updates, kept count, unknown and ambiguous candidates and duplicate locations.
pub proof fn law_plan_ignores_album_order(
    a1: Seq<AlbumView>,
    a2: Seq<AlbumView>,
    cands: Seq<CandidateView>,
)
    requires
        a1.to_multiset() == a2.to_multiset(),
        distinct_album_ids(a1),
        distinct_stored_paths(a1),
    ensures
        sort_by(updates_of(a1, a1, cands), update_id_key()) == sort_by(
            updates_of(a2, a2, cands),
            update_id_key(),
        ),
        kept_count(a1, a1, cands) == kept_count(a2, a2, cands),
        sort_by(unknown_of(a1, cands), candidate_path_key()) == sort_by(
            unknown_of(a2, cands),
            candidate_path_key(),
        ),
        sort_by(ambiguous_of(a1, cands), candidate_path_key()) == sort_by(
            ambiguous_of(a2, cands),
            candidate_path_key(),
        ),
        sort_by(duplicates_of(a1, a1, cands), duplicate_id_key()) == sort_by(
            duplicates_of(a2, a2, cands),
            duplicate_id_key(),
        ),
{
    broadcast use vstd::seq_lib::group_to_multiset_ensures;

    lemma_distinct_albums_permuted(a1, a2);
    let id: Seq<char> = Seq::empty();
    lemma_candidate_parts_ignore_album_order(a1, a2, cands, id);
    lemma_prefix_picks(a1, a1, cands);
    lemma_prefix_picks(a2, a2, cands);
    assert forall|i: int| 0 <= i < a2.len() implies update_pick(a1, cands)(#[trigger] a2[i])
        == update_pick(a2, cands)(a2[i]) && keep_pick(a1, cands)(a2[i]) == keep_pick(a2, cands)(a2[i])
        && duplicate_pick(a1, cands)(a2[i]) == duplicate_pick(a2, cands)(a2[i]) by {
        lemma_candidate_parts_ignore_album_order(a1, a2, cands, a2[i].id);
    }
    lemma_sorted_picks_agree(a1, a2, update_pick(a1, cands), update_pick(a2, cands), update_id_key());
    lemma_sorted_picks_agree(
        a1,
        a2,
        duplicate_pick(a1, cands),
        duplicate_pick(a2, cands),
        duplicate_id_key(),
    );
    lemma_pick_permutation(a1, a2, keep_pick(a1, cands));
    lemma_pick_congruent(a2, keep_pick(a1, cands), keep_pick(a2, cands));
    let k1 = pick(a1, keep_pick(a1, cands));
    let k2 = pick(a2, keep_pick(a1, cands));
    assert(k1.len() == k1.to_multiset().len());
    assert(k2.len() == k2.to_multiset().len());
}

/// The plan does not depend on the order of its inputs: the same candidates, at distinct
/// paths, and the same catalog albums, with distinct ids and distinct stored locations,
/// give the same plan in any order.
pub proof fn law_plan_ignores_input_order(
    a1: Seq<AlbumView>,
    a2: Seq<AlbumView>,
    c1: Seq<CandidateView>,
    c2: Seq<CandidateView>,
)
    requires
        a1.to_multiset() == a2.to_multiset(),
        distinct_album_ids(a1),
        distinct_stored_paths(a1),
        c1.to_multiset() == c2.to_multiset(),
        distinct_candidate_paths(c1),
    ensures
        sort_by(updates_of(a1, a1, c1), update_id_key()) == sort_by(
            updates_of(a2, a2, c2),
            update_id_key(),
        ),
        kept_count(a1, a1, c1) == kept_count(a2, a2, c2),
        sort_by(unknown_of(a1, c1), candidate_path_key()) == sort_by(
            unknown_of(a2, c2),
            candidate_path_key(),
        ),
        sort_by(ambiguous_of(a1, c1), candidate_path_key()) == sort_by(
            ambiguous_of(a2, c2),
            candidate_path_key(),
        ),
        sort_by(duplicates_of(a1, a1, c1), duplicate_id_key()) == sort_by(
            duplicates_of(a2, a2, c2),
            duplicate_id_key(),
        ),
{
    law_plan_ignores_candidate_order(a1, c1, c2);
    law_plan_ignores_album_order(a1, a2, c2);
}

/// When the elements of `s` have distinct keys and `f` keeps each element's key, what is
/// picked has distinct keys too.
proof fn lemma_pick_distinct_keys<A, B>(
    s: Seq<A>,
    f: spec_fn(A) -> Option<B>,
    key: spec_fn(B) -> Seq<char>,
    skey: spec_fn(A) -> Seq<char>,
)
    requires
        forall|a: A| #[trigger] f(a) is Some ==> key(f(a).unwrap()) == skey(a),
        forall|i: int, j: int| 0 <= i < j < s.len() ==> skey(#[trigger] s[i]) != skey(#[trigger] s[j]),
    ensures
        forall|i: int, j: int|
            0 <= i < j < pick(s, f).len() ==> key(#[trigger] pick(s, f)[i]) != key(
                #[trigger] pick(s, f)[j],
            ),
    decreases s.len(),
{
    if s.len() > 0 {
        let d = s.drop_last();
        assert forall|i: int, j: int| 0 <= i < j < d.len() implies skey(#[trigger] d[i]) != skey(
            #[trigger] d[j],
        ) by {
            assert(d[i] == s[i] && d[j] == s[j]);
        }
        lemma_pick_distinct_keys(d, f, key, skey);
        lemma_pick_source(d, f);
        let p = pick(s, f);
        let pd = pick(d, f);
        assert forall|i: int, j: int| 0 <= i < j < p.len() implies key(#[trigger] p[i]) != key(
            #[trigger] p[j],
        ) by {
            assert(p[i] == pd[i]);
            if j < pd.len() {
                assert(p[j] == pd[j]);
            } else {
                let k = choose|k: int| 0 <= k < d.len() && f(#[trigger] d[k]) == Some(pd[i]);
                assert(d[k] == s[k]);
                assert(s[s.len() - 1] == s.last());
                assert(skey(s[k]) != skey(s[s.len() - 1]));
            }
        }
    }
}

/// With distinct album ids and candidate paths, every list of the plan is strictly
/// sorted by its key, and the paths of each duplicate entry are strictly sorted.
pub proof fn law_plan_lists_are_strictly_sorted(albums: Seq<AlbumView>, cands: Seq<CandidateView>)
    requires
        distinct_album_ids(albums),
        distinct_candidate_paths(cands),
    ensures
        strictly_sorted_by(sort_by(updates_of(albums, albums, cands), update_id_key()), update_id_key()),
        strictly_sorted_by(sort_by(unknown_of(albums, cands), candidate_path_key()), candidate_path_key()),
        strictly_sorted_by(
            sort_by(ambiguous_of(albums, cands), candidate_path_key()),
            candidate_path_key(),
        ),
        strictly_sorted_by(
            sort_by(duplicates_of(albums, albums, cands), duplicate_id_key()),
            duplicate_id_key(),
        ),
        forall|k: int|
            0 <= k < sort_by(duplicates_of(albums, albums, cands), duplicate_id_key()).len()
                ==> strictly_sorted_by(
                (#[trigger] sort_by(duplicates_of(albums, albums, cands), duplicate_id_key())[k]).paths,
                text_key(),
            ),
{
    broadcast use vstd::seq_lib::group_to_multiset_ensures;

    let id: Seq<char> = Seq::empty();
    let album_id = |a: AlbumView| a.id;
    let path = |c: CandidateView| c.relative_path;
    lemma_prefix_picks(albums, albums, cands);
    lemma_picks(albums, cands, id);
    assert forall|i: int, j: int| 0 <= i < j < albums.len() implies album_id(#[trigger] albums[i])
        != album_id(#[trigger] albums[j]) by {}
    assert forall|i: int, j: int| 0 <= i < j < cands.len() implies path(#[trigger] cands[i]) != path(
        #[trigger] cands[j],
    ) by {}
    lemma_pick_distinct_keys(albums, update_pick(albums, cands), update_id_key(), album_id);
    lemma_pick_distinct_keys(albums, duplicate_pick(albums, cands), duplicate_id_key(), album_id);
    lemma_pick_distinct_keys(cands, unknown_pick(albums), candidate_path_key(), path);
    lemma_pick_distinct_keys(cands, ambiguous_pick(albums), candidate_path_key(), path);
    lemma_sort_strict(updates_of(albums, albums, cands), update_id_key());
    lemma_sort_strict(duplicates_of(albums, albums, cands), duplicate_id_key());
    lemma_sort_strict(unknown_of(albums, cands), candidate_path_key());
    lemma_sort_strict(ambiguous_of(albums, cands), candidate_path_key());
    let dups = duplicates_of(albums, albums, cands);
    let sorted = sort_by(dups, duplicate_id_key());
    crate::sort::law_sort_orders_and_keeps_elements(dups, duplicate_id_key());
    lemma_pick_source(albums, duplicate_pick(albums, cands));
    assert forall|k: int| 0 <= k < sorted.len() implies strictly_sorted_by(
        (#[trigger] sorted[k]).paths,
        text_key(),
    ) by {
        assert(sorted.to_multiset().count(sorted[k]) > 0);
        assert(dups.contains(sorted[k]));
        let m = choose|m: int| 0 <= m < dups.len() && dups[m] == sorted[k];
        let a = choose|a: int|
            0 <= a < albums.len() && duplicate_pick(albums, cands)(#[trigger] albums[a]) == Some(dups[m]);
        let aid = albums[a].id;
        lemma_picks(albums, cands, aid);
        lemma_pick_distinct_keys(cands, paths_pick(albums, aid), text_key(), path);
        lemma_sort_strict(paths_for(albums, cands, aid), text_key());
    }
}

/// Applying the plan keeps locations unique, read on the sorted list the plan returns:
/// every location an update sets is a scanned candidate's path, is no album's stored
/// location, and is set by no other update.
pub proof fn law_planned_locations_are_unique(albums: Seq<AlbumView>, cands: Seq<CandidateView>)
    requires
        distinct_album_ids(albums),
        distinct_stored_paths(albums),
        distinct_candidate_paths(cands),
    ensures
        forall|k: int|
            0 <= k < sort_by(updates_of(albums, albums, cands), update_id_key()).len() && (
            #[trigger] sort_by(updates_of(albums, albums, cands), update_id_key())[k]).relative_path
                is Some ==> {
                let u = sort_by(updates_of(albums, albums, cands), update_id_key());
                let p = u[k].relative_path.unwrap();
                &&& observed(cands, p)
                &&& forall|i: int| 0 <= i < albums.len() ==> (#[trigger] albums[i]).relative_path != Some(p)
                &&& forall|l: int| 0 <= l < u.len() && l != k ==> (#[trigger] u[l]).relative_path != Some(p)
            },
{
    broadcast use vstd::seq_lib::group_to_multiset_ensures;

    let v = updates_of(albums, albums, cands);
    let u = sort_by(v, update_id_key());
    law_new_locations_are_unique(albums, cands);
    law_plan_lists_are_strictly_sorted(albums, cands);
    crate::sort::law_sort_orders_and_keeps_elements(v, update_id_key());
    assert forall|k: int| 0 <= k < u.len() && (#[trigger] u[k]).relative_path is Some implies {
        let p = u[k].relative_path.unwrap();
        &&& observed(cands, p)
        &&& forall|i: int| 0 <= i < albums.len() ==> (#[trigger] albums[i]).relative_path != Some(p)
        &&& forall|l: int| 0 <= l < u.len() && l != k ==> (#[trigger] u[l]).relative_path != Some(p)
    } by {
        let p = u[k].relative_path.unwrap();
        assert(u.to_multiset().count(u[k]) > 0);
        assert(v.contains(u[k]));
        let a = choose|a: int| 0 <= a < v.len() && v[a] == u[k];
        assert(v[a].relative_path is Some);
        assert forall|l: int| 0 <= l < u.len() && l != k implies (#[trigger] u[l]).relative_path != Some(p) by {
            assert(u.to_multiset().count(u[l]) > 0);
            assert(v.contains(u[l]));
            let b = choose|b: int| 0 <= b < v.len() && v[b] == u[l];
            if k < l {
                assert(update_id_key()(u[k]) != update_id_key()(u[l]));
            } else {
                assert(update_id_key()(u[l]) != update_id_key()(u[k]));
            }
            assert(a != b);
            assert(v[b].relative_path != Some(p));
        }
    }
}

} // verus!
