//! Choosing which Tidal albums to offer: of the albums that share a title and release type
//! the best-ranked one is kept, ranked by explicitness, audio quality and album id.
use vstd::prelude::*;

use crate::matching::{ResolvedTidalSearchedAlbum, TidalAlbum};
use crate::text::{
    ascii_lower, chars_of, collapse_whitespace, collapse_ws, is_ascii_digit, is_ascii_text,
    digit_value, lemma_collapse_ascii, str_equal, string_of, to_lowercase, trim, trim_chars,
    unicode_lowercase,
};
use vstd::string::StringExecFns;

verus! {

/// Why a text is not a `u64`, as `str::parse` reports it.
#[derive(Clone, Copy, Debug, PartialEq, Eq, Structural)]
pub enum IntErrorKind {
    Empty,
    InvalidDigit,
    PosOverflow,
}

/// How `ParseIntError` describes each kind.
pub open spec fn int_error_text(k: IntErrorKind) -> Seq<char> {
    match k {
        IntErrorKind::Empty => "cannot parse integer from empty string"@,
        IntErrorKind::InvalidDigit => "invalid digit found in string"@,
        IntErrorKind::PosOverflow => "number too large to fit in target type"@,
    }
}

impl IntErrorKind {
    pub fn message(&self) -> (r: &'static str)
        ensures
            r@ == int_error_text(*self),
    {
        match self {
            IntErrorKind::Empty => "cannot parse integer from empty string",
            IntErrorKind::InvalidDigit => "invalid digit found in string",
            IntErrorKind::PosOverflow => "number too large to fit in target type",
        }
    }
}

/// Reads decimal digits left to right onto `acc`; the first character that is not a digit,
/// or the first digit that takes the value past `u64::MAX`, ends the reading with an error.
pub open spec fn digits_value(s: Seq<char>, acc: int) -> Result<int, IntErrorKind>
    decreases s.len(),
{
    if s.len() == 0 {
        Ok(acc)
    } else if !is_ascii_digit(s[0]) {
        Err(IntErrorKind::InvalidDigit)
    } else if acc * 10 + digit_value(s[0]) > u64::MAX {
        Err(IntErrorKind::PosOverflow)
    } else {
        digits_value(s.drop_first(), acc * 10 + digit_value(s[0]))
    }
}

/// `str::parse::<u64>`: an optional `+` and decimal digits.
pub open spec fn parse_u64_spec(s: Seq<char>) -> Result<int, IntErrorKind> {
    if s.len() == 0 {
        Err(IntErrorKind::Empty)
    } else if (s[0] == '+' || s[0] == '-') && s.len() == 1 {
        Err(IntErrorKind::InvalidDigit)
    } else if s[0] == '+' {
        digits_value(s.drop_first(), 0)
    } else {
        digits_value(s, 0)
    }
}

proof fn lemma_digits_value_bound(s: Seq<char>, acc: int)
    requires
        0 <= acc <= u64::MAX,
    ensures
        digits_value(s, acc) matches Ok(v) ==> 0 <= v <= u64::MAX,
    decreases s.len(),
{
    if s.len() > 0 && is_ascii_digit(s[0]) && acc * 10 + digit_value(s[0]) <= u64::MAX {
        lemma_digits_value_bound(s.drop_first(), acc * 10 + digit_value(s[0]));
    }
}

proof fn lemma_digits_value_skip(s: Seq<char>, i: int, acc: int)
    requires
        0 <= i < s.len(),
    ensures
        digits_value(s.skip(i), acc) == if !is_ascii_digit(s[i]) {
            Err(IntErrorKind::InvalidDigit)
        } else if acc * 10 + digit_value(s[i]) > u64::MAX {
            Err(IntErrorKind::PosOverflow)
        } else {
            digits_value(s.skip(i + 1), acc * 10 + digit_value(s[i]))
        },
{
    assert(s.skip(i).drop_first() =~= s.skip(i + 1));
    assert(s.skip(i)[0] == s[i]);
}

/// Parses a decimal `u64`, as `str::parse::<u64>` does.
pub fn parse_u64(text: &str) -> (r: Result<u64, IntErrorKind>)
    ensures
        match parse_u64_spec(text@) {
            Ok(v) => r == Ok::<u64, IntErrorKind>(v as u64) && 0 <= v <= u64::MAX,
            Err(k) => r == Err::<u64, IntErrorKind>(k),
        },
{
    let s = chars_of(text);
    if s.len() == 0 {
        return Err(IntErrorKind::Empty);
    }
    if (s[0] == '+' || s[0] == '-') && s.len() == 1 {
        return Err(IntErrorKind::InvalidDigit);
    }
    let start: usize = if s[0] == '+' {
        1
    } else {
        0
    };
    let ghost digits = s@.skip(start as int);
    assert(start == 1 ==> digits =~= s@.drop_first());
    assert(start == 0 ==> digits =~= s@);
    let mut acc: u64 = 0;
    let mut i: usize = start;
    while i < s.len()
        invariant
            start <= i <= s@.len(),
            s@ == text@,
            digits == s@.skip(start as int),
            parse_u64_spec(text@) == digits_value(digits, 0),
            digits_value(digits, 0) == digits_value(s@.skip(i as int), acc as int),
        decreases s.len() - i,
    {
        proof {
            lemma_digits_value_skip(s@, i as int, acc as int);
        }
        let c = s[i];
        if !('0' <= c && c <= '9') {
            return Err(IntErrorKind::InvalidDigit);
        }
        let d = (c as u32 - '0' as u32) as u64;
        assert(d == digit_value(c));
        if acc > (u64::MAX - d) / 10 {
            assert(acc * 10 + d > u64::MAX) by (nonlinear_arith)
                requires acc > (u64::MAX - d) / 10, d <= 9;
            return Err(IntErrorKind::PosOverflow);
        }
        assert(acc * 10 + d <= u64::MAX) by (nonlinear_arith)
            requires acc <= (u64::MAX - d) / 10, d <= 9;
        acc = acc * 10 + d;
        i = i + 1;
    }
    assert(s@.skip(s@.len() as int) =~= Seq::<char>::empty());
    proof {
        lemma_digits_value_bound(digits, 0);
    }
    Ok(acc)
}

/// How an album's explicitness ranks: explicit above unknown above clean.
pub open spec fn explicitness_rank(explicit: Option<bool>) -> u8 {
    match explicit {
        Some(true) => 2,
        None => 1,
        Some(false) => 0,
    }
}

/// How a media tag ranks: hi-res above lossless above Dolby Atmos above anything else.
pub open spec fn tag_rank(tag: Seq<char>) -> u8 {
    if tag == "HIRES_LOSSLESS"@ {
        3
    } else if tag == "LOSSLESS"@ {
        2
    } else if tag == "DOLBY_ATMOS"@ {
        1
    } else {
        0
    }
}

/// The best rank among the tags, 0 without tags.
pub open spec fn quality_rank(tags: Seq<String>) -> u8
    decreases tags.len(),
{
    if tags.len() == 0 {
        0
    } else {
        let rest = quality_rank(tags.drop_last());
        let t = tag_rank(tags.last()@);
        if t > rest {
            t
        } else {
            rest
        }
    }
}

pub open spec fn album_tags(album: TidalAlbum) -> Seq<String> {
    match album.media_tags {
        Some(t) => t@,
        None => Seq::empty(),
    }
}

/// An album's rank, compared lexicographically: explicitness, quality, numeric album id.
pub type Rank = (u8, u8, u64);

/// The rank of an album, or why its id is not a number.
pub open spec fn rank_of(album: TidalAlbum) -> Result<Rank, IntErrorKind> {
    match parse_u64_spec(album.id@) {
        Ok(id) => Ok((explicitness_rank(album.explicit), quality_rank(album_tags(album)), id as u64)),
        Err(k) => Err(k),
    }
}

/// Whether rank `a` is strictly above rank `b`, in lexicographic order.
pub open spec fn rank_above(a: Rank, b: Rank) -> bool {
    a.0 > b.0 || (a.0 == b.0 && (a.1 > b.1 || (a.1 == b.1 && a.2 > b.2)))
}

fn rank_gt(a: Rank, b: Rank) -> (r: bool)
    ensures
        r == rank_above(a, b),
{
    a.0 > b.0 || (a.0 == b.0 && (a.1 > b.1 || (a.1 == b.1 && a.2 > b.2)))
}

fn tag_rank_exec(tag: &String) -> (r: u8)
    ensures
        r == tag_rank(tag@),
{
    if str_equal(tag.as_str(), "HIRES_LOSSLESS") {
        3
    } else if str_equal(tag.as_str(), "LOSSLESS") {
        2
    } else if str_equal(tag.as_str(), "DOLBY_ATMOS") {
        1
    } else {
        0
    }
}

fn quality_rank_exec(tags: &Option<Vec<String>>) -> (r: u8)
    ensures
        r == quality_rank(
            match tags {
                Some(t) => t@,
                None => Seq::empty(),
            },
        ),
{
    match tags {
        None => 0,
        Some(t) => {
            let mut best: u8 = 0;
            let mut i: usize = 0;
            while i < t.len()
                invariant
                    i <= t@.len(),
                    best == quality_rank(t@.take(i as int)),
                decreases t.len() - i,
            {
                assert(t@.take(i + 1).drop_last() =~= t@.take(i as int));
                let r = tag_rank_exec(&t[i]);
                if r > best {
                    best = r;
                }
                i = i + 1;
            }
            assert(t@.take(t@.len() as int) =~= t@);
            best
        },
    }
}

/// The rank of an album.
pub fn album_rank(album: &TidalAlbum) -> (r: Result<Rank, IntErrorKind>)
    ensures
        r == rank_of(*album),
{
    let explicitness: u8 = match album.explicit {
        Some(true) => 2,
        None => 1,
        Some(false) => 0,
    };
    let quality = quality_rank_exec(&album.media_tags);
    match parse_u64(album.id.as_str()) {
        Ok(id) => Ok((explicitness, quality, id)),
        Err(k) => Err(k),
    }
}

/// A Tidal album id that is not a number.
#[derive(Debug, Clone, PartialEq, Eq)]
pub struct InvalidAlbumId {
    pub album_id: String,
    pub source: IntErrorKind,
}

impl InvalidAlbumId {
    pub fn message(&self) -> (r: String)
        ensures
            r@ == "Invalid numeric Tidal album ID "@ + self.album_id@ + ": "@ + int_error_text(self.source),
    {
        let mut m = "Invalid numeric Tidal album ID ".to_owned();
        m.append(self.album_id.as_str());
        m.append(": ");
        m.append(self.source.message());
        m
    }
}

/// The rank of a candidate album, or the album id that is not a number.
pub fn candidate_rank(album: &TidalAlbum) -> (r: Result<Rank, InvalidAlbumId>)
    ensures
        match rank_of(*album) {
            Ok(k) => r == Ok::<Rank, InvalidAlbumId>(k),
            Err(e) => r matches Err(err) && err.album_id@ == album.id@ && err.source == e,
        },
{
    match album_rank(album) {
        Ok(k) => Ok(k),
        Err(e) => Err(InvalidAlbumId { album_id: album.id.clone(), source: e }),
    }
}

/// The rank of an album offered for discovery; an id that is not a number is a bad
/// answer from Tidal (502).
pub fn discovery_rank(album: &TidalAlbum) -> (r: Result<Rank, u16>)
    ensures
        match rank_of(*album) {
            Ok(k) => r == Ok::<Rank, u16>(k),
            Err(_) => r == Err::<Rank, u16>(502),
        },
{
    match album_rank(album) {
        Ok(k) => Ok(k),
        Err(_) => Err(502),
    }
}

/// The identity under which albums count as editions of one release: the title with
/// whitespace runs collapsed to single spaces, lowercased, and the release type.
#[derive(Debug, Clone, PartialEq, Eq)]
pub struct AlbumIdentity {
    pub normalized_title: String,
    pub release_type: String,
}

pub open spec fn identity_key(title: Seq<char>, release_type: Seq<char>) -> (Seq<char>, Seq<char>) {
    (unicode_lowercase(collapse_ws(title)), release_type)
}

impl AlbumIdentity {
    pub fn new(title: &str, release_type: &str) -> (r: AlbumIdentity)
        ensures
            (r.normalized_title@, r.release_type@) == identity_key(title@, release_type@),
            is_ascii_text(title@) ==> r.normalized_title@ == ascii_lower(collapse_ws(title@)),
    {
        let chars = chars_of(title);
        let collapsed = string_of(&collapse_whitespace(&chars));
        proof {
            if is_ascii_text(title@) {
                lemma_collapse_ascii(title@);
            }
        }
        AlbumIdentity {
            normalized_title: to_lowercase(collapsed.as_str()),
            release_type: release_type.to_owned(),
        }
    }

    pub fn of_album(album: &TidalAlbum) -> (r: AlbumIdentity)
        ensures
            (r.normalized_title@, r.release_type@) == identity_key(album.title@, album.album_type@),
            is_ascii_text(album.title@) ==> r.normalized_title@ == ascii_lower(
                collapse_ws(album.title@),
            ),
    {
        AlbumIdentity::new(album.title.as_str(), album.album_type.as_str())
    }
}

/// The key under which discovery treats albums as the same: the trimmed, lowercased title
/// and the release type.
pub open spec fn discovery_key(album: TidalAlbum) -> (Seq<char>, Seq<char>) {
    (unicode_lowercase(trim(album.title@)), album.album_type@)
}

fn discovery_key_exec(album: &TidalAlbum) -> (r: (String, String))
    ensures
        (r.0@, r.1@) == discovery_key(*album),
{
    let chars = chars_of(album.title.as_str());
    let trimmed = string_of(&trim_chars(&chars));
    (to_lowercase(trimmed.as_str()), album.album_type.clone())
}

/// An album with its key and rank.
pub struct Ranked {
    pub album: TidalAlbum,
    pub key: (String, String),
    pub rank: Rank,
}

pub open spec fn key_view(k: (String, String)) -> (Seq<char>, Seq<char>) {
    (k.0@, k.1@)
}

/// The first index of `x` in `s`, or -1.
pub open spec fn first_index<T>(s: Seq<T>, x: T) -> int
    decreases s.len(),
{
    if s.len() == 0 {
        -1
    } else if s.last() == x && first_index(s.drop_last(), x) < 0 {
        s.len() - 1
    } else {
        first_index(s.drop_last(), x)
    }
}

proof fn lemma_first_index<T>(s: Seq<T>, x: T, i: int)
    requires
        -1 <= i < s.len(),
        0 <= i ==> s[i] == x,
        forall|j: int| 0 <= j < (if i < 0 { s.len() as int } else { i }) ==> s[j] != x,
    ensures
        first_index(s, x) == i,
    decreases s.len(),
{
    if s.len() > 0 {
        if i == s.len() - 1 {
            lemma_first_index(s.drop_last(), x, -1);
        } else {
            lemma_first_index(s.drop_last(), x, i);
        }
    }
}

/// Of the albums sharing a key, keeps the first one seen unless a later one ranks
/// strictly higher, in which case it takes that place; returns the kept albums, their
/// keys and ranks.
pub open spec fn keep_best(
    s: Seq<(TidalAlbum, (Seq<char>, Seq<char>), Rank)>,
) -> (Seq<TidalAlbum>, Seq<(Seq<char>, Seq<char>)>, Seq<Rank>)
    decreases s.len(),
{
    if s.len() == 0 {
        (Seq::empty(), Seq::empty(), Seq::empty())
    } else {
        let (albums, keys, ranks) = keep_best(s.drop_last());
        let (album, key, rank) = s.last();
        let i = first_index(keys, key);
        if i >= 0 {
            if rank_above(rank, ranks[i]) {
                (albums.update(i, album), keys, ranks.update(i, rank))
            } else {
                (albums, keys, ranks)
            }
        } else {
            (albums.push(album), keys.push(key), ranks.push(rank))
        }
    }
}

pub open spec fn ranked_view(r: Ranked) -> (TidalAlbum, (Seq<char>, Seq<char>), Rank) {
    (r.album, key_view(r.key), r.rank)
}

proof fn lemma_keep_best_lens(s: Seq<(TidalAlbum, (Seq<char>, Seq<char>), Rank)>)
    ensures
        keep_best(s).0.len() == keep_best(s).1.len(),
        keep_best(s).1.len() == keep_best(s).2.len(),
    decreases s.len(),
{
    if s.len() > 0 {
        lemma_keep_best_lens(s.drop_last());
        let (albums, keys, ranks) = keep_best(s.drop_last());
        let i = first_index(keys, s.last().1);
        if i >= 0 {
            lemma_first_index_range(keys, s.last().1);
        }
    }
}

proof fn lemma_first_index_range<T>(s: Seq<T>, x: T)
    ensures
        -1 <= first_index(s, x) < s.len(),
        first_index(s, x) >= 0 ==> s[first_index(s, x)] == x,
        first_index(s, x) < 0 ==> forall|j: int| 0 <= j < s.len() ==> s[j] != x,
    decreases s.len(),
{
    if s.len() > 0 {
        lemma_first_index_range(s.drop_last(), x);
        assert forall|j: int| 0 <= j < s.drop_last().len() implies s.drop_last()[j] == s[j] by {}
    }
}

fn find_key(keys: &Vec<(String, String)>, key: &(String, String)) -> (r: Option<usize>)
    ensures
        match r {
            Some(i) => first_index(keys@.map_values(|k: (String, String)| key_view(k)), key_view(*key))
                == i as int,
            None => first_index(keys@.map_values(|k: (String, String)| key_view(k)), key_view(*key))
                < 0,
        },
{
    let ghost ks = keys@.map_values(|k: (String, String)| key_view(k));
    let mut i: usize = 0;
    while i < keys.len()
        invariant
            i <= keys@.len(),
            ks == keys@.map_values(|k: (String, String)| key_view(k)),
            forall|j: int| 0 <= j < i ==> ks[j] != key_view(*key),
        decreases keys.len() - i,
    {
        if str_equal(keys[i].0.as_str(), key.0.as_str()) && str_equal(keys[i].1.as_str(), key.1.as_str()) {
            proof {
                assert(ks[i as int] == key_view(*key));
                lemma_first_index(ks, key_view(*key), i as int);
            }
            return Some(i);
        }
        i = i + 1;
    }
    proof {
        lemma_first_index(ks, key_view(*key), -1);
    }
    None
}

/// Keeps the best-ranked album of each key, in the order keys first appear.
pub fn keep_best_ranked(entries: Vec<Ranked>) -> (r: Vec<TidalAlbum>)
    ensures
        r@ == keep_best(entries@.map_values(|e: Ranked| ranked_view(e))).0,
{
    let ghost all = entries@.map_values(|e: Ranked| ranked_view(e));
    let n = entries.len();
    let mut rest = entries;
    let mut rev: Vec<Ranked> = Vec::new();
    let ghost orig = rest@;
    while rest.len() > 0
        invariant
            rest@.len() + rev@.len() == n,
            orig.len() == n,
            all == orig.map_values(|e: Ranked| ranked_view(e)),
            forall|j: int| 0 <= j < rest@.len() ==> #[trigger] rest@[j] == orig[j],
            forall|j: int| 0 <= j < rev@.len() ==> #[trigger] rev@[j] == orig[n - 1 - j],
        decreases rest.len(),
    {
        let x = rest.pop().unwrap();
        rev.push(x);
    }
    let mut albums: Vec<TidalAlbum> = Vec::new();
    let mut keys: Vec<(String, String)> = Vec::new();
    let mut ranks: Vec<Rank> = Vec::new();
    let mut i: usize = 0;
    while i < n
        invariant
            i <= n,
            orig.len() == n,
            all == orig.map_values(|e: Ranked| ranked_view(e)),
            rev@.len() == n - i,
            forall|j: int| 0 <= j < rev@.len() ==> #[trigger] rev@[j] == orig[n - 1 - j],
            albums@ == keep_best(all.take(i as int)).0,
            keys@.map_values(|k: (String, String)| key_view(k)) == keep_best(all.take(i as int)).1,
            ranks@ == keep_best(all.take(i as int)).2,
        decreases n - i,
    {
        let x = rev.pop().unwrap();
        assert(x == orig[i as int]);
        assert(all.take(i + 1).drop_last() =~= all.take(i as int));
        assert(all.take(i + 1).last() == ranked_view(x));
        proof {
            lemma_keep_best_lens(all.take(i as int));
        }
        let Ranked { album, key, rank } = x;
        match find_key(&keys, &key) {
            Some(k) => {
                proof {
                    lemma_first_index_range(keys@.map_values(|k: (String, String)| key_view(k)), key_view(key));
                }
                if rank_gt(rank, ranks[k]) {
                    albums.set(k, album);
                    ranks.set(k, rank);
                }
            },
            None => {
                let ghost before = keys@;
                albums.push(album);
                keys.push(key);
                ranks.push(rank);
                assert(keys@.map_values(|k: (String, String)| key_view(k)) =~= before.map_values(
                    |k: (String, String)| key_view(k),
                ).push(key_view(key)));
            },
        }
        i = i + 1;
    }
    assert(all.take(n as int) =~= all);
    albums
}


/// The elements of `v` in reverse order, so that popping yields them first to last.
pub fn into_reversed<T>(v: Vec<T>) -> (r: Vec<T>)
    ensures
        r@.len() == v@.len(),
        forall|j: int| 0 <= j < v@.len() ==> #[trigger] r@[j] == v@[v@.len() - 1 - j],
{
    let ghost orig = v@;
    let n = v.len();
    let mut rest = v;
    let mut rev: Vec<T> = Vec::new();
    while rest.len() > 0
        invariant
            rest@.len() + rev@.len() == n,
            orig.len() == n,
            forall|j: int| 0 <= j < rest@.len() ==> #[trigger] rest@[j] == orig[j],
            forall|j: int| 0 <= j < rev@.len() ==> #[trigger] rev@[j] == orig[n - 1 - j],
        decreases rest.len(),
    {
        let x = rest.pop().unwrap();
        rev.push(x);
    }
    rev
}

/// Which key groups albums.
#[derive(Clone, Copy, Debug, PartialEq, Eq, Structural)]
pub enum KeyKind {
    /// Whitespace-collapsed lowercased title and release type.
    Identity,
    /// Trimmed lowercased title and release type.
    Discovery,
}

pub open spec fn key_for(kind: KeyKind, album: TidalAlbum) -> (Seq<char>, Seq<char>) {
    match kind {
        KeyKind::Identity => identity_key(album.title@, album.album_type@),
        KeyKind::Discovery => discovery_key(album),
    }
}

/// Every album with its key and rank, or the index of the first album whose id is not a
/// number.
pub open spec fn rank_all(s: Seq<TidalAlbum>, kind: KeyKind) -> Result<
    Seq<(TidalAlbum, (Seq<char>, Seq<char>), Rank)>,
    int,
>
    decreases s.len(),
{
    if s.len() == 0 {
        Ok(Seq::empty())
    } else {
        match rank_all(s.drop_last(), kind) {
            Err(i) => Err(i),
            Ok(entries) => match rank_of(s.last()) {
                Ok(rank) => Ok(entries.push((s.last(), key_for(kind, s.last()), rank))),
                Err(_) => Err(s.len() - 1),
            },
        }
    }
}

/// Keys and ranks every album, stopping at the first whose id is not a number.
fn rank_albums(albums: Vec<TidalAlbum>, kind: KeyKind) -> (r: Result<Vec<Ranked>, InvalidAlbumId>)
    ensures
        match rank_all(albums@, kind) {
            Ok(entries) => r matches Ok(v) && v@.map_values(|e: Ranked| ranked_view(e)) == entries,
            Err(i) => 0 <= i < albums@.len() && (r matches Err(e) && e.album_id@ == albums@[i].id@
                && rank_of(albums@[i]) == Err::<Rank, IntErrorKind>(e.source)),
        },
{
    let ghost orig = albums@;
    let n = albums.len();
    let mut rev = into_reversed(albums);
    let mut out: Vec<Ranked> = Vec::new();
    let mut i: usize = 0;
    while i < n
        invariant
            i <= n,
            orig.len() == n,
            rev@.len() == n - i,
            forall|j: int| 0 <= j < rev@.len() ==> #[trigger] rev@[j] == orig[n - 1 - j],
            orig == albums@,
            rank_all(orig.take(i as int), kind) matches Ok(entries) && out@.map_values(
                |e: Ranked| ranked_view(e),
            ) == entries,
        decreases n - i,
    {
        let album = rev.pop().unwrap();
        assert(album == orig[i as int]);
        assert(orig.take(i + 1).drop_last() =~= orig.take(i as int));
        let rank = match candidate_rank(&album) {
            Ok(k) => k,
            Err(e) => {
                proof {
                    assert(rank_of(album) is Err);
                    lemma_rank_all_prefix(orig, kind, i as int);
                    assert(rank_all(orig, kind) == Err::<Seq<(TidalAlbum, (Seq<char>, Seq<char>), Rank)>, int>(i as int));
                    assert(rank_of(orig[i as int]) == Err::<Rank, IntErrorKind>(e.source));
                    assert(e.album_id@ == orig[i as int].id@);
                }
                return Err(e);
            },
        };
        let key = match kind {
            KeyKind::Identity => {
                let id = AlbumIdentity::of_album(&album);
                (id.normalized_title, id.release_type)
            },
            KeyKind::Discovery => discovery_key_exec(&album),
        };
        let ghost before = out@;
        out.push(Ranked { album, key, rank });
        assert(out@.map_values(|e: Ranked| ranked_view(e)) =~= before.map_values(
            |e: Ranked| ranked_view(e),
        ).push((orig[i as int], key_for(kind, orig[i as int]), rank)));
        i = i + 1;
    }
    assert(orig.take(n as int) =~= orig);
    Ok(out)
}

/// When a prefix ranks and the next album does not, the whole sequence fails there.
proof fn lemma_rank_all_prefix(s: Seq<TidalAlbum>, kind: KeyKind, i: int)
    requires
        0 <= i < s.len(),
        rank_all(s.take(i), kind) is Ok,
        rank_of(s[i]) is Err,
    ensures
        rank_all(s, kind) == Err::<Seq<(TidalAlbum, (Seq<char>, Seq<char>), Rank)>, int>(i),
    decreases s.len(),
{
    if i < s.len() - 1 {
        assert(s.drop_last().take(i) =~= s.take(i));
        assert(s.drop_last()[i] == s[i]);
        lemma_rank_all_prefix(s.drop_last(), kind, i);
    } else {
        assert(s.drop_last() =~= s.take(i));
    }
}

/// Of the candidate albums of one release (same identity), keeps the best-ranked; fails
/// with the first album id that is not a number.
pub fn select_candidates(candidate_albums: Vec<TidalAlbum>) -> (r: Result<Vec<TidalAlbum>, InvalidAlbumId>)
    ensures
        match rank_all(candidate_albums@, KeyKind::Identity) {
            Ok(entries) => r matches Ok(v) && v@ == keep_best(entries).0,
            Err(i) => r matches Err(e) && e.album_id@ == candidate_albums@[i].id@ && rank_of(
                candidate_albums@[i],
            ) == Err::<Rank, IntErrorKind>(e.source),
        },
{
    match rank_albums(candidate_albums, KeyKind::Identity) {
        Ok(entries) => Ok(keep_best_ranked(entries)),
        Err(e) => Err(e),
    }
}

/// Of the albums offered for discovery that share a trimmed, lowercased title and a type,
/// keeps the best-ranked; an album id that is not a number fails with 502.
pub fn deduplicate_discovery_albums(candidate_albums: Vec<TidalAlbum>) -> (r: Result<
    Vec<TidalAlbum>,
    u16,
>)
    ensures
        match rank_all(candidate_albums@, KeyKind::Discovery) {
            Ok(entries) => r matches Ok(v) && v@ == keep_best(entries).0,
            Err(_) => r == Err::<Vec<TidalAlbum>, u16>(502),
        },
{
    match rank_albums(candidate_albums, KeyKind::Discovery) {
        Ok(entries) => Ok(keep_best_ranked(entries)),
        Err(_) => Err(502),
    }
}

/// Whether a title, trimmed and lowercased, is among the catalog titles (each trimmed and
/// lowercased).
pub open spec fn owned_title(catalog_titles: Seq<String>, title: Seq<char>) -> bool {
    exists|i: int|
        0 <= i < catalog_titles.len() && unicode_lowercase(trim((#[trigger] catalog_titles[i])@))
            == unicode_lowercase(trim(title))
}

/// The albums offered for an artist: those whose title the catalog does not already hold
/// for the artist, deduplicated.
pub fn select_discovery_albums(catalog_titles: &[String], candidate_albums: Vec<TidalAlbum>) -> (r:
    Result<Vec<TidalAlbum>, u16>)
    ensures
        ({
            let unowned = candidate_albums@.filter(
                |a: TidalAlbum| !owned_title(catalog_titles@, a.title@),
            );
            match rank_all(unowned, KeyKind::Discovery) {
                Ok(entries) => r matches Ok(v) && v@ == keep_best(entries).0,
                Err(_) => r == Err::<Vec<TidalAlbum>, u16>(502),
            }
        }),
{
    let mut normalized: Vec<String> = Vec::new();
    let mut j: usize = 0;
    while j < catalog_titles.len()
        invariant
            j <= catalog_titles@.len(),
            normalized@.len() == j,
            forall|k: int| 0 <= k < j ==> (#[trigger] normalized@[k])@ == unicode_lowercase(
                trim(catalog_titles@[k]@),
            ),
        decreases catalog_titles.len() - j,
    {
        let chars = chars_of(catalog_titles[j].as_str());
        let trimmed = string_of(&trim_chars(&chars));
        normalized.push(to_lowercase(trimmed.as_str()));
        j = j + 1;
    }
    let ghost orig = candidate_albums@;
    let ghost keep = |a: TidalAlbum| !owned_title(catalog_titles@, a.title@);
    let n = candidate_albums.len();
    let mut rev = into_reversed(candidate_albums);
    let mut unowned: Vec<TidalAlbum> = Vec::new();
    let mut i: usize = 0;
    while i < n
        invariant
            i <= n,
            orig.len() == n,
            rev@.len() == n - i,
            forall|k: int| 0 <= k < rev@.len() ==> #[trigger] rev@[k] == orig[n - 1 - k],
            normalized@.len() == catalog_titles@.len(),
            forall|k: int| 0 <= k < normalized@.len() ==> (#[trigger] normalized@[k])@ == unicode_lowercase(
                trim(catalog_titles@[k]@),
            ),
            keep == (|a: TidalAlbum| !owned_title(catalog_titles@, a.title@)),
            unowned@ == orig.take(i as int).filter(keep),
        decreases n - i,
    {
        let album = rev.pop().unwrap();
        assert(album == orig[i as int]);
        proof {
            assert(orig.take(i + 1) =~= orig.take(i as int).push(album));
            orig.take(i as int).lemma_filter_push(album, keep);
        }
        let chars = chars_of(album.title.as_str());
        let trimmed = string_of(&trim_chars(&chars));
        let key = to_lowercase(trimmed.as_str());
        let mut owned = false;
        let mut k: usize = 0;
        while k < normalized.len()
            invariant
                k <= normalized@.len(),
                normalized@.len() == catalog_titles@.len(),
                forall|m: int| 0 <= m < normalized@.len() ==> (#[trigger] normalized@[m])@
                    == unicode_lowercase(trim(catalog_titles@[m]@)),
                key@ == unicode_lowercase(trim(album.title@)),
                owned == exists|m: int| 0 <= m < k && (#[trigger] normalized@[m])@ == key@,
            decreases normalized.len() - k,
        {
            if str_equal(normalized[k].as_str(), key.as_str()) {
                owned = true;
            }
            k = k + 1;
        }
        proof {
            if owned {
                let m = choose|m: int| 0 <= m < normalized@.len() && (#[trigger] normalized@[m])@ == key@;
                assert(unicode_lowercase(trim(catalog_titles@[m]@)) == unicode_lowercase(trim(album.title@)));
            } else {
                assert forall|m: int| 0 <= m < catalog_titles@.len() implies unicode_lowercase(
                    trim((#[trigger] catalog_titles@[m])@),
                ) != unicode_lowercase(trim(album.title@)) by {
                    assert(normalized@[m]@ != key@);
                }
            }
        }
        if !owned {
            unowned.push(album);
        }
        i = i + 1;
    }
    assert(orig.take(n as int) =~= orig);
    deduplicate_discovery_albums(unowned)
}

/// An album that carries a Tidal album id.
pub trait HasAlbumId {
    spec fn album_id_view(&self) -> Seq<char>;

    fn album_id(&self) -> (r: &str)
        ensures
            r@ == self.album_id_view(),
    ;
}

impl HasAlbumId for TidalAlbum {
    open spec fn album_id_view(&self) -> Seq<char> {
        self.id@
    }

    fn album_id(&self) -> (r: &str) {
        self.id.as_str()
    }
}

impl HasAlbumId for ResolvedTidalSearchedAlbum {
    open spec fn album_id_view(&self) -> Seq<char> {
        self.id@
    }

    fn album_id(&self) -> (r: &str) {
        self.id.as_str()
    }
}

pub open spec fn in_catalog(catalog_ids: Seq<String>, id: Seq<char>) -> bool {
    exists|i: int| 0 <= i < catalog_ids.len() && (#[trigger] catalog_ids[i])@ == id
}

/// The albums whose ids the catalog does not hold, in order.
pub fn exclude_catalog_albums<T: HasAlbumId>(albums: Vec<T>, catalog_ids: &[String]) -> (r: Vec<T>)
    ensures
        r@ == albums@.filter(|a: T| !in_catalog(catalog_ids@, a.album_id_view())),
{
    let ghost orig = albums@;
    let ghost keep = |a: T| !in_catalog(catalog_ids@, a.album_id_view());
    let n = albums.len();
    let mut rev = into_reversed(albums);
    let mut kept: Vec<T> = Vec::new();
    let mut i: usize = 0;
    while i < n
        invariant
            i <= n,
            orig.len() == n,
            rev@.len() == n - i,
            forall|k: int| 0 <= k < rev@.len() ==> #[trigger] rev@[k] == orig[n - 1 - k],
            keep == (|a: T| !in_catalog(catalog_ids@, a.album_id_view())),
            kept@ == orig.take(i as int).filter(keep),
        decreases n - i,
    {
        let album = rev.pop().unwrap();
        assert(album == orig[i as int]);
        proof {
            assert(orig.take(i + 1) =~= orig.take(i as int).push(album));
            orig.take(i as int).lemma_filter_push(album, keep);
        }
        let id = album.album_id();
        let mut found = false;
        let mut k: usize = 0;
        while k < catalog_ids.len()
            invariant
                k <= catalog_ids@.len(),
                id@ == album.album_id_view(),
                found == exists|m: int| 0 <= m < k && (#[trigger] catalog_ids@[m])@ == id@,
            decreases catalog_ids.len() - k,
        {
            if str_equal(catalog_ids[k].as_str(), id) {
                found = true;
            }
            k = k + 1;
        }
        if !found {
            kept.push(album);
        }
        i = i + 1;
    }
    assert(orig.take(n as int) =~= orig);
    kept
}


/// Of the albums that share a key, one is kept, and none ranks above it: the kept keys
/// never repeat, every album's key is kept, and each kept entry is one of the albums.
pub proof fn law_best_ranked_edition_is_kept(s: Seq<(TidalAlbum, (Seq<char>, Seq<char>), Rank)>)
    ensures
        ({
            let (albums, keys, ranks) = keep_best(s);
            &&& albums.len() == keys.len() && keys.len() == ranks.len()
            &&& keys.no_duplicates()
            &&& forall|j: int| 0 <= j < s.len() ==> keys.contains(#[trigger] s[j].1)
            &&& forall|i: int|
                0 <= i < keys.len() ==> exists|j: int|
                    0 <= j < s.len() && #[trigger] s[j] == (#[trigger] albums[i], keys[i], ranks[i])
            &&& forall|i: int, j: int|
                0 <= i < keys.len() && 0 <= j < s.len() && #[trigger] s[j].1 == #[trigger] keys[i]
                    ==> !rank_above(s[j].2, ranks[i])
        }),
    decreases s.len(),
{
    lemma_keep_best_lens(s);
    if s.len() > 0 {
        let prefix = s.drop_last();
        law_best_ranked_edition_is_kept(prefix);
        lemma_keep_best_lens(prefix);
        let (albums0, keys0, ranks0) = keep_best(prefix);
        let (album, key, rank) = s.last();
        let i = first_index(keys0, key);
        lemma_first_index_range(keys0, key);
        let (albums, keys, ranks) = keep_best(s);
        assert forall|j: int| 0 <= j < prefix.len() implies #[trigger] s[j] == prefix[j] by {}
        if i >= 0 {
            assert(keys == keys0);
            assert forall|j: int| 0 <= j < s.len() implies keys.contains(#[trigger] s[j].1) by {
                if j < prefix.len() {
                    assert(keys0.contains(prefix[j].1));
                } else {
                    assert(keys[i] == key);
                }
            }
            assert forall|k: int| 0 <= k < keys.len() implies exists|j: int|
                0 <= j < s.len() && #[trigger] s[j] == (#[trigger] albums[k], keys[k], ranks[k]) by {
                if k == i && rank_above(rank, ranks0[i]) {
                    assert(s[s.len() - 1] == (albums[k], keys[k], ranks[k]));
                } else {
                    let j = choose|j: int| 0 <= j < prefix.len() && #[trigger] prefix[j] == (
                        albums0[k],
                        keys0[k],
                        ranks0[k],
                    );
                    assert(s[j] == (albums[k], keys[k], ranks[k]));
                }
            }
            assert forall|k: int, j: int|
                0 <= k < keys.len() && 0 <= j < s.len() && #[trigger] s[j].1 == #[trigger] keys[k]
                    implies !rank_above(s[j].2, ranks[k]) by {
                if j < prefix.len() {
                    assert(prefix[j].1 == keys0[k]);
                    assert(!rank_above(prefix[j].2, ranks0[k]));
                } else {
                    if k != i {
                        assert(keys0[k] != keys0[i]);
                    }
                }
            }
        } else {
            assert(keys == keys0.push(key));
            assert forall|a: int, b: int| 0 <= a < b < keys.len() implies keys[a] != keys[b] by {
                if b == keys0.len() {
                    assert(keys0[a] != key);
                }
            }
            assert forall|j: int| 0 <= j < s.len() implies keys.contains(#[trigger] s[j].1) by {
                if j < prefix.len() {
                    let k = choose|k: int| 0 <= k < keys0.len() && keys0[k] == prefix[j].1;
                    assert(keys[k] == s[j].1);
                } else {
                    assert(keys[keys0.len() as int] == key);
                }
            }
            assert forall|k: int| 0 <= k < keys.len() implies exists|j: int|
                0 <= j < s.len() && #[trigger] s[j] == (#[trigger] albums[k], keys[k], ranks[k]) by {
                if k == keys0.len() {
                    assert(s[s.len() - 1] == (albums[k], keys[k], ranks[k]));
                } else {
                    let j = choose|j: int| 0 <= j < prefix.len() && #[trigger] prefix[j] == (
                        albums0[k],
                        keys0[k],
                        ranks0[k],
                    );
                    assert(s[j] == (albums[k], keys[k], ranks[k]));
                }
            }
            assert forall|k: int, j: int|
                0 <= k < keys.len() && 0 <= j < s.len() && #[trigger] s[j].1 == #[trigger] keys[k]
                    implies !rank_above(s[j].2, ranks[k]) by {
                if j < prefix.len() {
                    if k < keys0.len() {
                        assert(prefix[j].1 == keys0[k]);
                    } else {
                        assert(keys0.contains(prefix[j].1));
                    }
                } else if k < keys0.len() {
                    assert(keys0[k] != key);
                }
            }
        }
    }
}

/// Editions are ranked by explicitness first, then by quality, then by album id: a more
/// explicit edition ranks above a less explicit one whatever their quality and ids; at equal
/// explicitness the better quality ranks above; at equal explicitness and quality the
/// higher id. The order is strict: no rank is above itself, and of two different ranks
/// exactly one is above the other.
pub proof fn law_rank_is_explicitness_then_quality_then_id(a: Rank, b: Rank)
    ensures
        a.0 > b.0 ==> rank_above(a, b),
        a.0 == b.0 && a.1 > b.1 ==> rank_above(a, b),
        a.0 == b.0 && a.1 == b.1 && a.2 > b.2 ==> rank_above(a, b),
        !rank_above(a, a),
        a != b ==> (rank_above(a, b) <==> !rank_above(b, a)),
{
}

/// Of two albums with numeric ids, an explicit one ranks above one that is not marked
/// explicit, and one of unknown explicitness above a clean one, whatever their tags and ids;
/// at equal explicitness, a hi-res lossless one ranks above one without hi-res tags.
pub proof fn law_explicit_editions_rank_first(x: TidalAlbum, y: TidalAlbum)
    requires
        rank_of(x) is Ok,
        rank_of(y) is Ok,
    ensures
        x.explicit == Some(true) && y.explicit != Some(true) ==> rank_above(
            rank_of(x)->Ok_0,
            rank_of(y)->Ok_0,
        ),
        x.explicit is None && y.explicit == Some(false) ==> rank_above(
            rank_of(x)->Ok_0,
            rank_of(y)->Ok_0,
        ),
        x.explicit == y.explicit && album_tags(x).len() > 0 && album_tags(x).last()@ == "HIRES_LOSSLESS"@
            && (forall|i: int| 0 <= i < album_tags(y).len() ==> (#[trigger] album_tags(y)[i])@
            != "HIRES_LOSSLESS"@) ==> rank_above(rank_of(x)->Ok_0, rank_of(y)->Ok_0),
{
    lemma_quality_rank_bounds(album_tags(x));
    lemma_quality_rank_bounds(album_tags(y));
}

proof fn lemma_quality_rank_bounds(tags: Seq<String>)
    ensures
        quality_rank(tags) <= 3,
        tags.len() > 0 && tags.last()@ == "HIRES_LOSSLESS"@ ==> quality_rank(tags) == 3,
        (forall|i: int| 0 <= i < tags.len() ==> (#[trigger] tags[i])@ != "HIRES_LOSSLESS"@)
            ==> quality_rank(tags) <= 2,
    decreases tags.len(),
{
    if tags.len() > 0 {
        let d = tags.drop_last();
        assert forall|i: int|
            (forall|j: int| 0 <= j < tags.len() ==> (#[trigger] tags[j])@ != "HIRES_LOSSLESS"@) && 0 <= i
                < d.len() implies (#[trigger] d[i])@ != "HIRES_LOSSLESS"@ by {
            assert(d[i] == tags[i]);
        }
        lemma_quality_rank_bounds(d);
        assert(tags[tags.len() - 1] == tags.last());
    }
}

} // verus!
