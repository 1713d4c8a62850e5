//! How catalog metadata becomes a directory name in the Music directory, and
//! which recorded locations may be removed.
use vstd::prelude::*;
use vstd::string::*;

use crate::scan::{album_directory_parts, last_open_paren};
use crate::text::{
    is_ascii_text, ascii_lower, ascii_lower_char, collapse_state, collapse_ws, lemma_ascii_lower_char,
    lemma_ascii_lower_len, lemma_ascii_lower_push, lemma_trim_end_lower, lemma_trim_start_lower, all_ascii_digits, decimal_value, digit_value, chars_of, i32_text, int_text, is_control, is_control_char, is_ws, nat_digits, str_equal, string_of,
    trim, trim_chars, trim_end, trim_start,
};

verus! {

/// The reserved child of the Music directory where downloads stage before
/// publication; it never becomes a catalog location.
pub const STAGING_DIRECTORY: &'static str = ".platen-staging";

pub open spec fn is_path_separator(c: char) -> bool {
    c == '/' || c == '\\'
}

/// Characters that most filesystems refuse in a name.
pub open spec fn is_reserved(c: char) -> bool {
    c == ':' || c == '*' || c == '?' || c == '"' || c == '<' || c == '>' || c == '|'
}

pub open spec fn separator_text() -> Seq<char> {
    seq![' ', '-', ' ']
}

pub open spec fn ends_with_separator(acc: Seq<char>) -> bool {
    acc.len() >= 3 && acc.subrange(acc.len() - 3, acc.len() as int) == separator_text()
}

/// Replaces each path separator by " - " (never twice in a row) and each reserved
/// or control character by `_`.
pub open spec fn sanitize(s: Seq<char>) -> Seq<char>
    decreases s.len(),
{
    if s.len() == 0 {
        Seq::empty()
    } else {
        let acc = sanitize(s.drop_last());
        let c = s.last();
        if is_path_separator(c) {
            if ends_with_separator(acc) {
                acc
            } else {
                acc + separator_text()
            }
        } else if is_reserved(c) || is_control(c) {
            acc.push('_')
        } else {
            acc.push(c)
        }
    }
}

/// The string without trailing spaces and dots.
pub open spec fn trim_end_space_dot(s: Seq<char>) -> Seq<char>
    decreases s.len(),
{
    if s.len() > 0 && (s.last() == ' ' || s.last() == '.') {
        trim_end_space_dot(s.drop_last())
    } else {
        s
    }
}

/// A single directory-name component for `value`, or `fallback` when nothing is left.
pub open spec fn safe_component(value: Seq<char>, fallback: Seq<char>) -> Seq<char> {
    let t = trim_end_space_dot(trim(sanitize(value)));
    if t.len() == 0 {
        fallback
    } else {
        t
    }
}

pub open spec fn unknown_artist() -> Seq<char> {
    "Unknown artist"@
}

pub open spec fn unknown_album() -> Seq<char> {
    "Unknown album"@
}

/// The album directory's name: the title component, a space and the year in parentheses.
pub open spec fn album_directory_name(title: Seq<char>, release_year: int) -> Seq<char> {
    safe_component(title, unknown_album()) + seq![' ', '('] + int_text(release_year) + seq![')']
}

/// Where an album lives below the Music directory: `artist/title (year)`.
pub open spec fn album_location_spec(
    primary_artist: Seq<char>,
    album_title: Seq<char>,
    release_year: int,
) -> Seq<char> {
    safe_component(primary_artist, unknown_artist()) + seq!['/'] + album_directory_name(
        album_title,
        release_year,
    )
}

/// The pieces of `s` between the occurrences of `sep`, as `str::split` yields them.
pub open spec fn split_on(s: Seq<char>, sep: char) -> Seq<Seq<char>>
    decreases s.len(),
{
    if s.len() == 0 {
        seq![Seq::empty()]
    } else {
        let rest = split_on(s.drop_last(), sep);
        if s.last() == sep {
            rest.push(Seq::empty())
        } else {
            rest.update(rest.len() - 1, rest.last().push(s.last()))
        }
    }
}

/// A component that removal accepts: nonempty, not `.` or `..`, not the staging
/// directory, and without `\`, NUL or `:`.
pub open spec fn removable_component(part: Seq<char>) -> bool {
    &&& part.len() > 0
    &&& part != seq!['.']
    &&& part != seq!['.', '.']
    &&& part != STAGING_DIRECTORY@
    &&& forall|i: int|
        0 <= i < part.len() ==> #[trigger] part[i] != '\\' && part[i] != '\0' && part[i] != ':'
}

/// A recorded location that removal accepts: exactly an artist and an album component.
pub open spec fn removable_location(relative_path: Seq<char>) -> bool {
    let parts = split_on(relative_path, '/');
    parts.len() == 2 && removable_component(parts[0]) && removable_component(parts[1])
}

fn sanitize_chars(value: &[char]) -> (acc: Vec<char>)
    ensures
        acc@ == sanitize(value@),
{
    let mut acc: Vec<char> = Vec::new();
    let mut i: usize = 0;
    while i < value.len()
        invariant
            i <= value@.len(),
            acc@ == sanitize(value@.take(i as int)),
        decreases value.len() - i,
    {
        assert(value@.take(i + 1).drop_last() == value@.take(i as int));
        let c = value[i];
        if c == '/' || c == '\\' {
            let n = acc.len();
            let ends = n >= 3 && acc[n - 3] == ' ' && acc[n - 2] == '-' && acc[n - 1] == ' ';
            proof {
                if n >= 3 {
                    assert(ends == (acc@.subrange(n - 3, n as int) =~= separator_text()));
                }
            }
            if !ends {
                acc.push(' ');
                acc.push('-');
                acc.push(' ');
                proof {
                    assert(acc@ =~= sanitize(value@.take(i as int)) + separator_text());
                }
            }
        } else if c == ':' || c == '*' || c == '?' || c == '"' || c == '<' || c == '>' || c
            == '|' || is_control_char(c) {
            acc.push('_');
        } else {
            acc.push(c);
        }
        i = i + 1;
    }
    assert(value@.take(value@.len() as int) == value@);
    acc
}

fn trim_end_space_dot_chars(s: Vec<char>) -> (r: Vec<char>)
    ensures
        r@ == trim_end_space_dot(s@),
{
    let mut r = s;
    while r.len() > 0 && (r[r.len() - 1] == ' ' || r[r.len() - 1] == '.')
        invariant
            trim_end_space_dot(r@) == trim_end_space_dot(s@),
        decreases r.len(),
    {
        r.pop();
    }
    r
}

/// A directory-name component for `value`: path separators become " - ", reserved and
/// control characters become `_`, surrounding whitespace and trailing spaces and dots
/// are removed, and an empty result is replaced by `fallback`.
pub fn filesystem_safe_component(value: &str, fallback: &str) -> (r: String)
    ensures
        r@ == safe_component(value@, fallback@),
{
    let chars = chars_of(value);
    let sanitized = sanitize_chars(&chars);
    let trimmed = trim_chars(&sanitized);
    let t = trim_end_space_dot_chars(trimmed);
    if t.len() == 0 {
        fallback.to_owned()
    } else {
        string_of(&t)
    }
}

/// The catalog location of an album, `artist/title (year)`, relative to the Music directory.
pub fn album_location(primary_artist: &str, album_title: &str, release_year: i32) -> (r: String)
    ensures
        r@ == album_location_spec(primary_artist@, album_title@, release_year as int),
{
    let artist = filesystem_safe_component(primary_artist, "Unknown artist");
    let title = filesystem_safe_component(album_title, "Unknown album");
    let mut out = chars_of(artist.as_str());
    out.push('/');
    let title_chars = chars_of(title.as_str());
    let year = i32_text(release_year);
    let mut i: usize = 0;
    while i < title_chars.len()
        invariant
            i <= title_chars@.len(),
            out@ == artist@ + seq!['/'] + title_chars@.take(i as int),
        decreases title_chars.len() - i,
    {
        assert(title_chars@.take(i + 1) == title_chars@.take(i as int).push(
            title_chars@[i as int],
        ));
        out.push(title_chars[i]);
        i = i + 1;
    }
    assert(title_chars@.take(title_chars@.len() as int) == title_chars@);
    out.push(' ');
    out.push('(');
    let mut j: usize = 0;
    while j < year.len()
        invariant
            j <= year@.len(),
            out@ == artist@ + seq!['/'] + title@ + seq![' ', '('] + year@.take(j as int),
        decreases year.len() - j,
    {
        assert(year@.take(j + 1) == year@.take(j as int).push(year@[j as int]));
        out.push(year[j]);
        j = j + 1;
    }
    assert(year@.take(year@.len() as int) == year@);
    out.push(')');
    assert(out@ =~= album_location_spec(primary_artist@, album_title@, release_year as int));
    string_of(&out)
}

/// Splits a string on one separator character.
pub fn split_chars(s: &[char], sep: char) -> (parts: Vec<Vec<char>>)
    ensures
        parts@.len() == split_on(s@, sep).len(),
        forall|i: int| 0 <= i < parts@.len() ==> #[trigger] parts@[i]@ == split_on(s@, sep)[i],
{
    let mut parts: Vec<Vec<char>> = Vec::new();
    parts.push(Vec::new());
    let mut i: usize = 0;
    assert(split_on(s@.take(0), sep) =~= seq![Seq::<char>::empty()]);
    while i < s.len()
        invariant
            i <= s@.len(),
            parts@.len() == split_on(s@.take(i as int), sep).len(),
            parts@.len() >= 1,
            forall|k: int|
                0 <= k < parts@.len() ==> #[trigger] parts@[k]@ == split_on(
                    s@.take(i as int),
                    sep,
                )[k],
        decreases s.len() - i,
    {
        assert(s@.take(i + 1).drop_last() == s@.take(i as int));
        let ghost before = split_on(s@.take(i as int), sep);
        proof {
            lemma_split_nonempty(s@.take(i as int), sep);
        }
        if s[i] == sep {
            parts.push(Vec::new());
        } else {
            let last = parts.len() - 1;
            let mut piece = parts.pop().unwrap();
            piece.push(s[i]);
            parts.push(piece);
            assert(parts@.len() == before.len());
            assert forall|k: int| 0 <= k < parts@.len() implies #[trigger] parts@[k]@ == split_on(
                s@.take(i + 1),
                sep,
            )[k] by {
                if k == last {
                } else {
                }
            }
        }
        i = i + 1;
    }
    assert(s@.take(s@.len() as int) == s@);
    parts
}

proof fn lemma_split_nonempty(s: Seq<char>, sep: char)
    ensures
        split_on(s, sep).len() >= 1,
    decreases s.len(),
{
    if s.len() > 0 {
        lemma_split_nonempty(s.drop_last(), sep);
    }
}

fn removable_component_exec(part: &Vec<char>) -> (r: bool)
    ensures
        r == removable_component(part@),
{
    let staging = chars_of(STAGING_DIRECTORY);
    if part.len() == 0 {
        return false;
    }
    if part.len() == 1 && part[0] == '.' {
        assert(part@ =~= seq!['.']);
        return false;
    }
    if part.len() == 2 && part[0] == '.' && part[1] == '.' {
        assert(part@ =~= seq!['.', '.']);
        return false;
    }
    proof {
        assert(part@ != seq!['.']) by {
            if part@ == seq!['.'] {
                assert(part@.len() == 1 && part@[0] == '.');
            }
        }
        assert(part@ != seq!['.', '.']) by {
            if part@ == seq!['.', '.'] {
                assert(part@.len() == 2 && part@[0] == '.' && part@[1] == '.');
            }
        }
    }
    if str_equal(string_of(part).as_str(), string_of(&staging).as_str()) {
        return false;
    }
    let mut i: usize = 0;
    while i < part.len()
        invariant
            i <= part@.len(),
            forall|j: int|
                0 <= j < i ==> #[trigger] part@[j] != '\\' && part@[j] != '\0' && part@[j] != ':',
        decreases part.len() - i,
    {
        let c = part[i];
        if c == '\\' || c == '\0' || c == ':' {
            return false;
        }
        i = i + 1;
    }
    true
}

/// Whether a recorded album location may be removed from the Music directory: exactly
/// two components, neither empty, `.`, `..` or the staging directory, and none holding
/// `\`, NUL or `:`. Accepting an artist directory or a dot component would widen the
/// scope of a destructive request.
pub fn is_removable_location(relative_path: &str) -> (r: bool)
    ensures
        r == removable_location(relative_path@),
{
    let chars = chars_of(relative_path);
    let parts = split_chars(&chars, '/');
    if parts.len() != 2 {
        return false;
    }
    removable_component_exec(&parts[0]) && removable_component_exec(&parts[1])
}


/// A character that a location component may hold.
pub open spec fn clean_char(c: char) -> bool {
    c != '/' && c != '\\' && c != '\0' && c != ':'
}

pub open spec fn all_clean(s: Seq<char>) -> bool {
    forall|i: int| 0 <= i < s.len() ==> clean_char(#[trigger] s[i])
}

proof fn lemma_sanitize_clean(s: Seq<char>)
    ensures
        all_clean(sanitize(s)),
    decreases s.len(),
{
    if s.len() > 0 {
        lemma_sanitize_clean(s.drop_last());
        let acc = sanitize(s.drop_last());
        let c = s.last();
        assert(separator_text() == seq![' ', '-', ' ']);
        assert forall|i: int| 0 <= i < sanitize(s).len() implies clean_char(#[trigger] sanitize(s)[i]) by {
            if i < acc.len() {
                assert(sanitize(s)[i] == acc[i]);
            }
        }
    }
}

proof fn lemma_trim_start_suffix(s: Seq<char>)
    ensures
        trim_start(s).len() <= s.len(),
        trim_start(s) == s.subrange(s.len() - trim_start(s).len(), s.len() as int),
    decreases s.len(),
{
    if s.len() > 0 && is_ws(s[0]) {
        lemma_trim_start_suffix(s.drop_first());
        assert(s.drop_first().subrange(
            s.drop_first().len() - trim_start(s.drop_first()).len(),
            s.drop_first().len() as int,
        ) =~= s.subrange(s.len() - trim_start(s).len(), s.len() as int));
    } else {
        assert(s.subrange(0, s.len() as int) =~= s);
    }
}

proof fn lemma_trim_end_prefix(s: Seq<char>)
    ensures
        trim_end(s).len() <= s.len(),
        trim_end(s) == s.subrange(0, trim_end(s).len() as int),
    decreases s.len(),
{
    if s.len() > 0 && is_ws(s.last()) {
        lemma_trim_end_prefix(s.drop_last());
        assert(s.drop_last().subrange(0, trim_end(s).len() as int) =~= s.subrange(
            0,
            trim_end(s).len() as int,
        ));
    } else {
        assert(s.subrange(0, s.len() as int) =~= s);
    }
}

proof fn lemma_trim_end_space_dot(s: Seq<char>)
    ensures
        trim_end_space_dot(s).len() <= s.len(),
        trim_end_space_dot(s) == s.subrange(0, trim_end_space_dot(s).len() as int),
        trim_end_space_dot(s).len() > 0 ==> trim_end_space_dot(s).last() != '.',
        trim_end_space_dot(s).len() > 0 ==> trim_end_space_dot(s).last() != ' ',
    decreases s.len(),
{
    if s.len() > 0 && (s.last() == ' ' || s.last() == '.') {
        lemma_trim_end_space_dot(s.drop_last());
        assert(s.drop_last().subrange(0, trim_end_space_dot(s).len() as int) =~= s.subrange(
            0,
            trim_end_space_dot(s).len() as int,
        ));
    } else {
        assert(s.subrange(0, s.len() as int) =~= s);
    }
}

proof fn lemma_clean_subrange(s: Seq<char>, a: int, b: int)
    requires
        all_clean(s),
        0 <= a <= b <= s.len(),
    ensures
        all_clean(s.subrange(a, b)),
{
    assert forall|i: int| 0 <= i < s.subrange(a, b).len() implies clean_char(#[trigger] s.subrange(a, b)[i]) by {
        assert(s.subrange(a, b)[i] == s[a + i]);
    }
}

/// A component made from any value is clean, nonempty, and neither `.` nor `..`, given
/// a fallback that is.
proof fn lemma_safe_component(value: Seq<char>, fallback: Seq<char>)
    requires
        all_clean(fallback),
        fallback.len() > 0,
        fallback.last() != '.',
    ensures
        all_clean(safe_component(value, fallback)),
        safe_component(value, fallback).len() > 0,
        safe_component(value, fallback).last() != '.',
{
    let z = sanitize(value);
    lemma_sanitize_clean(value);
    lemma_trim_start_suffix(z);
    let a = trim_start(z);
    lemma_clean_subrange(z, z.len() - a.len(), z.len() as int);
    lemma_trim_end_prefix(a);
    let b = trim_end(a);
    lemma_clean_subrange(a, 0, b.len() as int);
    lemma_trim_end_space_dot(b);
    let t = trim_end_space_dot(b);
    lemma_clean_subrange(b, 0, t.len() as int);
}

proof fn lemma_nat_digits(n: nat)
    ensures
        nat_digits(n).len() > 0,
        forall|i: int| 0 <= i < nat_digits(n).len() ==> '0' <= #[trigger] nat_digits(n)[i] <= '9',
    decreases n,
{
    if n >= 10 {
        lemma_nat_digits(n / 10);
        let d = (((n % 10) + 48) as u32) as char;
        assert('0' <= d <= '9');
        assert forall|i: int| 0 <= i < nat_digits(n).len() implies '0' <= #[trigger] nat_digits(n)[i] <= '9' by {
            if i < nat_digits(n / 10).len() {
                assert(nat_digits(n)[i] == nat_digits(n / 10)[i]);
            }
        }
    }
}

pub proof fn lemma_split_append(p: Seq<char>, q: Seq<char>, sep: char)
    requires
        forall|i: int| 0 <= i < q.len() ==> #[trigger] q[i] != sep,
    ensures
        split_on(p + q, sep) == split_on(p, sep).update(
            split_on(p, sep).len() - 1,
            split_on(p, sep).last() + q,
        ),
    decreases q.len(),
{
    lemma_split_nonempty(p, sep);
    if q.len() == 0 {
        assert(p + q =~= p);
        assert(split_on(p, sep).last() + q =~= split_on(p, sep).last());
        assert(split_on(p, sep).update(split_on(p, sep).len() - 1, split_on(p, sep).last())
            =~= split_on(p, sep));
    } else {
        assert forall|i: int| 0 <= i < q.drop_last().len() implies #[trigger] q.drop_last()[i]
            != sep by {
            assert(q.drop_last()[i] == q[i]);
        }
        lemma_split_append(p, q.drop_last(), sep);
        let s = p + q;
        assert(s.drop_last() =~= p + q.drop_last());
        assert(s.last() == q[q.len() - 1]);
        assert(q[q.len() - 1] != sep);
        let r = split_on(p, sep);
        let rest = split_on(s.drop_last(), sep);
        assert(rest == r.update(r.len() - 1, r.last() + q.drop_last()));
        assert(rest.len() == r.len());
        assert(rest.last() == r.last() + q.drop_last());
        assert(split_on(s, sep) == rest.update(rest.len() - 1, rest.last().push(s.last())));
        assert((r.last() + q.drop_last()).push(q.last()) =~= r.last() + q);
        assert(split_on(s, sep) =~= r.update(r.len() - 1, r.last() + q));
    }
}

/// Two pieces without `/` joined by one `/` split back into those two pieces.
proof fn lemma_split_two(a: Seq<char>, b: Seq<char>)
    requires
        forall|i: int| 0 <= i < a.len() ==> #[trigger] a[i] != '/',
        forall|i: int| 0 <= i < b.len() ==> #[trigger] b[i] != '/',
    ensures
        split_on(a + seq!['/'] + b, '/') == seq![a, b],
{
    lemma_split_append(Seq::empty(), a, '/');
    assert(Seq::<char>::empty() + a =~= a);
    assert(split_on(Seq::<char>::empty(), '/') == seq![Seq::<char>::empty()]);
    assert(split_on(a, '/') =~= seq![a]);
    assert((a + seq!['/']).drop_last() =~= a);
    assert(split_on(a + seq!['/'], '/') =~= seq![a, Seq::<char>::empty()]);
    lemma_split_append(a + seq!['/'], b, '/');
    assert(Seq::<char>::empty() + b =~= b);
    assert(split_on(a + seq!['/'] + b, '/') =~= seq![a, b]);
}

/// Every location a download is placed at is one that deletion accepts: exactly an
/// artist and an album component, neither empty, `.`, `..` nor holding `\`, NUL or `:`;
/// unless the artist's name itself becomes the staging directory's name.
pub proof fn law_album_locations_are_removable(
    primary_artist: Seq<char>,
    album_title: Seq<char>,
    release_year: int,
)
    requires
        safe_component(primary_artist, unknown_artist()) != STAGING_DIRECTORY@,
    ensures
        removable_location(album_location_spec(primary_artist, album_title, release_year)),
{
    reveal_strlit("Unknown artist");
    reveal_strlit("Unknown album");
    reveal_strlit(".platen-staging");
    assert(all_clean(unknown_artist()));
    assert(all_clean(unknown_album()));
    lemma_safe_component(primary_artist, unknown_artist());
    lemma_safe_component(album_title, unknown_album());
    let a = safe_component(primary_artist, unknown_artist());
    let t = safe_component(album_title, unknown_album());
    let digits = int_text(release_year);
    if release_year < 0 {
        lemma_nat_digits((-release_year) as nat);
    } else {
        lemma_nat_digits(release_year as nat);
    }
    assert forall|i: int| 0 <= i < digits.len() implies clean_char(#[trigger] digits[i]) by {
        if release_year < 0 {
            if i > 0 {
                assert(digits[i] == nat_digits((-release_year) as nat)[i - 1]);
            }
        }
    }
    let b = album_directory_name(album_title, release_year);
    assert(b == t + seq![' ', '('] + digits + seq![')']);
    assert forall|i: int| 0 <= i < b.len() implies clean_char(#[trigger] b[i]) by {
        if i < t.len() {
            assert(b[i] == t[i]);
        } else if i < t.len() + 2 {
        } else if i < t.len() + 2 + digits.len() {
            assert(b[i] == digits[i - t.len() - 2]);
        }
    }
    lemma_split_two(a, b);
    assert(album_location_spec(primary_artist, album_title, release_year) == a + seq!['/'] + b);
    assert(b.last() == ')');
    assert(a != seq!['.']);
    assert(a != seq!['.', '.']);
    assert(b != seq!['.']);
    assert(b != seq!['.', '.']);
    assert(b != STAGING_DIRECTORY@);
}

proof fn lemma_nat_digits_value(n: nat)
    ensures
        decimal_value(nat_digits(n)) == n,
    decreases n,
{
    if n >= 10 {
        lemma_nat_digits_value(n / 10);
        let d = (((n % 10) + 48) as u32) as char;
        assert(nat_digits(n).drop_last() =~= nat_digits(n / 10));
        assert(d as u32 == (n % 10) + 48);
        assert(nat_digits(n).last() == d);
        assert(digit_value(d) == n % 10);
        assert((n / 10) * 10 + n % 10 == n) by (nonlinear_arith);
    } else {
        let d = ((n + 48) as u32) as char;
        assert(d as u32 == n + 48);
        assert(seq![d].drop_last() =~= Seq::<char>::empty());
        assert(decimal_value(Seq::<char>::empty()) == 0);
        assert(digit_value(d) == n);
    }
}

proof fn lemma_last_open_paren(p: Seq<char>, q: Seq<char>)
    requires
        forall|i: int| 0 <= i < q.len() ==> #[trigger] q[i] != '(',
    ensures
        last_open_paren(p + seq![' ', '('] + q) == Some(p.len() as int),
    decreases q.len(),
{
    let s = p + seq![' ', '('] + q;
    if q.len() > 0 {
        assert(s[s.len() - 1] == q[q.len() - 1]);
        assert(s.drop_last() =~= p + seq![' ', '('] + q.drop_last());
        assert forall|i: int| 0 <= i < q.drop_last().len() implies #[trigger] q.drop_last()[i]
            != '(' by {
            assert(q.drop_last()[i] == q[i]);
        }
        lemma_last_open_paren(p, q.drop_last());
    } else {
        assert(s[s.len() - 2] == ' ');
        assert(s[s.len() - 1] == '(');
    }
}

/// The component that `safe_component` makes starts with a character other than
/// whitespace.
proof fn lemma_safe_component_start(value: Seq<char>, fallback: Seq<char>)
    requires
        fallback.len() > 0,
        !is_ws(fallback[0]),
    ensures
        !is_ws(safe_component(value, fallback)[0]),
{
    let a = trim_start(sanitize(value));
    lemma_trim_start_ws(sanitize(value));
    lemma_trim_end_prefix(a);
    let b = trim_end(a);
    lemma_trim_end_space_dot(b);
    let t = trim_end_space_dot(b);
    if t.len() > 0 {
        assert(t[0] == b[0]);
        assert(b[0] == a[0]);
    }
}

proof fn lemma_trim_start_ws(s: Seq<char>)
    ensures
        trim_start(s).len() > 0 ==> !is_ws(trim_start(s)[0]),
    decreases s.len(),
{
    if s.len() > 0 && is_ws(s[0]) {
        lemma_trim_start_ws(s.drop_first());
    }
}

proof fn lemma_trim_end_keeps_first(s: Seq<char>)
    requires
        s.len() > 0,
        !is_ws(s[0]),
    ensures
        trim_end(s).len() > 0,
    decreases s.len(),
{
    if s.len() > 1 && is_ws(s.last()) {
        lemma_trim_end_keeps_first(s.drop_last());
    }
}

/// A text that neither starts nor ends with whitespace is its own trim.
proof fn lemma_trim_unchanged(s: Seq<char>)
    requires
        s.len() > 0,
        !is_ws(s[0]),
        !is_ws(s.last()),
    ensures
        trim(s) == s,
{
}

/// An album placed by `album_location` with a four-digit year is read back by the scan
/// as its (trimmed) directory title and that year.
pub proof fn law_album_directory_names_read_back(album_title: Seq<char>, release_year: int)
    requires
        1000 <= release_year <= 9999,
    ensures
        album_directory_parts(album_directory_name(album_title, release_year)) == Some(
            (trim(safe_component(album_title, unknown_album())), Some(release_year)),
        ),
{
    reveal_strlit("Unknown album");
    let t = safe_component(album_title, unknown_album());
    lemma_safe_component(album_title, unknown_album());
    lemma_safe_component_start(album_title, unknown_album());
    let n = release_year as nat;
    let digits = nat_digits(n);
    assert(int_text(release_year) == digits);
    reveal_with_fuel(nat_digits, 5);
    assert(digits.len() == 4);
    lemma_nat_digits(n);
    lemma_nat_digits_value(n);
    let d = album_directory_name(album_title, release_year);
    assert(d == t + seq![' ', '('] + digits + seq![')']);
    assert(d[0] == t[0]);
    assert(d.last() == ')');
    assert(!is_ws(')'));
    lemma_trim_unchanged(d);
    let inner = d.drop_last();
    assert(inner =~= t + seq![' ', '('] + digits);
    assert forall|i: int| 0 <= i < digits.len() implies #[trigger] digits[i] != '(' by {}
    lemma_last_open_paren(t, digits);
    let k = t.len() as int;
    assert(inner.skip(k + 2) =~= digits);
    assert(inner.take(k) =~= t);
    assert(all_ascii_digits(digits));
    assert(last_open_paren(inner) == Some(k));
    assert(inner.skip(k + 2).len() == 4);
    assert(decimal_value(inner.skip(k + 2)) == release_year);
    assert(trim(d) == d);
    assert(trim(inner.take(k)) == trim(t));
    assert(trim_start(t) == t);
    lemma_trim_end_keeps_first(t);
    assert(trim(t).len() > 0);
}

/// An ASCII character that sanitizing keeps as it is.
pub open spec fn plain_ascii(c: char) -> bool {
    &&& (c as u32) < 128
    &&& !is_path_separator(c)
    &&& !is_reserved(c)
    &&& !is_control(c)
}

pub open spec fn all_plain_ascii(s: Seq<char>) -> bool {
    forall|i: int| 0 <= i < s.len() ==> plain_ascii(#[trigger] s[i])
}

proof fn lemma_sanitize_plain(s: Seq<char>)
    requires
        is_ascii_text(s),
    ensures
        all_plain_ascii(sanitize(s)),
    decreases s.len(),
{
    if s.len() > 0 {
        assert(is_ascii_text(s.drop_last())) by {
            assert forall|i: int| 0 <= i < s.drop_last().len() implies (#[trigger] s.drop_last()[i]
                as u32) < 128 by {
                assert(s.drop_last()[i] == s[i]);
            }
        }
        lemma_sanitize_plain(s.drop_last());
        let acc = sanitize(s.drop_last());
        assert(s[s.len() - 1] == s.last());
        assert forall|i: int| 0 <= i < sanitize(s).len() implies plain_ascii(#[trigger] sanitize(s)[i]) by {
            if i < acc.len() {
                assert(sanitize(s)[i] == acc[i]);
            }
        }
    }
}

proof fn lemma_sanitize_keeps_plain(s: Seq<char>)
    requires
        all_plain_ascii(s),
    ensures
        sanitize(s) == s,
    decreases s.len(),
{
    if s.len() > 0 {
        assert(all_plain_ascii(s.drop_last())) by {
            assert forall|i: int| 0 <= i < s.drop_last().len() implies plain_ascii(
                #[trigger] s.drop_last()[i],
            ) by {
                assert(s.drop_last()[i] == s[i]);
            }
        }
        lemma_sanitize_keeps_plain(s.drop_last());
        assert(plain_ascii(s[s.len() - 1]));
        assert(s.drop_last().push(s.last()) =~= s);
    }
}

proof fn lemma_plain_subrange(s: Seq<char>, a: int, b: int)
    requires
        all_plain_ascii(s),
        0 <= a <= b <= s.len(),
    ensures
        all_plain_ascii(s.subrange(a, b)),
{
    assert forall|i: int| 0 <= i < s.subrange(a, b).len() implies plain_ascii(
        #[trigger] s.subrange(a, b)[i],
    ) by {
        assert(s.subrange(a, b)[i] == s[a + i]);
    }
}

/// What the component of an ASCII value is made of, when it is not the fallback: plain
/// ASCII characters, starting and ending with neither whitespace nor, at the end, a dot.
proof fn lemma_safe_component_ascii(value: Seq<char>, fallback: Seq<char>)
    requires
        is_ascii_text(value),
        trim_end_space_dot(trim(sanitize(value))).len() > 0,
    ensures
        all_plain_ascii(safe_component(value, fallback)),
        !is_ws(safe_component(value, fallback)[0]),
        !is_ws(safe_component(value, fallback).last()),
        safe_component(value, fallback).last() != '.',
        safe_component(value, fallback).last() != ' ',
{
    let z = sanitize(value);
    lemma_sanitize_plain(value);
    lemma_trim_start_suffix(z);
    let a = trim_start(z);
    lemma_plain_subrange(z, z.len() - a.len(), z.len() as int);
    lemma_trim_start_ws(z);
    lemma_trim_end_prefix(a);
    let b = trim_end(a);
    lemma_plain_subrange(a, 0, b.len() as int);
    lemma_trim_end_space_dot(b);
    let t = trim_end_space_dot(b);
    lemma_plain_subrange(b, 0, t.len() as int);
    assert(t[0] == b[0]);
    assert(b[0] == a[0]);
    assert(t[t.len() - 1] == t.last());
    assert(plain_ascii(t[t.len() - 1]));
    let c = t.last();
    if (c as u32) == 0x20 {
        vstd::utf8::char_u32_cast(c, c as u32);
        assert((0x20u32 as char) == ' ');
        assert(c == ' ');
    }
}

/// Making a component safe a second time changes nothing, for an ASCII value and a
/// fallback that is itself safe.
pub proof fn law_safe_component_is_idempotent_on_ascii(value: Seq<char>, fallback: Seq<char>)
    requires
        is_ascii_text(value),
        safe_component(fallback, fallback) == fallback,
    ensures
        safe_component(safe_component(value, fallback), fallback) == safe_component(value, fallback),
{
    let inner = trim_end_space_dot(trim(sanitize(value)));
    if inner.len() > 0 {
        let t = safe_component(value, fallback);
        lemma_safe_component_ascii(value, fallback);
        lemma_sanitize_keeps_plain(t);
        lemma_trim_unchanged(t);
        assert(trim_end_space_dot(t) == t);
    }
}

/// An album placed by `album_location` with a four-digit year and an ASCII title is read
/// back by the scan with exactly the title its directory was named with, and the year.
pub proof fn law_ascii_album_directories_read_back_exactly(
    primary_artist: Seq<char>,
    album_title: Seq<char>,
    release_year: int,
)
    requires
        is_ascii_text(album_title),
        1000 <= release_year <= 9999,
    ensures
        split_on(album_location_spec(primary_artist, album_title, release_year), '/')[1]
            == album_directory_name(album_title, release_year),
        album_directory_parts(album_directory_name(album_title, release_year)) == Some(
            (safe_component(album_title, unknown_album()), Some(release_year)),
        ),
{
    reveal_strlit("Unknown artist");
    reveal_strlit("Unknown album");
    law_album_directory_names_read_back(album_title, release_year);
    let t = safe_component(album_title, unknown_album());
    if trim_end_space_dot(trim(sanitize(album_title))).len() > 0 {
        lemma_safe_component_ascii(album_title, unknown_album());
        lemma_trim_unchanged(t);
    } else {
        assert(t == unknown_album());
        lemma_trim_unchanged(t);
    }
    assert(all_clean(unknown_artist()));
    assert(all_clean(unknown_album()));
    lemma_safe_component(primary_artist, unknown_artist());
    lemma_safe_component(album_title, unknown_album());
    let a = safe_component(primary_artist, unknown_artist());
    let b = album_directory_name(album_title, release_year);
    let digits = int_text(release_year);
    lemma_nat_digits(release_year as nat);
    assert forall|i: int| 0 <= i < b.len() implies #[trigger] b[i] != '/' by {
        if i < t.len() {
            assert(b[i] == t[i]);
            assert(clean_char(t[i]));
        } else if i < t.len() + 2 {
        } else if i < t.len() + 2 + digits.len() {
            assert(b[i] == digits[i - t.len() - 2]);
        }
    }
    assert forall|i: int| 0 <= i < a.len() implies #[trigger] a[i] != '/' by {
        assert(clean_char(a[i]));
    }
    lemma_split_two(a, b);
    assert(album_location_spec(primary_artist, album_title, release_year) == a + seq!['/'] + b);
}

/// ASCII lowercasing keeps the characters that sanitizing and trimming look at.
proof fn lemma_lower_char_keeps(c: char)
    ensures
        is_path_separator(ascii_lower_char(c)) == is_path_separator(c),
        is_reserved(ascii_lower_char(c)) == is_reserved(c),
        is_control(ascii_lower_char(c)) == is_control(c),
        (ascii_lower_char(c) == ' ') == (c == ' '),
        (ascii_lower_char(c) == '-') == (c == '-'),
        (ascii_lower_char(c) == '.') == (c == '.'),
{
    lemma_ascii_lower_char(c);
}

proof fn lemma_lower_concat(a: Seq<char>, b: Seq<char>)
    ensures
        ascii_lower(a + b) == ascii_lower(a) + ascii_lower(b),
{
    assert(ascii_lower(a + b) =~= ascii_lower(a) + ascii_lower(b));
}

proof fn lemma_ends_with_separator_lower(acc: Seq<char>)
    ensures
        ends_with_separator(ascii_lower(acc)) == ends_with_separator(acc),
{
    lemma_ascii_lower_len(acc);
    if acc.len() >= 3 {
        let n = acc.len() as int;
        let l = ascii_lower(acc);
        lemma_lower_char_keeps(acc[n - 3]);
        lemma_lower_char_keeps(acc[n - 2]);
        lemma_lower_char_keeps(acc[n - 1]);
        assert(l.subrange(n - 3, n) =~= seq![l[n - 3], l[n - 2], l[n - 1]]);
        assert(acc.subrange(n - 3, n) =~= seq![acc[n - 3], acc[n - 2], acc[n - 1]]);
        if ends_with_separator(acc) {
            assert(acc.subrange(n - 3, n)[0] == ' ');
            assert(acc.subrange(n - 3, n)[1] == '-');
            assert(acc.subrange(n - 3, n)[2] == ' ');
            assert(l.subrange(n - 3, n) =~= separator_text());
        }
        if ends_with_separator(l) {
            assert(l.subrange(n - 3, n)[0] == ' ');
            assert(l.subrange(n - 3, n)[1] == '-');
            assert(l.subrange(n - 3, n)[2] == ' ');
            assert(acc.subrange(n - 3, n) =~= separator_text());
        }
    }
}

proof fn lemma_sanitize_lower(s: Seq<char>)
    ensures
        sanitize(ascii_lower(s)) == ascii_lower(sanitize(s)),
    decreases s.len(),
{
    lemma_ascii_lower_len(s);
    if s.len() > 0 {
        lemma_sanitize_lower(s.drop_last());
        let acc = sanitize(s.drop_last());
        let c = s.last();
        lemma_lower_char_keeps(c);
        lemma_ends_with_separator_lower(acc);
        lemma_ascii_lower_push(acc, '_');
        lemma_ascii_lower_push(acc, c);
        lemma_lower_concat(acc, separator_text());
        assert(ascii_lower(separator_text()) =~= separator_text());
    }
}

proof fn lemma_trim_end_space_dot_lower(s: Seq<char>)
    ensures
        trim_end_space_dot(ascii_lower(s)) == ascii_lower(trim_end_space_dot(s)),
    decreases s.len(),
{
    lemma_ascii_lower_len(s);
    if s.len() > 0 {
        lemma_lower_char_keeps(s.last());
        if s.last() == ' ' || s.last() == '.' {
            lemma_trim_end_space_dot_lower(s.drop_last());
        }
    }
}

/// Lowercasing a value lowercases what is left of it once it is made safe, so its
/// component is the lowercase component, or the fallback for both.
pub proof fn lemma_safe_component_lower(value: Seq<char>, fallback: Seq<char>)
    ensures
        trim_end_space_dot(trim(sanitize(ascii_lower(value)))) == ascii_lower(
            trim_end_space_dot(trim(sanitize(value))),
        ),
        trim_end_space_dot(trim(sanitize(value))).len() == 0 ==> safe_component(
            ascii_lower(value),
            fallback,
        ) == fallback && safe_component(value, fallback) == fallback,
        trim_end_space_dot(trim(sanitize(value))).len() > 0 ==> safe_component(
            ascii_lower(value),
            fallback,
        ) == ascii_lower(safe_component(value, fallback)),
{
    lemma_sanitize_lower(value);
    let z = sanitize(value);
    lemma_trim_start_lower(z);
    lemma_trim_end_lower(trim_start(z));
    lemma_trim_end_space_dot_lower(trim(z));
    lemma_ascii_lower_len(trim_end_space_dot(trim(z)));
}

/// The component of an ASCII value, with an ASCII fallback, is ASCII.
pub proof fn lemma_safe_component_is_ascii(value: Seq<char>, fallback: Seq<char>)
    requires
        is_ascii_text(value),
        is_ascii_text(fallback),
    ensures
        is_ascii_text(safe_component(value, fallback)),
{
    if trim_end_space_dot(trim(sanitize(value))).len() > 0 {
        lemma_safe_component_ascii(value, fallback);
        let t = safe_component(value, fallback);
        assert forall|i: int| 0 <= i < t.len() implies (#[trigger] t[i] as u32) < 128 by {
            assert(plain_ascii(t[i]));
        }
    }
}

/// A space put in front of `value` changes how it is made safe only when `value` starts
/// with `-`, a space and a path separator: the added space and `- ` then read as a
/// separator already written, and the path separator is not written again.
pub open spec fn leading_space_matters(value: Seq<char>) -> bool {
    value.len() >= 3 && value[0] == '-' && value[1] == ' ' && is_path_separator(value[2])
}

/// Taking out the space at `k` of the double space at `k - 1` and `k` changes how `value`
/// is made safe only when the pair stands between `-` (after a space or a path separator)
/// and a path separator: one space left after ` -` reads as a separator already written.
pub open spec fn run_space_matters(value: Seq<char>, k: int) -> bool {
    &&& 3 <= k
    &&& k + 1 < value.len()
    &&& is_path_separator(value[k + 1])
    &&& value[k - 2] == '-'
    &&& (value[k - 3] == ' ' || is_path_separator(value[k - 3]))
}

proof fn lemma_sanitize_nonempty(p: Seq<char>)
    ensures
        p.len() > 0 ==> sanitize(p).len() > 0,
        is_path_separator(p.last()) && p.len() > 0 ==> sanitize(p).len() >= 3,
{
    if p.len() > 0 {
        let acc = sanitize(p.drop_last());
        if is_path_separator(p.last()) && !ends_with_separator(acc) {
            assert((acc + separator_text()).len() == acc.len() + 3);
        }
    }
}

proof fn lemma_sanitize_last(p: Seq<char>)
    requires
        p.len() > 0,
    ensures
        sanitize(p).len() > 0,
        sanitize(p).last() == '-' ==> p.last() == '-' && sanitize(p) == sanitize(p.drop_last()).push('-'),
        sanitize(p).last() == ' ' ==> p.last() == ' ' || is_path_separator(p.last()),
        p.last() == ' ' ==> sanitize(p) == sanitize(p.drop_last()).push(' '),
{
    lemma_sanitize_nonempty(p);
    let acc = sanitize(p.drop_last());
    let c = p.last();
    assert(!is_reserved(' ') && !is_control(' '));
    if is_path_separator(c) {
        if ends_with_separator(acc) {
            assert(acc.subrange(acc.len() - 3, acc.len() as int)[2] == acc.last());
        } else {
            assert((acc + separator_text()).last() == ' ');
        }
    }
}

proof fn lemma_sanitized_dash_space(p: Seq<char>)
    requires
        sanitize(p) == seq!['-', ' '],
    ensures
        p == seq!['-', ' '],
{
    if p.len() == 0 {
        assert(sanitize(p).len() == 0);
    }
    lemma_sanitize_last(p);
    lemma_sanitize_nonempty(p);
    assert(sanitize(p).last() == ' ');
    let q = p.drop_last();
    assert(sanitize(q) =~= seq!['-']) by {
        assert(sanitize(q).push(' ') == seq!['-', ' ']);
        assert(sanitize(q) =~= sanitize(q).push(' ').drop_last());
    }
    if q.len() == 0 {
        assert(sanitize(q).len() == 0);
    }
    lemma_sanitize_last(q);
    assert(sanitize(q).last() == '-');
    lemma_sanitize_nonempty(q.drop_last());
    assert(sanitize(q.drop_last()) =~= sanitize(q).drop_last());
    assert(q.drop_last().len() == 0);
    assert(p =~= q.drop_last().push('-').push(' '));
}

proof fn lemma_take_step(v: Seq<char>, m: int)
    requires
        0 < m <= v.len(),
    ensures
        v.take(m).drop_last() == v.take(m - 1),
        v.take(m).last() == v[m - 1],
        v.take(m).len() == m,
{
    assert(v.take(m).drop_last() =~= v.take(m - 1));
}

/// Making `' ' + v` safe puts the space in front of `v` made safe, unless the space changes
/// how `v` is made safe.
proof fn lemma_sanitize_leading_space(v: Seq<char>, m: int)
    requires
        0 <= m <= v.len(),
        !leading_space_matters(v),
    ensures
        sanitize((seq![' '] + v).take(m + 1)) == seq![' '] + sanitize(v.take(m)),
    decreases m,
{
    let w = seq![' '] + v;
    assert(!is_reserved(' ') && !is_control(' ') && !is_path_separator(' '));
    if m == 0 {
        assert(w.take(1).drop_last() =~= Seq::<char>::empty());
        assert(w.take(1).last() == ' ');
        assert(v.take(0) =~= Seq::<char>::empty());
        assert(seq![' '] + Seq::<char>::empty() =~= Seq::<char>::empty().push(' '));
    } else {
        lemma_sanitize_leading_space(v, m - 1);
        lemma_take_step(w, m + 1);
        lemma_take_step(v, m);
        assert(w[m] == v[m - 1]);
        let a = sanitize(v.take(m - 1));
        let b = seq![' '] + a;
        let c = v[m - 1];
        if is_path_separator(c) {
            if a.len() >= 3 {
                assert(b.subrange(b.len() - 3, b.len() as int) =~= a.subrange(a.len() - 3, a.len() as int));
            } else if a.len() == 2 && ends_with_separator(b) {
                assert(b.subrange(0, 3) =~= b);
                assert(a =~= seq!['-', ' ']);
                lemma_sanitized_dash_space(v.take(m - 1));
                assert(v.take(m - 1)[0] == v[0] && v.take(m - 1)[1] == v[1]);
                assert(leading_space_matters(v));
            }
            assert(b + separator_text() =~= seq![' '] + (a + separator_text()));
        } else if is_reserved(c) || is_control(c) {
            assert(b.push('_') =~= seq![' '] + a.push('_'));
        } else {
            assert(b.push(c) =~= seq![' '] + a.push(c));
        }
    }
}

/// Making `v` safe with the space at `k` taken out takes out one space of a double space
/// of `v` made safe, unless that space changes how `v` is made safe.
proof fn lemma_sanitize_squeeze(v: Seq<char>, k: int, m: int)
    requires
        1 <= k,
        k + 1 <= m <= v.len(),
        v[k - 1] == ' ',
        v[k] == ' ',
        !run_space_matters(v, k),
    ensures
        ({
            let j = sanitize(v.take(k)).len() as int;
            let a = sanitize(v.take(m));
            &&& 1 <= j < a.len()
            &&& a[j - 1] == ' '
            &&& a[j] == ' '
            &&& sanitize(v.take(m).remove(k)) == a.remove(j)
            &&& m > k + 1 ==> a.len() > j + 1
        }),
    decreases m,
{
    let j = sanitize(v.take(k)).len() as int;
    assert(!is_reserved(' ') && !is_control(' ') && !is_path_separator(' '));
    lemma_take_step(v, k);
    lemma_take_step(v, k + 1);
    lemma_sanitize_last(v.take(k));
    lemma_sanitize_last(v.take(k + 1));
    if m == k + 1 {
        assert(v.take(k + 1).remove(k) =~= v.take(k));
        assert(sanitize(v.take(k + 1)).remove(j) =~= sanitize(v.take(k)));
        assert(sanitize(v.take(k + 1))[j - 1] == sanitize(v.take(k)).last());
    } else {
        lemma_sanitize_squeeze(v, k, m - 1);
        lemma_take_step(v, m);
        let a0 = sanitize(v.take(m - 1));
        let b0 = a0.remove(j);
        let c = v[m - 1];
        let r = v.take(m).remove(k);
        assert(r.drop_last() =~= v.take(m - 1).remove(k));
        assert(r.last() == c);
        let n = a0.len() as int;
        if is_path_separator(c) {
            if m - 1 > k + 1 {
                if j <= n - 3 {
                    assert(b0.subrange(n - 4, n - 1) =~= a0.subrange(n - 3, n));
                } else {
                    assert(j == n - 2);
                    if n >= 3 {
                        assert(a0.subrange(n - 3, n)[1] == a0[n - 2]);
                    }
                    if n >= 4 {
                        assert(b0[n - 3] == a0[n - 3]);
                        assert(b0.subrange(n - 4, n - 1)[1] == b0[n - 3]);
                    }
                    assert(!ends_with_separator(a0));
                    assert(!ends_with_separator(b0));
                }
            } else {
                assert(j == n - 1);
                if n >= 3 {
                    assert(a0.subrange(n - 3, n)[1] == a0[n - 2]);
                }
                assert(!ends_with_separator(a0));
                assert(b0 =~= sanitize(v.take(k)));
                if ends_with_separator(b0) {
                    let p = v.take(k - 1);
                    let pp = sanitize(p);
                    assert(b0 == pp.push(' '));
                    assert(b0.subrange(n - 4, n - 1)[1] == b0[n - 3]);
                    assert(pp.len() >= 2);
                    assert(pp.last() == b0[n - 3]);
                    assert(pp.last() == '-');
                    assert(k - 1 >= 1);
                    lemma_sanitize_last(p);
                    lemma_take_step(v, k - 1);
                    let q = v.take(k - 2);
                    assert(p.drop_last() == q);
                    assert(sanitize(q).len() >= 1);
                    assert(sanitize(q).last() == pp[pp.len() - 2]);
                    assert(pp[pp.len() - 2] == b0[n - 4]);
                    assert(k - 2 >= 1);
                    lemma_sanitize_last(q);
                    lemma_take_step(v, k - 2);
                    assert(run_space_matters(v, k));
                }
            }
            assert((a0 + separator_text()).remove(j) =~= b0 + separator_text());
        } else if is_reserved(c) || is_control(c) {
            assert(a0.push('_').remove(j) =~= b0.push('_'));
        } else {
            assert(a0.push(c).remove(j) =~= b0.push(c));
        }
    }
}

/// `a` is `b` itself, or `b` with one space of a double space taken out.
spec fn squeezed_from(a: Seq<char>, b: Seq<char>) -> bool {
    a == b || exists|j: int|
        1 <= j < b.len() && b[j - 1] == ' ' && b[j] == ' ' && a == #[trigger] b.remove(j)
}

proof fn lemma_trim_start_squeeze(b: Seq<char>, j: int)
    requires
        1 <= j < b.len(),
        b[j - 1] == ' ',
        b[j] == ' ',
    ensures
        squeezed_from(trim_start(b.remove(j)), trim_start(b)),
    decreases b.len(),
{
    let a = b.remove(j);
    assert(is_ws(' '));
    assert(a[0] == b[0]);
    if is_ws(b[0]) {
        assert(trim_start(a) == trim_start(a.drop_first()));
        assert(trim_start(b) == trim_start(b.drop_first()));
        if j == 1 {
            assert(a.drop_first() =~= b.drop_first().drop_first());
            assert(b.drop_first()[0] == ' ');
            assert(trim_start(b.drop_first()) == trim_start(b.drop_first().drop_first()));
        } else {
            assert(a.drop_first() =~= b.drop_first().remove(j - 1));
            lemma_trim_start_squeeze(b.drop_first(), j - 1);
            if trim_start(a) != trim_start(b) {
                let i = choose|i: int|
                    1 <= i < trim_start(b).len() && trim_start(b)[i - 1] == ' ' && trim_start(b)[i]
                        == ' ' && trim_start(a) == #[trigger] trim_start(b).remove(i);
                assert(trim_start(a) == trim_start(b).remove(i));
            }
        }
    } else {
        assert(trim_start(b) == b);
        assert(trim_start(a) == a);
        assert(a == b.remove(j));
    }
}

proof fn lemma_trim_end_squeeze(b: Seq<char>, j: int)
    requires
        1 <= j < b.len(),
        b[j - 1] == ' ',
        b[j] == ' ',
    ensures
        squeezed_from(trim_end(b.remove(j)), trim_end(b)),
    decreases b.len(),
{
    let a = b.remove(j);
    assert(is_ws(' '));
    if j == b.len() - 1 {
        assert(a =~= b.drop_last());
        assert(b[b.len() - 1] == b.last());
    } else {
        assert(a.last() == b.last());
        if is_ws(b.last()) {
            assert(a.drop_last() =~= b.drop_last().remove(j));
            lemma_trim_end_squeeze(b.drop_last(), j);
        } else {
            assert(trim_end(b) == b);
            assert(trim_end(a) == a);
            assert(a == b.remove(j));
        }
    }
}

proof fn lemma_trim_end_space_dot_squeeze(b: Seq<char>, j: int)
    requires
        1 <= j < b.len(),
        b[j - 1] == ' ',
        b[j] == ' ',
    ensures
        squeezed_from(trim_end_space_dot(b.remove(j)), trim_end_space_dot(b)),
    decreases b.len(),
{
    let a = b.remove(j);
    if j == b.len() - 1 {
        assert(a =~= b.drop_last());
        assert(b[b.len() - 1] == b.last());
    } else {
        assert(a.last() == b.last());
        if b.last() == ' ' || b.last() == '.' {
            assert(a.drop_last() =~= b.drop_last().remove(j));
            lemma_trim_end_space_dot_squeeze(b.drop_last(), j);
        } else {
            assert(a == b.remove(j));
        }
    }
}

proof fn lemma_collapse_squeeze(b: Seq<char>, j: int)
    requires
        1 <= j < b.len(),
        b[j - 1] == ' ',
        b[j] == ' ',
    ensures
        collapse_state(b.remove(j)) == collapse_state(b),
    decreases b.len(),
{
    let a = b.remove(j);
    assert(is_ws(' '));
    if j == b.len() - 1 {
        assert(a =~= b.drop_last());
        assert(b.drop_last().last() == b[j - 1]);
        assert(b.last() == b[j]);
    } else {
        assert(a.last() == b.last());
        assert(a.drop_last() =~= b.drop_last().remove(j));
        lemma_collapse_squeeze(b.drop_last(), j);
    }
}

/// Each step from a text to its component keeps one text squeezed from the other, and
/// squeezing changes neither whether a text is empty nor its collapsed form.
proof fn lemma_squeezed_steps(a: Seq<char>, b: Seq<char>)
    requires
        squeezed_from(a, b),
    ensures
        squeezed_from(trim_start(a), trim_start(b)),
        squeezed_from(trim_end(a), trim_end(b)),
        squeezed_from(trim_end_space_dot(a), trim_end_space_dot(b)),
        (a.len() == 0) == (b.len() == 0),
        collapse_state(a) == collapse_state(b),
{
    if a != b {
        let j = choose|j: int|
            1 <= j < b.len() && b[j - 1] == ' ' && b[j] == ' ' && a == #[trigger] b.remove(j);
        lemma_trim_start_squeeze(b, j);
        lemma_trim_end_squeeze(b, j);
        lemma_trim_end_space_dot_squeeze(b, j);
        lemma_collapse_squeeze(b, j);
    }
}

proof fn lemma_trim_start_push(z: Seq<char>, c: char)
    ensures
        trim_start(z).len() > 0 ==> trim_start(z.push(c)) == trim_start(z).push(c),
        trim_start(z).len() == 0 ==> trim_start(z.push(c)) == trim_start(seq![c]),
    decreases z.len(),
{
    if z.len() > 0 {
        assert(z.push(c)[0] == z[0]);
        assert(z.push(c).drop_first() =~= z.drop_first().push(c));
        if is_ws(z[0]) {
            lemma_trim_start_push(z.drop_first(), c);
        }
    } else {
        assert(z.push(c) =~= seq![c]);
    }
}

/// How a name's component changes with spacing: a space at the end never matters, nor does
/// a space in front or one space of a double space, unless that space changes how the name
/// is made safe next to a path separator.
pub proof fn lemma_component_spacing(value: Seq<char>, fallback: Seq<char>, k: int)
    ensures
        collapse_ws(safe_component(value.push(' '), fallback)) == collapse_ws(
            safe_component(value, fallback),
        ),
        !leading_space_matters(value) ==> collapse_ws(safe_component(seq![' '] + value, fallback))
            == collapse_ws(safe_component(value, fallback)),
        1 <= k < value.len() && value[k - 1] == ' ' && value[k] == ' ' && !run_space_matters(value, k)
            ==> collapse_ws(safe_component(value.remove(k), fallback)) == collapse_ws(
            safe_component(value, fallback),
        ),
{
    assert(is_ws(' '));
    let z = sanitize(value);
    // A space at the end.
    assert(value.push(' ').drop_last() =~= value);
    assert(sanitize(value.push(' ')) == z.push(' '));
    lemma_trim_start_push(z, ' ');
    assert(trim_start(seq![' ']) == trim_start(seq![' '].drop_first()));
    assert(seq![' '].drop_first().len() == 0);
    assert(trim(z.push(' ')) == trim(z)) by {
        if trim_start(z).len() > 0 {
            assert(trim_start(z).push(' ').drop_last() =~= trim_start(z));
        }
    }
    assert(value.take(value.len() as int) =~= value);
    // A space in front.
    if !leading_space_matters(value) {
        let w = seq![' '] + value;
        lemma_sanitize_leading_space(value, value.len() as int);
        assert(w.take(value.len() + 1int) =~= w);
        assert((seq![' '] + z).drop_first() =~= z);
        assert(trim_start(seq![' '] + z) == trim_start(z));
    }
    // One space of a run.
    if 1 <= k < value.len() && value[k - 1] == ' ' && value[k] == ' ' && !run_space_matters(value, k) {
        let v = value.remove(k);
        lemma_sanitize_squeeze(value, k, value.len() as int);
        let j = sanitize(value.take(k)).len() as int;
        assert(sanitize(v) == z.remove(j));
        assert(squeezed_from(sanitize(v), z));
        lemma_squeezed_steps(sanitize(v), z);
        lemma_squeezed_steps(trim_start(sanitize(v)), trim_start(z));
        lemma_squeezed_steps(trim(sanitize(v)), trim(z));
        lemma_squeezed_steps(trim_end_space_dot(trim(sanitize(v))), trim_end_space_dot(trim(z)));
    }
}

} // verus!
