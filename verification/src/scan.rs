//! Reading the Music directory: which directory names are albums, which files are
//! audio, and the counters a scan publishes while it runs.
use vstd::prelude::*;

use crate::text::{
    all_ascii_digits, all_digits, ascii_lower, ascii_lowercase, chars_of, decimal_value,
    is_ascii_digit, str_equal, string_of, trim, trim_chars,
};

verus! {

/// The position of the last `" ("` in `s`, as `str::rsplit_once(" (")` finds it.
pub open spec fn last_open_paren(s: Seq<char>) -> Option<int>
    decreases s.len(),
{
    if s.len() < 2 {
        None
    } else if s[s.len() - 2] == ' ' && s[s.len() - 1] == '(' {
        Some(s.len() - 2)
    } else {
        last_open_paren(s.drop_last())
    }
}

/// What an album directory's name says: its title and, when the name ends in a
/// parenthesised four-digit year, that year. `None` for a name that is blank, or whose
/// title before the year is blank.
pub open spec fn album_directory_parts(name: Seq<char>) -> Option<(Seq<char>, Option<int>)> {
    let t = trim(name);
    if t.len() == 0 {
        None
    } else {
        let inner = t.drop_last();
        if t.last() == ')' && last_open_paren(inner) is Some && inner.skip(
            last_open_paren(inner).unwrap() + 2,
        ).len() == 4 && all_ascii_digits(inner.skip(last_open_paren(inner).unwrap() + 2)) {
            let k = last_open_paren(inner).unwrap();
            let title = trim(inner.take(k));
            if title.len() == 0 {
                None
            } else {
                Some((title, Some(decimal_value(inner.skip(k + 2)))))
            }
        } else {
            Some((t, None))
        }
    }
}

/// `Path::extension` of a file name: the text after the last dot, unless the name has no
/// dot, starts with its only dot, or is `..`.
pub open spec fn extension_of(file_name: Seq<char>) -> Option<Seq<char>> {
    if file_name == seq!['.', '.'] {
        None
    } else {
        match last_dot(file_name) {
            Some(k) => if k == 0 {
                None
            } else {
                Some(file_name.skip(k + 1))
            },
            None => None,
        }
    }
}

pub open spec fn last_dot(s: Seq<char>) -> Option<int>
    decreases s.len(),
{
    if s.len() == 0 {
        None
    } else if s.last() == '.' {
        Some(s.len() - 1)
    } else {
        last_dot(s.drop_last())
    }
}

/// The extensions that the scan counts as audio, in lowercase.
pub open spec fn is_audio_extension(e: Seq<char>) -> bool {
    e == "flac"@ || e == "mp3"@ || e == "m4a"@ || e == "aac"@ || e == "ogg"@ || e == "opus"@
        || e == "wav"@ || e == "aiff"@ || e == "aif"@ || e == "alac"@
}

/// A file is audio when its extension, in ASCII lowercase, is a supported one.
pub open spec fn is_audio_name(file_name: Seq<char>) -> bool {
    match extension_of(file_name) {
        Some(e) => is_audio_extension(ascii_lower(e)),
        None => false,
    }
}

fn last_open_paren_exec(s: &[char]) -> (r: Option<usize>)
    ensures
        match (r, last_open_paren(s@)) {
            (Some(a), Some(b)) => a == b,
            (None, None) => true,
            _ => false,
        },
        r is Some ==> r.unwrap() + 2 <= s@.len(),
{
    let mut n: usize = s.len();
    assert(s@.take(n as int) == s@);
    while n >= 2
        invariant
            n <= s@.len(),
            last_open_paren(s@) == last_open_paren(s@.take(n as int)),
        decreases n,
    {
        if s[n - 2] == ' ' && s[n - 1] == '(' {
            return Some(n - 2);
        }
        assert(s@.take(n as int).drop_last() == s@.take(n - 1));
        n = n - 1;
    }
    None
}

/// Reads an album directory name: `Title (YYYY)` gives the title and the year; any other
/// nonblank name is a title without a year. A blank name, or a blank title before the
/// year, is no album.
pub fn parse_album_directory_name(name: &str) -> (r: Option<(String, Option<i32>)>)
    ensures
        match (r, album_directory_parts(name@)) {
            (Some((title, year)), Some((t, y))) => title@ == t && match (year, y) {
                (Some(a), Some(b)) => a == b,
                (None, None) => true,
                _ => false,
            },
            (None, None) => true,
            _ => false,
        },
{
    let chars = chars_of(name);
    let t = trim_chars(&chars);
    if t.len() == 0 {
        return None;
    }
    let n = t.len();
    if t[n - 1] == ')' {
        let mut inner: Vec<char> = Vec::new();
        let mut i: usize = 0;
        while i < n - 1
            invariant
                i <= n - 1,
                n == t@.len(),
                inner@ == t@.take(i as int),
            decreases n - 1 - i,
        {
            inner.push(t[i]);
            i = i + 1;
        }
        assert(inner@ =~= t@.drop_last());
        if let Some(k) = last_open_paren_exec(&inner) {
            let mut year: Vec<char> = Vec::new();
            let mut j: usize = k + 2;
            while j < inner.len()
                invariant
                    k + 2 <= j <= inner@.len(),
                    year@ == inner@.subrange(k + 2, j as int),
                decreases inner.len() - j,
            {
                year.push(inner[j]);
                j = j + 1;
            }
            assert(year@ =~= inner@.skip(k + 2));
            if year.len() == 4 && all_digits(&year) {
                let mut head: Vec<char> = Vec::new();
                let mut h: usize = 0;
                while h < k
                    invariant
                        h <= k <= inner@.len(),
                        head@ == inner@.take(h as int),
                    decreases k - h,
                {
                    head.push(inner[h]);
                    h = h + 1;
                }
                let title = trim_chars(&head);
                if title.len() == 0 {
                    return None;
                }
                let value = four_digits(&year);
                return Some((string_of(&title), Some(value)));
            }
        }
    }
    Some((string_of(&t), None))
}

/// The value of four ASCII digits.
fn four_digits(s: &[char]) -> (v: i32)
    requires
        s@.len() == 4,
        all_ascii_digits(s@),
    ensures
        v == decimal_value(s@),
        0 <= v <= 9999,
{
    assert(is_ascii_digit(s@[0]) && is_ascii_digit(s@[1]) && is_ascii_digit(s@[2])
        && is_ascii_digit(s@[3]));
    let a = (s[0] as u32 - '0' as u32) as i32;
    let b = (s[1] as u32 - '0' as u32) as i32;
    let c = (s[2] as u32 - '0' as u32) as i32;
    let d = (s[3] as u32 - '0' as u32) as i32;
    proof {
        assert(s@.drop_last().drop_last().drop_last().drop_last() =~= Seq::<char>::empty());
        assert(s@.drop_last().drop_last().drop_last().last() == s@[0]);
        assert(s@.drop_last().drop_last().last() == s@[1]);
        assert(s@.drop_last().last() == s@[2]);
        assert(s@.last() == s@[3]);
        reveal_with_fuel(decimal_value, 5);
    }
    ((a * 10 + b) * 10 + c) * 10 + d
}

fn last_dot_exec(s: &[char]) -> (r: Option<usize>)
    ensures
        match (r, last_dot(s@)) {
            (Some(a), Some(b)) => a == b,
            (None, None) => true,
            _ => false,
        },
        r is Some ==> r.unwrap() < s@.len(),
{
    let mut n: usize = s.len();
    assert(s@.take(n as int) == s@);
    while n > 0
        invariant
            n <= s@.len(),
            last_dot(s@) == last_dot(s@.take(n as int)),
        decreases n,
    {
        if s[n - 1] == '.' {
            return Some(n - 1);
        }
        assert(s@.take(n as int).drop_last() == s@.take(n - 1));
        n = n - 1;
    }
    None
}

/// Whether a file with this name is a supported audio file: flac, mp3, m4a, aac, ogg,
/// opus, wav, aiff, aif or alac, in any ASCII case.
pub fn is_audio_file(file_name: &str) -> (r: bool)
    ensures
        r == is_audio_name(file_name@),
{
    let chars = chars_of(file_name);
    if chars.len() == 2 && chars[0] == '.' && chars[1] == '.' {
        assert(chars@ =~= seq!['.', '.']);
        return false;
    }
    proof {
        if chars@ == seq!['.', '.'] {
            assert(chars@.len() == 2 && chars@[0] == '.' && chars@[1] == '.');
        }
    }
    let k = match last_dot_exec(&chars) {
        Some(k) => k,
        None => return false,
    };
    if k == 0 {
        return false;
    }
    let mut ext: Vec<char> = Vec::new();
    let mut i: usize = k + 1;
    while i < chars.len()
        invariant
            k + 1 <= i <= chars@.len(),
            ext@ == chars@.subrange(k + 1, i as int),
        decreases chars.len() - i,
    {
        ext.push(chars[i]);
        i = i + 1;
    }
    assert(ext@ =~= chars@.skip(k + 1));
    let lower = string_of(&ascii_lowercase(&ext));
    let e = lower.as_str();
    str_equal(e, "flac") || str_equal(e, "mp3") || str_equal(e, "m4a") || str_equal(e, "aac")
        || str_equal(e, "ogg") || str_equal(e, "opus") || str_equal(e, "wav") || str_equal(
        e,
        "aiff",
    ) || str_equal(e, "aif") || str_equal(e, "alac")
}

proof fn lemma_last_dot(s: Seq<char>)
    ensures
        last_dot(s) matches Some(k) ==> 0 <= k < s.len() && s[k] == '.' && forall|j: int|
            k < j < s.len() ==> #[trigger] s[j] != '.',
        last_dot(s) is None ==> forall|j: int| 0 <= j < s.len() ==> #[trigger] s[j] != '.',
    decreases s.len(),
{
    if s.len() > 0 {
        let d = s.drop_last();
        lemma_last_dot(d);
        let n = s.len() - 1;
        assert(s[n] == s.last());
        if s.last() != '.' {
            match last_dot(d) {
                Some(k) => {
                    assert(s[k] == d[k]);
                    assert forall|j: int| k < j < s.len() implies #[trigger] s[j] != '.' by {
                        if j < n {
                            assert(s[j] == d[j]);
                        }
                    }
                },
                None => {
                    assert forall|j: int| 0 <= j < s.len() implies #[trigger] s[j] != '.' by {
                        if j < n {
                            assert(s[j] == d[j]);
                        }
                    }
                },
            }
        }
    }
}

/// A file name's extension is the text after its last dot: the name is a nonempty text, a
/// dot and the extension, and the extension holds no dot. A name has an extension exactly
/// when it has a dot after its first character and is not `..`.
pub proof fn law_extension_follows_the_last_dot(name: Seq<char>)
    ensures
        extension_of(name) matches Some(e) ==> {
            &&& e.len() + 2 <= name.len()
            &&& name[name.len() - e.len() - 1] == '.'
            &&& name.skip(name.len() - e.len()) == e
            &&& forall|i: int| 0 <= i < e.len() ==> #[trigger] e[i] != '.'
        },
        extension_of(name) is Some <==> name != seq!['.', '.'] && exists|i: int|
            1 <= i < name.len() && #[trigger] name[i] == '.',
{
    lemma_last_dot(name);
    if let Some(e) = extension_of(name) {
        let k = last_dot(name).unwrap();
        assert(e == name.skip(k + 1));
        assert(name.len() - e.len() - 1 == k);
        assert forall|i: int| 0 <= i < e.len() implies #[trigger] e[i] != '.' by {
            assert(e[i] == name[k + 1 + i]);
        }
    }
    if name != seq!['.', '.'] && exists|i: int| 1 <= i < name.len() && #[trigger] name[i] == '.' {
        let i = choose|i: int| 1 <= i < name.len() && #[trigger] name[i] == '.';
        assert(name[i] == '.');
    }
}

} // verus!
