//! A stable sort by a text key, the order `sort_by(|a, b| a.key.cmp(&b.key))` gives.
use vstd::prelude::*;

use crate::text::{lex_le, lex_le_exec};

verus! {

/// A value ordered by a text key.
pub trait Keyed: Sized {
    spec fn key(&self) -> Seq<char>;

    fn key_text(&self) -> (r: Vec<char>)
        ensures
            r@ == self.key(),
    ;
}

/// How many elements of `s` have a key that precedes or equals `k`.
pub open spec fn count_le<A>(s: Seq<A>, key: spec_fn(A) -> Seq<char>, k: Seq<char>) -> nat
    decreases s.len(),
{
    if s.len() == 0 {
        0
    } else {
        count_le(s.drop_last(), key, k) + if lex_le(key(s.last()), k) {
            1nat
        } else {
            0nat
        }
    }
}

/// Inserts `x` after every element whose key precedes or equals its own.
pub open spec fn insert_by<A>(s: Seq<A>, key: spec_fn(A) -> Seq<char>, x: A) -> Seq<A> {
    s.insert(count_le(s, key, key(x)) as int, x)
}

/// The stable sort of `s` by `key`: each element in turn is inserted after the elements
/// before it whose keys precede or equal its own.
pub open spec fn sort_by<A>(s: Seq<A>, key: spec_fn(A) -> Seq<char>) -> Seq<A>
    decreases s.len(),
{
    if s.len() == 0 {
        s
    } else {
        insert_by(sort_by(s.drop_last(), key), key, s.last())
    }
}

pub open spec fn sorted_by<A>(s: Seq<A>, key: spec_fn(A) -> Seq<char>) -> bool {
    forall|i: int, j: int|
        0 <= i < j < s.len() ==> lex_le(key(#[trigger] s[i]), key(#[trigger] s[j]))
}

pub open spec fn key_of<T: Keyed>() -> spec_fn(T) -> Seq<char> {
    |x: T| x.key()
}

pub proof fn lemma_count_le_bound<A>(s: Seq<A>, key: spec_fn(A) -> Seq<char>, k: Seq<char>)
    ensures
        count_le(s, key, k) <= s.len(),
    decreases s.len(),
{
    if s.len() > 0 {
        lemma_count_le_bound(s.drop_last(), key, k);
    }
}

pub proof fn lemma_sort_len<A>(s: Seq<A>, key: spec_fn(A) -> Seq<char>)
    ensures
        sort_by(s, key).len() == s.len(),
    decreases s.len(),
{
    if s.len() > 0 {
        lemma_sort_len(s.drop_last(), key);
        lemma_count_le_bound(sort_by(s.drop_last(), key), key, key(s.last()));
    }
}

proof fn lemma_count_le_map<A, B>(
    s: Seq<A>,
    f: spec_fn(A) -> B,
    ka: spec_fn(A) -> Seq<char>,
    kb: spec_fn(B) -> Seq<char>,
    k: Seq<char>,
)
    requires
        forall|x: A| #[trigger] ka(x) == kb(f(x)),
    ensures
        count_le(s.map_values(f), kb, k) == count_le(s, ka, k),
    decreases s.len(),
{
    if s.len() > 0 {
        assert(s.map_values(f).drop_last() == s.drop_last().map_values(f));
        lemma_count_le_map(s.drop_last(), f, ka, kb, k);
        assert(ka(s.last()) == kb(f(s.last())));
    }
}

/// Sorting commutes with a map that keeps the key.
pub proof fn lemma_sort_map<A, B>(
    s: Seq<A>,
    f: spec_fn(A) -> B,
    ka: spec_fn(A) -> Seq<char>,
    kb: spec_fn(B) -> Seq<char>,
)
    requires
        forall|x: A| #[trigger] ka(x) == kb(f(x)),
    ensures
        sort_by(s.map_values(f), kb) == sort_by(s, ka).map_values(f),
    decreases s.len(),
{
    if s.len() > 0 {
        let t = s.drop_last();
        assert(s.map_values(f).drop_last() == t.map_values(f));
        lemma_sort_map(t, f, ka, kb);
        let st = sort_by(t, ka);
        lemma_count_le_map(st, f, ka, kb, ka(s.last()));
        lemma_sort_len(t, ka);
        lemma_count_le_bound(st, ka, ka(s.last()));
        assert(ka(s.last()) == kb(f(s.last())));
        let pos = count_le(st, ka, ka(s.last())) as int;
        assert(st.insert(pos, s.last()).map_values(f) =~= st.map_values(f).insert(
            pos,
            f(s.last()),
        ));
    }
}

/// How many elements of `v` have a key that precedes or equals `k`.
fn count_le_exec<T: Keyed>(v: &Vec<T>, k: &Vec<char>) -> (n: usize)
    ensures
        n == count_le(v@, key_of::<T>(), k@),
{
    let mut n: usize = 0;
    let mut i: usize = 0;
    while i < v.len()
        invariant
            i <= v@.len(),
            n == count_le(v@.take(i as int), key_of::<T>(), k@),
            n <= i,
        decreases v.len() - i,
    {
        assert(v@.take(i + 1).drop_last() == v@.take(i as int));
        let key = v[i].key_text();
        if lex_le_exec(key.as_slice(), k.as_slice()) {
            n = n + 1;
        }
        i = i + 1;
    }
    assert(v@.take(v@.len() as int) == v@);
    n
}

/// Sorts by key, keeping the order of elements whose keys are equal.
pub fn sort_by_key_vec<T: Keyed>(v: Vec<T>) -> (r: Vec<T>)
    ensures
        r@ == sort_by(v@, key_of::<T>()),
{
    let mut input = v;
    let ghost given = input@;
    let mut out: Vec<T> = Vec::new();
    let mut i: usize = 0;
    let n = input.len();
    // Reverse the input so that popping yields its elements in order.
    let mut rev: Vec<T> = Vec::new();
    while input.len() > 0
        invariant
            input@.len() + rev@.len() == n,
            given.len() == n,
            forall|j: int| 0 <= j < input@.len() ==> #[trigger] input@[j] == given[j],
            forall|j: int|
                0 <= j < rev@.len() ==> #[trigger] rev@[j] == given[n - 1 - j],
        decreases input.len(),
    {
        let x = input.pop().unwrap();
        rev.push(x);
    }
    while i < n
        invariant
            i <= n,
            given.len() == n,
            rev@.len() == n - i,
            forall|j: int|
                0 <= j < rev@.len() ==> #[trigger] rev@[j] == given[n - 1 - j],
            out@ == sort_by(given.take(i as int), key_of::<T>()),
        decreases n - i,
    {
        let x = rev.pop().unwrap();
        assert(x == given[i as int]);
        assert(given.take(i + 1).drop_last() == given.take(i as int));
        let k = x.key_text();
        let pos = count_le_exec(&out, &k);
        proof {
            lemma_count_le_bound(out@, key_of::<T>(), k@);
        }
        out.insert(pos, x);
        i = i + 1;
    }
    assert(given.take(n as int) == given);
    out
}


proof fn lemma_lex_total(a: Seq<char>, b: Seq<char>)
    ensures
        lex_le(a, b) || lex_le(b, a),
    decreases a.len(),
{
    if a.len() > 0 && b.len() > 0 {
        if a[0] == b[0] {
            lemma_lex_total(a.drop_first(), b.drop_first());
        } else {
            let x = a[0];
            let y = b[0];
            vstd::utf8::char_u32_cast(x, x as u32);
            vstd::utf8::char_u32_cast(y, y as u32);
        }
    }
}

proof fn lemma_lex_transitive(a: Seq<char>, b: Seq<char>, c: Seq<char>)
    requires
        lex_le(a, b),
        lex_le(b, c),
    ensures
        lex_le(a, c),
    decreases a.len(),
{
    if a.len() > 0 && b.len() > 0 && c.len() > 0 && a[0] == b[0] && b[0] == c[0] {
        lemma_lex_transitive(a.drop_first(), b.drop_first(), c.drop_first());
    }
}

/// In a sorted sequence, the elements whose key precedes or equals `k` come first.
proof fn lemma_count_le_prefix<A>(s: Seq<A>, key: spec_fn(A) -> Seq<char>, k: Seq<char>)
    requires
        sorted_by(s, key),
    ensures
        count_le(s, key, k) <= s.len(),
        forall|i: int| 0 <= i < count_le(s, key, k) ==> lex_le(key(#[trigger] s[i]), k),
        forall|i: int| count_le(s, key, k) <= i < s.len() ==> !lex_le(key(#[trigger] s[i]), k),
    decreases s.len(),
{
    if s.len() > 0 {
        let p = s.drop_last();
        assert forall|i: int, j: int| 0 <= i < j < p.len() implies lex_le(key(#[trigger] p[i]), key(#[trigger] p[j])) by {
            assert(p[i] == s[i] && p[j] == s[j]);
        }
        lemma_count_le_prefix(p, key, k);
        lemma_count_le_bound(p, key, k);
        let c = count_le(p, key, k);
        if lex_le(key(s.last()), k) {
            assert forall|i: int| 0 <= i < p.len() implies lex_le(key(#[trigger] p[i]), k) by {
                assert(p[i] == s[i]);
                assert(lex_le(key(s[i]), key(s[s.len() - 1])));
                lemma_lex_transitive(key(s[i]), key(s.last()), k);
            }
            if c < p.len() {
                assert(!lex_le(key(p[c as int]), k));
                assert(lex_le(key(p[c as int]), k));
            }
        }
        assert forall|i: int| 0 <= i < count_le(s, key, k) implies lex_le(key(#[trigger] s[i]), k) by {
            if i < p.len() {
                assert(p[i] == s[i]);
            }
        }
        assert forall|i: int| count_le(s, key, k) <= i < s.len() implies !lex_le(key(#[trigger] s[i]), k) by {
            if i < p.len() {
                assert(p[i] == s[i]);
            }
        }
    }
}

/// Sorting orders the elements by key and keeps every one of them: the result is sorted
/// and holds the same elements as often as the input.
pub proof fn law_sort_orders_and_keeps_elements<A>(s: Seq<A>, key: spec_fn(A) -> Seq<char>)
    ensures
        sorted_by(sort_by(s, key), key),
        sort_by(s, key).to_multiset() == s.to_multiset(),
    decreases s.len(),
{
    broadcast use vstd::seq_lib::to_multiset_build, vstd::seq_lib::to_multiset_insert;
    if s.len() == 0 {
    } else {
        let p = s.drop_last();
        let x = s.last();
        law_sort_orders_and_keeps_elements(p, key);
        let t = sort_by(p, key);
        lemma_count_le_prefix(t, key, key(x));
        let c = count_le(t, key, key(x)) as int;
        let r = t.insert(c, x);
        assert(sort_by(s, key) == r);
        assert(s =~= p.push(x));
        assert forall|i: int, j: int| 0 <= i < j < r.len() implies lex_le(key(#[trigger] r[i]), key(#[trigger] r[j])) by {
            if j < c {
                assert(r[i] == t[i] && r[j] == t[j]);
            } else if j == c {
                assert(r[i] == t[i] && r[j] == x);
            } else if i < c {
                assert(r[i] == t[i] && r[j] == t[j - 1]);
                assert(lex_le(key(t[i]), key(t[j - 1])));
            } else if i == c {
                assert(r[i] == x && r[j] == t[j - 1]);
                assert(!lex_le(key(t[j - 1]), key(x)));
                lemma_lex_total(key(x), key(t[j - 1]));
            } else {
                assert(r[i] == t[i - 1] && r[j] == t[j - 1]);
            }
        }
        assert(r.to_multiset() == t.to_multiset().insert(x));
        assert(s.to_multiset() == p.to_multiset().insert(x));
    }
}

proof fn lemma_lex_antisymmetric(a: Seq<char>, b: Seq<char>)
    requires
        lex_le(a, b),
        lex_le(b, a),
    ensures
        a == b,
    decreases a.len(),
{
    if a.len() == 0 {
        assert(a =~= b);
    } else {
        assert(b.len() > 0);
        if a[0] != b[0] {
            let x = a[0];
            let y = b[0];
            vstd::utf8::char_u32_cast(x, x as u32);
            vstd::utf8::char_u32_cast(y, y as u32);
        } else {
            lemma_lex_antisymmetric(a.drop_first(), b.drop_first());
            assert(a.drop_first().len() == b.drop_first().len());
            assert forall|i: int| 0 <= i < a.len() implies a[i] == b[i] by {
                if i > 0 {
                    assert(a[i] == a.drop_first()[i - 1]);
                    assert(b[i] == b.drop_first()[i - 1]);
                }
            }
            assert(a =~= b);
        }
    }
}

/// Two sequences sorted by a key, with the same elements as often, are equal when the key
/// tells the elements apart.
pub proof fn lemma_sorted_by_unique<A>(x: Seq<A>, y: Seq<A>, key: spec_fn(A) -> Seq<char>)
    requires
        sorted_by(x, key),
        sorted_by(y, key),
        x.to_multiset() == y.to_multiset(),
        forall|i: int, j: int|
            0 <= i < x.len() && 0 <= j < x.len() && key(#[trigger] x[i]) == key(#[trigger] x[j])
                ==> x[i] == x[j],
    ensures
        x == y,
    decreases x.len(),
{
    broadcast use vstd::seq_lib::group_to_multiset_ensures, vstd::multiset::group_multiset_axioms;

    assert(x.len() == x.to_multiset().len());
    assert(y.len() == y.to_multiset().len());
    if x.len() == 0 {
        assert(x =~= y);
    } else {
        assert(x.to_multiset().count(x[0]) > 0);
        assert(y.contains(x[0]));
        let j = choose|j: int| 0 <= j < y.len() && y[j] == x[0];
        assert(y.to_multiset().count(y[0]) > 0);
        assert(x.contains(y[0]));
        let i = choose|i: int| 0 <= i < x.len() && x[i] == y[0];
        if i > 0 && j > 0 {
            assert(lex_le(key(x[0]), key(x[i])));
            assert(lex_le(key(y[0]), key(y[j])));
            lemma_lex_antisymmetric(key(x[0]), key(y[0]));
        }
        assert(x[0] == y[0]);
        let x1 = x.drop_first();
        let y1 = y.drop_first();
        assert(x =~= seq![x[0]] + x1);
        assert(y =~= seq![y[0]] + y1);
        assert(x1.to_multiset() =~= x.to_multiset().remove(x[0])) by {
            assert(x.remove(0) =~= x1);
        }
        assert(y1.to_multiset() =~= y.to_multiset().remove(y[0])) by {
            assert(y.remove(0) =~= y1);
        }
        assert forall|a: int, b: int| 0 <= a < b < x1.len() implies lex_le(
            key(#[trigger] x1[a]),
            key(#[trigger] x1[b]),
        ) by {
            assert(x1[a] == x[a + 1] && x1[b] == x[b + 1]);
        }
        assert forall|a: int, b: int| 0 <= a < b < y1.len() implies lex_le(
            key(#[trigger] y1[a]),
            key(#[trigger] y1[b]),
        ) by {
            assert(y1[a] == y[a + 1] && y1[b] == y[b + 1]);
        }
        assert forall|a: int, b: int|
            0 <= a < x1.len() && 0 <= b < x1.len() && key(#[trigger] x1[a]) == key(
                #[trigger] x1[b],
            ) implies x1[a] == x1[b] by {
            assert(x1[a] == x[a + 1] && x1[b] == x[b + 1]);
        }
        lemma_sorted_by_unique(x1, y1, key);
        assert(x =~= y);
    }
}

/// Keys strictly increasing: sorted, and no two equal.
pub open spec fn strictly_sorted_by<A>(s: Seq<A>, key: spec_fn(A) -> Seq<char>) -> bool {
    forall|i: int, j: int|
        0 <= i < j < s.len() ==> lex_le(key(#[trigger] s[i]), key(#[trigger] s[j])) && key(s[i])
            != key(s[j])
}

/// Sorting elements whose keys are all different orders them strictly.
pub proof fn lemma_sort_strict<A>(s: Seq<A>, key: spec_fn(A) -> Seq<char>)
    requires
        forall|i: int, j: int| 0 <= i < j < s.len() ==> key(#[trigger] s[i]) != key(#[trigger] s[j]),
    ensures
        strictly_sorted_by(sort_by(s, key), key),
{
    broadcast use vstd::seq_lib::group_to_multiset_ensures;

    law_sort_orders_and_keeps_elements(s, key);
    let y = sort_by(s, key);
    assert(s.no_duplicates()) by {
        assert forall|i: int, j: int| 0 <= i < s.len() && 0 <= j < s.len() && i != j implies s[i]
            != s[j] by {
            if i < j {
                assert(key(s[i]) != key(s[j]));
            } else {
                assert(key(s[j]) != key(s[i]));
            }
        }
    }
    s.lemma_multiset_has_no_duplicates();
    y.lemma_multiset_has_no_duplicates_conv();
    assert forall|i: int, j: int| 0 <= i < j < y.len() implies lex_le(
        key(#[trigger] y[i]),
        key(#[trigger] y[j]),
    ) && key(y[i]) != key(y[j]) by {
        assert(y[i] != y[j]);
        assert(y.to_multiset().count(y[i]) > 0);
        assert(y.to_multiset().count(y[j]) > 0);
        assert(s.contains(y[i]));
        assert(s.contains(y[j]));
        let p = choose|p: int| 0 <= p < s.len() && s[p] == y[i];
        let q = choose|q: int| 0 <= q < s.len() && s[q] == y[j];
        if p < q {
            assert(key(s[p]) != key(s[q]));
        } else if q < p {
            assert(key(s[q]) != key(s[p]));
        }
    }
}

} // verus!
