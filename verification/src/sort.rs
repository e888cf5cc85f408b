//! A stable insertion sort by a two-part text key: the first part ascending,
//! the second descending, texts compared byte by byte as Rust compares strings.

use vstd::prelude::*;
use vstd::string::*;
use vstd::utf8::*;

verus! {

broadcast use vstd::seq_lib::group_to_multiset_ensures;

/// Byte-wise lexicographic "less than", the order of Rust's strings.
pub open spec fn bytes_lt(a: Seq<u8>, b: Seq<u8>) -> bool
    decreases a.len(),
{
    if a.len() == 0 {
        b.len() > 0
    } else if b.len() == 0 {
        false
    } else if a[0] != b[0] {
        a[0] < b[0]
    } else {
        bytes_lt(a.drop_first(), b.drop_first())
    }
}

/// `bytes_lt` is irreflexive.
pub proof fn lemma_bytes_lt_irreflexive(a: Seq<u8>)
    ensures
        !bytes_lt(a, a),
    decreases a.len(),
{
    if a.len() > 0 {
        lemma_bytes_lt_irreflexive(a.drop_first());
    }
}

/// `bytes_lt` is transitive.
pub proof fn lemma_bytes_lt_transitive(a: Seq<u8>, b: Seq<u8>, c: Seq<u8>)
    requires
        bytes_lt(a, b),
        bytes_lt(b, c),
    ensures
        bytes_lt(a, c),
    decreases a.len(),
{
    if a.len() > 0 && b.len() > 0 && c.len() > 0 && a[0] == b[0] && b[0] == c[0] {
        lemma_bytes_lt_transitive(a.drop_first(), b.drop_first(), c.drop_first());
    }
}

/// Any two byte sequences are ordered one way, the other, or are equal.
pub proof fn lemma_bytes_lt_total(a: Seq<u8>, b: Seq<u8>)
    ensures
        bytes_lt(a, b) || bytes_lt(b, a) || a == b,
    decreases a.len(),
{
    if a.len() > 0 && b.len() > 0 && a[0] == b[0] {
        lemma_bytes_lt_total(a.drop_first(), b.drop_first());
        if a.drop_first() == b.drop_first() {
            assert(a =~= seq![a[0]] + a.drop_first());
            assert(b =~= seq![b[0]] + b.drop_first());
        }
    } else if a.len() == 0 && b.len() == 0 {
        assert(a =~= b);
    }
}

/// `a` orders before `b` in Rust's string order exactly when, at the first
/// position where they differ, `a` has the smaller byte, or when `a` is a
/// proper prefix of `b`.
pub proof fn lemma_bytes_lt_lexicographic(a: Seq<u8>, b: Seq<u8>)
    ensures
        bytes_lt(a, b) <==> ({
            ||| exists|i: int|
                0 <= i < a.len() && i < b.len() && a.subrange(0, i) == b.subrange(0, i) && #[trigger] a[i]
                    < b[i]
            ||| (a.len() < b.len() && a == b.subrange(0, a.len() as int))
        }),
    decreases a.len(),
{
    if a.len() == 0 {
        assert(a =~= b.subrange(0, 0));
    } else if b.len() == 0 {
    } else if a[0] != b[0] {
        if a[0] < b[0] {
            assert(a.subrange(0, 0) =~= b.subrange(0, 0));
            assert(a[0] < b[0]);
        } else {
            assert forall|i: int|
                0 <= i < a.len() && i < b.len() && a.subrange(0, i) == b.subrange(0, i) implies !(
                #[trigger] a[i] < b[i]) by {
                if i > 0 {
                    assert(a.subrange(0, i)[0] == b.subrange(0, i)[0]);
                }
            }
            if a.len() < b.len() && a == b.subrange(0, a.len() as int) {
                assert(a[0] == b.subrange(0, a.len() as int)[0]);
            }
        }
    } else {
        let (a1, b1) = (a.drop_first(), b.drop_first());
        lemma_bytes_lt_lexicographic(a1, b1);
        if exists|i: int|
            0 <= i < a1.len() && i < b1.len() && a1.subrange(0, i) == b1.subrange(0, i) && #[trigger] a1[i]
                < b1[i] {
            let i = choose|i: int|
                0 <= i < a1.len() && i < b1.len() && a1.subrange(0, i) == b1.subrange(0, i) && #[trigger] a1[i]
                    < b1[i];
            assert(a.subrange(0, i + 1) =~= seq![a[0]] + a1.subrange(0, i));
            assert(b.subrange(0, i + 1) =~= seq![b[0]] + b1.subrange(0, i));
            assert(a[i + 1] == a1[i] && b[i + 1] == b1[i]);
        }
        if exists|i: int|
            0 <= i < a.len() && i < b.len() && a.subrange(0, i) == b.subrange(0, i) && #[trigger] a[i]
                < b[i] {
            let i = choose|i: int|
                0 <= i < a.len() && i < b.len() && a.subrange(0, i) == b.subrange(0, i) && #[trigger] a[i]
                    < b[i];
            assert(i > 0);
            assert(a1.subrange(0, i - 1) =~= a.subrange(0, i).drop_first());
            assert(b1.subrange(0, i - 1) =~= b.subrange(0, i).drop_first());
            assert(a1[i - 1] == a[i] && b1[i - 1] == b[i]);
        }
        if a.len() < b.len() && a == b.subrange(0, a.len() as int) {
            assert(a1 =~= b1.subrange(0, a1.len() as int));
        }
        if a1.len() < b1.len() && a1 == b1.subrange(0, a1.len() as int) {
            assert forall|k: int| 0 <= k < a.len() implies a[k] == b.subrange(0, a.len() as int)[k] by {
                if k > 0 {
                    assert(a[k] == a1[k - 1]);
                    assert(a1[k - 1] == b1.subrange(0, a1.len() as int)[k - 1]);
                }
            }
            assert(a =~= b.subrange(0, a.len() as int));
        }
    }
}

/// A text orders before every longer text that it begins.
pub proof fn lemma_bytes_lt_proper_prefix(a: Seq<u8>, b: Seq<u8>)
    requires
        b.len() > 0,
    ensures
        bytes_lt(a, a + b),
        !bytes_lt(a + b, a),
{
    lemma_bytes_lt_lexicographic(a, a + b);
    assert(a =~= (a + b).subrange(0, a.len() as int));
    lemma_bytes_lt_lexicographic(a + b, a);
    if exists|i: int|
        0 <= i < (a + b).len() && i < a.len() && (a + b).subrange(0, i) == a.subrange(0, i)
            && #[trigger] (a + b)[i] < a[i] {
        let i = choose|i: int|
            0 <= i < (a + b).len() && i < a.len() && (a + b).subrange(0, i) == a.subrange(0, i)
                && #[trigger] (a + b)[i] < a[i];
        assert((a + b)[i] == a[i]);
    }
}

/// The bytes of a two-part key.
pub type KeyBytes = (Seq<u8>, Seq<u8>);

/// Key order: by the first part ascending, then by the second part descending.
pub open spec fn key_lt(a: KeyBytes, b: KeyBytes) -> bool {
    ||| bytes_lt(a.0, b.0)
    ||| (a.0 == b.0 && bytes_lt(b.1, a.1))
}

/// Key order, weak form.
pub open spec fn key_le(a: KeyBytes, b: KeyBytes) -> bool {
    !key_lt(b, a)
}

/// `key_le` is transitive.
pub proof fn lemma_key_le_transitive(a: KeyBytes, b: KeyBytes, c: KeyBytes)
    requires
        key_le(a, b),
        key_le(b, c),
    ensures
        key_le(a, c),
{
    let (pa, pb, pc) = (a.0, b.0, c.0);
    let (sa, sb, sc) = (a.1, b.1, c.1);
    lemma_bytes_lt_total(pa, pb);
    lemma_bytes_lt_total(pb, pc);
    lemma_bytes_lt_total(sa, sb);
    lemma_bytes_lt_total(sb, sc);
    if bytes_lt(pc, pa) {
        if bytes_lt(pa, pb) {
            lemma_bytes_lt_transitive(pc, pa, pb);
        }
        if bytes_lt(pb, pc) {
            lemma_bytes_lt_transitive(pb, pc, pa);
        }
        if pa == pb && pb == pc {
            lemma_bytes_lt_irreflexive(pa);
        }
    }
    if pc == pa && bytes_lt(sa, sc) {
        if bytes_lt(pa, pb) && bytes_lt(pb, pc) {
            lemma_bytes_lt_transitive(pa, pb, pc);
            lemma_bytes_lt_irreflexive(pa);
        }
        if bytes_lt(pa, pb) && pb == pc {
            lemma_bytes_lt_irreflexive(pa);
        }
        if pa == pb && bytes_lt(pb, pc) {
            lemma_bytes_lt_irreflexive(pa);
        }
        if pa == pb && pb == pc {
            if bytes_lt(sb, sa) && bytes_lt(sc, sb) {
                lemma_bytes_lt_transitive(sc, sb, sa);
                lemma_bytes_lt_transitive(sa, sc, sa);
                lemma_bytes_lt_irreflexive(sa);
            }
            if sa == sb && bytes_lt(sc, sb) {
                lemma_bytes_lt_transitive(sa, sc, sa);
                lemma_bytes_lt_irreflexive(sa);
            }
            if bytes_lt(sb, sa) && sb == sc {
                lemma_bytes_lt_transitive(sa, sc, sa);
                lemma_bytes_lt_irreflexive(sa);
            }
            if sa == sb && sb == sc {
                lemma_bytes_lt_irreflexive(sa);
            }
        }
    }
}

/// `key_le` is total.
pub proof fn lemma_key_le_total(a: KeyBytes, b: KeyBytes)
    ensures
        key_le(a, b) || key_le(b, a),
{
    lemma_bytes_lt_total(a.0, b.0);
    lemma_bytes_lt_total(a.1, b.1);
    if bytes_lt(a.0, b.0) && bytes_lt(b.0, a.0) {
        lemma_bytes_lt_transitive(a.0, b.0, a.0);
        lemma_bytes_lt_irreflexive(a.0);
    }
    if a.0 == b.0 {
        lemma_bytes_lt_irreflexive(a.0);
        if bytes_lt(a.1, b.1) && bytes_lt(b.1, a.1) {
            lemma_bytes_lt_transitive(a.1, b.1, a.1);
            lemma_bytes_lt_irreflexive(a.1);
        }
    }
}

/// Inserts `x` into `s` after every element whose key is not greater than its own.
pub open spec fn insert_sorted<T>(s: Seq<T>, x: T, key: spec_fn(T) -> KeyBytes) -> Seq<T>
    decreases s.len(),
{
    if s.len() == 0 {
        seq![x]
    } else if key_lt(key(x), key(s.last())) {
        insert_sorted(s.drop_last(), x, key).push(s.last())
    } else {
        s.push(x)
    }
}

/// The stable sort of `s` by `key`: each element inserted in turn.
pub open spec fn sort_spec<T>(s: Seq<T>, key: spec_fn(T) -> KeyBytes) -> Seq<T>
    decreases s.len(),
{
    if s.len() == 0 {
        Seq::empty()
    } else {
        insert_sorted(sort_spec(s.drop_last(), key), s.last(), key)
    }
}

/// Whether the keys of `s` never decrease.
pub open spec fn sorted_by_key<T>(s: Seq<T>, key: spec_fn(T) -> KeyBytes) -> bool {
    forall|i: int, j: int| 0 <= i < j < s.len() ==> key_le(key(#[trigger] s[i]), key(#[trigger] s[j]))
}

/// Inserting in order is inserting at the first position whose followers all
/// have greater keys.
proof fn lemma_insert_sorted_at<T>(s: Seq<T>, x: T, key: spec_fn(T) -> KeyBytes, j: int)
    requires
        0 <= j <= s.len(),
        forall|k: int| j <= k < s.len() ==> key_lt(key(x), key(#[trigger] s[k])),
        j > 0 ==> !key_lt(key(x), key(s[j - 1])),
    ensures
        insert_sorted(s, x, key) == s.insert(j, x),
    decreases s.len(),
{
    if s.len() == 0 {
        assert(s.insert(j, x) =~= seq![x]);
    } else if key_lt(key(x), key(s.last())) {
        lemma_insert_sorted_at(s.drop_last(), x, key, j);
        assert(s.drop_last().insert(j, x).push(s.last()) =~= s.insert(j, x));
    } else {
        assert(s.insert(j, x) =~= s.push(x));
    }
}

/// Inserting in order keeps the multiset of elements, plus the new one.
pub proof fn lemma_insert_sorted_multiset<T>(s: Seq<T>, x: T, key: spec_fn(T) -> KeyBytes)
    ensures
        insert_sorted(s, x, key).to_multiset() == s.to_multiset().insert(x),
        insert_sorted(s, x, key).len() == s.len() + 1,
    decreases s.len(),
{
    if s.len() > 0 && key_lt(key(x), key(s.last())) {
        lemma_insert_sorted_multiset(s.drop_last(), x, key);
        assert(s.drop_last().push(s.last()) =~= s);
        assert(s.to_multiset() =~= s.drop_last().to_multiset().insert(s.last()));
    }
    if s.len() == 0 {
        assert(seq![x] =~= Seq::<T>::empty().push(x));
    }
}

/// Inserting in order into a sorted sequence leaves it sorted.
pub proof fn lemma_insert_sorted_sorted<T>(s: Seq<T>, x: T, key: spec_fn(T) -> KeyBytes)
    requires
        sorted_by_key(s, key),
    ensures
        sorted_by_key(insert_sorted(s, x, key), key),
    decreases s.len(),
{
    if s.len() == 0 {
    } else if key_lt(key(x), key(s.last())) {
        let r = insert_sorted(s.drop_last(), x, key);
        lemma_insert_sorted_sorted(s.drop_last(), x, key);
        lemma_insert_sorted_multiset(s.drop_last(), x, key);
        let t = r.push(s.last());
        assert forall|i: int, j: int| 0 <= i < j < t.len() implies key_le(
            key(#[trigger] t[i]),
            key(#[trigger] t[j]),
        ) by {
            if j == t.len() - 1 && i < j {
                assert(r.to_multiset().count(r[i]) > 0);
                assert(s.drop_last().to_multiset().insert(x).count(r[i]) > 0);
                if r[i] == x {
                    lemma_key_le_total(key(x), key(s.last()));
                } else {
                    assert(s.drop_last().to_multiset().count(r[i]) > 0);
                    assert(s.drop_last().contains(r[i]));
                    let k = choose|k: int| 0 <= k < s.len() - 1 && s.drop_last()[k] == r[i];
                    assert(s[k] == r[i]);
                }
            }
        }
    } else {
        lemma_key_le_total(key(s.last()), key(x));
        assert forall|i: int, j: int| 0 <= i < j < s.len() + 1 implies key_le(
            key(#[trigger] s.push(x)[i]),
            key(#[trigger] s.push(x)[j]),
        ) by {
            if j == s.len() && i < s.len() - 1 {
                lemma_key_le_transitive(key(s[i]), key(s.last()), key(x));
            }
        }
    }
}

/// Sorting by key gives a rearrangement of the input whose keys never decrease.
pub proof fn lemma_sort_sorted_permutation<T>(s: Seq<T>, key: spec_fn(T) -> KeyBytes)
    ensures
        sorted_by_key(sort_spec(s, key), key),
        sort_spec(s, key).to_multiset() == s.to_multiset(),
        sort_spec(s, key).len() == s.len(),
    decreases s.len(),
{
    if s.len() > 0 {
        lemma_sort_sorted_permutation(s.drop_last(), key);
        lemma_insert_sorted_sorted(sort_spec(s.drop_last(), key), s.last(), key);
        lemma_insert_sorted_multiset(sort_spec(s.drop_last(), key), s.last(), key);
        assert(s.drop_last().push(s.last()) =~= s);
    }
}

/// Sorting a sequence whose keys already never decrease leaves it as it is.
pub proof fn lemma_sort_of_sorted<T>(s: Seq<T>, key: spec_fn(T) -> KeyBytes)
    requires
        sorted_by_key(s, key),
    ensures
        sort_spec(s, key) == s,
    decreases s.len(),
{
    if s.len() > 0 {
        let d = s.drop_last();
        assert(sorted_by_key(d, key)) by {
            assert forall|i: int, j: int| 0 <= i < j < d.len() implies key_le(
                key(#[trigger] d[i]),
                key(#[trigger] d[j]),
            ) by {
                assert(d[i] == s[i] && d[j] == s[j]);
            }
        }
        lemma_sort_of_sorted(d, key);
        if d.len() > 0 {
            assert(key_le(key(s[d.len() - 1]), key(s[s.len() - 1])));
        }
        assert(d.push(s.last()) =~= s);
    }
}

/// A key of texts that a sort orders by.
pub struct SortKey {
    pub primary: String,
    pub secondary: String,
}

/// The bytes of a key's two texts.
pub open spec fn key_bytes(k: SortKey) -> KeyBytes {
    (encode_utf8(k.primary@), encode_utf8(k.secondary@))
}

/// Byte-wise lexicographic comparison.
pub fn bytes_less(a: &[u8], b: &[u8]) -> (r: bool)
    ensures
        r == bytes_lt(a@, b@),
{
    let mut i: usize = 0;
    assert(a@.skip(0) =~= a@ && b@.skip(0) =~= b@);
    while i < a.len() && i < b.len()
        invariant
            i <= a@.len(),
            i <= b@.len(),
            bytes_lt(a@, b@) == bytes_lt(a@.skip(i as int), b@.skip(i as int)),
        decreases a@.len() - i,
    {
        if a[i] != b[i] {
            return a[i] < b[i];
        }
        assert(a@.skip(i as int).drop_first() =~= a@.skip(i + 1));
        assert(b@.skip(i as int).drop_first() =~= b@.skip(i + 1));
        i = i + 1;
    }
    i < b.len()
}

/// Whether key `a` orders before key `b`.
pub fn key_less(a: &SortKey, b: &SortKey) -> (r: bool)
    ensures
        r == key_lt(key_bytes(*a), key_bytes(*b)),
{
    let pa = a.primary.as_str().as_bytes();
    let pb = b.primary.as_str().as_bytes();
    if bytes_less(pa, pb) {
        return true;
    }
    let same = a.primary == b.primary;
    proof {
        vstd::utf8::encode_utf8_decode_utf8(a.primary@);
        vstd::utf8::encode_utf8_decode_utf8(b.primary@);
    }
    if !same {
        return false;
    }
    let sa = a.secondary.as_str().as_bytes();
    let sb = b.secondary.as_str().as_bytes();
    bytes_less(sb, sa)
}

/// The elements of keyed pairs.
pub open spec fn elements_of<T>(s: Seq<(SortKey, T)>) -> Seq<T> {
    s.map_values(|p: (SortKey, T)| p.1)
}

/// Sorts the elements by their keys, stably: elements with equal keys keep
/// their order. Each element comes with its key, which `key` describes.
pub fn sort_by_key<T>(v: Vec<(SortKey, T)>, Ghost(key): Ghost<spec_fn(T) -> KeyBytes>) -> (r: Vec<T>)
    requires
        forall|i: int| 0 <= i < v@.len() ==> key_bytes(#[trigger] v@[i].0) == key(v@[i].1),
    ensures
        r@ == sort_spec(elements_of(v@), key),
{
    let ghost orig = elements_of(v@);
    let ghost keyed = v@;
    let mut input = v;
    let mut out: Vec<(SortKey, T)> = Vec::new();
    let n = input.len();
    let mut i: usize = 0;
    assert(orig.subrange(0, 0) =~= Seq::<T>::empty());
    assert(elements_of(out@) =~= Seq::<T>::empty());
    assert(keyed.subrange(0, n as int) =~= keyed);
    while i < n
        invariant
            n == keyed.len(),
            orig == elements_of(keyed),
            orig.len() == n,
            forall|k: int| 0 <= k < keyed.len() ==> key_bytes(#[trigger] keyed[k].0) == key(keyed[k].1),
            i <= n,
            input@ == keyed.subrange(i as int, n as int),
            elements_of(out@) == sort_spec(orig.subrange(0, i as int), key),
            forall|k: int| 0 <= k < out@.len() ==> key_bytes(#[trigger] out@[k].0) == key(out@[k].1),
        decreases n - i,
    {
        assert(input@.len() > 0);
        let x = input.remove(0);
        assert(x == keyed[i as int]);
        let ghost s = elements_of(out@);
        let mut j = out.len();
        while j > 0 && key_less(&x.0, &out[j - 1].0)
            invariant
                j <= out@.len(),
                s == elements_of(out@),
                key_bytes(x.0) == key(x.1),
                forall|k: int| 0 <= k < out@.len() ==> key_bytes(#[trigger] out@[k].0) == key(out@[k].1),
                forall|k: int| j <= k < out@.len() ==> key_lt(key(x.1), key(#[trigger] s[k])),
            decreases j,
        {
            assert(s[j - 1] == out@[j - 1].1);
            j = j - 1;
        }
        proof {
            if j > 0 {
                assert(s[j - 1] == out@[j - 1].1);
            }
            lemma_insert_sorted_at(s, x.1, key, j as int);
            assert(orig.subrange(0, i + 1).drop_last() =~= orig.subrange(0, i as int));
            assert(orig.subrange(0, i + 1).last() == x.1);
        }
        out.insert(j, x);
        assert(elements_of(out@) =~= s.insert(j as int, x.1));
        assert(input@ =~= keyed.subrange(i + 1, n as int));
        i = i + 1;
    }
    assert(orig.subrange(0, n as int) =~= orig);
    let mut r: Vec<T> = Vec::new();
    let ghost sorted = elements_of(out@);
    let mut rest = out;
    assert(r@ + elements_of(rest@) =~= sorted);
    while rest.len() > 0
        invariant
            r@ + elements_of(rest@) == sorted,
        decreases rest@.len(),
    {
        let ghost before = rest@;
        let (_, x) = rest.remove(0);
        assert(elements_of(before) =~= seq![x] + elements_of(rest@));
        let ghost r0 = r@;
        r.push(x);
        assert(r@ + elements_of(rest@) =~= r0 + elements_of(before));
    }
    assert(r@ =~= sorted);
    r
}

} // verus!

verus! {

/// The elements whose key is `k`.
pub open spec fn with_key<T>(key: spec_fn(T) -> KeyBytes, k: KeyBytes) -> spec_fn(T) -> bool {
    |y: T| key(y) == k
}

/// `key_lt` is irreflexive.
proof fn lemma_key_lt_irreflexive(a: KeyBytes)
    ensures
        !key_lt(a, a),
{
    lemma_bytes_lt_irreflexive(a.0);
    lemma_bytes_lt_irreflexive(a.1);
}

/// Inserting in order puts an element after every element with its key.
proof fn lemma_insert_sorted_filter<T>(t: Seq<T>, x: T, key: spec_fn(T) -> KeyBytes, k: KeyBytes)
    ensures
        insert_sorted(t, x, key).filter(with_key(key, k)) == (if key(x) == k {
            t.filter(with_key(key, k)).push(x)
        } else {
            t.filter(with_key(key, k))
        }),
    decreases t.len(),
{
    reveal(Seq::filter);
    let p = with_key(key, k);
    if t.len() == 0 {
        assert(seq![x].drop_last() =~= t);
        assert(seq![x] =~= t.push(x));
    } else if key_lt(key(x), key(t.last())) {
        lemma_insert_sorted_filter(t.drop_last(), x, key, k);
        let r = insert_sorted(t.drop_last(), x, key);
        assert(r.push(t.last()).drop_last() =~= r);
        if key(x) == k {
            lemma_key_lt_irreflexive(k);
        }
    } else {
        assert(t.push(x).drop_last() =~= t);
    }
}

/// The sort is stable: the elements with any one key keep their order.
pub proof fn lemma_sort_stable<T>(s: Seq<T>, key: spec_fn(T) -> KeyBytes, k: KeyBytes)
    ensures
        sort_spec(s, key).filter(with_key(key, k)) == s.filter(with_key(key, k)),
    decreases s.len(),
{
    reveal(Seq::filter);
    if s.len() > 0 {
        lemma_sort_stable(s.drop_last(), key, k);
        lemma_insert_sorted_filter(sort_spec(s.drop_last(), key), s.last(), key, k);
    }
}

/// The sort puts the first parts of the keys in ascending string order and,
/// among equal first parts, the second parts in descending string order.
pub proof fn lemma_sort_order_then_descending<T>(s: Seq<T>, key: spec_fn(T) -> KeyBytes)
    ensures
        forall|i: int, j: int|
            0 <= i < j < sort_spec(s, key).len() ==> {
                let a = key(#[trigger] sort_spec(s, key)[i]);
                let b = key(#[trigger] sort_spec(s, key)[j]);
                ||| bytes_lt(a.0, b.0)
                ||| (a.0 == b.0 && !bytes_lt(a.1, b.1))
            },
{
    lemma_sort_sorted_permutation(s, key);
    let r = sort_spec(s, key);
    assert forall|i: int, j: int| 0 <= i < j < r.len() implies {
        let a = key(#[trigger] r[i]);
        let b = key(#[trigger] r[j]);
        ||| bytes_lt(a.0, b.0)
        ||| (a.0 == b.0 && !bytes_lt(a.1, b.1))
    } by {
        let a = key(r[i]);
        let b = key(r[j]);
        assert(key_le(a, b));
        lemma_bytes_lt_total(a.0, b.0);
    }
}

} // verus!

