//! Text utilities: equality, concatenation and byte-level views of strings.

use vstd::prelude::*;
use vstd::string::*;
use vstd::utf8::*;

verus! {

broadcast use vstd::utf8::encode_utf8_decode_utf8;

/// Whether two string slices hold the same characters.
pub fn same_text(a: &str, b: &str) -> (r: bool)
    ensures
        r == (a@ == b@),
{
    let x = a.as_bytes();
    let y = b.as_bytes();
    if x.len() != y.len() {
        return false;
    }
    let mut i: usize = 0;
    while i < x.len()
        invariant
            x@ == encode_utf8(a@),
            y@ == encode_utf8(b@),
            x@.len() == y@.len(),
            i <= x@.len(),
            forall|j: int| 0 <= j < i ==> x@[j] == y@[j],
        decreases x@.len() - i,
    {
        if x[i] != y[i] {
            return false;
        }
        i = i + 1;
    }
    assert(x@ =~= y@);
    assert(a@ == decode_utf8(encode_utf8(a@)));
    assert(b@ == decode_utf8(encode_utf8(b@)));
    true
}

/// The concatenation of two strings.
pub fn concat(a: &str, b: &str) -> (r: String)
    ensures
        r@ == a@ + b@,
{
    let mut s = String::from_str(a);
    s.append(b);
    s
}

} // verus!

verus! {

/// Whether `pat` occurs in `hay` starting at byte index `i`.
pub open spec fn occurs_at(hay: Seq<u8>, pat: Seq<u8>, i: int) -> bool {
    0 <= i && i + pat.len() <= hay.len() && hay.subrange(i, i + pat.len()) == pat
}

/// The first index at or after `i` where `pat` occurs in `hay`, if any.
pub open spec fn find_from(hay: Seq<u8>, pat: Seq<u8>, i: int) -> Option<int>
    decreases hay.len() - i,
{
    if i < 0 || i > hay.len() {
        None
    } else if occurs_at(hay, pat, i) {
        Some(i)
    } else if i == hay.len() {
        None
    } else {
        find_from(hay, pat, i + 1)
    }
}

/// The first index where `pat` occurs in `hay`, as `str::find` reports it.
pub open spec fn find_first(hay: Seq<u8>, pat: Seq<u8>) -> Option<int> {
    find_from(hay, pat, 0)
}

/// `find_from` reports the least occurrence at or after its start.
pub proof fn lemma_find_from_least(hay: Seq<u8>, pat: Seq<u8>, i: int)
    requires
        0 <= i,
    ensures
        match find_from(hay, pat, i) {
            Some(k) => i <= k && occurs_at(hay, pat, k) && forall|j: int|
                i <= j < k ==> !occurs_at(hay, pat, j),
            None => forall|j: int| i <= j ==> !occurs_at(hay, pat, j),
        },
    decreases hay.len() - i,
{
    if i > hay.len() {
    } else if occurs_at(hay, pat, i) {
    } else if i == hay.len() {
    } else {
        lemma_find_from_least(hay, pat, i + 1);
    }
}

/// The first occurrence of `pat` in `hay`.
pub fn find_bytes(hay: &[u8], pat: &[u8]) -> (r: Option<usize>)
    ensures
        match r {
            Some(k) => find_first(hay@, pat@) == Some(k as int),
            None => find_first(hay@, pat@) is None,
        },
{
    let n = hay.len();
    let m = pat.len();
    if m > n {
        proof {
            lemma_none_after(hay@, pat@, 0);
        }
        return None;
    }
    let mut i: usize = 0;
    while i <= n - m
        invariant
            n == hay@.len(),
            m == pat@.len(),
            m <= n,
            i <= n,
            find_from(hay@, pat@, 0) == find_from(hay@, pat@, i as int),
        decreases n - i,
    {
        let mut j: usize = 0;
        let mut same = true;
        while j < m
            invariant
                n == hay@.len(),
                m == pat@.len(),
                i + m <= n,
                j <= m,
                same == (forall|t: int| 0 <= t < j ==> hay@[i + t] == pat@[t]),
            decreases m - j,
        {
            if hay[i + j] != pat[j] {
                same = false;
            }
            j = j + 1;
        }
        if same {
            assert(hay@.subrange(i as int, i + m) =~= pat@);
            return Some(i);
        }
        assert(!occurs_at(hay@, pat@, i as int)) by {
            if occurs_at(hay@, pat@, i as int) {
                assert forall|t: int| 0 <= t < m implies hay@[i + t] == pat@[t] by {
                    assert(hay@.subrange(i as int, i + m)[t] == hay@[i + t]);
                }
            }
        }
        i = i + 1;
    }
    proof {
        lemma_none_after(hay@, pat@, i as int);
    }
    None
}

proof fn lemma_none_after(hay: Seq<u8>, pat: Seq<u8>, i: int)
    requires
        0 <= i,
        forall|k: int| i <= k ==> !occurs_at(hay, pat, k),
    ensures
        find_from(hay, pat, i) is None,
    decreases hay.len() - i,
{
    if i < hay.len() {
        lemma_none_after(hay, pat, i + 1);
    }
}

} // verus!

verus! {

/// A character boundary of a valid byte sequence that lies inside a prefix
/// ending at a boundary is a boundary of that prefix too.
proof fn lemma_boundary_in_prefix(b: Seq<u8>, from: int, to: int)
    requires
        valid_utf8(b),
        0 <= from <= to <= b.len(),
        is_char_boundary(b, from),
        is_char_boundary(b, to),
    ensures
        valid_utf8(b.subrange(0, to)),
        is_char_boundary(b.subrange(0, to), from),
{
    let p = b.subrange(0, to);
    vstd::utf8::valid_utf8_split(b, to);
    if from == to {
        vstd::utf8::is_char_boundary_start_end_of_seq(p);
    } else if from == 0 {
    } else {
        vstd::utf8::is_char_boundary_iff_not_is_continuation_byte(b, from);
        vstd::utf8::is_char_boundary_iff_not_is_continuation_byte(p, from);
        assert(p[from] == b[from]);
    }
}

/// The bytes `from..to` of `s`, as `&s[from..to]` gives them.
pub fn byte_range(s: &str, from: usize, to: usize) -> (r: &str)
    requires
        from <= to <= s.spec_bytes().len(),
        is_char_boundary(s.spec_bytes(), from as int),
        is_char_boundary(s.spec_bytes(), to as int),
    ensures
        r.spec_bytes() == s.spec_bytes().subrange(from as int, to as int),
{
    proof {
        vstd::utf8::encode_utf8_valid_utf8(s@);
        lemma_boundary_in_prefix(s.spec_bytes(), from as int, to as int);
    }
    let (left, _) = s.split_at(to);
    let (_, mid) = left.split_at(from);
    assert(mid.spec_bytes() =~= s.spec_bytes().subrange(from as int, to as int));
    mid
}

/// The characters of a string slice are the decoding of its bytes.
pub proof fn lemma_view_is_decoded_bytes(s: &str)
    ensures
        s@ == decode_utf8(s.spec_bytes()),
        valid_utf8(s.spec_bytes()),
{
    vstd::utf8::encode_utf8_valid_utf8(s@);
}

} // verus!

verus! {

/// Bytes below 0x80 form valid UTF-8.
pub proof fn lemma_ascii_bytes_valid(b: Seq<u8>)
    requires
        forall|i: int| 0 <= i < b.len() ==> b[i] < 0x80,
    ensures
        valid_utf8(b),
    decreases b.len(),
{
    if b.len() > 0 {
        let x = b[0];
        assert(leading_bits_width_1(x) == x as u32) by (bit_vector)
            requires
                x < 0x80,
        ;
        assert(pop_first_scalar(b) =~= b.drop_first());
        lemma_ascii_bytes_valid(b.drop_first());
    }
}

/// An occurrence with none before it is what `find_from` reports.
pub proof fn lemma_find_from_is(hay: Seq<u8>, pat: Seq<u8>, i: int, k: int)
    requires
        0 <= i <= k,
        occurs_at(hay, pat, k),
        forall|j: int| i <= j < k ==> !occurs_at(hay, pat, j),
    ensures
        find_from(hay, pat, i) == Some(k),
    decreases k - i,
{
    if i < k {
        lemma_find_from_is(hay, pat, i + 1, k);
    }
}

} // verus!
