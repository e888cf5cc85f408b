//! The metadata fence of a post source: where it is cut, and that a document
//! written with fences is cut back into what was written.

use vstd::prelude::*;
use vstd::string::*;
use vstd::utf8::*;

use crate::text::{
    byte_range, find_bytes, find_first, lemma_ascii_bytes_valid, lemma_find_from_is,
    lemma_find_from_least, lemma_view_is_decoded_bytes, occurs_at,
};

verus! {

/// The bytes of the `---` fence that opens and closes a post's metadata.
pub open spec fn fence() -> Seq<u8> {
    seq![45u8, 45u8, 45u8]
}

/// Where the opening fence starts.
pub open spec fn fence_open(b: Seq<u8>) -> Option<int> {
    find_first(b, fence())
}

/// Where the closing fence starts, counted from the end of the opening fence.
pub open spec fn fence_close(b: Seq<u8>, open: int) -> Option<int> {
    find_first(b.subrange(open + 3, b.len() as int), fence())
}

/// Where the closing fence starts in the whole source.
pub open spec fn fence_close_at(b: Seq<u8>) -> int {
    let o = fence_open(b)->0;
    o + 3 + fence_close(b, o)->0
}

/// Whether a post source can be split into metadata and content: both fences
/// exist, something stands between them, and the metadata ends on a character
/// boundary.
pub open spec fn frontmatter_splits(b: Seq<u8>) -> bool {
    match fence_open(b) {
        Some(o) => match fence_close(b, o) {
            Some(c) => {
                &&& c >= 1
                &&& is_char_boundary(b, o + 3)
                &&& is_char_boundary(b, o + 3 + c - 1)
                &&& is_char_boundary(b, o + 3 + c + 3)
            },
            None => false,
        },
        None => false,
    }
}

/// The metadata bytes: the text between the two fences, without its last
/// byte, the line end before the closing fence.
pub open spec fn frontmatter_yaml(b: Seq<u8>) -> Seq<u8> {
    let o = fence_open(b)->0;
    b.subrange(o + 3, fence_close_at(b) - 1)
}

/// The content bytes: everything after the closing fence.
pub open spec fn frontmatter_body(b: Seq<u8>) -> Seq<u8> {
    b.subrange(fence_close_at(b) + 3, b.len() as int)
}

/// Splits a post source into its metadata and its content when it can be split.
pub fn split_frontmatter(input: &str) -> (r: Option<(String, String)>)
    ensures
        r is Some <==> frontmatter_splits(input.spec_bytes()),
        r matches Some(p) ==> p.0@ == decode_utf8(frontmatter_yaml(input.spec_bytes())) && p.1@
            == decode_utf8(frontmatter_body(input.spec_bytes())),
{
    let ghost b = input.spec_bytes();
    proof {
        lemma_view_is_decoded_bytes(input);
        vstd::utf8::is_char_boundary_start_end_of_seq(b);
    }
    let fence_bytes: [u8; 3] = [45u8, 45u8, 45u8];
    let pat = fence_bytes.as_slice();
    assert(pat@ =~= fence());
    let bytes = input.as_bytes();
    let len = bytes.len();
    let open = match find_bytes(bytes, pat) {
        Some(o) => o,
        None => {
            return None;
        },
    };
    proof {
        lemma_find_from_least(b, fence(), 0);
    }
    let after_open = open + 3;
    if !input.is_char_boundary(after_open) {
        return None;
    }
    let tail = byte_range(input, after_open, len);
    let close = match find_bytes(tail.as_bytes(), pat) {
        Some(c) => c,
        None => {
            return None;
        },
    };
    proof {
        lemma_find_from_least(tail.spec_bytes(), fence(), 0);
    }
    if close < 1 {
        return None;
    }
    let close_at = after_open + close;
    if !input.is_char_boundary(close_at - 1) || !input.is_char_boundary(close_at + 3) {
        return None;
    }
    let yaml = byte_range(input, after_open, close_at - 1);
    let body = byte_range(input, close_at + 3, len);
    proof {
        lemma_view_is_decoded_bytes(yaml);
        lemma_view_is_decoded_bytes(body);
    }
    Some((String::from_str(yaml), String::from_str(body)))
}

} // verus!

verus! {

/// The first byte of a non-empty valid encoding is not a continuation byte.
proof fn lemma_first_byte_leads(m: Seq<u8>)
    requires
        valid_utf8(m),
        m.len() > 0,
    ensures
        !is_continuation_byte(m[0]),
{
    vstd::utf8::is_char_boundary_iff_not_is_continuation_byte(m, 0);
}

/// A document written as the fence, the metadata, a newline, the fence and the
/// content is split back into exactly that metadata and that content, provided
/// the metadata holds no fence of its own.
pub proof fn lemma_frontmatter_round_trip(meta: Seq<char>, body: Seq<char>)
    requires
        find_first(encode_utf8(meta), fence()) is None,
    ensures
        ({
            let b = fence() + encode_utf8(meta) + seq![10u8] + fence() + encode_utf8(body);
            &&& frontmatter_splits(b)
            &&& decode_utf8(frontmatter_yaml(b)) == meta
            &&& decode_utf8(frontmatter_body(b)) == body
        }),
{
    let mm = encode_utf8(meta);
    let cc = encode_utf8(body);
    let f = fence();
    let nl = seq![10u8];
    let b = f + mm + nl + f + cc;
    let m = mm.len() as int;
    let n = b.len() as int;
    assert(n == m + 7 + cc.len());
    // the opening fence
    assert(b.subrange(0, 3) =~= f);
    lemma_find_from_is(b, f, 0, 0);
    // the closing fence, relative to the end of the opening one
    let tail = b.subrange(3, n);
    assert(tail =~= mm + nl + f + cc);
    lemma_find_from_least(mm, f, 0);
    assert(tail.subrange(m + 1, m + 4) =~= f);
    assert forall|j: int| 0 <= j < m + 1 implies !occurs_at(tail, f, j) by {
        if j + 3 <= m {
            assert(tail.subrange(j, j + 3) =~= mm.subrange(j, j + 3));
            assert(!occurs_at(mm, f, j));
        } else {
            assert(tail[m] == 10u8);
            if occurs_at(tail, f, j) {
                assert(tail.subrange(j, j + 3)[m - j] == tail[m]);
            }
        }
    }
    lemma_find_from_is(tail, f, 0, m + 1);
    // validity and character boundaries
    vstd::utf8::encode_utf8_valid_utf8(meta);
    vstd::utf8::encode_utf8_valid_utf8(body);
    lemma_ascii_bytes_valid(f);
    lemma_ascii_bytes_valid(nl);
    vstd::utf8::valid_utf8_concat(f, mm);
    vstd::utf8::valid_utf8_concat(f + mm, nl);
    vstd::utf8::valid_utf8_concat(f + mm + nl, f);
    vstd::utf8::valid_utf8_concat(f + mm + nl + f, cc);
    assert(b[m + 3] == 10u8);
    vstd::utf8::is_char_boundary_iff_not_is_continuation_byte(b, 3);
    vstd::utf8::is_char_boundary_iff_not_is_continuation_byte(b, m + 3);
    if m > 0 {
        lemma_first_byte_leads(mm);
        assert(b[3] == mm[0]);
    }
    if cc.len() > 0 {
        lemma_first_byte_leads(cc);
        assert(b[m + 7] == cc[0]);
        vstd::utf8::is_char_boundary_iff_not_is_continuation_byte(b, m + 7);
    } else {
        vstd::utf8::is_char_boundary_start_end_of_seq(b);
    }
    assert(b.subrange(3, m + 3) =~= mm);
    assert(b.subrange(m + 7, n) =~= cc);
    vstd::utf8::encode_utf8_decode_utf8(meta);
    vstd::utf8::encode_utf8_decode_utf8(body);
}

} // verus!
