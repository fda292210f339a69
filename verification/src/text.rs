//! Byte-level text utilities shared by the bot and the admin panel: moving
//! an index forward to a character boundary, splitting a long answer into
//! transport-sized segments, and truncating an answer for table display.
//!
//! The transport has a message-size ceiling, so long answers are sent as
//! fixed-size segments.  A segment boundary must never fall inside the
//! multi-byte encoding of a character; it is adjusted forward to the next
//! valid boundary instead.

use vstd::prelude::*;

verus! {

use vstd::string::{StrSliceExecFns, StringExecFns, StringSliceAdditionalSpecFns};
use vstd::utf8::{
    decode_utf8, encode_utf8, is_char_boundary, length_of_first_scalar, pop_first_scalar,
    valid_utf8,
};

broadcast use {
    vstd::utf8::encode_utf8_valid_utf8,
    vstd::utf8::encode_utf8_decode_utf8,
    vstd::utf8::is_char_boundary_start_end_of_seq,
    vstd::utf8::valid_utf8_split,
};

/// Size, in bytes, of one outbound message segment of a long answer.
pub const ANSWER_CHUNK_SIZE: usize = 2048;

/// Byte length above which a listed answer is truncated for display.
pub const TRUNCATE_THRESHOLD: usize = 29;

/// Byte index at which a truncated answer is cut (before boundary adjustment).
pub const TRUNCATE_AT: usize = 25;

/// The smallest char boundary of `bytes` at or after `index` (`bytes.len()`
/// when no boundary follows).
pub open spec fn next_char_boundary(bytes: Seq<u8>, index: int) -> int
    recommends
        0 <= index <= bytes.len(),
    decreases bytes.len() - index,
    when index <= bytes.len()
{
    if index >= bytes.len() {
        bytes.len() as int
    } else if is_char_boundary(bytes, index) {
        index
    } else {
        next_char_boundary(bytes, index + 1)
    }
}

/// `next_char_boundary` lies between `start` and the end of the sequence,
/// skips only non-boundaries, and stops at a boundary or at the end.
pub proof fn lemma_next_char_boundary_props(bytes: Seq<u8>, start: int)
    requires
        0 <= start <= bytes.len(),
    ensures
        start <= next_char_boundary(bytes, start) <= bytes.len(),
        forall|j: int|
            start <= j < next_char_boundary(bytes, start) ==> !is_char_boundary(bytes, j),
        is_char_boundary(bytes, next_char_boundary(bytes, start)) || next_char_boundary(
            bytes,
            start,
        ) == bytes.len(),
    decreases bytes.len() - start,
{
    if start < bytes.len() && !is_char_boundary(bytes, start) {
        lemma_next_char_boundary_props(bytes, start + 1);
    }
}

/// `next_char_boundary` is the only index meeting the conditions of
/// `lemma_next_char_boundary_props`.
pub proof fn lemma_next_char_boundary_characterization(bytes: Seq<u8>, start: int, r: int)
    requires
        0 <= start <= r <= bytes.len(),
        forall|j: int| start <= j < r ==> !is_char_boundary(bytes, j),
        is_char_boundary(bytes, r) || r == bytes.len(),
    ensures
        next_char_boundary(bytes, start) == r,
    decreases r - start,
{
    if start < r {
        assert(!is_char_boundary(bytes, start));
        lemma_next_char_boundary_characterization(bytes, start + 1, r);
    }
}

/// In a valid UTF-8 sequence the boundary adjustment moves an index forward
/// by at most 3 bytes: no character encoding is longer than 4 bytes.
pub proof fn lemma_next_char_boundary_within_3(bytes: Seq<u8>, start: int)
    requires
        valid_utf8(bytes),
        0 <= start <= bytes.len(),
    ensures
        next_char_boundary(bytes, start) <= start + 3,
    decreases bytes.len(),
{
    if start == 0 {
        assert(is_char_boundary(bytes, 0));
        lemma_next_char_boundary_characterization(bytes, 0, 0);
    } else {
        let len_first = length_of_first_scalar(bytes);
        let tail = pop_first_scalar(bytes);
        assert(valid_utf8(tail));
        assert(1 <= len_first <= 4 && len_first <= bytes.len());
        if start < len_first {
            assert forall|j: int| start <= j < len_first implies !is_char_boundary(bytes, j) by {
                assert(is_char_boundary(bytes, j) == is_char_boundary(tail, j - len_first));
            }
            if len_first < bytes.len() {
                assert(is_char_boundary(bytes, len_first) == is_char_boundary(tail, 0));
            }
            lemma_next_char_boundary_characterization(bytes, start, len_first);
        } else {
            lemma_next_char_boundary_shift(bytes, start);
            lemma_next_char_boundary_within_3(tail, start - len_first);
        }
    }
}

/// Popping the first scalar shifts `next_char_boundary` by that scalar's
/// length, for starting points past it.
proof fn lemma_next_char_boundary_shift(bytes: Seq<u8>, start: int)
    requires
        valid_utf8(bytes),
        bytes.len() > 0,
        length_of_first_scalar(bytes) <= start <= bytes.len(),
    ensures
        next_char_boundary(bytes, start) == length_of_first_scalar(bytes) + next_char_boundary(
            pop_first_scalar(bytes),
            start - length_of_first_scalar(bytes),
        ),
{
    let len_first = length_of_first_scalar(bytes);
    let tail = pop_first_scalar(bytes);
    assert(valid_utf8(tail));
    assert(1 <= len_first <= 4 && len_first <= bytes.len());
    let r = next_char_boundary(tail, start - len_first);
    lemma_next_char_boundary_props(tail, start - len_first);
    assert forall|j: int| start <= j < len_first + r implies !is_char_boundary(bytes, j) by {
        assert(is_char_boundary(bytes, j) == is_char_boundary(tail, j - len_first));
    }
    if r < tail.len() {
        assert(is_char_boundary(bytes, len_first + r) == is_char_boundary(tail, r));
    }
    lemma_next_char_boundary_characterization(bytes, start, len_first + r);
}

/// The byte length of a string slice.  Unlike the spec of `str::len`, the
/// result is known to equal the spec-level byte count exactly, which also
/// shows that count fits in `usize`.
pub fn str_byte_len(s: &str) -> (n: usize)
    ensures
        n == s.spec_bytes().len(),
{
    s.as_bytes().len()
}

/// Moves `index` forward, one byte at a time, until it sits on a character
/// boundary of `string` or reaches the end.  Out-of-range indices come back
/// unchanged.
pub fn find_nex_char_boundary(index: usize, string: &str) -> (r: usize)
    ensures
        index <= string.spec_bytes().len() ==> r == next_char_boundary(
            string.spec_bytes(),
            index as int,
        ),
        index > string.spec_bytes().len() ==> r == index,
{
    let ghost bytes = string.spec_bytes();
    let len = str_byte_len(string);
    let mut i = index;
    while !string.is_char_boundary(i) && i < len
        invariant
            bytes == string.spec_bytes(),
            len == bytes.len(),
            index <= bytes.len() ==> index <= i <= bytes.len(),
            index > bytes.len() ==> i == index,
            forall|j: int| index <= j < i ==> !is_char_boundary(bytes, j),
        decreases bytes.len() - i,
    {
        proof {
            assert(!is_char_boundary(bytes, i as int));
        }
        i = i + 1;
    }
    proof {
        if index <= bytes.len() {
            lemma_next_char_boundary_characterization(bytes, index as int, i as int);
        }
    }
    i
}

/// The segments an answer is split into: full segments are cut where the
/// boundary adjustment of `size` lands; the final segment is whatever is
/// left.
pub open spec fn spec_chunks(bytes: Seq<u8>, size: int) -> Seq<Seq<u8>>
    recommends
        size > 0,
    decreases bytes.len(),
    when size > 0 via spec_chunks_decreases
{
    if bytes.len() <= size {
        if bytes.len() == 0 {
            Seq::empty()
        } else {
            seq![bytes]
        }
    } else {
        let cut = next_char_boundary(bytes, size);
        seq![bytes.take(cut)] + spec_chunks(bytes.skip(cut), size)
    }
}

#[via_fn]
proof fn spec_chunks_decreases(bytes: Seq<u8>, size: int) {
    if bytes.len() > size {
        lemma_next_char_boundary_props(bytes, size);
    }
}

/// Concatenating the segments gives the original bytes back.
pub proof fn lemma_chunks_concat(bytes: Seq<u8>, size: int)
    requires
        size > 0,
    ensures
        spec_chunks(bytes, size).flatten() == bytes,
    decreases bytes.len(),
{
    if bytes.len() <= size {
        if bytes.len() == 0 {
            assert(spec_chunks(bytes, size).flatten() =~= bytes);
        } else {
            seq![bytes].lemma_flatten_one_element();
        }
    } else {
        let cut = next_char_boundary(bytes, size);
        lemma_next_char_boundary_props(bytes, size);
        lemma_chunks_concat(bytes.skip(cut), size);
        vstd::seq_lib::lemma_flatten_concat(
            seq![bytes.take(cut)],
            spec_chunks(bytes.skip(cut), size),
        );
        seq![bytes.take(cut)].lemma_flatten_one_element();
        assert(bytes.take(cut) + bytes.skip(cut) =~= bytes);
    }
}

/// Every cut of the segmentation falls on a character boundary, so no
/// segment starts or ends inside a character: each one is valid UTF-8.
pub proof fn lemma_chunks_valid_utf8(bytes: Seq<u8>, size: int)
    requires
        valid_utf8(bytes),
        size > 0,
    ensures
        forall|k: int|
            0 <= k < spec_chunks(bytes, size).len() ==> valid_utf8(
                #[trigger] spec_chunks(bytes, size)[k],
            ),
    decreases bytes.len(),
{
    if bytes.len() > size {
        let cut = next_char_boundary(bytes, size);
        lemma_next_char_boundary_props(bytes, size);
        assert(is_char_boundary(bytes, cut));
        assert(bytes.take(cut) =~= bytes.subrange(0, cut));
        assert(bytes.skip(cut) =~= bytes.subrange(cut, bytes.len() as int));
        assert(valid_utf8(bytes.subrange(0, cut)));
        assert(valid_utf8(bytes.subrange(cut, bytes.len() as int)));
        lemma_chunks_valid_utf8(bytes.skip(cut), size);
        let rec = spec_chunks(bytes.skip(cut), size);
        assert forall|k: int| 0 <= k < spec_chunks(bytes, size).len() implies valid_utf8(
            #[trigger] spec_chunks(bytes, size)[k],
        ) by {
            if k == 0 {
                assert(spec_chunks(bytes, size)[0] == bytes.take(cut));
            } else {
                assert(spec_chunks(bytes, size)[k] == rec[k - 1]);
            }
        }
    }
}

/// Splits `answer` into segments of at most `size` bytes plus boundary
/// adjustment, never cutting inside a character's encoding.
pub fn chunk_answer(answer: &str, size: usize) -> (r: Vec<String>)
    requires
        size > 0,
    ensures
        Seq::new(r@.len(), |i: int| encode_utf8(r@[i]@)) == spec_chunks(
            answer.spec_bytes(),
            size as int,
        ),
{
    let ghost whole = answer.spec_bytes();
    let mut out: Vec<String> = Vec::new();
    let mut rest: &str = answer;
    let mut rest_len = str_byte_len(rest);
    while rest_len > size
        invariant
            size > 0,
            rest_len == rest.spec_bytes().len(),
            spec_chunks(whole, size as int) =~= Seq::new(
                out@.len(),
                |i: int| encode_utf8(out@[i]@),
            ) + spec_chunks(rest.spec_bytes(), size as int),
        decreases rest.spec_bytes().len(),
    {
        let ghost bytes = rest.spec_bytes();
        let cut = find_nex_char_boundary(size, rest);
        proof {
            lemma_next_char_boundary_props(bytes, size as int);
            if cut == bytes.len() {
                assert(is_char_boundary(bytes, bytes.len() as int));
            }
        }
        let (head, tail) = rest.split_at(cut);
        let piece = head.to_owned();
        proof {
            assert(head.spec_bytes() =~= bytes.take(cut as int));
            assert(tail.spec_bytes() =~= bytes.skip(cut as int));
            assert(encode_utf8(piece@) == head.spec_bytes());
        }
        out.push(piece);
        rest = tail;
        rest_len = str_byte_len(rest);
        proof {
            assert(spec_chunks(bytes, size as int) =~= seq![bytes.take(cut as int)] + spec_chunks(
                bytes.skip(cut as int),
                size as int,
            ));
            assert(spec_chunks(whole, size as int) =~= Seq::new(
                out@.len(),
                |i: int| encode_utf8(out@[i]@),
            ) + spec_chunks(rest.spec_bytes(), size as int));
        }
    }
    if rest_len > 0 {
        let piece = rest.to_owned();
        proof {
            assert(encode_utf8(piece@) == rest.spec_bytes());
            assert(spec_chunks(rest.spec_bytes(), size as int) =~= seq![rest.spec_bytes()]);
        }
        out.push(piece);
    } else {
        proof {
            assert(spec_chunks(rest.spec_bytes(), size as int) =~= Seq::<Seq<u8>>::empty());
        }
    }
    proof {
        assert(Seq::new(out@.len(), |i: int| encode_utf8(out@[i]@)) =~= spec_chunks(
            whole,
            size as int,
        ));
    }
    out
}

/// Shortens a long answer for list display: answers over
/// [`TRUNCATE_THRESHOLD`] bytes are cut at the character boundary at or
/// after byte [`TRUNCATE_AT`], with `" ..."` appended.
pub fn truncate_answer(answer: &str) -> (r: String)
    ensures
        answer.spec_bytes().len() <= TRUNCATE_THRESHOLD ==> r@ == answer@,
        answer.spec_bytes().len() > TRUNCATE_THRESHOLD ==> r@ == decode_utf8(
            answer.spec_bytes().take(next_char_boundary(answer.spec_bytes(), TRUNCATE_AT as int)),
        ) + " ..."@,
{
    let ghost bytes = answer.spec_bytes();
    if str_byte_len(answer) > TRUNCATE_THRESHOLD {
        let cut = find_nex_char_boundary(TRUNCATE_AT, answer);
        proof {
            lemma_next_char_boundary_props(bytes, TRUNCATE_AT as int);
            if cut == bytes.len() {
                assert(is_char_boundary(bytes, bytes.len() as int));
            }
        }
        let (head, _) = answer.split_at(cut);
        let mut trunk = head.to_owned();
        trunk.append(" ...");
        proof {
            assert(head.spec_bytes() =~= bytes.take(cut as int));
            assert(decode_utf8(encode_utf8(head@)) == head@);
        }
        trunk
    } else {
        answer.to_owned()
    }
}

} // verus!
