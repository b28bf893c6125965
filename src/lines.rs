use vstd::prelude::*;
use vstd::string::StringSliceAdditionalSpecFns;
use vstd::utf8::*;

verus! {

/// Line feed.
pub const LF: u8 = 10;

/// Carriage return.
pub const CR: u8 = 13;

/// The lines of `b` from position `i` on, where the current line began at
/// `start`. A line ends at a line feed, at a carriage return followed by a
/// line feed (one terminator), or at a carriage return alone; the
/// terminator is dropped. A last line without a terminator is kept, and an
/// empty remainder after the last terminator is no line.
pub open spec fn lines_from(b: Seq<u8>, start: int, i: int) -> Seq<Seq<u8>>
    decreases b.len() - i,
{
    if i >= b.len() {
        if 0 <= start < b.len() {
            seq![b.subrange(start, b.len() as int)]
        } else {
            seq![]
        }
    } else if i < 0 {
        seq![]
    } else if b[i] == LF {
        seq![b.subrange(start, i)] + lines_from(b, i + 1, i + 1)
    } else if b[i] == CR {
        if i + 1 < b.len() && b[i + 1] == LF {
            seq![b.subrange(start, i)] + lines_from(b, i + 2, i + 2)
        } else {
            seq![b.subrange(start, i)] + lines_from(b, i + 1, i + 1)
        }
    } else {
        lines_from(b, start, i + 1)
    }
}

/// The lines of `b`, split at `\n`, `\r\n` and `\r`.
pub open spec fn lines_of(b: Seq<u8>) -> Seq<Seq<u8>> {
    lines_from(b, 0, 0)
}

/// In valid UTF-8 an ASCII byte is a whole character: the position right
/// after it starts a character.
pub proof fn lemma_boundary_after_ascii(b: Seq<u8>, k: int)
    requires
        valid_utf8(b),
        0 <= k < b.len(),
        b[k] <= 0x7f,
    ensures
        is_char_boundary(b, k + 1),
    decreases b.len(),
{
    let w = length_of_first_scalar(b);
    let rest = pop_first_scalar(b);
    assert(rest.len() == b.len() - w);
    if k == 0 {
        assert(w == 1);
        assert(is_char_boundary(rest, 0));
    } else if k < w {
        assert(is_continuation_byte(b[k]));
    } else {
        assert(rest[k - w] == b[k]);
        lemma_boundary_after_ascii(rest, k - w);
    }
}

/// In valid UTF-8 an ASCII byte starts a character.
pub proof fn lemma_boundary_at_ascii(b: Seq<u8>, k: int)
    requires
        valid_utf8(b),
        0 <= k < b.len(),
        b[k] <= 0x7f,
    ensures
        is_char_boundary(b, k),
{
    is_char_boundary_iff_not_is_continuation_byte(b, k);
}

/// The characters between two character boundaries of `s`.
pub fn substring(s: &str, start: usize, end: usize) -> (r: String)
    requires
        start <= end <= s.spec_bytes().len(),
        is_char_boundary(s.spec_bytes(), start as int),
        is_char_boundary(s.spec_bytes(), end as int),
    ensures
        valid_utf8(s.spec_bytes().subrange(start as int, end as int)),
        r@ == decode_utf8(s.spec_bytes().subrange(start as int, end as int)),
{
    let ghost b = s.spec_bytes();
    proof {
        encode_utf8_valid_utf8(s@);
        valid_utf8_split(b, start as int);
    }
    let (_, tail) = s.split_at(start);
    let ghost t = tail.spec_bytes();
    assert(t =~= b.subrange(start as int, b.len() as int));
    proof {
        if end < b.len() {
            is_char_boundary_iff_not_is_continuation_byte(b, end as int);
            is_char_boundary_iff_not_is_continuation_byte(t, end - start);
            assert(t[end - start] == b[end as int]);
        } else {
            is_char_boundary_start_end_of_seq(t);
        }
    }
    let (mid, _) = tail.split_at(end - start);
    assert(mid.spec_bytes() =~= b.subrange(start as int, end as int));
    proof {
        encode_utf8_decode_utf8(mid@);
        encode_utf8_valid_utf8(mid@);
    }
    mid.to_owned()
}

} // verus!
