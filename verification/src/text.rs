//! Text the way a `str` holds it: a sequence of characters that is stored
//! in UTF-8 and addressed by byte offsets.

use vstd::prelude::*;
use vstd::string::StringSliceAdditionalSpecFns;
use vstd::utf8::*;

verus! {

/// Number of bytes that `s` takes in UTF-8.
pub open spec fn utf8_len(s: Seq<char>) -> nat {
    encode_utf8(s).len()
}

/// Whether the byte offset `at` falls between two characters of `s`, or at
/// one of its ends.
pub open spec fn is_boundary(s: Seq<char>, at: int) -> bool {
    is_char_boundary(encode_utf8(s), at)
}

/// The characters of `s` stored from byte offset `from` up to `to`: what
/// `&s[from..to]` is for a `str`.
pub open spec fn slice(s: Seq<char>, from: int, to: int) -> Seq<char> {
    decode_utf8(encode_utf8(s).subrange(from, to))
}

/// Whether `s` can be cut in two at the byte offset `at`: `at` lies in `s`
/// between characters, the part before it takes `at` bytes, and the two
/// parts one after the other are `s`.
pub open spec fn splits_at(s: Seq<char>, at: int) -> bool {
    &&& 0 <= at <= utf8_len(s)
    &&& is_boundary(s, at)
    &&& utf8_len(slice(s, 0, at)) == at
    &&& s == slice(s, 0, at) + slice(s, at, utf8_len(s) as int)
}

/// Encoding goes through concatenation.
pub proof fn lemma_encode_concat(a: Seq<char>, b: Seq<char>)
    ensures
        encode_utf8(a + b) == encode_utf8(a) + encode_utf8(b),
        utf8_len(a + b) == utf8_len(a) + utf8_len(b),
    decreases a.len(),
{
    if a.len() > 0 {
        assert((a + b).drop_first() =~= a.drop_first() + b);
        lemma_encode_concat(a.drop_first(), b);
    }
}

/// A single character takes between one and four bytes.
pub proof fn lemma_char_width(c: char)
    ensures
        encode_utf8(seq![c]) == encode_scalar(c as u32),
        1 <= utf8_len(seq![c]) <= 4,
{
    reveal_with_fuel(encode_utf8, 2);
}

/// Text is never shorter in bytes than in characters.
pub proof fn lemma_utf8_len_bounds(s: Seq<char>)
    ensures
        s.len() <= utf8_len(s),
        utf8_len(s) == 0 ==> s.len() == 0,
    decreases s.len(),
{
    if s.len() > 0 {
        lemma_utf8_len_bounds(s.drop_first());
    }
}

/// The place where two well-formed byte strings meet is a character
/// boundary of the two put together.
proof fn lemma_boundary_between(x: Seq<u8>, y: Seq<u8>)
    requires
        valid_utf8(x),
        valid_utf8(y),
    ensures
        valid_utf8(x + y),
        is_char_boundary(x + y, x.len() as int),
    decreases x.len(),
{
    if x.len() > 0 {
        assert(pop_first_scalar(x + y) =~= pop_first_scalar(x) + y);
        lemma_boundary_between(pop_first_scalar(x), y);
    }
}

/// Within the bytes from one boundary to a later one, the boundaries are
/// those of the whole text.
proof fn lemma_boundary_within(bytes: Seq<u8>, from: int, to: int, at: int)
    requires
        valid_utf8(bytes),
        is_char_boundary(bytes, from),
        is_char_boundary(bytes, to),
        from <= to,
        0 <= at <= to - from,
    ensures
        valid_utf8(bytes.subrange(from, to)),
        is_char_boundary(bytes.subrange(from, to), at) <==> is_char_boundary(bytes, from + at),
{
    let head = bytes.subrange(0, to);
    let mid = bytes.subrange(from, to);
    valid_utf8_split(bytes, to);
    if from < to {
        is_char_boundary_iff_not_is_continuation_byte(bytes, from);
        is_char_boundary_iff_not_is_continuation_byte(head, from);
    } else {
        is_char_boundary_start_end_of_seq(head);
    }
    valid_utf8_split(head, from);
    assert(head.subrange(from, head.len() as int) =~= mid);
    if at < to - from {
        is_char_boundary_iff_not_is_continuation_byte(mid, at);
        is_char_boundary_iff_not_is_continuation_byte(bytes, from + at);
    } else {
        is_char_boundary_start_end_of_seq(mid);
    }
}

/// The first `n` characters of `s` end at a boundary, and the slices on
/// either side of it are those characters and the rest.
pub proof fn lemma_take_is_slice(s: Seq<char>, n: int)
    requires
        0 <= n <= s.len(),
    ensures
        utf8_len(s.take(n)) + utf8_len(s.skip(n)) == utf8_len(s),
        is_boundary(s, utf8_len(s.take(n)) as int),
        slice(s, 0, utf8_len(s.take(n)) as int) == s.take(n),
        slice(s, utf8_len(s.take(n)) as int, utf8_len(s) as int) == s.skip(n),
{
    let x = encode_utf8(s.take(n));
    let y = encode_utf8(s.skip(n));
    assert(s =~= s.take(n) + s.skip(n));
    lemma_encode_concat(s.take(n), s.skip(n));
    encode_utf8_valid_utf8(s.take(n));
    encode_utf8_valid_utf8(s.skip(n));
    lemma_boundary_between(x, y);
    assert((x + y).subrange(0, x.len() as int) =~= x);
    assert((x + y).subrange(x.len() as int, (x + y).len() as int) =~= y);
    encode_utf8_decode_utf8(s.take(n));
    encode_utf8_decode_utf8(s.skip(n));
}

/// A boundary lies within the text.
pub proof fn lemma_boundary_bounds(s: Seq<char>, at: int)
    requires
        is_boundary(s, at),
    ensures
        0 <= at <= utf8_len(s),
{
    encode_utf8_valid_utf8(s);
}

/// A slice between two boundaries is stored in exactly the bytes between
/// them.
pub proof fn lemma_slice_bytes(s: Seq<char>, from: int, to: int)
    requires
        is_boundary(s, from),
        is_boundary(s, to),
        from <= to,
    ensures
        0 <= from <= to <= utf8_len(s),
        encode_utf8(slice(s, from, to)) == encode_utf8(s).subrange(from, to),
        utf8_len(slice(s, from, to)) == to - from,
{
    let bytes = encode_utf8(s);
    encode_utf8_valid_utf8(s);
    lemma_boundary_within(bytes, from, to, 0);
    decode_utf8_encode_utf8(bytes.subrange(from, to));
}

/// Cutting a text at a boundary and putting the two slices together gives
/// the text back.
pub proof fn lemma_slice_split(s: Seq<char>, from: int, at: int, to: int)
    requires
        is_boundary(s, from),
        is_boundary(s, at),
        is_boundary(s, to),
        from <= at <= to,
    ensures
        slice(s, from, to) == slice(s, from, at) + slice(s, at, to),
        slice(s, from, at) == slice(s, from, to).take(slice(s, from, at).len() as int),
        slice(s, at, to) == slice(s, from, to).skip(slice(s, from, at).len() as int),
{
    let bytes = encode_utf8(s);
    let mid = bytes.subrange(from, to);
    encode_utf8_valid_utf8(s);
    lemma_boundary_within(bytes, from, to, at - from);
    decode_utf8_split(mid, at - from);
    assert(mid.subrange(0, at - from) =~= bytes.subrange(from, at));
    assert(mid.subrange(at - from, mid.len() as int) =~= bytes.subrange(at, to));
}

/// A text can be cut in two at each of its boundaries.
pub proof fn lemma_splits_at(s: Seq<char>, at: int)
    requires
        is_boundary(s, at),
    ensures
        splits_at(s, at),
{
    lemma_slice_all(s);
    lemma_boundary_bounds(s, at);
    lemma_slice_bytes(s, 0, at);
    lemma_slice_split(s, 0, at, utf8_len(s) as int);
}

/// The whole of a text is the slice from its first byte to its last.
pub proof fn lemma_slice_all(s: Seq<char>)
    ensures
        is_boundary(s, 0),
        is_boundary(s, utf8_len(s) as int),
        slice(s, 0, utf8_len(s) as int) == s,
        slice(s, 0, 0) == Seq::<char>::empty(),
        slice(s, utf8_len(s) as int, utf8_len(s) as int) == Seq::<char>::empty(),
{
    let bytes = encode_utf8(s);
    encode_utf8_valid_utf8(s);
    is_char_boundary_start_end_of_seq(bytes);
    assert(bytes.subrange(0, bytes.len() as int) =~= bytes);
    encode_utf8_decode_utf8(s);
}

/// Offsets into a slice are offsets into the text, moved by where the
/// slice starts.
pub proof fn lemma_slice_of_slice(s: Seq<char>, from: int, to: int, a: int, b: int)
    requires
        is_boundary(s, from),
        is_boundary(s, to),
        from <= to,
        0 <= a <= b <= to - from,
    ensures
        is_boundary(slice(s, from, to), a) <==> is_boundary(s, from + a),
        is_boundary(slice(s, from, to), b) <==> is_boundary(s, from + b),
        slice(slice(s, from, to), a, b) == slice(s, from + a, from + b),
{
    let bytes = encode_utf8(s);
    encode_utf8_valid_utf8(s);
    lemma_slice_bytes(s, from, to);
    lemma_boundary_within(bytes, from, to, a);
    lemma_boundary_within(bytes, from, to, b);
    assert(bytes.subrange(from, to).subrange(a, b) =~= bytes.subrange(from + a, from + b));
}

/// Length of `s` in bytes.
pub fn byte_len(s: &str) -> (n: usize)
    ensures
        n == utf8_len(s@),
{
    s.as_bytes().len()
}

/// Number of bytes that `c` takes in UTF-8.
pub fn char_len(c: char) -> (n: usize)
    ensures
        n == utf8_len(seq![c]),
        1 <= n <= 4,
{
    proof {
        lemma_char_width(c);
    }
    let v: u32 = c as u32;
    if v < 0x80 {
        1
    } else if v < 0x800 {
        2
    } else if v < 0x10000 {
        3
    } else {
        4
    }
}

/// The part of `s` from byte offset `from` to its end.
pub fn tail<'a>(s: &'a str, from: usize) -> (r: &'a str)
    requires
        is_boundary(s@, from as int),
    ensures
        r@ == slice(s@, from as int, utf8_len(s@) as int),
{
    let r = s.split_at(from).1;
    proof {
        encode_utf8_decode_utf8(r@);
    }
    r
}

/// The part of `s` from byte offset `from` up to `to`.
pub fn between<'a>(s: &'a str, from: usize, to: usize) -> (r: &'a str)
    requires
        is_boundary(s@, from as int),
        is_boundary(s@, to as int),
        from <= to,
    ensures
        r@ == slice(s@, from as int, to as int),
{
    let head = s.split_at(to).0;
    proof {
        let bytes = encode_utf8(s@);
        encode_utf8_valid_utf8(s@);
        lemma_boundary_within(bytes, 0, to as int, from as int);
    }
    let r = head.split_at(from).1;
    proof {
        let bytes = encode_utf8(s@);
        assert(r.spec_bytes() =~= bytes.subrange(from as int, to as int));
        encode_utf8_decode_utf8(r@);
    }
    r
}

} // verus!
