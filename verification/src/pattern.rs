//! What a matching step can look for: one character, a literal text, or a
//! run of characters chosen by a predicate.

use vstd::prelude::*;
use vstd::std_specs::iter::IteratorSpec;
use vstd::utf8::*;
use crate::text::{
    byte_len, char_len, is_boundary, lemma_encode_concat, lemma_slice_all, lemma_slice_bytes,
    lemma_slice_split, lemma_splits_at, lemma_take_is_slice, lemma_utf8_len_bounds, slice,
    splits_at, utf8_len,
};

verus! {

/// What a pattern stands for in contracts.
pub enum PatternKind {
    /// This one character.
    Char(char),
    /// This text, character for character.
    Literal(Seq<char>),
    /// A predicate on characters. `answers(c, r)` says that the
    /// predicate, asked about `c`, may answer `r`.
    Predicate(spec_fn(char, bool) -> bool),
}

impl PatternKind {
    /// Whether the pattern gives one answer only about every character. A
    /// character and a literal always do; a predicate does unless it may
    /// answer both ways about the same character.
    pub open spec fn decided(self) -> bool {
        match self {
            PatternKind::Predicate(answers) => forall|c: char|
                !(#[trigger] answers(c, true) && answers(c, false)),
            _ => true,
        }
    }

    /// Whether the pattern accounts for exactly the first `n` characters of
    /// `hay`: for the one character, for the literal, or, with a
    /// predicate, for the longest run of characters that satisfy it, which
    /// must not be empty. `None` says that it accounts for nothing at the
    /// start of `hay`.
    pub open spec fn prefix(self, hay: Seq<char>, n: Option<nat>) -> bool {
        match self {
            PatternKind::Char(c) => n == if hay.len() > 0 && hay[0] == c {
                Some(1nat)
            } else {
                None
            },
            PatternKind::Literal(lit) => n == if lit.is_prefix_of(hay) {
                Some(lit.len())
            } else {
                None
            },
            PatternKind::Predicate(answers) => match n {
                Some(n) => {
                    &&& 0 < n <= hay.len()
                    &&& forall|i: int| 0 <= i < n ==> answers(#[trigger] hay[i], true)
                    &&& n < hay.len() ==> answers(hay[n as int], false)
                },
                None => hay.len() > 0 ==> answers(hay[0], false),
            },
        }
    }

    /// Whether `ok` tells rightly if the pattern accounts for all of `hay`:
    /// `hay` is the character, is the literal, or holds only characters
    /// that satisfy the predicate.
    pub open spec fn whole(self, hay: Seq<char>, ok: bool) -> bool {
        match self {
            PatternKind::Char(c) => ok == (hay =~= seq![c]),
            PatternKind::Literal(lit) => ok == (hay =~= lit),
            PatternKind::Predicate(answers) => if ok {
                forall|i: int| 0 <= i < hay.len() ==> answers(#[trigger] hay[i], true)
            } else {
                exists|i: int| 0 <= i < hay.len() && answers(#[trigger] hay[i], false)
            },
        }
    }

    /// Whether the first place in `hay` where the pattern begins to match
    /// is character `n`, or there is no such place and `n` is the length
    /// of `hay`. The character matches where it stands, the literal where
    /// `hay` goes on with it, a predicate at a character that satisfies
    /// it.
    pub open spec fn until(self, hay: Seq<char>, n: nat) -> bool {
        &&& n <= hay.len()
        &&& match self {
            PatternKind::Char(c) => {
                &&& forall|i: int| 0 <= i < n ==> #[trigger] hay[i] != c
                &&& n < hay.len() ==> hay[n as int] == c
            },
            PatternKind::Literal(lit) => {
                &&& forall|i: int| 0 <= i < n ==> !lit.is_prefix_of(#[trigger] hay.skip(i))
                &&& n < hay.len() ==> lit.is_prefix_of(hay.skip(n as int))
            },
            PatternKind::Predicate(answers) => {
                &&& forall|i: int| 0 <= i < n ==> answers(#[trigger] hay[i], false)
                &&& n < hay.len() ==> answers(hay[n as int], true)
            },
        }
    }
}

/// The answers that a predicate gives: `answers(f)(c, r)` says that `f(c)`
/// may return `r`.
pub open spec fn answers<F: Fn(char) -> bool>(f: F) -> spec_fn(char, bool) -> bool {
    |c: char, r: bool| call_ensures(f, (c,), r)
}

/// A value that a matching step can take as its pattern: a `char`, a
/// `&str`, or a predicate `Fn(char) -> bool`.
pub trait Pattern: Sized {
    /// What the pattern stands for.
    spec fn kind(&self) -> PatternKind;

    /// What must hold before the pattern is used. For a predicate: that it
    /// can be asked about every character.
    spec fn ready(&self) -> bool;

    /// The byte offset at which the part of `hay` ends that the pattern
    /// accounts for, counted from the start of `hay`.
    fn find_c(self, hay: &str) -> (end: Option<usize>)
        requires
            self.ready(),
        ensures
            match end {
                Some(e) => splits_at(hay@, e as int) && self.kind().prefix(
                    hay@,
                    Some(slice(hay@, 0, e as int).len()),
                ),
                None => self.kind().prefix(hay@, None),
            },
    ;

    /// Whether the pattern accounts for all of `hay`.
    fn complete(self, hay: &str) -> (ok: bool)
        requires
            self.ready(),
        ensures
            self.kind().whole(hay@, ok),
    ;

    /// The byte offset of the first place in `hay` where the pattern begins
    /// to match, or the length of `hay` if there is none.
    fn find_start(self, hay: &str) -> (at: usize)
        requires
            self.ready(),
        ensures
            splits_at(hay@, at as int),
            self.kind().until(hay@, slice(hay@, 0, at as int).len()),
    ;
}

/// One more character adds its own width to the length in bytes.
proof fn lemma_take_step(s: Seq<char>, k: int)
    requires
        0 <= k < s.len(),
    ensures
        utf8_len(s.take(k + 1)) == utf8_len(s.take(k)) + utf8_len(seq![s[k]]),
        utf8_len(s.take(k + 1)) <= utf8_len(s),
{
    assert(s.take(k + 1) =~= s.take(k) + seq![s[k]]);
    lemma_encode_concat(s.take(k), seq![s[k]]);
    lemma_take_is_slice(s, k + 1);
}

/// Walks `hay` for as long as `pred` answers `want`. Returns the byte
/// offset at which the walk ends: before the first character for which the
/// answer differs, or at the end of `hay`.
fn scan<F: Fn(char) -> bool>(pred: F, hay: &str, want: bool) -> (end: usize)
    requires
        forall|c: char| call_requires(pred, (c,)),
    ensures
        splits_at(hay@, end as int),
        forall|i: int|
            0 <= i < slice(hay@, 0, end as int).len() ==> call_ensures(
                pred,
                (#[trigger] hay@[i],),
                want,
            ),
        slice(hay@, 0, end as int).len() < hay@.len() ==> call_ensures(
            pred,
            (hay@[slice(hay@, 0, end as int).len() as int],),
            !want,
        ),
{
    let total = byte_len(hay);
    let mut rest = hay.chars();
    let mut end: usize = 0;
    let ghost mut k: int = 0;
    proof {
        assert(hay@.take(0) =~= Seq::<char>::empty());
        lemma_utf8_len_bounds(hay@);
    }
    while end < total
        invariant_except_break
            rest.remaining() == hay@.skip(k),
        invariant
            forall|c: char| call_requires(pred, (c,)),
            total == utf8_len(hay@),
            0 <= k <= hay@.len(),
            end == utf8_len(hay@.take(k)),
            end + utf8_len(hay@.skip(k)) == total,
            hay@.len() - k <= utf8_len(hay@.skip(k)),
            forall|i: int| 0 <= i < k ==> call_ensures(pred, (#[trigger] hay@[i],), want),
        ensures
            k < hay@.len() ==> call_ensures(pred, (hay@[k],), !want),
        decreases hay@.len() - k,
    {
        match rest.next() {
            Some(c) => {
                if pred(c) != want {
                    break;
                }
                proof {
                    lemma_take_step(hay@, k);
                    lemma_take_is_slice(hay@, k + 1);
                    lemma_utf8_len_bounds(hay@.skip(k + 1));
                }
                end = end + char_len(c);
                proof {
                    k = k + 1;
                }
            },
            None => {
                break;
            },
        }
    }
    proof {
        lemma_take_is_slice(hay@, k);
        lemma_splits_at(hay@, end as int);
    }
    end
}

impl Pattern for char {
    open spec fn kind(&self) -> PatternKind {
        PatternKind::Char(*self)
    }

    open spec fn ready(&self) -> bool {
        true
    }

    /// The width of the character if `hay` starts with it.
    fn find_c(self, hay: &str) -> (end: Option<usize>) {
        let mut rest = hay.chars();
        match rest.next() {
            Some(first) => {
                if first == self {
                    proof {
                        lemma_take_is_slice(hay@, 1);
                        assert(hay@.take(1) =~= seq![self]);
                        lemma_splits_at(hay@, utf8_len(seq![self]) as int);
                    }
                    Some(char_len(self))
                } else {
                    None
                }
            },
            None => None,
        }
    }

    /// Whether `hay` is the character and nothing else.
    fn complete(self, hay: &str) -> (ok: bool) {
        let mut rest = hay.chars();
        match rest.next() {
            Some(first) => {
                let second = rest.next();
                first == self && second.is_none()
            },
            None => false,
        }
    }

    /// Where the character first stands in `hay`.
    fn find_start(self, hay: &str) -> (at: usize) {
        let differs = |c: char| -> (r: bool)
            ensures
                r == (c != self),
            { c != self };
        scan(differs, hay, true)
    }
}

/// In UTF-8 one text starts with another exactly when its bytes start with
/// the other's bytes.
proof fn lemma_prefix_bytes(lit: Seq<char>, hay: Seq<char>)
    ensures
        encode_utf8(lit).is_prefix_of(encode_utf8(hay)) <==> lit.is_prefix_of(hay),
{
    let lb = encode_utf8(lit);
    let hb = encode_utf8(hay);
    encode_utf8_valid_utf8(lit);
    encode_utf8_valid_utf8(hay);
    if lit.is_prefix_of(hay) {
        // `hay` is `lit` and more, and so are its bytes.
        let more = hay.skip(lit.len() as int);
        assert(hay =~= lit + more);
        lemma_encode_concat(lit, more);
    }
    if lb.is_prefix_of(hb) {
        // What follows the bytes of `lit` is well formed, so it is the
        // encoding of a text, and `hay` is `lit` and that text.
        let after = hb.subrange(lb.len() as int, hb.len() as int);
        assert(hb =~= lb + after);
        if !valid_utf8(after) {
            partial_valid_partial_invalid_utf8(hb, lb.len() as int);
        }
        decode_utf8_encode_utf8(after);
        lemma_encode_concat(lit, decode_utf8(after));
        encode_utf8_decode_utf8(hay);
        encode_utf8_decode_utf8(lit + decode_utf8(after));
    }
}

/// Two texts with the same bytes are the same text.
proof fn lemma_same_bytes(a: Seq<char>, b: Seq<char>)
    requires
        encode_utf8(a) == encode_utf8(b),
    ensures
        a == b,
{
    encode_utf8_decode_utf8(a);
    encode_utf8_decode_utf8(b);
}

/// What a search through the bytes of `hay` for the bytes of `lit` has
/// found, said of the characters: `at` is the first byte offset at which
/// the bytes of `lit` stand, or the length of `hay`.
proof fn lemma_literal_start(lit: Seq<char>, hay: Seq<char>, at: int)
    requires
        0 <= at <= utf8_len(hay),
        forall|p: int|
            0 <= p < at ==> !encode_utf8(lit).is_prefix_of(#[trigger] encode_utf8(hay).skip(p)),
        at < utf8_len(hay) ==> encode_utf8(lit).is_prefix_of(encode_utf8(hay).skip(at)),
    ensures
        splits_at(hay, at),
        PatternKind::Literal(lit).until(hay, slice(hay, 0, at).len()),
{
    let lb = encode_utf8(lit);
    let hb = encode_utf8(hay);
    let total = hb.len() as int;
    encode_utf8_valid_utf8(lit);
    encode_utf8_valid_utf8(hay);
    lemma_slice_all(hay);
    assert(is_boundary(hay, at)) by {
        // Inside `hay` the byte at `at` is the first byte of `lit`, and
        // with that byte a character begins.
        if 0 < at < total {
            is_char_boundary_iff_not_is_continuation_byte(hb, at);
        }
    }
    lemma_splits_at(hay, at);
    let skipped = slice(hay, 0, at);
    let n = skipped.len() as int;
    lemma_slice_split(hay, 0, at, total);
    lemma_slice_bytes(hay, at, total);
    if n < hay.len() {
        lemma_prefix_bytes(lit, hay.skip(n));
    }
    assert forall|i: int| 0 <= i < n implies !lit.is_prefix_of(#[trigger] hay.skip(i)) by {
        // Character `i` starts at a byte offset before `at`, and there the
        // bytes of `lit` do not stand.
        let p = utf8_len(hay.take(i)) as int;
        lemma_take_is_slice(hay, i);
        assert(skipped =~= hay.take(i) + hay.subrange(i, n));
        lemma_encode_concat(hay.take(i), hay.subrange(i, n));
        lemma_slice_bytes(hay, p, total);
        lemma_prefix_bytes(lit, hay.skip(i));
    }
}

/// Whether the bytes of `lit` stand in `hay` at offset `at`.
fn starts_with_at(hay: &[u8], at: usize, lit: &[u8]) -> (r: bool)
    requires
        at <= hay@.len(),
    ensures
        r == lit@.is_prefix_of(hay@.skip(at as int)),
{
    if lit.len() > hay.len() - at {
        return false;
    }
    let mut i: usize = 0;
    while i < lit.len()
        invariant
            at + lit@.len() <= hay@.len() <= usize::MAX,
            i <= lit@.len(),
            forall|j: int| 0 <= j < i ==> lit@[j] == hay@[at + j],
        decreases lit@.len() - i,
    {
        if hay[at + i] != lit[i] {
            return false;
        }
        i = i + 1;
    }
    true
}

impl<'p> Pattern for &'p str {
    open spec fn kind(&self) -> PatternKind {
        PatternKind::Literal(self@)
    }

    open spec fn ready(&self) -> bool {
        true
    }

    /// The length of the literal if `hay` starts with it.
    fn find_c(self, hay: &str) -> (end: Option<usize>) {
        let h = hay.as_bytes();
        let l = self.as_bytes();
        proof {
            lemma_prefix_bytes(self@, hay@);
        }
        if starts_with_at(h, 0, l) {
            proof {
                lemma_take_is_slice(hay@, self@.len() as int);
                lemma_splits_at(hay@, utf8_len(self@) as int);
            }
            Some(l.len())
        } else {
            None
        }
    }

    /// Whether `hay` is the literal.
    fn complete(self, hay: &str) -> (ok: bool) {
        let h = hay.as_bytes();
        let l = self.as_bytes();
        proof {
            assert(h@.skip(0) =~= h@);
            if h@ == l@ {
                lemma_same_bytes(hay@, self@);
            }
        }
        h.len() == l.len() && starts_with_at(h, 0, l)
    }

    /// Where the literal first stands in `hay`.
    fn find_start(self, hay: &str) -> (at: usize) {
        let h = hay.as_bytes();
        let l = self.as_bytes();
        let mut at: usize = 0;
        while at < h.len()
            invariant
                at <= h@.len(),
                forall|p: int| 0 <= p < at ==> !l@.is_prefix_of(#[trigger] h@.skip(p)),
            ensures
                at <= h@.len(),
                forall|p: int| 0 <= p < at ==> !l@.is_prefix_of(#[trigger] h@.skip(p)),
                at < h@.len() ==> l@.is_prefix_of(h@.skip(at as int)),
            decreases h@.len() - at,
        {
            if starts_with_at(h, at, l) {
                break;
            }
            at = at + 1;
        }
        proof {
            lemma_literal_start(self@, hay@, at as int);
        }
        at
    }
}

/// A predicate on characters is a pattern: it accounts for the characters
/// that satisfy it.
///
/// What a step finds with a predicate is said in terms of what the
/// predicate may answer, that is, of its own contract. Verified code that
/// hands a function or a closure to a step learns what `kind` and `ready`
/// are for it from [`crate::laws::law_predicate`].
impl<F: Fn(char) -> bool> Pattern for F {
    open spec fn kind(&self) -> PatternKind {
        PatternKind::Predicate(answers(*self))
    }

    open spec fn ready(&self) -> bool {
        forall|c: char| call_requires(*self, (c,))
    }

    /// The longest run of characters at the start of `hay` that satisfy
    /// the predicate; `None` if the first character does not or `hay` is
    /// empty.
    fn find_c(self, hay: &str) -> (end: Option<usize>) {
        let e = scan(self, hay, true);
        if e == 0 {
            None
        } else {
            Some(e)
        }
    }

    /// Whether every character of `hay` satisfies the predicate.
    fn complete(self, hay: &str) -> (ok: bool) {
        let e = scan(self, hay, true);
        e == byte_len(hay)
    }

    /// Where the first character stands that satisfies the predicate.
    fn find_start(self, hay: &str) -> (at: usize) {
        scan(self, hay, false)
    }
}

} // verus!
