//! The matcher: a cursor into a path, and the captures made on the way.

use vstd::pervasive::unreached;
use vstd::prelude::*;
use crate::pattern::{Pattern, PatternKind};
use crate::shape::{cut, is_span, Extract, Grow, Shape};
use crate::text::{
    between, byte_len, is_boundary, lemma_boundary_bounds, lemma_char_width, lemma_encode_concat,
    lemma_slice_all, lemma_slice_bytes, lemma_slice_of_slice, lemma_slice_split,
    lemma_take_is_slice, slice, tail, utf8_len,
};

verus! {

/// The target of a request, in one of the four forms that a request line
/// can hold.
#[derive(Debug, Clone, Copy)]
pub enum RequestTarget<'a> {
    /// A path, with a query after the first `?` if there is one.
    AbsolutePath(&'a str),
    /// A whole URI, of which the path and the query are given.
    AbsoluteUri {
        /// The path of the URI.
        path: &'a str,
        /// The query of the URI, without the `?` before it, if it has one.
        query: Option<&'a str>,
    },
    /// A host and port, as sent to open a tunnel. It has no path.
    Authority(&'a str),
    /// `*`, the server as a whole. It has no path.
    Star,
}

impl<'a> RequestTarget<'a> {
    /// Whether the target has a path that a matcher can walk.
    pub open spec fn has_path(&self) -> bool {
        *self is AbsolutePath || *self is AbsoluteUri
    }

    /// Whether the target has a path that a matcher can walk.
    #[verifier::when_used_as_spec(has_path)]
    pub fn carries_path(&self) -> (yes: bool)
        ensures
            yes == self.has_path(),
    {
        match self {
            RequestTarget::AbsolutePath(_) => true,
            RequestTarget::AbsoluteUri { .. } => true,
            RequestTarget::Authority(_) => false,
            RequestTarget::Star => false,
        }
    }
}

/// Whether `path` and `query` are what stands in `source` before and after
/// its first `?`. Without a `?` the path is all of `source` and there is
/// no query.
pub open spec fn splits_at_query(
    source: Seq<char>,
    path: Seq<char>,
    query: Option<Seq<char>>,
) -> bool {
    &&& path.is_prefix_of(source)
    &&& PatternKind::Char('?').until(source, path.len())
    &&& query == if path.len() < source.len() {
        Some(source.skip(path.len() as int + 1))
    } else {
        None
    }
}

/// The text of a string that may be absent.
pub open spec fn text_of(s: Option<&str>) -> Option<Seq<char>> {
    match s {
        Some(s) => Some(s@),
        None => None,
    }
}

/// What a matcher is, for contracts: the path and the query it was built
/// on, how far it has come, and what it has captured.
pub struct MatcherView {
    /// The path.
    pub path: Seq<char>,
    /// The query, if the target had one.
    pub query: Option<Seq<char>>,
    /// The byte offset into the path up to which it has been matched.
    pub cursor: nat,
    /// The captures as byte ranges of the path, first to last.
    pub captures: Seq<(nat, nat)>,
}

impl MatcherView {
    /// What holds of every matcher: the cursor and the two ends of every
    /// capture lie in the path, between characters, and no capture ends
    /// before it starts.
    pub open spec fn inv(self) -> bool {
        &&& self.cursor <= self.end()
        &&& is_boundary(self.path, self.cursor as int)
        &&& forall|i: int|
            0 <= i < self.captures.len() ==> is_span(self.path, #[trigger] self.captures[i])
    }

    /// The byte offset at which the path ends.
    pub open spec fn end(self) -> nat {
        utf8_len(self.path)
    }

    /// The part of the path from the cursor on.
    pub open spec fn rest(self) -> Seq<char> {
        slice(self.path, self.cursor as int, self.end() as int)
    }

    /// The part of the path from the cursor up to the byte offset `to`.
    pub open spec fn upto(self, to: nat) -> Seq<char> {
        slice(self.path, self.cursor as int, to as int)
    }

    /// The captured texts, first to last.
    pub open spec fn texts(self) -> Seq<Seq<char>> {
        cut(self.path, self.captures)
    }

    /// The matcher at the start of `path`, with nothing captured.
    pub open spec fn start(path: Seq<char>, query: Option<Seq<char>>) -> MatcherView {
        MatcherView { path, query, cursor: 0, captures: Seq::empty() }
    }

    /// The matcher moved on to `to`.
    pub open spec fn at(self, to: nat) -> MatcherView {
        MatcherView { cursor: to, ..self }
    }

    /// The matcher moved on to `to`, with what it stepped over as one more
    /// capture behind those it has.
    pub open spec fn capturing(self, to: nat) -> MatcherView {
        MatcherView { cursor: to, captures: self.captures.push((self.cursor, to)), ..self }
    }

    /// Whether the cursor can move on to `to`, and what that does to the
    /// rest: `to` lies at the cursor or after it, between characters, and
    /// the rest is what is stepped over followed by the rest from `to` on.
    pub open spec fn moves_to(self, to: nat) -> bool {
        &&& self.cursor <= to <= self.end()
        &&& is_boundary(self.path, to as int)
        &&& to == self.cursor + utf8_len(self.upto(to))
        &&& self.rest() == self.upto(to) + self.at(to).rest()
    }

    /// Whether `next` is this matcher after a capturing step: moved on, with
    /// what it stepped over as its newest capture.
    pub open spec fn captures_to(self, next: MatcherView) -> bool {
        next == self.capturing(next.cursor) && self.moves_to(next.cursor)
    }

    /// Whether `next` is an outcome of `chomp`: the matcher moved past what
    /// `kind` accounts for at the cursor, or `None` if that is nothing.
    pub open spec fn chomp(self, kind: PatternKind, next: Option<MatcherView>) -> bool {
        match next {
            Some(n) => {
                &&& n == self.at(n.cursor)
                &&& self.moves_to(n.cursor)
                &&& kind.prefix(self.rest(), Some(self.upto(n.cursor).len()))
            },
            None => kind.prefix(self.rest(), None),
        }
    }

    /// Whether `next` is an outcome of `complete`: the matcher moved to the
    /// end of the path if `kind` accounts for all of the rest, `None` if it
    /// does not.
    pub open spec fn complete(self, kind: PatternKind, next: Option<MatcherView>) -> bool {
        match next {
            Some(n) => {
                &&& n == self.at(self.end())
                &&& self.moves_to(self.end())
                &&& kind.whole(self.rest(), true)
            },
            None => kind.whole(self.rest(), false),
        }
    }

    /// Whether `next` is an outcome of `capture_while`: as for `chomp`, and
    /// what was stepped over is captured.
    pub open spec fn capture_while(self, kind: PatternKind, next: Option<MatcherView>) -> bool {
        match next {
            Some(n) => {
                &&& self.captures_to(n)
                &&& kind.prefix(self.rest(), Some(self.upto(n.cursor).len()))
            },
            None => kind.prefix(self.rest(), None),
        }
    }

    /// Whether `next` is an outcome of `capture_until`: the matcher moved
    /// to the first place in the rest where `kind` begins to match, or to
    /// the end of the path if there is none, and what was stepped over is
    /// captured.
    pub open spec fn capture_until(self, kind: PatternKind, next: MatcherView) -> bool {
        &&& self.captures_to(next)
        &&& kind.until(self.rest(), self.upto(next.cursor).len())
    }

    /// The outcome of `capture_rest`: the matcher at the end of the path,
    /// with the rest captured.
    pub open spec fn capture_rest(self) -> MatcherView {
        self.capturing(self.end())
    }
}

/// The path and the query of a target. Every matcher made from one target
/// refers to the same two strings.
#[derive(Debug, Clone, Copy)]
struct Parts<'a> {
    path: &'a str,
    query: Option<&'a str>,
}

/// A cursor into the path of a request target, with the captures made so
/// far. `T` is the tuple of the captures; it grows by one with each
/// capturing step.
///
/// A matcher is never changed: each step gives a new one.
#[derive(Debug)]
pub struct Matcher<'a, T: Shape = ()> {
    parts: Parts<'a>,
    cursor: usize,
    captures: T,
}

impl<'a, T: Shape> View for Matcher<'a, T> {
    type V = MatcherView;

    closed spec fn view(&self) -> MatcherView {
        MatcherView {
            path: self.parts.path@,
            query: text_of(self.parts.query),
            cursor: self.cursor as nat,
            captures: self.captures.spans(),
        }
    }
}

/// The view of a matcher that may be absent.
pub open spec fn view_of<'a, T: Shape>(m: Option<Matcher<'a, T>>) -> Option<MatcherView> {
    match m {
        Some(m) => Some(m@),
        None => None,
    }
}

/// Taking `e` bytes of the rest is moving the cursor on by `e`.
proof fn lemma_step(v: MatcherView, e: int)
    requires
        v.inv(),
        is_boundary(v.rest(), e),
    ensures
        0 <= e,
        v.cursor + e <= v.end(),
        is_boundary(v.path, v.cursor + e),
        slice(v.rest(), 0, e) == v.upto((v.cursor + e) as nat),
{
    lemma_slice_all(v.path);
    lemma_boundary_bounds(v.rest(), e);
    lemma_slice_bytes(v.path, v.cursor as int, v.end() as int);
    lemma_slice_of_slice(v.path, v.cursor as int, v.end() as int, 0, e);
}

/// A matcher can move on to every boundary at its cursor or after it.
pub proof fn lemma_moves(v: MatcherView, to: nat)
    requires
        v.inv(),
        v.cursor <= to,
        is_boundary(v.path, to as int),
    ensures
        v.moves_to(to),
        to == v.end() ==> v.at(to).rest() == Seq::<char>::empty(),
{
    lemma_slice_all(v.path);
    lemma_boundary_bounds(v.path, to as int);
    lemma_slice_split(v.path, v.cursor as int, to as int, v.end() as int);
    lemma_slice_bytes(v.path, v.cursor as int, to as int);
}

/// A step forward to a boundary gives a matcher again, with or without a
/// capture of what was stepped over.
proof fn lemma_step_inv(v: MatcherView, to: nat)
    requires
        v.inv(),
        v.cursor <= to,
        is_boundary(v.path, to as int),
    ensures
        v.at(to).inv(),
        v.capturing(to).inv(),
        v.moves_to(to),
{
    lemma_moves(v, to);
    let next = v.capturing(to);
    assert forall|i: int| 0 <= i < next.captures.len() implies is_span(
        next.path,
        #[trigger] next.captures[i],
    ) by {
        if i < v.captures.len() {
            assert(next.captures[i] == v.captures[i]);
        }
    }
}

impl<'a, T: Shape> Clone for Matcher<'a, T> {
    fn clone(&self) -> (same: Self)
        ensures
            same@ == self@,
    {
        proof {
            use_type_invariant(self);
        }
        Matcher { parts: self.parts, cursor: self.cursor, captures: self.captures.carry() }
    }
}

impl<'a, T: Shape> Matcher<'a, T> {
    /// What holds of every matcher, and that the length of its path is a
    /// `usize`.
    #[verifier::type_invariant]
    pub open spec fn well_formed(&self) -> bool {
        self@.inv() && self@.end() <= usize::MAX
    }

    /// The path that is matched.
    pub fn path(&self) -> (path: &'a str)
        ensures
            path@ == self@.path,
    {
        self.parts.path
    }

    /// The query of the target, if it had one.
    pub fn query(&self) -> (query: Option<&'a str>)
        ensures
            text_of(query) == self@.query,
    {
        self.parts.query
    }

    /// The byte offset into the path up to which it has been matched.
    pub fn cursor(&self) -> (cursor: usize)
        ensures
            cursor == self@.cursor,
    {
        self.cursor
    }

    /// Steps over what `pat` accounts for at the cursor. `None` if that is
    /// nothing.
    pub fn chomp<P: Pattern>(&self, pat: P) -> (next: Option<Self>)
        requires
            pat.ready(),
        ensures
            self@.chomp(pat.kind(), view_of(next)),
    {
        proof {
            use_type_invariant(self);
        }
        let rest = tail(self.parts.path, self.cursor);
        match pat.find_c(rest) {
            Some(e) => {
                proof {
                    lemma_step(self@, e as int);
                    lemma_step_inv(self@, (self.cursor + e) as nat);
                }
                Some(
                    Matcher {
                        parts: self.parts,
                        cursor: self.cursor + e,
                        captures: self.captures.carry(),
                    },
                )
            },
            None => None,
        }
    }

    /// Moves to the end of the path if `pat` accounts for all of the rest.
    /// `None` if it does not.
    pub fn complete<P: Pattern>(&self, pat: P) -> (next: Option<Self>)
        requires
            pat.ready(),
        ensures
            self@.complete(pat.kind(), view_of(next)),
    {
        proof {
            use_type_invariant(self);
            lemma_slice_all(self@.path);
            lemma_step_inv(self@, self@.end());
        }
        let total = byte_len(self.parts.path);
        let rest = tail(self.parts.path, self.cursor);
        if pat.complete(rest) {
            Some(Matcher { parts: self.parts, cursor: total, captures: self.captures.carry() })
        } else {
            None
        }
    }

    /// Steps over what `pat` accounts for at the cursor and captures it.
    /// `None` if that is nothing.
    pub fn capture_while<P: Pattern>(&self, pat: P) -> (next: Option<Matcher<'a, T::Next>>) where
        T: Grow,

        requires
            pat.ready(),
        ensures
            self@.capture_while(pat.kind(), view_of(next)),
    {
        proof {
            use_type_invariant(self);
        }
        let rest = tail(self.parts.path, self.cursor);
        match pat.find_c(rest) {
            Some(e) => {
                proof {
                    lemma_step(self@, e as int);
                    lemma_step_inv(self@, (self.cursor + e) as nat);
                }
                let end = self.cursor + e;
                Some(
                    Matcher {
                        parts: self.parts,
                        cursor: end,
                        captures: self.captures.push(self.cursor, end),
                    },
                )
            },
            None => None,
        }
    }

    /// Captures the rest of the path and moves to its end.
    pub fn capture_rest(&self) -> (next: Matcher<'a, T::Next>) where T: Grow
        ensures
            next@ == self@.capture_rest(),
            self@.captures_to(next@),
    {
        proof {
            use_type_invariant(self);
            lemma_slice_all(self@.path);
            lemma_step_inv(self@, self@.end());
        }
        let end = byte_len(self.parts.path);
        Matcher { parts: self.parts, cursor: end, captures: self.captures.push(self.cursor, end) }
    }

    /// Captures the path up to the first place where `pat` begins to
    /// match, and moves there. Without such a place it captures the rest
    /// and moves to the end.
    pub fn capture_until<P: Pattern>(&self, pat: P) -> (next: Matcher<'a, T::Next>) where T: Grow
        requires
            pat.ready(),
        ensures
            self@.capture_until(pat.kind(), next@),
    {
        proof {
            use_type_invariant(self);
        }
        let rest = tail(self.parts.path, self.cursor);
        let e = pat.find_start(rest);
        proof {
            lemma_step(self@, e as int);
            lemma_step_inv(self@, (self.cursor + e) as nat);
        }
        let end = self.cursor + e;
        Matcher { parts: self.parts, cursor: end, captures: self.captures.push(self.cursor, end) }
    }

    /// The captured texts as slices of the path, first to last. Each is
    /// the part of the path between the two offsets of its capture.
    pub fn captures(&self) -> (out: T::Slices) where T: Extract<'a>
        ensures
            T::texts(out) == self@.texts(),
            forall|i: int|
                0 <= i < self@.captures.len() ==> {
                    let (start, end) = self@.captures[i];
                    &&& #[trigger] T::texts(out)[i] == slice(self@.path, start as int, end as int)
                    &&& utf8_len(T::texts(out)[i]) == end - start
                },
    {
        proof {
            use_type_invariant(self);
            assert forall|i: int| 0 <= i < self.captures.spans().len() implies is_span(
                self.parts.path@,
                #[trigger] self.captures.spans()[i],
            ) by {
                assert(is_span(self@.path, self@.captures[i]));
            }
            assert forall|i: int| 0 <= i < self@.captures.len() implies utf8_len(
                #[trigger] self@.texts()[i],
            ) == self@.captures[i].1 - self@.captures[i].0 by {
                lemma_slice_bytes(
                    self@.path,
                    self@.captures[i].0 as int,
                    self@.captures[i].1 as int,
                );
            }
        }
        self.captures.slices(self.parts.path)
    }
}

impl<'a> Matcher<'a, ()> {
    /// A matcher at the start of the path of `target`.
    ///
    /// The target must have a path: see [`RequestTarget::carries_path`].
    pub fn build(target: &RequestTarget<'a>) -> (m: Self)
        requires
            target.has_path(),
        ensures
            m@ == MatcherView::start(m@.path, m@.query),
            m@.rest() == m@.path,
            match *target {
                RequestTarget::AbsolutePath(source) => splits_at_query(source@, m@.path, m@.query),
                RequestTarget::AbsoluteUri { path, query } => m@.path == path@ && m@.query
                    == text_of(query),
                _ => true,
            },
    {
        let (path, query) = match *target {
            RequestTarget::AbsolutePath(source) => {
                let at = '?'.find_start(source);
                let total = byte_len(source);
                proof {
                    lemma_slice_all(source@);
                }
                if at < total {
                    proof {
                        // The `?` at `at` is one byte wide, so the query
                        // starts one byte further on.
                        let n = slice(source@, 0, at as int).len() as int;
                        lemma_slice_split(source@, 0, at as int, total as int);
                        lemma_take_is_slice(source@, n + 1);
                        assert(source@.take(n + 1) =~= source@.take(n) + seq!['?']);
                        lemma_encode_concat(source@.take(n), seq!['?']);
                        lemma_char_width('?');
                    }
                    (between(source, 0, at), Some(tail(source, at + 1)))
                } else {
                    (source, None)
                }
            },
            RequestTarget::AbsoluteUri { path, query } => (path, query),
            _ => unreached(),
        };
        // Read for the bound that comes with it: a `str` is no longer than
        // `usize::MAX` bytes.
        let _ = byte_len(path);
        proof {
            lemma_slice_all(path@);
        }
        Matcher { parts: Parts { path, query }, cursor: 0, captures: () }
    }
}

} // verus!
