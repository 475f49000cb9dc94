//! The captures of a matcher as a tuple of byte ranges, one type for each
//! number of captures from none to ten. The type says how many captures
//! there are, so that taking them out of a matcher that holds a different
//! number does not compile.

use vstd::prelude::*;
use crate::text::{between, is_boundary, slice, utf8_len};

verus! {

/// Where a capture starts and ends, as byte offsets into the path.
pub type Span = (usize, usize);

/// Whether `span` can be cut out of `path`: it runs forward, ends within
/// the path, and both ends fall between characters.
pub open spec fn is_span(path: Seq<char>, span: (nat, nat)) -> bool {
    &&& span.0 <= span.1 <= utf8_len(path)
    &&& is_boundary(path, span.0 as int)
    &&& is_boundary(path, span.1 as int)
}

/// The pieces of `path` that `spans` point at, in the order of `spans`.
pub open spec fn cut(path: Seq<char>, spans: Seq<(nat, nat)>) -> Seq<Seq<char>> {
    Seq::new(spans.len(), |i: int| slice(path, spans[i].0 as int, spans[i].1 as int))
}

/// A tuple of captures.
pub trait Shape: Sized {
    /// The captures, first to last.
    spec fn spans(&self) -> Seq<(nat, nat)>;

    /// A copy of the tuple.
    fn carry(&self) -> (same: Self)
        ensures
            same.spans() == self.spans(),
    ;
}

/// A tuple of captures that has room for one more.
pub trait Grow: Shape {
    /// The tuple with one capture more.
    type Next: Shape;

    /// The captures of `self` followed by the capture from `start` to
    /// `end`.
    fn push(&self, start: usize, end: usize) -> (next: Self::Next)
        ensures
            next.spans() == self.spans().push((start as nat, end as nat)),
    ;
}

/// A tuple of captures that can be taken out as text.
pub trait Extract<'a>: Shape {
    /// One slice of the path for each capture.
    type Slices;

    /// What the slices hold, first to last.
    spec fn texts(slices: Self::Slices) -> Seq<Seq<char>>;

    /// Cuts the captures out of `path`.
    fn slices(&self, path: &'a str) -> (out: Self::Slices)
        requires
            forall|i: int| 0 <= i < self.spans().len() ==> is_span(path@, #[trigger] self.spans()[i]),
        ensures
            Self::texts(out) == cut(path@, self.spans()),
    ;
}

impl Shape for () {
    open spec fn spans(&self) -> Seq<(nat, nat)> {
        seq![]
    }

    fn carry(&self) -> (same: Self) {
        *self
    }
}

impl Shape for (Span,) {
    open spec fn spans(&self) -> Seq<(nat, nat)> {
        seq![
            (self.0.0 as nat, self.0.1 as nat),
        ]
    }

    fn carry(&self) -> (same: Self) {
        *self
    }
}

impl Shape for (Span, Span) {
    open spec fn spans(&self) -> Seq<(nat, nat)> {
        seq![
            (self.0.0 as nat, self.0.1 as nat),
            (self.1.0 as nat, self.1.1 as nat),
        ]
    }

    fn carry(&self) -> (same: Self) {
        *self
    }
}

impl Shape for (Span, Span, Span) {
    open spec fn spans(&self) -> Seq<(nat, nat)> {
        seq![
            (self.0.0 as nat, self.0.1 as nat),
            (self.1.0 as nat, self.1.1 as nat),
            (self.2.0 as nat, self.2.1 as nat),
        ]
    }

    fn carry(&self) -> (same: Self) {
        *self
    }
}

impl Shape for (Span, Span, Span, Span) {
    open spec fn spans(&self) -> Seq<(nat, nat)> {
        seq![
            (self.0.0 as nat, self.0.1 as nat),
            (self.1.0 as nat, self.1.1 as nat),
            (self.2.0 as nat, self.2.1 as nat),
            (self.3.0 as nat, self.3.1 as nat),
        ]
    }

    fn carry(&self) -> (same: Self) {
        *self
    }
}

impl Shape for (Span, Span, Span, Span, Span) {
    open spec fn spans(&self) -> Seq<(nat, nat)> {
        seq![
            (self.0.0 as nat, self.0.1 as nat),
            (self.1.0 as nat, self.1.1 as nat),
            (self.2.0 as nat, self.2.1 as nat),
            (self.3.0 as nat, self.3.1 as nat),
            (self.4.0 as nat, self.4.1 as nat),
        ]
    }

    fn carry(&self) -> (same: Self) {
        *self
    }
}

impl Shape for (Span, Span, Span, Span, Span, Span) {
    open spec fn spans(&self) -> Seq<(nat, nat)> {
        seq![
            (self.0.0 as nat, self.0.1 as nat),
            (self.1.0 as nat, self.1.1 as nat),
            (self.2.0 as nat, self.2.1 as nat),
            (self.3.0 as nat, self.3.1 as nat),
            (self.4.0 as nat, self.4.1 as nat),
            (self.5.0 as nat, self.5.1 as nat),
        ]
    }

    fn carry(&self) -> (same: Self) {
        *self
    }
}

impl Shape for (Span, Span, Span, Span, Span, Span, Span) {
    open spec fn spans(&self) -> Seq<(nat, nat)> {
        seq![
            (self.0.0 as nat, self.0.1 as nat),
            (self.1.0 as nat, self.1.1 as nat),
            (self.2.0 as nat, self.2.1 as nat),
            (self.3.0 as nat, self.3.1 as nat),
            (self.4.0 as nat, self.4.1 as nat),
            (self.5.0 as nat, self.5.1 as nat),
            (self.6.0 as nat, self.6.1 as nat),
        ]
    }

    fn carry(&self) -> (same: Self) {
        *self
    }
}

impl Shape for (Span, Span, Span, Span, Span, Span, Span, Span) {
    open spec fn spans(&self) -> Seq<(nat, nat)> {
        seq![
            (self.0.0 as nat, self.0.1 as nat),
            (self.1.0 as nat, self.1.1 as nat),
            (self.2.0 as nat, self.2.1 as nat),
            (self.3.0 as nat, self.3.1 as nat),
            (self.4.0 as nat, self.4.1 as nat),
            (self.5.0 as nat, self.5.1 as nat),
            (self.6.0 as nat, self.6.1 as nat),
            (self.7.0 as nat, self.7.1 as nat),
        ]
    }

    fn carry(&self) -> (same: Self) {
        *self
    }
}

impl Shape for (Span, Span, Span, Span, Span, Span, Span, Span, Span) {
    open spec fn spans(&self) -> Seq<(nat, nat)> {
        seq![
            (self.0.0 as nat, self.0.1 as nat),
            (self.1.0 as nat, self.1.1 as nat),
            (self.2.0 as nat, self.2.1 as nat),
            (self.3.0 as nat, self.3.1 as nat),
            (self.4.0 as nat, self.4.1 as nat),
            (self.5.0 as nat, self.5.1 as nat),
            (self.6.0 as nat, self.6.1 as nat),
            (self.7.0 as nat, self.7.1 as nat),
            (self.8.0 as nat, self.8.1 as nat),
        ]
    }

    fn carry(&self) -> (same: Self) {
        *self
    }
}

impl Shape for (Span, Span, Span, Span, Span, Span, Span, Span, Span, Span) {
    open spec fn spans(&self) -> Seq<(nat, nat)> {
        seq![
            (self.0.0 as nat, self.0.1 as nat),
            (self.1.0 as nat, self.1.1 as nat),
            (self.2.0 as nat, self.2.1 as nat),
            (self.3.0 as nat, self.3.1 as nat),
            (self.4.0 as nat, self.4.1 as nat),
            (self.5.0 as nat, self.5.1 as nat),
            (self.6.0 as nat, self.6.1 as nat),
            (self.7.0 as nat, self.7.1 as nat),
            (self.8.0 as nat, self.8.1 as nat),
            (self.9.0 as nat, self.9.1 as nat),
        ]
    }

    fn carry(&self) -> (same: Self) {
        *self
    }
}

impl Grow for () {
    type Next = (Span,);

    fn push(&self, start: usize, end: usize) -> (next: Self::Next) {
        ((start, end),)
    }
}

impl Grow for (Span,) {
    type Next = (Span, Span);

    fn push(&self, start: usize, end: usize) -> (next: Self::Next) {
        let (a,) = *self;
        (a, (start, end))
    }
}

impl Grow for (Span, Span) {
    type Next = (Span, Span, Span);

    fn push(&self, start: usize, end: usize) -> (next: Self::Next) {
        let (a, b) = *self;
        (a, b, (start, end))
    }
}

impl Grow for (Span, Span, Span) {
    type Next = (Span, Span, Span, Span);

    fn push(&self, start: usize, end: usize) -> (next: Self::Next) {
        let (a, b, c) = *self;
        (a, b, c, (start, end))
    }
}

impl Grow for (Span, Span, Span, Span) {
    type Next = (Span, Span, Span, Span, Span);

    fn push(&self, start: usize, end: usize) -> (next: Self::Next) {
        let (a, b, c, d) = *self;
        (a, b, c, d, (start, end))
    }
}

impl Grow for (Span, Span, Span, Span, Span) {
    type Next = (Span, Span, Span, Span, Span, Span);

    fn push(&self, start: usize, end: usize) -> (next: Self::Next) {
        let (a, b, c, d, e) = *self;
        (a, b, c, d, e, (start, end))
    }
}

impl Grow for (Span, Span, Span, Span, Span, Span) {
    type Next = (Span, Span, Span, Span, Span, Span, Span);

    fn push(&self, start: usize, end: usize) -> (next: Self::Next) {
        let (a, b, c, d, e, f) = *self;
        (a, b, c, d, e, f, (start, end))
    }
}

impl Grow for (Span, Span, Span, Span, Span, Span, Span) {
    type Next = (Span, Span, Span, Span, Span, Span, Span, Span);

    fn push(&self, start: usize, end: usize) -> (next: Self::Next) {
        let (a, b, c, d, e, f, g) = *self;
        (a, b, c, d, e, f, g, (start, end))
    }
}

impl Grow for (Span, Span, Span, Span, Span, Span, Span, Span) {
    type Next = (Span, Span, Span, Span, Span, Span, Span, Span, Span);

    fn push(&self, start: usize, end: usize) -> (next: Self::Next) {
        let (a, b, c, d, e, f, g, h) = *self;
        (a, b, c, d, e, f, g, h, (start, end))
    }
}

impl Grow for (Span, Span, Span, Span, Span, Span, Span, Span, Span) {
    type Next = (Span, Span, Span, Span, Span, Span, Span, Span, Span, Span);

    fn push(&self, start: usize, end: usize) -> (next: Self::Next) {
        let (a, b, c, d, e, f, g, h, i) = *self;
        (a, b, c, d, e, f, g, h, i, (start, end))
    }
}

impl<'a> Extract<'a> for (Span,) {
    type Slices = (&'a str,);

    open spec fn texts(slices: Self::Slices) -> Seq<Seq<char>> {
        seq![slices.0@]
    }

    fn slices(&self, path: &'a str) -> (out: Self::Slices) {
        let (a,) = *self;
        assert(is_span(path@, self.spans()[0]));
        (between(path, a.0, a.1),)
    }
}

impl<'a> Extract<'a> for (Span, Span) {
    type Slices = (&'a str, &'a str);

    open spec fn texts(slices: Self::Slices) -> Seq<Seq<char>> {
        seq![slices.0@, slices.1@]
    }

    fn slices(&self, path: &'a str) -> (out: Self::Slices) {
        let (a, b) = *self;
        assert(is_span(path@, self.spans()[0]));
        assert(is_span(path@, self.spans()[1]));
        (
            between(path, a.0, a.1),
            between(path, b.0, b.1),
        )
    }
}

impl<'a> Extract<'a> for (Span, Span, Span) {
    type Slices = (&'a str, &'a str, &'a str);

    open spec fn texts(slices: Self::Slices) -> Seq<Seq<char>> {
        seq![slices.0@, slices.1@, slices.2@]
    }

    fn slices(&self, path: &'a str) -> (out: Self::Slices) {
        let (a, b, c) = *self;
        assert(is_span(path@, self.spans()[0]));
        assert(is_span(path@, self.spans()[1]));
        assert(is_span(path@, self.spans()[2]));
        (
            between(path, a.0, a.1),
            between(path, b.0, b.1),
            between(path, c.0, c.1),
        )
    }
}

impl<'a> Extract<'a> for (Span, Span, Span, Span) {
    type Slices = (&'a str, &'a str, &'a str, &'a str);

    open spec fn texts(slices: Self::Slices) -> Seq<Seq<char>> {
        seq![slices.0@, slices.1@, slices.2@, slices.3@]
    }

    fn slices(&self, path: &'a str) -> (out: Self::Slices) {
        let (a, b, c, d) = *self;
        assert(is_span(path@, self.spans()[0]));
        assert(is_span(path@, self.spans()[1]));
        assert(is_span(path@, self.spans()[2]));
        assert(is_span(path@, self.spans()[3]));
        (
            between(path, a.0, a.1),
            between(path, b.0, b.1),
            between(path, c.0, c.1),
            between(path, d.0, d.1),
        )
    }
}

impl<'a> Extract<'a> for (Span, Span, Span, Span, Span) {
    type Slices = (&'a str, &'a str, &'a str, &'a str, &'a str);

    open spec fn texts(slices: Self::Slices) -> Seq<Seq<char>> {
        seq![slices.0@, slices.1@, slices.2@, slices.3@, slices.4@]
    }

    fn slices(&self, path: &'a str) -> (out: Self::Slices) {
        let (a, b, c, d, e) = *self;
        assert(is_span(path@, self.spans()[0]));
        assert(is_span(path@, self.spans()[1]));
        assert(is_span(path@, self.spans()[2]));
        assert(is_span(path@, self.spans()[3]));
        assert(is_span(path@, self.spans()[4]));
        (
            between(path, a.0, a.1),
            between(path, b.0, b.1),
            between(path, c.0, c.1),
            between(path, d.0, d.1),
            between(path, e.0, e.1),
        )
    }
}

impl<'a> Extract<'a> for (Span, Span, Span, Span, Span, Span) {
    type Slices = (&'a str, &'a str, &'a str, &'a str, &'a str, &'a str);

    open spec fn texts(slices: Self::Slices) -> Seq<Seq<char>> {
        seq![slices.0@, slices.1@, slices.2@, slices.3@, slices.4@, slices.5@]
    }

    fn slices(&self, path: &'a str) -> (out: Self::Slices) {
        let (a, b, c, d, e, f) = *self;
        assert(is_span(path@, self.spans()[0]));
        assert(is_span(path@, self.spans()[1]));
        assert(is_span(path@, self.spans()[2]));
        assert(is_span(path@, self.spans()[3]));
        assert(is_span(path@, self.spans()[4]));
        assert(is_span(path@, self.spans()[5]));
        (
            between(path, a.0, a.1),
            between(path, b.0, b.1),
            between(path, c.0, c.1),
            between(path, d.0, d.1),
            between(path, e.0, e.1),
            between(path, f.0, f.1),
        )
    }
}

impl<'a> Extract<'a> for (Span, Span, Span, Span, Span, Span, Span) {
    type Slices = (&'a str, &'a str, &'a str, &'a str, &'a str, &'a str, &'a str);

    open spec fn texts(slices: Self::Slices) -> Seq<Seq<char>> {
        seq![slices.0@, slices.1@, slices.2@, slices.3@, slices.4@, slices.5@, slices.6@]
    }

    fn slices(&self, path: &'a str) -> (out: Self::Slices) {
        let (a, b, c, d, e, f, g) = *self;
        assert(is_span(path@, self.spans()[0]));
        assert(is_span(path@, self.spans()[1]));
        assert(is_span(path@, self.spans()[2]));
        assert(is_span(path@, self.spans()[3]));
        assert(is_span(path@, self.spans()[4]));
        assert(is_span(path@, self.spans()[5]));
        assert(is_span(path@, self.spans()[6]));
        (
            between(path, a.0, a.1),
            between(path, b.0, b.1),
            between(path, c.0, c.1),
            between(path, d.0, d.1),
            between(path, e.0, e.1),
            between(path, f.0, f.1),
            between(path, g.0, g.1),
        )
    }
}

impl<'a> Extract<'a> for (Span, Span, Span, Span, Span, Span, Span, Span) {
    type Slices = (&'a str, &'a str, &'a str, &'a str, &'a str, &'a str, &'a str, &'a str);

    open spec fn texts(slices: Self::Slices) -> Seq<Seq<char>> {
        seq![slices.0@, slices.1@, slices.2@, slices.3@, slices.4@, slices.5@, slices.6@, slices.7@]
    }

    fn slices(&self, path: &'a str) -> (out: Self::Slices) {
        let (a, b, c, d, e, f, g, h) = *self;
        assert(is_span(path@, self.spans()[0]));
        assert(is_span(path@, self.spans()[1]));
        assert(is_span(path@, self.spans()[2]));
        assert(is_span(path@, self.spans()[3]));
        assert(is_span(path@, self.spans()[4]));
        assert(is_span(path@, self.spans()[5]));
        assert(is_span(path@, self.spans()[6]));
        assert(is_span(path@, self.spans()[7]));
        (
            between(path, a.0, a.1),
            between(path, b.0, b.1),
            between(path, c.0, c.1),
            between(path, d.0, d.1),
            between(path, e.0, e.1),
            between(path, f.0, f.1),
            between(path, g.0, g.1),
            between(path, h.0, h.1),
        )
    }
}

impl<'a> Extract<'a> for (Span, Span, Span, Span, Span, Span, Span, Span, Span) {
    type Slices = (&'a str, &'a str, &'a str, &'a str, &'a str, &'a str, &'a str, &'a str, &'a str);

    open spec fn texts(slices: Self::Slices) -> Seq<Seq<char>> {
        seq![slices.0@, slices.1@, slices.2@, slices.3@, slices.4@, slices.5@, slices.6@, slices.7@, slices.8@]
    }

    fn slices(&self, path: &'a str) -> (out: Self::Slices) {
        let (a, b, c, d, e, f, g, h, i) = *self;
        assert(is_span(path@, self.spans()[0]));
        assert(is_span(path@, self.spans()[1]));
        assert(is_span(path@, self.spans()[2]));
        assert(is_span(path@, self.spans()[3]));
        assert(is_span(path@, self.spans()[4]));
        assert(is_span(path@, self.spans()[5]));
        assert(is_span(path@, self.spans()[6]));
        assert(is_span(path@, self.spans()[7]));
        assert(is_span(path@, self.spans()[8]));
        (
            between(path, a.0, a.1),
            between(path, b.0, b.1),
            between(path, c.0, c.1),
            between(path, d.0, d.1),
            between(path, e.0, e.1),
            between(path, f.0, f.1),
            between(path, g.0, g.1),
            between(path, h.0, h.1),
            between(path, i.0, i.1),
        )
    }
}

impl<'a> Extract<'a> for (Span, Span, Span, Span, Span, Span, Span, Span, Span, Span) {
    type Slices = (&'a str, &'a str, &'a str, &'a str, &'a str, &'a str, &'a str, &'a str, &'a str, &'a str);

    open spec fn texts(slices: Self::Slices) -> Seq<Seq<char>> {
        seq![slices.0@, slices.1@, slices.2@, slices.3@, slices.4@, slices.5@, slices.6@, slices.7@, slices.8@, slices.9@]
    }

    fn slices(&self, path: &'a str) -> (out: Self::Slices) {
        let (a, b, c, d, e, f, g, h, i, j) = *self;
        assert(is_span(path@, self.spans()[0]));
        assert(is_span(path@, self.spans()[1]));
        assert(is_span(path@, self.spans()[2]));
        assert(is_span(path@, self.spans()[3]));
        assert(is_span(path@, self.spans()[4]));
        assert(is_span(path@, self.spans()[5]));
        assert(is_span(path@, self.spans()[6]));
        assert(is_span(path@, self.spans()[7]));
        assert(is_span(path@, self.spans()[8]));
        assert(is_span(path@, self.spans()[9]));
        (
            between(path, a.0, a.1),
            between(path, b.0, b.1),
            between(path, c.0, c.1),
            between(path, d.0, d.1),
            between(path, e.0, e.1),
            between(path, f.0, f.1),
            between(path, g.0, g.1),
            between(path, h.0, h.1),
            between(path, i.0, i.1),
            between(path, j.0, j.1),
        )
    }
}

} // verus!
