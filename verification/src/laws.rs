//! What holds of the matching steps whatever the path and the pattern,
//! stated of the views that their contracts speak of and proved from what
//! those contracts say.

use vstd::prelude::*;
use crate::matcher::{lemma_moves, view_of, Matcher, MatcherView};
use crate::pattern::{answers, Pattern, PatternKind};
use crate::shape::{is_span, Extract, Shape};
use crate::text::{lemma_slice_all, lemma_slice_bytes, slice, utf8_len};

verus! {

/// A predicate that is given as a function or a closure stands for what
/// it answers, and is ready for use when it can be asked about every
/// character.
pub proof fn law_predicate<F: Fn(char) -> bool>(f: F)
    ensures
        f.kind() == PatternKind::Predicate(answers(f)),
        f.ready() <==> forall|c: char| call_requires(f, (c,)),
{
}

/// A matcher at the start of a path is a matcher, and all of the path is
/// still before it.
pub proof fn law_start(path: Seq<char>, query: Option<Seq<char>>)
    ensures
        MatcherView::start(path, query).inv(),
        MatcherView::start(path, query).rest() == path,
{
    lemma_slice_all(path);
}

/// Every step ends in a matcher again, with the cursor where it was or
/// further on and no further than the end of the path.
pub proof fn law_steps_keep_inv(m: MatcherView, to: nat)
    requires
        m.inv(),
        m.moves_to(to),
    ensures
        m.cursor <= to <= m.end(),
        m.at(to).inv(),
        m.capturing(to).inv(),
{
    let next = m.capturing(to);
    assert forall|i: int| 0 <= i < next.captures.len() implies is_span(
        next.path,
        #[trigger] next.captures[i],
    ) by {
        if i < m.captures.len() {
            assert(next.captures[i] == m.captures[i]);
        }
    }
}

/// Where the rest of the path starts with a literal, `chomp` with that
/// literal succeeds, and the cursor moves on by exactly the length of the
/// literal in bytes. Path, query and captures stay as they are.
pub proof fn law_chomp_literal_found(m: MatcherView, lit: Seq<char>, next: Option<MatcherView>)
    requires
        m.inv(),
        lit.is_prefix_of(m.rest()),
        m.chomp(PatternKind::Literal(lit), next),
    ensures
        next == Some(m.at(m.cursor + utf8_len(lit))),
        m.upto(m.cursor + utf8_len(lit)) == lit,
{
    let n = next->0;
    let over = m.upto(n.cursor);
    assert(over =~= (over + n.rest()).subrange(0, over.len() as int));
}

/// Where the rest of the path does not start with a literal, `chomp` with
/// that literal gives nothing.
pub proof fn law_chomp_literal_missing(m: MatcherView, lit: Seq<char>, next: Option<MatcherView>)
    requires
        m.inv(),
        !lit.is_prefix_of(m.rest()),
        m.chomp(PatternKind::Literal(lit), next),
    ensures
        next is None,
{
}

/// The same of the operation itself: whatever `chomp` returns for a
/// literal that the rest of the path starts with, it is a matcher whose
/// cursor is further on by the length of the literal in bytes; for a
/// literal that the rest does not start with, it is nothing.
pub proof fn law_chomp_literal<'a, 'p, T: Shape>(
    m: Matcher<'a, T>,
    lit: &'p str,
    next: Option<Matcher<'a, T>>,
)
    requires
        m.well_formed(),
        call_ensures(Matcher::<'a, T>::chomp::<&'p str>, (&m, lit), next),
    ensures
        lit@.is_prefix_of(m@.rest()) ==> next is Some && next->0@ == m@.at(
            m@.cursor + utf8_len(lit@),
        ),
        !lit@.is_prefix_of(m@.rest()) ==> next is None,
{
    if lit@.is_prefix_of(m@.rest()) {
        law_chomp_literal_found(m@, lit@, view_of(next));
    }
}

/// A step that does not capture leaves the captured texts as they are.
pub proof fn law_moving_keeps_captures(m: MatcherView, to: nat)
    ensures
        m.at(to).captures == m.captures,
        m.at(to).texts() == m.texts(),
{
}

/// A capturing step adds one capture behind those that are there and
/// changes none of them: the new one is the text that the step went over.
pub proof fn law_capture_appends(m: MatcherView, next: MatcherView)
    requires
        m.captures_to(next),
    ensures
        next.captures == m.captures.push((m.cursor, next.cursor)),
        next.texts() == m.texts().push(m.upto(next.cursor)),
{
}

/// Each of the three capturing operations is a capturing step.
pub proof fn law_capture_operations(
    m: MatcherView,
    kind: PatternKind,
    by_while: Option<MatcherView>,
    by_until: MatcherView,
)
    requires
        m.inv(),
        m.capture_while(kind, by_while),
        m.capture_until(kind, by_until),
    ensures
        by_while is Some ==> m.captures_to(by_while->0),
        m.captures_to(by_until),
        m.captures_to(m.capture_rest()),
        m.upto(m.capture_rest().cursor) == m.rest(),
{
    lemma_slice_all(m.path);
    lemma_moves(m, m.end());
}

/// Captures come out in the order in which they were made: after three
/// capturing steps the captured texts are those from before, followed by
/// what the first, the second and the third step went over.
pub proof fn law_capture_order(m0: MatcherView, m1: MatcherView, m2: MatcherView, m3: MatcherView)
    requires
        m0.captures_to(m1),
        m1.captures_to(m2),
        m2.captures_to(m3),
    ensures
        m3.texts() == m0.texts() + seq![
            m0.upto(m1.cursor),
            m1.upto(m2.cursor),
            m2.upto(m3.cursor),
        ],
        m0.captures.len() == 0 ==> m3.texts() == seq![
            m0.upto(m1.cursor),
            m1.upto(m2.cursor),
            m2.upto(m3.cursor),
        ],
{
    law_capture_appends(m0, m1);
    law_capture_appends(m1, m2);
    law_capture_appends(m2, m3);
}

/// A captured text is the part of the path between the two offsets of its
/// capture, and as long in bytes as the offsets are apart.
pub proof fn law_capture_is_slice(m: MatcherView, i: int)
    requires
        m.inv(),
        0 <= i < m.captures.len(),
    ensures
        m.texts().len() == m.captures.len(),
        m.texts()[i] == slice(m.path, m.captures[i].0 as int, m.captures[i].1 as int),
        utf8_len(m.texts()[i]) == m.captures[i].1 - m.captures[i].0,
{
    lemma_slice_bytes(m.path, m.captures[i].0 as int, m.captures[i].1 as int);
}

/// Taking the captures out twice gives the same texts both times.
pub proof fn law_captures_repeat<'a, T: Extract<'a>>(
    m: Matcher<'a, T>,
    first: T::Slices,
    second: T::Slices,
)
    requires
        call_ensures(Matcher::<'a, T>::captures, (&m,), first),
        call_ensures(Matcher::<'a, T>::captures, (&m,), second),
    ensures
        T::texts(first) == m@.texts(),
        T::texts(first) == T::texts(second),
{
}

/// At the end of the path `complete` with the empty literal succeeds and
/// leaves the matcher where it is.
pub proof fn law_complete_empty_at_end(m: MatcherView, next: Option<MatcherView>)
    requires
        m.inv(),
        m.cursor == m.end(),
        m.complete(PatternKind::Literal(Seq::empty()), next),
    ensures
        next == Some(m),
{
}

/// The same of the operation itself: whatever `complete` returns for an
/// empty literal on a matcher that stands at the end of its path, it is
/// that matcher.
pub proof fn law_complete_empty<'a, 'p, T: Shape>(
    m: Matcher<'a, T>,
    lit: &'p str,
    next: Option<Matcher<'a, T>>,
)
    requires
        m.well_formed(),
        m@.cursor == m@.end(),
        lit@.len() == 0,
        call_ensures(Matcher::<'a, T>::complete::<&'p str>, (&m, lit), next),
    ensures
        next is Some,
        next->0@ == m@,
{
    assert(lit@ =~= Seq::<char>::empty());
    law_complete_empty_at_end(m@, view_of(next));
}

/// A pattern that gives one answer only about every character accounts
/// for one number of characters, or for none, at the start of a text, and
/// begins to match at one place first.
pub proof fn law_one_answer(kind: PatternKind, hay: Seq<char>)
    requires
        kind.decided(),
    ensures
        forall|a: Option<nat>, b: Option<nat>|
            kind.prefix(hay, a) && kind.prefix(hay, b) ==> a == b,
        !(kind.whole(hay, true) && kind.whole(hay, false)),
        forall|a: nat, b: nat| kind.until(hay, a) && kind.until(hay, b) ==> a == b,
{
    assert forall|a: Option<nat>, b: Option<nat>|
        kind.prefix(hay, a) && kind.prefix(hay, b) implies a == b by {
        if let PatternKind::Predicate(answers) = kind {
            if a is Some && b is Some {
                if a->0 != b->0 {
                    // The shorter run ends before a character that the
                    // longer one holds.
                    let x = if a->0 < b->0 {
                        a->0 as int
                    } else {
                        b->0 as int
                    };
                    assert(answers(hay[x], true) && answers(hay[x], false));
                }
            } else if a is Some || b is Some {
                assert(answers(hay[0], true) && answers(hay[0], false));
            }
        }
    }
    assert forall|a: nat, b: nat| kind.until(hay, a) && kind.until(hay, b) implies a == b by {
        if a != b {
            // The pattern begins to match at the earlier place, which
            // lies before the later one.
            let x = if a < b {
                a as int
            } else {
                b as int
            };
            assert(kind is Literal ==> !(kind->Literal_0).is_prefix_of(hay.skip(x)));
            assert(kind is Predicate ==> (kind->Predicate_0)(hay[x], false));
        }
    }
}

/// With a pattern that gives one answer only about every character, a step
/// has one outcome only.
pub proof fn law_one_outcome(
    m: MatcherView,
    kind: PatternKind,
    first: Option<MatcherView>,
    second: Option<MatcherView>,
)
    requires
        m.inv(),
        kind.decided(),
    ensures
        m.chomp(kind, first) && m.chomp(kind, second) ==> first == second,
        m.capture_while(kind, first) && m.capture_while(kind, second) ==> first == second,
        m.complete(kind, first) && m.complete(kind, second) ==> first == second,
{
    if first is Some && second is Some {
        let (a, b) = (first->0.cursor, second->0.cursor);
        if m.moves_to(a) && m.moves_to(b) && m.upto(a).len() == m.upto(b).len() {
            lemma_same_step(m, a, b);
        }
    }
}

/// With a pattern that gives one answer only about every character,
/// `capture_until` has one outcome only.
pub proof fn law_one_outcome_until(
    m: MatcherView,
    kind: PatternKind,
    first: MatcherView,
    second: MatcherView,
)
    requires
        m.inv(),
        kind.decided(),
        m.capture_until(kind, first),
        m.capture_until(kind, second),
    ensures
        first == second,
{
    lemma_same_step(m, first.cursor, second.cursor);
}

/// Two steps from one place that go over the same number of characters end
/// at the same place.
proof fn lemma_same_step(m: MatcherView, a: nat, b: nat)
    requires
        m.moves_to(a),
        m.moves_to(b),
        m.upto(a).len() == m.upto(b).len(),
    ensures
        a == b,
{
    let over_a = m.upto(a);
    let over_b = m.upto(b);
    assert(over_a =~= (over_a + m.at(a).rest()).subrange(0, over_a.len() as int));
    assert(over_b =~= (over_b + m.at(b).rest()).subrange(0, over_b.len() as int));
}

} // verus!
