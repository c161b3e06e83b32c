//! The single-choice selector: a cursor over a fixed, non-empty list of
//! candidates, moved by events until one of them confirms or cancels.

use crate::strings::views;
use vstd::prelude::*;

verus! {

/// What an input asks of the selector.
#[derive(Clone, Copy, Debug, PartialEq, Eq, Structural)]
pub enum Event {
    MoveDown,
    MoveUp,
    Confirm,
    Cancel,
    Ignored,
}

/// A key as the selector sees it.
#[derive(Clone, Copy, Debug, PartialEq, Eq, Structural)]
pub enum Key {
    Down,
    Up,
    Enter,
    Char(char),
    Other,
}

/// How a selection session ended.
#[derive(Debug, PartialEq, Eq)]
pub enum Outcome {
    Confirmed(String),
    Cancelled,
}

/// The mathematical value of an `Outcome`.
pub enum OutcomeView {
    Confirmed(Seq<char>),
    Cancelled,
}

impl View for Outcome {
    type V = OutcomeView;

    open spec fn view(&self) -> OutcomeView {
        match self {
            Outcome::Confirmed(s) => OutcomeView::Confirmed(s@),
            Outcome::Cancelled => OutcomeView::Cancelled,
        }
    }
}

impl Clone for Outcome {
    fn clone(&self) -> (copy: Outcome)
        ensures
            copy@ == self@,
    {
        match self {
            Outcome::Confirmed(s) => Outcome::Confirmed(s.clone()),
            Outcome::Cancelled => Outcome::Cancelled,
        }
    }
}

/// The mathematical value of an outcome that may not have come yet.
pub open spec fn outcome_view(outcome: Option<Outcome>) -> Option<OutcomeView> {
    match outcome {
        Some(o) => Some(o@),
        None => None,
    }
}

/// The event that a key stands for.
pub open spec fn event_of(key: Key) -> Event {
    match key {
        Key::Down => Event::MoveDown,
        Key::Up => Event::MoveUp,
        Key::Enter => Event::Confirm,
        Key::Char(c) => if c == 'q' {
            Event::Cancel
        } else {
            Event::Ignored
        },
        Key::Other => Event::Ignored,
    }
}

/// Maps a key to the event it stands for.
pub fn event_for_key(key: Key) -> (event: Event)
    ensures
        event == event_of(key),
{
    match key {
        Key::Down => Event::MoveDown,
        Key::Up => Event::MoveUp,
        Key::Enter => Event::Confirm,
        Key::Char(c) => if c == 'q' {
            Event::Cancel
        } else {
            Event::Ignored
        },
        Key::Other => Event::Ignored,
    }
}

/// The mathematical value of a selector: what it offers and where its cursor
/// stands.
pub struct SelectorView {
    pub items: Seq<Seq<char>>,
    pub cursor: nat,
}

impl SelectorView {
    /// There is something to choose, and the cursor points at one of the items.
    pub open spec fn wf(self) -> bool {
        1 <= self.items.len() && self.cursor < self.items.len()
    }

    /// The item under the cursor.
    pub open spec fn current(self) -> Seq<char> {
        self.items[self.cursor as int]
    }

    /// The selector at the start of a session over `items`.
    pub open spec fn start(items: Seq<Seq<char>>) -> SelectorView {
        SelectorView { items, cursor: 0 }
    }

    /// Where the cursor stands after `event`: one step down or up, cyclically,
    /// and where it stood for every other event.
    pub open spec fn cursor_after(self, event: Event) -> nat {
        match event {
            Event::MoveDown => (self.cursor + 1) % self.items.len(),
            Event::MoveUp => if self.cursor == 0 {
                (self.items.len() - 1) as nat
            } else {
                (self.cursor - 1) as nat
            },
            _ => self.cursor,
        }
    }

    /// The selector after `event`: the same items, the cursor moved.
    pub open spec fn after(self, event: Event) -> SelectorView {
        SelectorView { items: self.items, cursor: self.cursor_after(event) }
    }

    /// The outcome that `event` ends the session with, if it ends it.
    pub open spec fn outcome(self, event: Event) -> Option<OutcomeView> {
        match event {
            Event::Confirm => Some(OutcomeView::Confirmed(self.current())),
            Event::Cancel => Some(OutcomeView::Cancelled),
            _ => None,
        }
    }

    /// The selector and the outcome after `events`, taken in order up to the
    /// first one that ends the session.
    pub open spec fn run(self, events: Seq<Event>) -> (SelectorView, Option<OutcomeView>)
        decreases events.len(),
    {
        if events.len() == 0 {
            (self, None)
        } else if self.outcome(events[0]) is Some {
            (self, self.outcome(events[0]))
        } else {
            self.after(events[0]).run(events.drop_first())
        }
    }
}

/// A cursor over a fixed, non-empty list of candidates.
pub struct SelectorState {
    items: Vec<String>,
    cursor: usize,
}

impl View for SelectorState {
    type V = SelectorView;

    closed spec fn view(&self) -> SelectorView {
        SelectorView { items: views(self.items@), cursor: self.cursor as nat }
    }
}

impl SelectorState {
    #[verifier::type_invariant]
    spec fn inv(self) -> bool {
        1 <= self.items.len() && self.cursor < self.items.len()
    }

    /// Starts a session over `items`, with the cursor on the first of them.
    pub fn new(items: Vec<String>) -> (state: SelectorState)
        requires
            items.len() >= 1,
        ensures
            state@ == SelectorView::start(views(items@)),
            state@.wf(),
    {
        SelectorState { items, cursor: 0 }
    }

    /// Starts a session over `items` if there is anything to choose from.
    pub fn try_new(items: Vec<String>) -> (state: Option<SelectorState>)
        ensures
            items.len() == 0 <==> state is None,
            state is Some ==> state.unwrap()@ == SelectorView::start(views(items@))
                && state.unwrap()@.wf(),
    {
        if items.len() == 0 {
            None
        } else {
            Some(SelectorState::new(items))
        }
    }

    /// The candidates, in the order in which they are shown.
    pub fn items(&self) -> (items: &Vec<String>)
        ensures
            views(items@) == self@.items,
            self@.wf(),
    {
        proof {
            use_type_invariant(self);
        }
        &self.items
    }

    /// The index of the candidate under the cursor.
    pub fn cursor(&self) -> (cursor: usize)
        ensures
            cursor == self@.cursor,
            self@.wf(),
    {
        proof {
            use_type_invariant(self);
        }
        self.cursor
    }

    /// The candidate under the cursor.
    pub fn current(&self) -> (item: &String)
        ensures
            item@ == self@.current(),
            self@.wf(),
    {
        proof {
            use_type_invariant(self);
        }
        &self.items[self.cursor]
    }

    /// Whether the row at `row` is the one to show highlighted: the row under
    /// the cursor is, and no other.
    pub fn is_highlighted(&self, row: usize) -> (highlighted: bool)
        ensures
            highlighted == (row == self@.cursor),
    {
        row == self.cursor
    }

    /// Applies one event. The cursor moves as `SelectorView::after` says and
    /// the items stay; the result is the outcome if the event ended the
    /// session.
    pub fn apply(&mut self, event: Event) -> (outcome: Option<Outcome>)
        ensures
            final(self)@ == old(self)@.after(event),
            final(self)@.wf(),
            outcome_view(outcome) == old(self)@.outcome(event),
    {
        proof {
            use_type_invariant(&*self);
        }
        match event {
            Event::MoveDown => {
                proof {
                    lemma_step_down(self@);
                }
                self.cursor = (self.cursor + 1) % self.items.len();
                None
            },
            Event::MoveUp => {
                if self.cursor == 0 {
                    self.cursor = self.items.len() - 1;
                } else {
                    self.cursor = self.cursor - 1;
                }
                None
            },
            Event::Confirm => Some(Outcome::Confirmed(self.items[self.cursor].clone())),
            Event::Cancel => Some(Outcome::Cancelled),
            Event::Ignored => None,
        }
    }

    /// Applies `events` in order, up to the first one that ends the session,
    /// and returns the outcome if one of them did.
    pub fn run(&mut self, events: &Vec<Event>) -> (outcome: Option<Outcome>)
        ensures
            final(self)@.wf(),
            (final(self)@, outcome_view(outcome)) == old(self)@.run(events@),
    {
        let ghost start = self@;
        proof {
            use_type_invariant(&*self);
        }
        assert(events@.skip(0) == events@);
        let mut i: usize = 0;
        while i < events.len()
            invariant
                i <= events.len(),
                start == old(self)@,
                start.wf(),
                self@.wf(),
                self@.run(events@.skip(i as int)) == start.run(events@),
            decreases events.len() - i,
        {
            let ghost before = self@;
            let ghost rest = events@.skip(i as int);
            assert(rest[0] == events@[i as int]);
            assert(rest.drop_first() == events@.skip(i + 1));
            let outcome = self.apply(events[i]);
            if outcome.is_some() {
                assert(self@ == before);
                return outcome;
            }
            i = i + 1;
        }
        assert(events@.skip(i as int).len() == 0);
        None
    }
}

/// Moving down and then up leaves the selector as it was.
pub proof fn lemma_down_then_up(v: SelectorView)
    requires
        v.wf(),
    ensures
        v.after(Event::MoveDown).after(Event::MoveUp) == v,
{
    lemma_step_down(v);
}

/// Moving up and then down leaves the selector as it was.
pub proof fn lemma_up_then_down(v: SelectorView)
    requires
        v.wf(),
    ensures
        v.after(Event::MoveUp).after(Event::MoveDown) == v,
{
    lemma_step_down(v.after(Event::MoveUp));
}

/// The cursor wraps at both ends: down from the last item leads to the
/// first, up from the first leads to the last.
pub proof fn lemma_wrap_around(v: SelectorView)
    requires
        v.wf(),
    ensures
        v.cursor == v.items.len() - 1 ==> v.after(Event::MoveDown).cursor == 0,
        v.cursor == 0 ==> v.after(Event::MoveUp).cursor == v.items.len() - 1,
{
    lemma_step_down(v);
}

/// One step down leads to the next item, and from the last item to the
/// first.
pub proof fn lemma_step_down(v: SelectorView)
    requires
        v.wf(),
    ensures
        v.cursor + 1 < v.items.len() ==> v.after(Event::MoveDown).cursor == v.cursor + 1,
        v.cursor + 1 == v.items.len() ==> v.after(Event::MoveDown).cursor == 0,
{
    let n = v.items.len() as int;
    let c = v.cursor as int;
    if c + 1 == n {
        assert((c + 1) % n == 0) by (nonlinear_arith)
            requires
                c + 1 == n,
                n > 0,
        ;
    } else {
        assert((c + 1) % n == c + 1) by (nonlinear_arith)
            requires
                0 <= c + 1 < n,
        ;
    }
}

/// No event changes the items, and every event leaves the cursor on one of
/// them.
pub proof fn lemma_after_keeps_shape(v: SelectorView, event: Event)
    requires
        v.wf(),
    ensures
        v.after(event).items == v.items,
        v.after(event).wf(),
{
    lemma_step_down(v);
}

/// Confirming yields the item under the cursor at that moment, and no other.
pub proof fn lemma_confirm_yields_current(v: SelectorView)
    requires
        v.wf(),
    ensures
        v.outcome(Event::Confirm) == Some(OutcomeView::Confirmed(v.items[v.cursor as int])),
{
}

/// Cancelling yields `Cancelled` wherever the cursor stands.
pub proof fn lemma_cancel_yields_cancelled(v: SelectorView)
    ensures
        v.outcome(Event::Cancel) == Some(OutcomeView::Cancelled),
        v.run(seq![Event::Cancel]) == (v, Some(OutcomeView::Cancelled)),
{
}

/// An event that the selector does not know changes nothing and ends
/// nothing.
pub proof fn lemma_ignored_changes_nothing(v: SelectorView)
    ensures
        v.after(Event::Ignored) == v,
        v.outcome(Event::Ignored) is None,
{
}

/// A key that stands for no event of the selector changes nothing and ends
/// nothing.
pub proof fn lemma_unknown_key_changes_nothing(v: SelectorView, key: Key)
    requires
        key != Key::Down,
        key != Key::Up,
        key != Key::Enter,
        key != Key::Char('q'),
    ensures
        event_of(key) == Event::Ignored,
        v.after(event_of(key)) == v,
        v.outcome(event_of(key)) is None,
{
}

/// A run of events that end nothing, closed by `Confirm` or `Cancel`, ends
/// with the outcome that the closing event has where the events before it
/// left the cursor; they leave it on one of the items, which are those of the
/// start.
pub proof fn lemma_run_ends_at_first_terminal(v: SelectorView, moves: Seq<Event>, last: Event)
    requires
        v.wf(),
        forall|i: int|
            0 <= i < moves.len() ==> #[trigger] moves[i] != Event::Confirm && moves[i]
                != Event::Cancel,
        last == Event::Confirm || last == Event::Cancel,
    ensures
        v.run(moves.push(last)).1 == v.run(moves).0.outcome(last),
        v.run(moves.push(last)).0 == v.run(moves).0,
        v.run(moves).1 is None,
        v.run(moves).0.wf(),
        v.run(moves).0.items == v.items,
    decreases moves.len(),
{
    if moves.len() == 0 {
        assert(moves.push(last).drop_first().len() == 0);
    } else {
        let next = v.after(moves[0]);
        lemma_after_keeps_shape(v, moves[0]);
        assert(moves.push(last).drop_first() == moves.drop_first().push(last));
        assert forall|i: int| 0 <= i < moves.drop_first().len() implies #[trigger] moves.drop_first()[i]
            != Event::Confirm && moves.drop_first()[i] != Event::Cancel by {
            assert(moves.drop_first()[i] == moves[i + 1]);
        }
        lemma_run_ends_at_first_terminal(next, moves.drop_first(), last);
    }
}

} // verus!
