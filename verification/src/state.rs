//! The state of a single cell and the rule by which a click advances it.

use vstd::prelude::*;

verus! {

/// The state of one cell. The three states form a cycle:
/// red is followed by green, green by blue, and blue by red again.
#[derive(Debug, PartialEq, Eq, Hash, Clone, Copy, Structural)]
pub enum State {
    Red,
    Green,
    Blue,
}

impl State {
    /// The state that follows `self` in the cycle.
    pub open spec fn spec_next(&self) -> State {
        match *self {
            State::Red => State::Green,
            State::Green => State::Blue,
            State::Blue => State::Red,
        }
    }

    /// The state reached from `self` by `steps` successive advances.
    pub open spec fn advanced(self, steps: nat) -> State
        decreases steps,
    {
        if steps == 0 {
            self
        } else {
            self.advanced((steps - 1) as nat).next()
        }
    }

    /// The position of `self` in the cycle, counted from red.
    pub open spec fn ordinal(self) -> nat {
        match self {
            State::Red => 0,
            State::Green => 1,
            State::Blue => 2,
        }
    }

    /// Returns the state that a click turns `self` into.
    #[verifier::when_used_as_spec(spec_next)]
    pub fn next(&self) -> (r: State)
        ensures
            r == self.next(),
    {
        match *self {
            State::Red => State::Green,
            State::Green => State::Blue,
            State::Blue => State::Red,
        }
    }

    /// Returns every state once, in cycle order starting from red.
    pub fn all() -> (r: [State; 3])
        ensures
            r@ == State::every(),
    {
        [State::Red, State::Green, State::Blue]
    }

    /// Every state, in cycle order starting from red.
    pub open spec fn every() -> Seq<State> {
        seq![State::Red, State::Green, State::Blue]
    }
}

/// Three advances bring every state back to itself, and fewer do not:
/// the cycle closes after exactly as many steps as there are states.
pub proof fn lemma_cycle_closes(s: State)
    ensures
        s.next().next().next() == s,
        s.next() != s,
        s.next().next() != s,
{
}

/// The number of advances matters only modulo the number of states, and each
/// advance moves one position further along the cycle.
pub proof fn lemma_advanced_is_periodic(s: State, steps: nat)
    ensures
        s.advanced(steps + 3) == s.advanced(steps),
        s.advanced(steps) == s.advanced(steps % 3),
        s.advanced(steps).ordinal() == (s.ordinal() + steps) % 3,
    decreases steps,
{
    reveal_with_fuel(State::advanced, 4);
    if steps >= 3 {
        lemma_advanced_is_periodic(s, (steps - 3) as nat);
    }
}

/// Every state occurs exactly once among `State::every()`, at its ordinal.
pub proof fn lemma_every_state_listed(s: State)
    ensures
        State::every().len() == 3,
        State::every()[s.ordinal() as int] == s,
        forall|i: int| 0 <= i < 3 && State::every()[i] == s ==> i == s.ordinal(),
{
}

} // verus!
