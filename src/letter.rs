use vstd::prelude::*;

verus! {

/// What a guess revealed about one letter slot.
#[derive(Clone, Copy, Debug, PartialEq, Eq, Structural)]
pub enum LetterState {
    /// No letter typed in the slot yet.
    Empty,
    /// The letter does not occur in the target word.
    Missing,
    /// The letter occurs in the target word, elsewhere than this slot.
    Available,
    /// The letter sits in this very slot of the target word.
    InPlace,
}

/// The state that a raw value from the user interface stands for: `0` to `3`
/// name the four states in order, and every other value is taken as `Missing`.
pub open spec fn state_of(val: int) -> LetterState {
    if val == 0 {
        LetterState::Empty
    } else if val == 2 {
        LetterState::Available
    } else if val == 3 {
        LetterState::InPlace
    } else {
        LetterState::Missing
    }
}

impl LetterState {
    /// Normalises a raw state value; out-of-range values become `Missing`.
    pub fn from_u32(val: i32) -> (r: LetterState)
        ensures
            r == state_of(val as int),
    {
        match val {
            0 => LetterState::Empty,
            1 => LetterState::Missing,
            2 => LetterState::Available,
            3 => LetterState::InPlace,
            _ => LetterState::Missing,
        }
    }
}

/// One slot of a guess: the typed character, if any, and its state.
#[derive(Clone, Copy, Debug, PartialEq, Eq, Structural)]
pub struct LetterModel {
    pub character: Option<char>,
    pub state: LetterState,
}

/// The slot as a fresh grid holds it: no character, no judgement.
pub open spec fn empty_letter() -> LetterModel {
    LetterModel { character: Option::None, state: LetterState::Empty }
}

/// What `clear` makes of a slot.
pub open spec fn cleared(l: LetterModel) -> LetterModel {
    empty_letter()
}

/// What `set` makes of a slot when `c` is typed into it: typed letters start
/// as `Missing`.
pub open spec fn set_to(l: LetterModel, c: char) -> LetterModel {
    LetterModel { character: Option::Some(c), state: LetterState::Missing }
}

impl LetterModel {
    pub fn new() -> (r: LetterModel)
        ensures
            r == empty_letter(),
    {
        LetterModel { character: Option::None, state: LetterState::Empty }
    }

    pub fn clear(&mut self)
        ensures
            *final(self) == cleared(*old(self)),
    {
        self.character = Option::None;
        self.state = LetterState::Empty;
    }

    /// Types `c` into the slot.
    pub fn set(&mut self, c: char)
        ensures
            *final(self) == set_to(*old(self), c),
    {
        self.character = Option::Some(c);
        self.state = LetterState::Missing;
    }

    /// Sets the slot's state from a raw value, normalised as `from_u32` does.
    pub fn set_state(&mut self, state: i32)
        ensures
            final(self).character == old(self).character,
            final(self).state == state_of(state as int),
    {
        self.state = LetterState::from_u32(state);
    }
}

/// Clearing a slot leaves nothing behind: clearing and then typing `c` gives
/// the same slot as typing `c` into a fresh one.
pub proof fn lemma_clear_then_set(l: LetterModel, c: char)
    ensures
        set_to(cleared(l), c) == set_to(empty_letter(), c),
{
}

} // verus!
