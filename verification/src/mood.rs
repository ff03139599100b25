//! The mood classifier: a pure, derived label computed from happiness and
//! hunger by ordered precedence rules. First match wins; the order is a
//! load-bearing part of the contract.

use vstd::prelude::*;

use crate::pet::Pet;

verus! {

/// The five mood labels.
#[derive(Clone, Copy, Debug, PartialEq, Eq, Structural)]
pub enum Mood {
    Hangry,
    Ecstatic,
    Happy,
    Sad,
    Content,
}

/// The precedence rules, in their fixed order: hunger above 80 wins over
/// everything, then happiness above 80, then happiness above 60 with
/// hunger below 50, then happiness below 30, else content.
pub open spec fn mood_spec(happiness: int, hunger: int) -> Mood {
    if hunger > 80 {
        Mood::Hangry
    } else if happiness > 80 {
        Mood::Ecstatic
    } else if happiness > 60 && hunger < 50 {
        Mood::Happy
    } else if happiness < 30 {
        Mood::Sad
    } else {
        Mood::Content
    }
}

/// The display text of each mood label.
pub open spec fn mood_label_spec(m: Mood) -> Seq<char> {
    match m {
        Mood::Hangry => "(>_<) Hangry"@,
        Mood::Ecstatic => "(*_*) Ecstatic"@,
        Mood::Happy => "(^_^) Happy"@,
        Mood::Sad => "(;_;) Sad"@,
        Mood::Content => "(-_-) Content"@,
    }
}

/// Classify a pair of attribute values.
pub fn mood_of(happiness: i32, hunger: i32) -> (m: Mood)
    ensures
        m == mood_spec(happiness as int, hunger as int),
{
    if hunger > 80 {
        Mood::Hangry
    } else if happiness > 80 {
        Mood::Ecstatic
    } else if happiness > 60 && hunger < 50 {
        Mood::Happy
    } else if happiness < 30 {
        Mood::Sad
    } else {
        Mood::Content
    }
}

/// The hunger check stands first: a hunger above 80 yields Hangry no
/// matter how happy the pet is.
pub proof fn lemma_hunger_wins(happiness: int, hunger: int)
    requires
        hunger > 80,
    ensures
        mood_spec(happiness, hunger) == Mood::Hangry,
{
}

impl Pet {
    /// The pet's current mood.
    pub fn mood(&self) -> (m: Mood)
        ensures
            m == mood_spec(self@.happiness, self@.hunger),
    {
        mood_of(self.happiness, self.hunger)
    }

    /// The pet's current mood as its display text.
    pub fn get_mood(&self) -> (r: &'static str)
        ensures
            r@ == mood_label_spec(mood_spec(self@.happiness, self@.hunger)),
    {
        match self.mood() {
            Mood::Hangry => "(>_<) Hangry",
            Mood::Ecstatic => "(*_*) Ecstatic",
            Mood::Happy => "(^_^) Happy",
            Mood::Sad => "(;_;) Sad",
            Mood::Content => "(-_-) Content",
        }
    }
}

} // verus!
