//! The pet itself: three bounded integer attributes, the clamping rule,
//! and the three user-triggered actions (feed, play, sleep).

use vstd::prelude::*;

verus! {

/// Abstract value of a pet: its name and the three attributes as
/// unbounded integers.
pub struct PetView {
    pub name: Seq<char>,
    pub hunger: int,
    pub happiness: int,
    pub energy: int,
}

impl PetView {
    /// All three attributes lie in the closed range [0, 100].
    pub open spec fn wf(self) -> bool {
        &&& 0 <= self.hunger <= 100
        &&& 0 <= self.happiness <= 100
        &&& 0 <= self.energy <= 100
    }
}

/// Restriction of a value to the closed range [0, 100].
pub open spec fn clamp_spec(v: int) -> int {
    if v < 0 {
        0
    } else if v > 100 {
        100
    } else {
        v
    }
}

/// The clamping rule always lands inside the attribute range,
/// whatever delta an operation applied.
pub proof fn lemma_clamp_in_bounds(v: int)
    ensures
        0 <= clamp_spec(v) <= 100,
{
}

/// What feed does: hunger falls by 30, happiness rises by 10, both clamped.
pub open spec fn feed_spec(p: PetView) -> PetView {
    PetView {
        hunger: clamp_spec(p.hunger - 30),
        happiness: clamp_spec(p.happiness + 10),
        ..p
    }
}

/// What play does: a no-op when energy is below 20; otherwise happiness
/// rises by 20, energy falls by 20 and hunger rises by 10, all clamped.
pub open spec fn play_spec(p: PetView) -> PetView {
    if p.energy < 20 {
        p
    } else {
        PetView {
            happiness: clamp_spec(p.happiness + 20),
            energy: clamp_spec(p.energy - 20),
            hunger: clamp_spec(p.hunger + 10),
            ..p
        }
    }
}

/// What sleep does: energy is set to exactly 100 and hunger rises by 10,
/// clamped.
pub open spec fn sleep_spec(p: PetView) -> PetView {
    PetView { energy: 100, hunger: clamp_spec(p.hunger + 10), ..p }
}

/// The pet: an identity and three attributes. Every mutation goes through
/// the clamping rule; the attributes are stored as plain integers so that
/// a record edited out-of-band can be loaded verbatim.
#[derive(Debug)]
pub struct Pet {
    pub name: String,
    pub hunger: i32,
    pub happiness: i32,
    pub energy: i32,
}

impl View for Pet {
    type V = PetView;

    open spec fn view(&self) -> PetView {
        PetView {
            name: self.name@,
            hunger: self.hunger as int,
            happiness: self.happiness as int,
            energy: self.energy as int,
        }
    }
}

/// Clamp a value into [0, 100]. Computed over i64 so that no delta an
/// action applies can overflow.
pub fn clamp_attr(v: i64) -> (r: i32)
    ensures
        r as int == clamp_spec(v as int),
{
    if v < 0 {
        0
    } else if v > 100 {
        100
    } else {
        v as i32
    }
}

impl Pet {
    /// A new pet starts half hungry, half happy, and fully rested, and
    /// carries the supplied identity unchanged.
    pub fn new(name: String) -> (r: Pet)
        ensures
            r@ == (PetView { name: name@, hunger: 50, happiness: 50, energy: 100 }),
    {
        Pet { name, hunger: 50, happiness: 50, energy: 100 }
    }

    /// Feed the pet. Always applies; no precondition.
    pub fn feed(&mut self)
        ensures
            final(self)@ == feed_spec(old(self)@),
    {
        self.hunger = clamp_attr(self.hunger as i64 - 30);
        self.happiness = clamp_attr(self.happiness as i64 + 10);
    }

    /// Play with the pet. A pet with energy below 20 is too tired: all
    /// attributes stay as they were.
    pub fn play(&mut self)
        ensures
            final(self)@ == play_spec(old(self)@),
    {
        if self.energy < 20 {
            return ;
        }
        self.happiness = clamp_attr(self.happiness as i64 + 20);
        self.energy = clamp_attr(self.energy as i64 - 20);
        self.hunger = clamp_attr(self.hunger as i64 + 10);
    }

    /// Let the pet sleep: full energy restoration regardless of the
    /// starting value, and hunger rises by 10, clamped.
    pub fn sleep(&mut self)
        ensures
            final(self)@ == sleep_spec(old(self)@),
    {
        self.energy = 100;
        self.hunger = clamp_attr(self.hunger as i64 + 10);
    }
}

/// Each action leaves every attribute of a well-formed pet inside
/// [0, 100]: the actions preserve the attribute invariant.
pub proof fn lemma_actions_preserve_wf(p: PetView)
    requires
        p.wf(),
    ensures
        feed_spec(p).wf(),
        play_spec(p).wf(),
        sleep_spec(p).wf(),
{
}

/// The exact arithmetic of feed on a well-formed pet: hunger becomes
/// max(0, hunger - 30) and happiness becomes min(100, happiness + 10).
pub proof fn lemma_feed_formula(p: PetView)
    requires
        p.wf(),
    ensures
        feed_spec(p).hunger == vstd::math::max(0, p.hunger - 30),
        feed_spec(p).happiness == vstd::math::min(100, p.happiness + 10),
        feed_spec(p).energy == p.energy,
        feed_spec(p).name == p.name,
{
}

/// The exact arithmetic of play on a well-formed pet: below 20 energy
/// nothing moves; otherwise happiness, energy and hunger move by their
/// deltas, clamped.
pub proof fn lemma_play_formula(p: PetView)
    requires
        p.wf(),
    ensures
        p.energy < 20 ==> play_spec(p) == p,
        p.energy >= 20 ==> play_spec(p).happiness == vstd::math::min(100, p.happiness + 20),
        p.energy >= 20 ==> play_spec(p).energy == vstd::math::max(0, p.energy - 20),
        p.energy >= 20 ==> play_spec(p).hunger == vstd::math::min(100, p.hunger + 10),
        play_spec(p).name == p.name,
{
}

/// The exact arithmetic of sleep: energy is 100 whatever it was, and on a
/// well-formed pet hunger becomes min(100, hunger + 10).
pub proof fn lemma_sleep_formula(p: PetView)
    ensures
        sleep_spec(p).energy == 100,
        p.wf() ==> sleep_spec(p).hunger == vstd::math::min(100, p.hunger + 10),
        sleep_spec(p).happiness == p.happiness,
        sleep_spec(p).name == p.name,
{
}

} // verus!
