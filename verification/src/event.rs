//! The stochastic background event: with probability 1/5 one of three
//! outcomes is drawn uniformly and applied to the pet. The two random
//! draws come from `rand` behind trusted wrappers; everything that decides
//! what an outcome does to the pet is verified and deterministic.

use vstd::prelude::*;

use crate::pet::{clamp_spec, clamp_attr, Pet, PetView};
use rand::Rng;

verus! {

/// The three possible outcomes of the background event.
#[derive(Clone, Copy, Debug, PartialEq, Eq, Structural)]
pub enum EventKind {
    /// The pet found a treat: happiness + 10.
    Treat,
    /// The pet did some exercise: energy - 10, happiness + 5.
    Exercise,
    /// The pet took a quick nap: energy + 20.
    Nap,
}

/// What each outcome does to the pet's attributes, clamped.
pub open spec fn apply_event_spec(p: PetView, kind: EventKind) -> PetView {
    match kind {
        EventKind::Treat => PetView { happiness: clamp_spec(p.happiness + 10), ..p },
        EventKind::Exercise => PetView {
            energy: clamp_spec(p.energy - 10),
            happiness: clamp_spec(p.happiness + 5),
            ..p
        },
        EventKind::Nap => PetView { energy: clamp_spec(p.energy + 20), ..p },
    }
}

/// Every outcome leaves a well-formed pet well-formed.
pub proof fn lemma_event_preserves_wf(p: PetView, kind: EventKind)
    requires
        p.wf(),
    ensures
        apply_event_spec(p, kind).wf(),
{
}

/// How the two random draws select an outcome: no event unless the 1-in-5
/// trigger fired, and the choice indexes the three outcomes in a fixed
/// order.
pub open spec fn event_from_draws_spec(trigger: bool, choice: int) -> Option<EventKind> {
    if !trigger {
        None
    } else if choice == 0 {
        Some(EventKind::Treat)
    } else if choice == 1 {
        Some(EventKind::Exercise)
    } else {
        Some(EventKind::Nap)
    }
}

/// Turn the two random draws into the selected outcome, deterministically.
pub fn event_from_draws(trigger: bool, choice: usize) -> (r: Option<EventKind>)
    requires
        choice < 3,
    ensures
        r == event_from_draws_spec(trigger, choice as int),
{
    if !trigger {
        None
    } else if choice == 0 {
        Some(EventKind::Treat)
    } else if choice == 1 {
        Some(EventKind::Exercise)
    } else {
        Some(EventKind::Nap)
    }
}

/// The lazily seeded thread-local generator of `rand`.
#[verifier::external_type_specification]
#[verifier::external_body]
pub struct ExThreadRng(rand::rngs::ThreadRng);

/// Relies on rand::thread_rng: hands out the thread-local generator.
#[verifier::external_body]
fn fresh_rng() -> rand::rngs::ThreadRng {
    rand::thread_rng()
}

/// Relies on rand::Rng::gen_ratio: returns true with probability
/// num/den; always true when num == den, always false when num == 0;
/// panics when den == 0 or num > den.
#[verifier::external_body]
fn coin_with_ratio(rng: &mut rand::rngs::ThreadRng, num: u32, den: u32) -> (r: bool)
    requires
        0 < den,
        num <= den,
    ensures
        num == den ==> r,
        num == 0 ==> !r,
{
    rng.gen_ratio(num, den)
}

/// Relies on rand::Rng::gen_range on `0..n`: returns a uniformly drawn
/// value of the half-open range; panics when the range is empty.
#[verifier::external_body]
fn pick_index(rng: &mut rand::rngs::ThreadRng, n: usize) -> (r: usize)
    requires
        0 < n,
    ensures
        r < n,
{
    rng.gen_range(0..n)
}

impl Pet {
    /// Apply one outcome of the background event to the pet.
    pub fn apply_event(&mut self, kind: EventKind)
        ensures
            final(self)@ == apply_event_spec(old(self)@, kind),
    {
        match kind {
            EventKind::Treat => {
                self.happiness = clamp_attr(self.happiness as i64 + 10);
            },
            EventKind::Exercise => {
                self.energy = clamp_attr(self.energy as i64 - 10);
                self.happiness = clamp_attr(self.happiness as i64 + 5);
            },
            EventKind::Nap => {
                self.energy = clamp_attr(self.energy as i64 + 20);
            },
        }
    }

    /// Run the background event once: with probability 1/5 an outcome is
    /// drawn uniformly from the three and applied; otherwise nothing
    /// changes. Whatever the draws were, the pet afterwards is either
    /// unchanged or the result of applying one outcome, and the selected
    /// outcome is reported.
    pub fn random_event(&mut self) -> (r: Option<EventKind>)
        ensures
            match r {
                None => final(self)@ == old(self)@,
                Some(kind) => final(self)@ == apply_event_spec(old(self)@, kind),
            },
    {
        let mut rng = fresh_rng();
        let trigger = coin_with_ratio(&mut rng, 1, 5);
        let choice = pick_index(&mut rng, 3);
        let picked = event_from_draws(trigger, choice);
        match picked {
            None => None,
            Some(kind) => {
                self.apply_event(kind);
                Some(kind)
            },
        }
    }
}

} // verus!
