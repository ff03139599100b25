use virtual_pet::event::EventKind;
use virtual_pet::mood::{mood_of, Mood};
use virtual_pet::pet::Pet;

fn create_test_pet() -> Pet {
    Pet::new("TestPet".to_string())
}

#[test]
fn test_new_pet_initialization() {
    let pet = create_test_pet();
    assert_eq!(pet.name, "TestPet");
    assert_eq!(pet.hunger, 50);
    assert_eq!(pet.happiness, 50);
    assert_eq!(pet.energy, 100);
}

#[test]
fn test_feed_pet() {
    let mut pet = create_test_pet();
    pet.hunger = 80;
    pet.feed();
    assert!(pet.hunger < 80);
    assert!(pet.hunger >= 0);
    assert!(pet.happiness <= 100);
}

#[test]
fn test_play_with_pet() {
    let mut pet = create_test_pet();
    let initial_energy = pet.energy;
    let initial_happiness = pet.happiness;

    pet.play();

    assert!(pet.energy < initial_energy);
    assert!(pet.happiness > initial_happiness);
    assert!(pet.energy >= 0);
    assert!(pet.energy <= 100);
}

#[test]
fn test_tired_pet_can_play() {
    let mut pet = create_test_pet();
    pet.energy = 10; //energy below the limit for the ability to play
    let initial_happiness = pet.happiness;

    pet.play();

    assert_eq!(pet.happiness, initial_happiness); //happiness value should stay the same
}

#[test]
fn test_sleep_restores_energy() {
    let mut pet = create_test_pet();
    pet.energy = 30;
    pet.sleep();
    assert_eq!(pet.energy, 100);
}

#[test]
fn test_stats_clamping() {
    let mut pet = create_test_pet();

    //test the upper bounds
    pet.happiness = 150;
    pet.feed(); //should clamp happiness
    assert_eq!(pet.happiness, 100);

    //test the lower bounds
    pet.hunger = -50;
    pet.play(); //should clamp hunger
    assert_eq!(pet.hunger, 0);
}

#[test]
fn test_mood_changes() {
    let mut pet = create_test_pet();

    // test ecstatic mood
    pet.happiness = 90;
    pet.hunger = 30;
    assert_eq!(pet.get_mood(), "(*_*) Ecstatic");

    // test hangry mood
    pet.hunger = 90;
    assert_eq!(pet.get_mood(), "(>_<) Hangry");
}

#[test]
fn test_display_stat() {
    let pet = create_test_pet();
    let stat = pet.display_stat(50);
    assert!(stat.contains("█████")); // should have 5 full blocks
    assert!(stat.contains("░░░░░")); // should have 5 empty blocks
    assert!(stat.contains("(50)")); // should show the number
}

#[test]
fn feed_exact_formula() {
    let mut pet = create_test_pet();
    pet.hunger = 10;
    pet.happiness = 95;
    pet.feed();
    assert_eq!(pet.hunger, 0); // max(0, 10 - 30)
    assert_eq!(pet.happiness, 100); // min(100, 95 + 10)
    assert_eq!(pet.energy, 100); // untouched
}

#[test]
fn play_exact_formula_at_boundary() {
    let mut pet = create_test_pet();
    pet.energy = 20; // exactly at the limit: playing is allowed
    pet.happiness = 90;
    pet.hunger = 95;
    pet.play();
    assert_eq!(pet.happiness, 100); // min(100, 90 + 20)
    assert_eq!(pet.energy, 0); // max(0, 20 - 20)
    assert_eq!(pet.hunger, 100); // min(100, 95 + 10)
}

#[test]
fn play_noop_below_boundary() {
    let mut pet = create_test_pet();
    pet.energy = 19;
    pet.happiness = 40;
    pet.hunger = 40;
    pet.play();
    assert_eq!(pet.energy, 19);
    assert_eq!(pet.happiness, 40);
    assert_eq!(pet.hunger, 40);
}

#[test]
fn sleep_exact_formula() {
    let mut pet = create_test_pet();
    pet.energy = 77;
    pet.hunger = 95;
    pet.sleep();
    assert_eq!(pet.energy, 100); // always exactly 100
    assert_eq!(pet.hunger, 100); // min(100, 95 + 10)
    assert_eq!(pet.happiness, 50); // untouched
}

#[test]
fn mood_precedence_scenarios() {
    // hunger wins over happiness
    assert_eq!(mood_of(90, 90), Mood::Hangry);
    assert_eq!(mood_of(90, 30), Mood::Ecstatic);
    assert_eq!(mood_of(70, 40), Mood::Happy);
    assert_eq!(mood_of(20, 40), Mood::Sad);
    assert_eq!(mood_of(50, 50), Mood::Content);
}

#[test]
fn mood_text_of_every_label() {
    let mut pet = create_test_pet();
    pet.happiness = 70;
    pet.hunger = 40;
    assert_eq!(pet.get_mood(), "(^_^) Happy");
    pet.happiness = 20;
    assert_eq!(pet.get_mood(), "(;_;) Sad");
    pet.happiness = 50;
    pet.hunger = 50;
    assert_eq!(pet.get_mood(), "(-_-) Content");
}

#[test]
fn event_selection_mapping() {
    assert_eq!(virtual_pet::event::event_from_draws(false, 0), None);
    assert_eq!(virtual_pet::event::event_from_draws(false, 1), None);
    assert_eq!(virtual_pet::event::event_from_draws(false, 2), None);
    assert_eq!(
        virtual_pet::event::event_from_draws(true, 0),
        Some(EventKind::Treat)
    );
    assert_eq!(
        virtual_pet::event::event_from_draws(true, 1),
        Some(EventKind::Exercise)
    );
    assert_eq!(
        virtual_pet::event::event_from_draws(true, 2),
        Some(EventKind::Nap)
    );
}

#[test]
fn event_effects_exact() {
    let mut pet = create_test_pet();
    pet.happiness = 95;
    pet.apply_event(EventKind::Treat);
    assert_eq!(pet.happiness, 100); // min(100, 95 + 10)

    let mut pet = create_test_pet();
    pet.energy = 5;
    pet.happiness = 50;
    pet.apply_event(EventKind::Exercise);
    assert_eq!(pet.energy, 0); // max(0, 5 - 10)
    assert_eq!(pet.happiness, 55);

    let mut pet = create_test_pet();
    pet.energy = 90;
    pet.apply_event(EventKind::Nap);
    assert_eq!(pet.energy, 100); // min(100, 90 + 20)
}

#[test]
fn display_stat_edges_exact() {
    let pet = create_test_pet();
    assert_eq!(pet.display_stat(0), "░░░░░░░░░░ (0)");
    assert_eq!(pet.display_stat(50), "█████░░░░░ (50)");
    assert_eq!(pet.display_stat(100), "██████████ (100)");
    assert_eq!(pet.display_stat(9), "░░░░░░░░░░ (9)");
    assert_eq!(pet.display_stat(10), "█░░░░░░░░░ (10)");
}

#[test]
fn mood_boundaries() {
    // the precedence thresholds are strict comparisons
    assert_eq!(mood_of(80, 80), Mood::Content); // neither check fires at exactly 80
    assert_eq!(mood_of(81, 80), Mood::Ecstatic);
    assert_eq!(mood_of(80, 81), Mood::Hangry);
    assert_eq!(mood_of(61, 49), Mood::Happy);
    assert_eq!(mood_of(61, 50), Mood::Content); // hunger not below 50
    assert_eq!(mood_of(29, 95), Mood::Hangry); // hunger wins over sad
    assert_eq!(mood_of(29, 50), Mood::Sad);
    assert_eq!(mood_of(30, 50), Mood::Content);
}

#[test]
fn random_event_frequencies() {
    // the trigger fires with probability 1/5, and each outcome with
    // probability 1/3 given the trigger: over 4000 trials the counts
    // stay inside very wide bounds
    let mut pet = create_test_pet();
    let mut fired = 0;
    let mut counts = [0, 0, 0];
    for _ in 0..4000 {
        pet.hunger = 50;
        pet.happiness = 50;
        pet.energy = 50;
        match pet.random_event() {
            Some(EventKind::Treat) => {
                fired += 1;
                counts[0] += 1;
            }
            Some(EventKind::Exercise) => {
                fired += 1;
                counts[1] += 1;
            }
            Some(EventKind::Nap) => {
                fired += 1;
                counts[2] += 1;
            }
            None => {}
        }
    }
    // expectation 800
    assert!(fired > 500, "trigger fired {} times of 4000", fired);
    assert!(fired < 1200, "trigger fired {} times of 4000", fired);
    for count in counts {
        // expectation fired / 3
        assert!(count * 6 > fired, "outcome counts {:?} of {}", counts, fired);
        assert!(count * 2 < fired, "outcome counts {:?} of {}", counts, fired);
    }
}

#[test]
fn random_event_keeps_attributes_in_range() {
    let mut pet = create_test_pet();
    let mut fired = 0;
    for _ in 0..400 {
        if pet.random_event().is_some() {
            fired += 1;
        }
        assert!(pet.hunger >= 0 && pet.hunger <= 100);
        assert!(pet.happiness >= 0 && pet.happiness <= 100);
        assert!(pet.energy >= 0 && pet.energy <= 100);
        assert_eq!(pet.name, "TestPet");
    }
    // the trigger fires with probability 1/5: over 400 trials seeing it
    // never or always would be astronomically unlikely
    assert!(fired > 0);
    assert!(fired < 400);
}
