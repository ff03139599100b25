use virtual_pet::pet::Pet;
use virtual_pet::storage::{from_record, load_record, save_filename, DeleteOutcome, StorageError};

fn pet_with(name: &str, hunger: i32, happiness: i32, energy: i32) -> Pet {
    let mut pet = Pet::new(name.to_string());
    pet.hunger = hunger;
    pet.happiness = happiness;
    pet.energy = energy;
    pet
}

#[test]
fn record_text_is_exact() {
    let pet = Pet::new("TestPet".to_string());
    assert_eq!(
        pet.to_record(),
        "{\"name\":\"TestPet\",\"hunger\":50,\"happiness\":50,\"energy\":100}"
    );
}

#[test]
fn record_round_trip() {
    let pet = pet_with("TestPet", 60, 70, 80);
    let saved = pet.to_record();
    let loaded = from_record(&saved).unwrap();
    assert_eq!(loaded.name, pet.name);
    assert_eq!(loaded.hunger, pet.hunger);
    assert_eq!(loaded.happiness, pet.happiness);
    assert_eq!(loaded.energy, pet.energy);
}

#[test]
fn record_round_trip_escaped_name() {
    let name = "a\"b\\c\nd\u{1}e";
    let pet = pet_with(name, 0, 100, 7);
    let saved = pet.to_record();
    let loaded = from_record(&saved).unwrap();
    assert_eq!(loaded.name, name);
    assert_eq!(loaded.hunger, 0);
    assert_eq!(loaded.happiness, 100);
    assert_eq!(loaded.energy, 7);
}

#[test]
fn parse_accepts_whitespace() {
    let text =
        " { \"name\" : \"x\" ,\n\t\"hunger\" : 5 , \"happiness\" : 6 , \"energy\" : 7 }  ";
    let pet = from_record(text).unwrap();
    assert_eq!(pet.name, "x");
    assert_eq!(pet.hunger, 5);
    assert_eq!(pet.happiness, 6);
    assert_eq!(pet.energy, 7);
}

#[test]
fn parse_unicode_escape() {
    let text = "{\"name\":\"\\u0041\\u00e9\",\"hunger\":1,\"happiness\":2,\"energy\":3}";
    let pet = from_record(text).unwrap();
    assert_eq!(pet.name, "Aé");
}

#[test]
fn parse_simple_escapes() {
    let text = "{\"name\":\"\\\"\\\\\\/\\b\\f\\n\\r\\t\",\"hunger\":1,\"happiness\":2,\"energy\":3}";
    let pet = from_record(text).unwrap();
    assert_eq!(pet.name, "\"\\/\u{8}\u{c}\n\r\t");
}

#[test]
fn loaded_values_are_not_reclamped() {
    // a record edited out-of-band is loaded verbatim
    let text = "{\"name\":\"x\",\"hunger\":150,\"happiness\":-5,\"energy\":1000}";
    let pet = from_record(text).unwrap();
    assert_eq!(pet.hunger, 150);
    assert_eq!(pet.happiness, -5);
    assert_eq!(pet.energy, 1000);
}

#[test]
fn format_errors() {
    let cases = [
        "",
        "{",
        "{}",
        "{\"name\":\"x\"}",
        // missing a field
        "{\"name\":\"x\",\"hunger\":1,\"happiness\":2}",
        // fields out of order
        "{\"hunger\":1,\"name\":\"x\",\"happiness\":2,\"energy\":3}",
        // trailing text
        "{\"name\":\"x\",\"hunger\":1,\"happiness\":2,\"energy\":3}x",
        // an attribute that is not an integer
        "{\"name\":\"x\",\"hunger\":\"a\",\"happiness\":2,\"energy\":3}",
        "{\"name\":\"x\",\"hunger\":1.5,\"happiness\":2,\"energy\":3}",
        // a leading zero
        "{\"name\":\"x\",\"hunger\":05,\"happiness\":2,\"energy\":3}",
        // outside the range of i32
        "{\"name\":\"x\",\"hunger\":2147483648,\"happiness\":2,\"energy\":3}",
        "{\"name\":\"x\",\"hunger\":12345678901,\"happiness\":2,\"energy\":3}",
        // an unterminated identity
        "{\"name\":\"x,\"hunger\":1,\"happiness\":2,\"energy\":3}",
        // a repeated field and a fifth field
        "{\"name\":\"x\",\"hunger\":1,\"hunger\":2,\"happiness\":2,\"energy\":3}",
        "{\"name\":\"x\",\"hunger\":1,\"happiness\":2,\"energy\":3,\"extra\":4}",
        // a bad escape, a lone surrogate, a raw control character
        "{\"name\":\"\\x\",\"hunger\":1,\"happiness\":2,\"energy\":3}",
        "{\"name\":\"\\ud800\",\"hunger\":1,\"happiness\":2,\"energy\":3}",
        "{\"name\":\"a\u{1}b\",\"hunger\":1,\"happiness\":2,\"energy\":3}",
    ];
    for text in cases {
        assert_eq!(from_record(text).unwrap_err(), StorageError::FormatError);
    }
}

#[test]
fn boundary_integers_parse() {
    let text =
        "{\"name\":\"x\",\"hunger\":2147483647,\"happiness\":-2147483648,\"energy\":0}";
    let pet = from_record(text).unwrap();
    assert_eq!(pet.hunger, 2147483647);
    assert_eq!(pet.happiness, -2147483648);
    assert_eq!(pet.energy, 0);
}

#[test]
fn load_reports_missing_record() {
    let outcome = load_record(None);
    assert_eq!(outcome.unwrap_err(), StorageError::NotFound);
}

#[test]
fn load_from_contents() {
    let pet = pet_with("Rex", 10, 20, 30);
    let saved = pet.to_record();
    let loaded = load_record(Some(&saved)).unwrap();
    assert_eq!(loaded.name, "Rex");
    assert_eq!(loaded.hunger, 10);
    assert_eq!(loaded.happiness, 20);
    assert_eq!(loaded.energy, 30);
}

#[test]
fn filename_appends_extension() {
    assert_eq!(save_filename("Fluffy"), "Fluffy.json");
}

#[test]
fn delete_outcomes_are_distinct() {
    assert_ne!(DeleteOutcome::Deleted, DeleteOutcome::NoSaveFile);
}

#[test]
fn record_is_readable_by_serde_json() {
    let name = "a\"b\\c\nd";
    let pet = pet_with(name, 60, 70, 80);
    let saved = pet.to_record();
    let value: serde_json::Value = serde_json::from_str(&saved).unwrap();
    assert_eq!(value.get("name").unwrap().as_str().unwrap(), name);
    assert_eq!(value.get("hunger").unwrap().as_i64().unwrap(), 60);
    assert_eq!(value.get("happiness").unwrap().as_i64().unwrap(), 70);
    assert_eq!(value.get("energy").unwrap().as_i64().unwrap(), 80);
}

#[test]
fn record_matches_serde_json_field_layout() {
    // what serde_json would write for the same fields in the same order
    let expected = format!(
        "{{\"name\":{},\"hunger\":9,\"happiness\":100,\"energy\":0}}",
        serde_json::Value::String("Mia".to_string())
    );
    let pet = pet_with("Mia", 9, 100, 0);
    assert_eq!(pet.to_record(), expected);
}
