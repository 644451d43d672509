use solarsim::localization::Localization;

fn sample() -> Localization {
    let mut loc = Localization::new("en-US".to_string());
    loc.set(&"en-US".to_string(), "hello".to_string(), "Hello!".to_string());
    loc.set(&"en-US".to_string(), "goodbye".to_string(), "Goodbye!".to_string());
    loc.set(&"de-DE".to_string(), "hello".to_string(), "Hallo!".to_string());
    loc.set(&"de-DE".to_string(), "goodbye".to_string(), "Auf Wiedersehen!".to_string());
    loc
}

#[test]
fn culture_codes_are_split() {
    let loc = Localization::new("en-US".to_string());
    assert_eq!(loc.get_culture(), "en-US");
    assert_eq!(loc.get_culture_top(), "en");
}

#[test]
fn culture_without_dash_is_its_own_top() {
    let loc = Localization::new("fr".to_string());
    assert_eq!(loc.get_culture(), "fr");
    assert_eq!(loc.get_culture_top(), "fr");
}

#[test]
fn set_culture_updates_top() {
    let mut loc = Localization::new("en-US".to_string());
    loc.set_culture("de-DE".to_string());
    assert_eq!(loc.get_culture(), "de-DE");
    assert_eq!(loc.get_culture_top(), "de");
}

#[test]
fn get_prefers_full_culture() {
    let loc = sample();
    assert_eq!(loc.get(&"hello".to_string()), "Hello!");
    assert_eq!(loc.get(&"goodbye".to_string()), "Goodbye!");
}

#[test]
fn get_falls_back_to_top_culture() {
    let mut loc = sample();
    loc.set(&"en".to_string(), "color".to_string(), "colour".to_string());
    // "color" exists only under the top-level "en"
    assert_eq!(loc.get(&"color".to_string()), "colour");
}

#[test]
fn get_falls_back_to_any_culture() {
    let mut loc = Localization::new("fr-FR".to_string());
    loc.set(&"de-DE".to_string(), "hello".to_string(), "Hallo!".to_string());
    assert_eq!(loc.get(&"hello".to_string()), "Hallo!");
}

#[test]
fn get_returns_key_when_nothing_matches() {
    let loc = sample();
    assert_eq!(loc.get(&"missing".to_string()), "missing");
}

#[test]
fn full_match_beats_top_and_default() {
    let mut loc = Localization::new("en-US".to_string());
    loc.set(&"de-DE".to_string(), "hello".to_string(), "Hallo!".to_string());
    loc.set(&"en".to_string(), "hello".to_string(), "Hullo!".to_string());
    loc.set(&"en-US".to_string(), "hello".to_string(), "Hello!".to_string());
    assert_eq!(loc.get(&"hello".to_string()), "Hello!");
}

#[test]
fn get_in_uses_no_fallback() {
    let loc = sample();
    assert_eq!(loc.get_in(&"de-DE".to_string(), &"hello".to_string()), Some("Hallo!".to_string()));
    assert_eq!(loc.get_in(&"de".to_string(), &"hello".to_string()), None);
    assert_eq!(loc.get_in(&"en-US".to_string(), &"missing".to_string()), None);
}
