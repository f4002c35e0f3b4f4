use rai_toolkit::{diacritics, filter, tokenize, Country};

#[test]
fn test_diacritics_idempotent_samples() {
    let once = diacritics("Hérê àrë søme wöřdš");
    let twice = diacritics(&once);
    assert_eq!(once, twice);
    assert_eq!(diacritics("søme wöřdš"), "some words");
    assert_eq!(diacritics("москва"), "москва");
}

#[test]
fn test_tokenize_idempotent_samples() {
    for s in ["S STREET NW", "Rue d'Argout", "foo-bar  baz", "Chamonix-Mont-Blanc"] {
        let once = tokenize(s);
        let joined = once.join(" ");
        let again = tokenize(&joined);
        assert_eq!(once, again);
    }
}

#[test]
fn test_filter_values() {
    assert_eq!(filter(None, ""), true);
    assert_eq!(filter(Some("motorway"), ""), false);
    assert_eq!(filter(Some("residential"), "asphalt"), false);
    assert_eq!(filter(Some("residential"), ""), true);
    assert_eq!(filter(Some("motorway"), "dirt"), true);
    assert_eq!(filter(Some("footway"), "asphalt"), true);
}

#[test]
fn test_country_name() {
    let c = Country::new(String::from("master"));
    assert_eq!(c.name(), "master");
}
