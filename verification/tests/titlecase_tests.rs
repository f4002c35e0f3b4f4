use rai_toolkit::{titlecase, Context, Tokens};

#[test]
fn test_titlecase() {
    let context = Context::new(String::from("us"), None, Tokens::new(Vec::new()));

    assert_eq!(titlecase(&String::from("Väike-Sõjamäe"), &context), String::from("Väike-sõjamäe"));
    assert_eq!(titlecase(&String::from("Väike-sõjamäe"), &context), String::from("Väike-sõjamäe"));
    assert_eq!(titlecase(&String::from("väike-sõjamäe"), &context), String::from("Väike-sõjamäe"));
    assert_eq!(titlecase(&String::from("väike sõjamäe"), &context), String::from("Väike Sõjamäe"));
    assert_eq!(titlecase(&String::from("väike  sõjamäe"), &context), String::from("Väike Sõjamäe"));
    assert_eq!(titlecase(&String::from("Väike Sõjamäe"), &context), String::from("Väike Sõjamäe"));
    assert_eq!(titlecase(&String::from("VäikeSõjamäe"), &context), String::from("Väikesõjamäe"));
    assert_eq!(titlecase(&String::from("ámbar"), &context), String::from("Ámbar"));
    assert_eq!(titlecase(&String::from("y̆ámbary̆"), &context), String::from("Y̆ámbary̆"));
    assert_eq!(titlecase(&String::from("y\u{306}ámbary\u{306}"), &context), String::from("Y\u{306}ámbary\u{306}"));
    assert_eq!(titlecase(&String::from("ç"), &context), String::from("Ç"));
    assert_eq!(titlecase(&String::from("Здравствуйте"), &context), String::from("Здравствуйте"));
    assert_eq!(titlecase(&String::from("नमस्त"), &context), String::from("नमस्त"));
    assert_eq!(titlecase(&String::from("abra CAda -bra"), &context), String::from("Abra Cada -bra"));
    assert_eq!(titlecase(&String::from("abra-CAda-bra"), &context), String::from("Abra-cada-bra"));
    assert_eq!(titlecase(&String::from("our lady of whatever"), &context), String::from("Our Lady of Whatever"));
    assert_eq!(titlecase(&String::from("our lady OF whatever"), &context), String::from("Our Lady of Whatever"));
    assert_eq!(titlecase(&String::from("St Martin\"s Neck Road"), &context), String::from("St Martin\"S Neck Road"));
    assert_eq!(titlecase(&String::from("St Martin's Neck Road"), &context), String::from("St Martin's Neck Road"));
    assert_eq!(titlecase(&String::from("MT. MOOSILAUKE HWY"), &context), String::from("Mt. Moosilauke Hwy"));
    assert_eq!(titlecase(&String::from("some  miscellaneous rd (what happens to parentheses?)"), &context), String::from("Some Miscellaneous Rd (What Happens to Parentheses?)"));
    assert_eq!(titlecase(&String::from("main st NE"), &context), String::from("Main St NE"));
    assert_eq!(titlecase(&String::from("main St NW"), &context), String::from("Main St NW"));
    assert_eq!(titlecase(&String::from("SW Main St."), &context), String::from("SW Main St."));
    assert_eq!(titlecase(&String::from("Main S.E. St"), &context), String::from("Main SE St"));
    assert_eq!(titlecase(&String::from("main st ne"), &context), String::from("Main St NE"));
    assert_eq!(titlecase(&String::from("nE. Main St"), &context), String::from("Ne. Main St"));
    assert_eq!(titlecase(&String::from("us hwy 1"), &context), String::from("US Hwy 1"));
    assert_eq!(titlecase(&String::from(" -a nice road- "), &context), String::from("-a Nice Road-"));
    assert_eq!(titlecase(&String::from("-x"), &context), String::from("-x"));
    assert_eq!(titlecase(&String::from("x-"), &context), String::from("X-"));
    assert_eq!(titlecase(&String::from(" *$&#()__ "), &context), String::from("*$&#()__"));
    assert_eq!(titlecase(&String::from("BrandywiNE Street Northwest"), &context), String::from("Brandywine Street Northwest"));

    let context = Context::new(String::from("de"), None, Tokens::new(Vec::new()));
    assert_eq!(titlecase(&String::from(" hast Du recht"), &context), String::from("Hast du Recht"));
    assert_eq!(titlecase(&String::from("a 9, 80939 münchen, germany"), &context), String::from("A 9, 80939 München, Germany"));
}

#[test]
fn test_titlecase_full_case_mapping() {
    let context = Context::new(String::from("us"), None, Tokens::new(Vec::new()));

    // The sharp s uppercases to two characters.
    assert_eq!(titlecase(&String::from("ßtraße"), &context), String::from("SStraße"));
    // Armenian lies outside Latin, Greek and Cyrillic and is still mapped.
    assert_eq!(titlecase(&String::from("աբգ"), &context), String::from("Աբգ"));
}
