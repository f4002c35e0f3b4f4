use rai_toolkit::{distance, is_drivethrough, is_undesireable, str_remove_octo, is_numbered, is_routish};
use rai_toolkit::{Context, Name, Tokens};

fn ctx(country: &str, region: Option<&str>) -> Context {
    Context::new(
        String::from(country),
        region.map(|r| String::from(r)),
        Tokens::new(Vec::new()),
    )
}

#[test]
fn test_distance() {
    assert_eq!(distance("a", "b"), 1);
    assert_eq!(distance("ab", "ac"), 1);
    assert_eq!(distance("ac", "bc"), 1);
    assert_eq!(distance("abc", "axc"), 1);
    assert_eq!(distance("xabxcdxxefxgx", "1ab2cd34ef5g6"), 6);
    assert_eq!(distance("xabxcdxxefxgx", "abcdefg"), 6);
    assert_eq!(distance("javawasneat", "scalaisgreat"), 7);
    assert_eq!(distance("example", "samples"), 3);
    assert_eq!(distance("forward", "drawrof"), 6);
    assert_eq!(distance("sturgeon", "urgently"), 6);
    assert_eq!(distance("levenshtein", "frankenstein"), 6);
    assert_eq!(distance("distance", "difference"), 5);
    assert_eq!(distance("distance", "eistancd"), 2);
    assert_eq!(distance("你好世界", "你好"), 2);
    assert_eq!(distance("因為我是中國人所以我會說中文", "因為我是英國人所以我會說英文"), 2);
    assert_eq!(distance(
        "Morbi interdum ultricies neque varius condimentum. Donec volutpat turpis interdum metus ultricies vulputate. Duis ultricies rhoncus sapien, sit amet fermentum risus imperdiet vitae. Ut et lectus",
        "Duis erat dolor, cursus in tincidunt a, lobortis in odio. Cras magna sem, pharetra et iaculis quis, faucibus quis tellus. Suspendisse dapibus sapien in justo cursus"
    ), 143);
}

#[test]
fn test_is_drivethrough() {
    let context = ctx("us", None);
    assert_eq!(is_drivethrough(&String::from("Main St NE"), &context), false);
    assert_eq!(is_drivethrough(&String::from("McDonalds einfahrt"), &context), false);

    let context = ctx("de", None);
    assert_eq!(is_drivethrough(&String::from("McDonalds einfahrt"), &context), true);
    assert_eq!(is_drivethrough(&String::from("Burger King Drive-through"), &context), true);
    assert_eq!(is_drivethrough(&String::from("McDonalds Drivethrough"), &context), true);
    assert_eq!(is_drivethrough(&String::from("McDonalds Drive through"), &context), true);
    assert_eq!(is_drivethrough(&String::from("McDonalds Drivethru"), &context), true);
}

#[test]
fn test_is_undesireable() {
    let tokens = Tokens::generate(vec![String::from("en")]);
    assert_eq!(is_undesireable(&tokens.process(&String::from("Main St NE"), &String::from(""))), false);
    assert_eq!(is_undesireable(&tokens.process(&String::from("Main St NE Ext 25"), &String::from(""))), true);
    assert_eq!(is_undesireable(&tokens.process(&String::from("Main St NE Connector 25"), &String::from(""))), true);
    assert_eq!(is_undesireable(&tokens.process(&String::from("Main St NE Unit 25"), &String::from(""))), true);
    assert_eq!(is_undesireable(&tokens.process(&String::from("Main St NE Apartment 25"), &String::from(""))), true);
    assert_eq!(is_undesireable(&tokens.process(&String::from("Main St NE Shelby Apts"), &String::from(""))), true);
    assert_eq!(is_undesireable(&tokens.process(&String::from("Main St NE Suite 25"), &String::from(""))), true);
    assert_eq!(is_undesireable(&tokens.process(&String::from("Main St NE Lot 25"), &String::from(""))), true);
}

#[test]
fn test_str_remove_octo() {
    assert_eq!(str_remove_octo(&String::from("Highway #12 West")), String::from("Highway 12 West"));
    assert_eq!(str_remove_octo(&String::from("RTe #1")), String::from("RTe 1"));
}

#[test]
fn test_is_numbered() {
    let context = ctx("us", Some("PA"));
    assert_eq!(is_numbered(&Name::new("main st", 0, None, &context)), None);
    assert_eq!(is_numbered(&Name::new("1st st", 0, None, &context)), Some(String::from("1st")));
    assert_eq!(is_numbered(&Name::new("2nd st", 0, None, &context)), Some(String::from("2nd")));
    assert_eq!(is_numbered(&Name::new("west 2nd st", 0, None, &context)), Some(String::from("2nd")));
    assert_eq!(is_numbered(&Name::new("3rd st", 0, None, &context)), Some(String::from("3rd")));
    assert_eq!(is_numbered(&Name::new("4th st", 0, None, &context)), Some(String::from("4th")));
    assert_eq!(is_numbered(&Name::new("11th ave", 0, None, &context)), Some(String::from("11th")));
    assert_eq!(is_numbered(&Name::new("12th ave", 0, None, &context)), Some(String::from("12th")));
    assert_eq!(is_numbered(&Name::new("21st av", 0, None, &context)), Some(String::from("21st")));
    assert_eq!(is_numbered(&Name::new("32nd av", 0, None, &context)), Some(String::from("32nd")));
    assert_eq!(is_numbered(&Name::new("45th av", 0, None, &context)), Some(String::from("45th")));
    assert_eq!(is_numbered(&Name::new("351235th av", 0, None, &context)), Some(String::from("351235th")));
}

#[test]
fn test_is_routish() {
    let context = ctx("us", Some("PA"));
    assert_eq!(is_routish(&Name::new("main st", 0, None, &context)), None);
    assert_eq!(is_routish(&Name::new("1st st", 0, None, &context)), None);
    assert_eq!(is_routish(&Name::new("351235th av", 0, None, &context)), None);
    assert_eq!(is_routish(&Name::new("NC 124", 0, None, &context)), Some(String::from("124")));
    assert_eq!(is_routish(&Name::new("US Route 50 East", 0, None, &context)), Some(String::from("50")));
    assert_eq!(is_routish(&Name::new("321", 0, None, &context)), Some(String::from("321")));
    assert_eq!(is_routish(&Name::new("124 NC", 0, None, &context)), Some(String::from("124")));
}
