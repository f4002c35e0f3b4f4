use rai_toolkit::{Context, InputName, Name, Names, Source, TokenType, Tokenized, Tokens};

fn ctx_empty(country: &str) -> Context {
    Context::new(String::from(country), None, Tokens::new(Vec::new()))
}

fn ctx_en(country: &str) -> Context {
    Context::new(String::from(country), None, Tokens::generate(vec![String::from("en")]))
}

#[test]
fn test_name() {
    let context = ctx_empty("us");

    assert_eq!(Name::new("main ST nw", 0, None, &context), Name {
        display: String::from("Main St NW"),
        priority: 0,
        source: None,
        tokenized: vec![
            Tokenized::new(String::from("main"), None),
            Tokenized::new(String::from("st"), Some(TokenType::Way)),
            Tokenized::new(String::from("nw"), None)],
        freq: 1
    });

    assert_eq!(Name::new("HiGHway #12 \" wEST", 0, None, &context), Name {
        display: String::from("Highway 12 West"),
        priority: 0,
        source: None,
        tokenized: vec![
            Tokenized::new(String::from("highway"), None),
            Tokenized::new(String::from("12"), None),
            Tokenized::new(String::from("west"), None)],
        freq: 1
    });

    assert_eq!(Name::new("\thighway #12 west ext 1\n", -1, None, &context), Name {
        display: String::from("Highway 12 West Ext 1"),
        priority: -2,
        source: None,
        tokenized: vec![
            Tokenized::new(String::from("highway"), None),
            Tokenized::new(String::from("12"), None),
            Tokenized::new(String::from("west"), None),
            Tokenized::new(String::from("ext"), None),
            Tokenized::new(String::from("1"), None)],
        freq: 1
    });

    assert_eq!(Name::new("\"", 0, None, &context), Name {
        display: String::from(""),
        priority: 0,
        source: None,
        tokenized: vec![],
        freq: 1
    });

    assert_eq!(Name::new(",", 0, None, &context), Name {
        display: String::from(""),
        priority: 0,
        source: None,
        tokenized: vec![],
        freq: 1
    });
}

#[test]
fn test_names_sort() {
    let context = ctx_en("us");

    let mut names = Names {
        names: vec![
            Name::new("Highway 123", -1, None, &context),
            Name::new("Route 123", 2, None, &context),
            Name::new("Test 123", 0, None, &context)
        ]
    };
    names.sort();
    let names_sorted = Names {
        names: vec![
            Name::new("Route 123", 2, None, &context),
            Name::new("Test 123", 0, None, &context),
            Name::new("Highway 123", -1, None, &context)
        ]
    };
    assert_eq!(names, names_sorted);

    let mut names = Names {
        names: vec![
            Name::new("hwy 3", -1, None, &context),
            Name::new("highway 3", -1, None, &context),
            Name::new("hwy 2", -1, None, &context).set_freq(2),
            Name::new("hwy 1", -1, None, &context).set_freq(3),
            Name::new("hwy 1", 1, None, &context)
        ]
    };
    names.sort();
    let names_sorted = Names {
        names: vec![
            Name::new("hwy 1", 1, None, &context),
            Name::new("hwy 1", -1, None, &context).set_freq(3),
            Name::new("hwy 2", -1, None, &context).set_freq(2),
            Name::new("hwy 3", -1, None, &context),
            Name::new("highway 3", -1, None, &context),
        ]
    };
    assert_eq!(names, names_sorted);
}

#[test]
fn test_names_concat() {
    let context = ctx_empty("us");

    let mut names = Names {
        names: vec![
            Name::new("Highway 123", -1, None, &context),
            Name::new("Highway 123", -1, None, &context)
        ]
    };
    let names2 = Names {
        names: vec![
            Name::new("Highway 123", -1, None, &context)
        ]
    };
    names.concat(names2);

    let names_concat = Names {
        names: vec![
            Name::new("Highway 123", -1, None, &context),
            Name::new("Highway 123", -1, None, &context),
            Name::new("Highway 123", -1, None, &context)
        ]
    };
    assert_eq!(names, names_concat);
}

#[test]
fn test_names_dedupe() {
    let context = ctx_en("us");

    let mut names = Names {
        names: vec![
            Name::new("hwy 3", -1, None, &context).set_freq(1),
            Name::new("highway 3", -1, None, &context).set_freq(1),
            Name::new("hwy 2", -1, None, &context).set_freq(1),
            Name::new("hwy 2", -1, None, &context).set_freq(2),
            Name::new("hwy 1", -1, None, &context),
            Name::new("hwy 1", 1, None, &context)
        ]
    };
    names.dedupe();
    let names_deduped = Names {
        names: vec![
            Name::new("highway 3", -1, None, &context).set_freq(1),
            Name::new("hwy 2", -1, None, &context).set_freq(1),
            Name::new("hwy 1", -1, None, &context)
        ]
    };
    assert_eq!(names, names_deduped);

    let mut names = Names {
        names: vec![
            Name::new("E Main Street", 0, Some(Source::Generated), &context),
            Name::new("East Main Street", 0, None, &context),
            Name::new("E Main St", 0, None, &context)
        ]
    };
    names.dedupe();
    let names_deduped = Names {
        names: vec![Name::new("E Main Street", 0, Some(Source::Generated), &context)]
    };
    assert_eq!(names, names_deduped);

    let mut names = Names {
        names: vec![
            Name::new("East Main Street", 0, None, &context),
            Name::new("E Main St", -1, None, &context),
            Name::new("E Main Street", -1, Some(Source::Generated), &context)
        ]
    };
    names.dedupe();
    let names_deduped = Names {
        names: vec![Name::new("E Main Street", 0, Some(Source::Generated), &context)]
    };
    assert_eq!(names, names_deduped);
}

#[test]
fn test_names_from_value() {
    let context = ctx_empty("us");

    let expected = Names::new(vec![Name::new("Main St NE", 0, Some(Source::Network), &context)], &context);

    assert_eq!(Names::from_value(
        Some(vec![InputName { display: String::from("Main St NE"), priority: 0 }]),
        Some(Source::Network),
        &context,
    ), expected);

    let expected = Names::new(vec![Name::new("Main St NE", -1, Some(Source::Address), &context)], &context);

    assert_eq!(Names::from_value(
        Some(vec![InputName { display: String::from("Main St NE"), priority: 0 }]),
        Some(Source::Address),
        &context,
    ), expected);

    assert_eq!(Names::from_value(
        Some(vec![
            InputName { display: String::from("Main St NE"), priority: 0 },
            InputName { display: String::from("Main St NE"), priority: 0 },
        ]),
        Some(Source::Address),
        &context,
    ), expected);
}

#[test]
fn test_names_has_diff() {
    let context = ctx_empty("us");

    let a_name = Names::new(vec![Name::new("Main St", 0, None, &context)], &context);
    let b_name = Names::new(vec![Name::new("Main St", 0, None, &context)], &context);
    assert_eq!(a_name.has_diff(&b_name), false);

    let a_name = Names::new(vec![Name::new("US Route 1", 0, None, &context)], &context);
    let b_name = Names::new(vec![Name::new("us route 1", 0, None, &context)], &context);
    assert_eq!(a_name.has_diff(&b_name), false);

    let a_name = Names::new(vec![Name::new("highway 1", 0, None, &context), Name::new("US Route 1", 0, None, &context)], &context);
    let b_name = Names::new(vec![Name::new("us route 1", 0, None, &context)], &context);
    assert_eq!(a_name.has_diff(&b_name), false);

    let a_name = Names::new(vec![Name::new("us route 1", 0, None, &context)], &context);
    let b_name = Names::new(vec![Name::new("highway 1", 0, None, &context), Name::new("US Route 1", 0, None, &context)], &context);
    assert_eq!(a_name.has_diff(&b_name), true);

    let a_name = Names::new(vec![Name::new("us route 1", 0, None, &context), Name::new("Main St", 0, None, &context)], &context);
    let b_name = Names::new(vec![Name::new("us route 1", 0, None, &context)], &context);
    assert_eq!(a_name.has_diff(&b_name), false);
}

#[test]
fn test_names() {
    let context = ctx_en("us");

    assert_eq!(Names::new(vec![], &context), Names { names: Vec::new() });

    assert_eq!(Names::new(vec![Name::new("Main St NW", 0, None, &context)], &context), Names {
        names: vec![Name::new("Main St NW", 0, None, &context)]
    });

    assert_eq!(Names::new(vec![Name::new("", 0, None, &context), Name::new("\t  \n", 0, None, &context)], &context), Names {
        names: Vec::new()
    });

    assert_eq!(
        Names::new(
            vec![Name::new("Main Street", 0, None, &context),
                Name::new("Main Street", 0, None, &context)],
                &context),
        Names { names: vec![Name::new("Main Street", 0, None, &context)]}
    );

    assert_eq!(
        Names::new(
            vec![Name::new("Main St", 0, None, &context),
                Name::new("Main Street", 0, None, &context),
                Name::new("E Main St", 0, None, &context),
                Name::new("East Main Street", 0, None, &context)],
                &context),
        Names {
            names: vec![
                Name::new("Main Street", 0, None, &context),
                Name::new("East Main Street", 0, None, &context)
            ]}
    );

    assert_eq!(
        Names::new(
            vec![Name::new("Main St", 1, None, &context),
                Name::new("Main Street", 0, None, &context),
                Name::new("E Main St", 1, None, &context),
                Name::new("East Main Street", 0, None, &context)],
                &context),
        Names {
            names: vec![
                Name::new("Main Street", 1, None, &context),
                Name::new("East Main Street", 1, None, &context)
            ]}
    );

    assert_eq!(Names::new(vec![Name::new("US Route 1", 0, Some(Source::Network), &context)], &context), Names {
        names: vec![
            Name::new("US Route 1", 1, Some(Source::Generated), &context),
            Name::new("US 1", -1, Some(Source::Generated), &context),
            Name::new("US Highway 1", -1, Some(Source::Generated), &context),
            Name::new("United States Route 1", -1, Some(Source::Generated), &context),
            Name::new("United States Highway 1", -1, Some(Source::Generated), &context)
        ]
    });

    assert_eq!(Names::new(vec![
        Name::new("Main St", 0, Some(Source::Network), &context),
        Name::new("US Route 1", -1, Some(Source::Network), &context)
    ], &context), Names {
        names: vec![
            Name::new("Main St", 0, Some(Source::Network), &context),
            Name::new("US Route 1", -1, Some(Source::Generated), &context),
            Name::new("US 1", -2, Some(Source::Generated), &context),
            Name::new("US Highway 1", -2, Some(Source::Generated), &context),
            Name::new("United States Route 1", -2, Some(Source::Generated), &context),
            Name::new("United States Highway 1", -2, Some(Source::Generated), &context)
        ]
    });

    assert_eq!(Names::new(vec![
        Name::new("US Highway 1", -1, Some(Source::Address), &context),
        Name::new("Main Street", -1, Some(Source::Address), &context),
        Name::new("US Highway 1", -1, Some(Source::Network), &context),
        Name::new("Main St", 0, Some(Source::Network), &context)
    ], &context), Names {
        names: vec![
            Name::new("Main Street", 0, Some(Source::Address), &context),
            Name::new("US Highway 1", -1, Some(Source::Generated), &context),
            Name::new("US Route 1", -1, Some(Source::Generated), &context),
            Name::new("US 1", -2, Some(Source::Generated), &context),
            Name::new("United States Route 1", -2, Some(Source::Generated), &context),
            Name::new("United States Highway 1", -2, Some(Source::Generated), &context)
        ]
    });

    let context = ctx_en("us");

    assert_eq!(Names::new(vec![
        Name::new("NE M L King Blvd", -1, Some(Source::Address), &context).set_freq(1480),
        Name::new("NE MARTIN LUTHER KING JR BLVD", -1, Some(Source::Address), &context).set_freq(110),
        Name::new("NE M L KING BLVD", -1, Some(Source::Address), &context).set_freq(18),
        Name::new("SE M L King Blvd", -1, Some(Source::Address), &context).set_freq(7),
        Name::new("N M L King Blvd", -1, Some(Source::Address), &context).set_freq(3),
        Name::new("SE MARTIN LUTHER KING JR BLVD", -1, Some(Source::Address), &context).set_freq(2),
        Name::new("Northeast Martin Luther King Junior Boulevard", 0, Some(Source::Network), &context).set_freq(1),
        Name::new("NE MLK", -1, Some(Source::Network), &context).set_freq(1),
        Name::new("OR 99E", -1, Some(Source::Network), &context).set_freq(1),
        Name::new("State Highway 99E", -1, Some(Source::Network), &context).set_freq(1)
    ], &context), Names {
        names: vec![
            Name::new("Northeast Martin Luther King Jr Boulevard", 1, Some(Source::Generated), &context),
            Name::new("NE M L King Blvd", -1, Some(Source::Address), &context).set_freq(1480),
            Name::new("SE M L King Blvd", -1, Some(Source::Address), &context).set_freq(7),
            Name::new("N M L King Blvd", -1, Some(Source::Address), &context).set_freq(3),
            Name::new("SE Martin Luther King Jr Blvd", -1, Some(Source::Address), &context).set_freq(2),
            Name::new("NE MLK", -1, Some(Source::Generated), &context),
            Name::new("Or 99e", -1, Some(Source::Network), &context),
            Name::new("State Highway 99e", -1, Some(Source::Network), &context),
            Name::new("Northeast MLK Boulevard", -1, Some(Source::Generated), &context),
            Name::new("Northeast M L K Boulevard", -1, Some(Source::Generated), &context),
            Name::new("Northeast Martin Luther King Boulevard", -1, Some(Source::Generated), &context),
            Name::new("Northeast MLK Jr Boulevard", -1, Some(Source::Generated), &context),
            Name::new("Northeast M L K Jr Boulevard", -1, Some(Source::Generated), &context),
            Name::new("NE Martin Luther King Jr", -1, Some(Source::Generated), &context),
            Name::new("NE M L K", -2, Some(Source::Generated), &context),
            Name::new("NE Martin Luther King", -2, Some(Source::Generated), &context),
            Name::new("NE MLK Jr", -2, Some(Source::Generated), &context),
            Name::new("NE M L K Jr", -2, Some(Source::Generated), &context)
        ]
    });
}

#[test]
fn test_tokenized_string() {
    let context = ctx_en("us");
    assert_eq!(Name::new("Main St NW", 0, None, &context).tokenized_string(), String::from("main st nw"));
    assert_eq!(Name::new("Main Street Northwest", 0, None, &context).tokenized_string(), String::from("main st nw"));
}

#[test]
fn test_tokenless_string() {
    let context = ctx_en("us");
    assert_eq!(Name::new("Main St NW", 0, None, &context).tokenless_string(), String::from("main"));
    assert_eq!(Name::new("Main Street Northwest", 0, None, &context).tokenless_string(), String::from("main"));
    assert_eq!(Name::new("East College Road", 0, None, &context).tokenless_string(), String::from("coll"));
}

#[test]
fn test_remove_type_string() {
    let context = ctx_en("us");
    assert_eq!(Name::new("Main St NW", 0, None, &context).remove_type_string(Some(TokenType::Way)), String::from("main nw"));
    assert_eq!(Name::new("Main St NW", 0, None, &context).remove_type_string(Some(TokenType::Cardinal)), String::from("main st"));
    assert_eq!(Name::new("Main St NW", 0, None, &context).remove_type_string(None), String::from("st nw"));
    assert_eq!(Name::new("Main St NW", 0, None, &context).remove_type_string(Some(TokenType::PostalBox)), String::from("main st nw"));
}

#[test]
fn test_has_type() {
    let context = ctx_en("us");
    assert_eq!(Name::new("Main St NW", 0, None, &context).has_type(Some(TokenType::Way)), true);
    assert_eq!(Name::new("Main St NW", 0, None, &context).has_type(Some(TokenType::Cardinal)), true);
    assert_eq!(Name::new("Main St NW", 0, None, &context).has_type(None), true);
    assert_eq!(Name::new("Main St NW", 0, None, &context).has_type(Some(TokenType::PostalBox)), false);
    assert_eq!(Name::new("foo bar", 0, None, &context).has_type(Some(TokenType::Way)), false);
    assert_eq!(Name::new("foo bar", 0, None, &context).has_type(Some(TokenType::Cardinal)), false);
    assert_eq!(Name::new("foo bar", 0, None, &context).has_type(None), true);
}

#[test]
fn test_empty() {
    let context = ctx_empty("us");

    let mut empty_a = Names::new(vec![Name::new("", 0, None, &context)], &context);
    empty_a.empty();
    assert_eq!(empty_a, Names { names: Vec::new() });

    let mut empty_b = Names::new(vec![Name::new("\t  \n", 0, None, &context)], &context);
    empty_b.empty();
    assert_eq!(empty_b, Names { names: Vec::new() });

    let mut empty_c = Names::new(vec![Name::new("", 0, None, &context), Name::new("\t  \n", 0, None, &context)], &context);
    empty_c.empty();
    assert_eq!(empty_c, Names { names: Vec::new() });
}

#[test]
fn context_test() {
    assert_eq!(Context::new(String::from("us"), None, Tokens::new(Vec::new())), Context {
        country: String::from("US"),
        region: None,
        tokens: Tokens::new(Vec::new())
    });

    assert_eq!(Context::new(String::from("uS"), Some(String::from("wv")), Tokens::new(Vec::new())), Context {
        country: String::from("US"),
        region: Some(String::from("WV")),
        tokens: Tokens::new(Vec::new())
    });

    let cntx = Context::new(String::from("uS"), Some(String::from("wv")), Tokens::new(Vec::new()));
    assert_eq!(cntx.region_code(), Some(String::from("US-WV")));
    assert_eq!(cntx.region_name(), Some(String::from("West Virginia")));
}
