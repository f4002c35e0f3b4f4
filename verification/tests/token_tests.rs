use rai_toolkit::{ParsedToken, TokenType, Tokenized, Tokens, type_us_st};

fn tokenized_string(tokenized: Vec<Tokenized>) -> String {
    let tokens: Vec<String> = tokenized.into_iter().map(|x| String::from(x.token)).collect();
    String::from(tokens.join(" ").trim())
}

#[test]
fn test_remove_diacritics() {
    let tokens = Tokens::new(Vec::new());
    assert_eq!(tokenized_string(tokens.process(&String::from("Hérê àrë søme wöřdš, including diacritics and puncatuation!"), &String::from(""))), String::from("here are some words including diacritics and puncatuation"));
    assert_eq!(tokenized_string(tokens.process(&String::from("Cranberries are low, creeping shrubs or vines up to 2 metres (7 ft)"), &String::from(""))), String::from("cranberries are low creeping shrubs or vines up to 2 metres 7 ft"));
    assert_eq!(tokenized_string(tokens.process(&String::from("堪《たま》らん！」と片息《かたいき》になつて、喚《わめ》"), &String::from(""))), String::from("堪《たま》らん！」と片息《かたいき》になつて、喚《わめ》"));
    assert_eq!(tokenized_string(tokens.process(&String::from("άΆέΈήΉίΊόΌύΎ αΑεΕηΗιΙοΟυΥ"), &String::from(""))), String::from("άάέέήήίίόόύύ ααεεηηιιοουυ"));
    assert_eq!(tokenized_string(tokens.process(&String::from("ўЎёЁѐЀґҐйЙ уУеЕеЕгГиИ"), &String::from(""))), String::from("ўўёёѐѐґґйй ууееееггии"));
}

#[test]
fn test_tokenize() {
    let tokens = Tokens::new(Vec::new());
    assert_eq!(tokenized_string(tokens.process(&String::from(""), &String::from(""))), String::from(""));
    assert_eq!(tokenized_string(tokens.process(&String::from("foo"), &String::from(""))), String::from("foo"));
    assert_eq!(tokenized_string(tokens.process(&String::from(" foo bar"), &String::from(""))), String::from("foo bar"));
    assert_eq!(tokenized_string(tokens.process(&String::from("foo bar "), &String::from(""))), String::from("foo bar"));
    assert_eq!(tokenized_string(tokens.process(&String::from("foo bar"), &String::from(""))), String::from("foo bar"));
    assert_eq!(tokenized_string(tokens.process(&String::from("foo-bar"), &String::from(""))), String::from("foo-bar"));
    assert_eq!(tokenized_string(tokens.process(&String::from("foo+bar"), &String::from(""))), String::from("foo bar"));
    assert_eq!(tokenized_string(tokens.process(&String::from("foo_bar"), &String::from(""))), String::from("foo bar"));
    assert_eq!(tokenized_string(tokens.process(&String::from("foo:bar"), &String::from(""))), String::from("foo bar"));
    assert_eq!(tokenized_string(tokens.process(&String::from("foo;bar"), &String::from(""))), String::from("foo bar"));
    assert_eq!(tokenized_string(tokens.process(&String::from("foo|bar"), &String::from(""))), String::from("foo bar"));
    assert_eq!(tokenized_string(tokens.process(&String::from("foo}bar"), &String::from(""))), String::from("foo bar"));
    assert_eq!(tokenized_string(tokens.process(&String::from("foo{bar"), &String::from(""))), String::from("foo bar"));
    assert_eq!(tokenized_string(tokens.process(&String::from("foo[bar"), &String::from(""))), String::from("foo bar"));
    assert_eq!(tokenized_string(tokens.process(&String::from("foo]bar"), &String::from(""))), String::from("foo bar"));
    assert_eq!(tokenized_string(tokens.process(&String::from("foo(bar"), &String::from(""))), String::from("foo bar"));
    assert_eq!(tokenized_string(tokens.process(&String::from("foo)bar"), &String::from(""))), String::from("foo bar"));
    assert_eq!(tokenized_string(tokens.process(&String::from("foo b.a.r"), &String::from(""))), String::from("foo bar"));
    assert_eq!(tokenized_string(tokens.process(&String::from("foo's bar"), &String::from(""))), String::from("foos bar"));
    assert_eq!(tokenized_string(tokens.process(&String::from("San José"), &String::from(""))), String::from("san jose"));
    assert_eq!(tokenized_string(tokens.process(&String::from("A Coruña"), &String::from(""))), String::from("a coruna"));
    assert_eq!(tokenized_string(tokens.process(&String::from("Chamonix-Mont-Blanc"), &String::from(""))), String::from("chamonix-mont-blanc"));
    assert_eq!(tokenized_string(tokens.process(&String::from("Rue d'Argout"), &String::from(""))), String::from("rue dargout"));
    assert_eq!(tokenized_string(tokens.process(&String::from("Hale’iwa Road"), &String::from(""))), String::from("haleiwa road"));
    assert_eq!(tokenized_string(tokens.process(&String::from("москва"), &String::from(""))), String::from("москва"));
    assert_eq!(tokenized_string(tokens.process(&String::from("京都市"), &String::from(""))), String::from("京都市"));
}

#[test]
fn test_replacement_tokens() {
    let mut map: Vec<(String, ParsedToken)> = Vec::new();
    map.push((String::from("barter"), ParsedToken::new(String::from("foo"), None)));
    map.push((String::from("saint"), ParsedToken::new(String::from("st"), None)));
    map.push((String::from("street"), ParsedToken::new(String::from("st"), Some(TokenType::Way))));

    let tokens = Tokens::new(map);

    assert_eq!(tokens.process(&String::from("Main Street"), &String::from("")),
        vec![
            Tokenized::new(String::from("main"), None),
            Tokenized::new(String::from("st"), Some(TokenType::Way))
        ]);
    assert_eq!(tokens.process(&String::from("Main St"), &String::from("")),
        vec![
            Tokenized::new(String::from("main"), None),
            Tokenized::new(String::from("st"), None)
        ]);
    assert_eq!(tokens.process(&String::from("foobarter"), &String::from("")),
        vec![Tokenized::new(String::from("foobarter"), None)]);
    assert_eq!(tokens.process(&String::from("foo barter"), &String::from("")),
        vec![
            Tokenized::new(String::from("foo"), None),
            Tokenized::new(String::from("foo"), None)
        ]);
}

#[test]
fn test_generate_tokens() {
    let tokens = Tokens::generate(vec![String::from("en")]);

    assert_eq!(tokens.process(&String::from("New Jersey Av NW"), &String::from("US")),
        vec![
            Tokenized::new(String::from("new"), None),
            Tokenized::new(String::from("jersey"), None),
            Tokenized::new(String::from("av"), Some(TokenType::Way)),
            Tokenized::new(String::from("nw"), Some(TokenType::Cardinal))
        ]);
    assert_eq!(tokens.process(&String::from("New Jersey Ave NW"), &String::from("US")),
        vec![
            Tokenized::new(String::from("new"), None),
            Tokenized::new(String::from("jersey"), None),
            Tokenized::new(String::from("av"), Some(TokenType::Way)),
            Tokenized::new(String::from("nw"), Some(TokenType::Cardinal))
        ]);
    assert_eq!(tokens.process(&String::from("New Jersey Avenue Northwest"), &String::from("US")),
        vec![
            Tokenized::new(String::from("new"), None),
            Tokenized::new(String::from("jersey"), None),
            Tokenized::new(String::from("av"), Some(TokenType::Way)),
            Tokenized::new(String::from("nw"), Some(TokenType::Cardinal))
        ]);
    assert_eq!(tokens.process(&String::from("Saint Peter Street"), &String::from("US")),
        vec![
            Tokenized::new(String::from("st"), None),
            Tokenized::new(String::from("peter"), None),
            Tokenized::new(String::from("st"), Some(TokenType::Way))
        ]);
    assert_eq!(tokens.process(&String::from("St Peter St"), &String::from("US")),
        vec![
            Tokenized::new(String::from("st"), None),
            Tokenized::new(String::from("peter"), None),
            Tokenized::new(String::from("st"), Some(TokenType::Way))
        ]);
}

#[test]
fn test_type_us_st() {
    assert_eq!(
        type_us_st(&vec![String::from("")], vec![Tokenized::new(String::from(""), None)]),
        vec![Tokenized::new(String::from(""), None)]
    );
    assert_eq!(
        type_us_st(&vec![String::from("main"), String::from("st")],
        vec![
            Tokenized::new(String::from("main"), None),
            Tokenized::new(String::from("st"), None)
        ]),
        vec![
            Tokenized::new(String::from("main"), None),
            Tokenized::new(String::from("st"), Some(TokenType::Way))
        ]);
    assert_eq!(
        type_us_st(&vec![String::from("main"), String::from("st")],
        vec![
            Tokenized::new(String::from("main"), None),
            Tokenized::new(String::from("st"), Some(TokenType::Way))
        ]),
        vec![
            Tokenized::new(String::from("main"), None),
            Tokenized::new(String::from("st"), Some(TokenType::Way))
        ]);
    assert_eq!(
        type_us_st(&vec![String::from("st"), String::from("peter"), String::from("st")],
        vec![
            Tokenized::new(String::from("st"), None),
            Tokenized::new(String::from("peter"), None),
            Tokenized::new(String::from("st"), None)
        ]),
        vec![
            Tokenized::new(String::from("st"), None),
            Tokenized::new(String::from("peter"), None),
            Tokenized::new(String::from("st"), Some(TokenType::Way))
        ]);
    assert_eq!(
        type_us_st(&vec![String::from("st"), String::from("peter"), String::from("st")],
        vec![
            Tokenized::new(String::from("st"), Some(TokenType::Way)),
            Tokenized::new(String::from("peter"), None),
            Tokenized::new(String::from("st"), Some(TokenType::Way))
        ]),
        vec![
            Tokenized::new(String::from("st"), None),
            Tokenized::new(String::from("peter"), None),
            Tokenized::new(String::from("st"), Some(TokenType::Way))
        ]);
    assert_eq!(
        type_us_st(&vec![String::from("st"), String::from("peter")],
        vec![
            Tokenized::new(String::from("st"), None),
            Tokenized::new(String::from("peter"), None),
        ]),
        vec![
            Tokenized::new(String::from("st"), Some(TokenType::Way)),
            Tokenized::new(String::from("peter"), None),
        ]);
    assert_eq!(
        type_us_st(&vec![String::from("st"), String::from("peter")],
        vec![
            Tokenized::new(String::from("st"), Some(TokenType::Way)),
            Tokenized::new(String::from("peter"), None),
        ]),
        vec![
            Tokenized::new(String::from("st"), Some(TokenType::Way)),
            Tokenized::new(String::from("peter"), None),
        ]);
    assert_eq!(
        type_us_st(&vec![String::from("st"), String::from("peter"), String::from("av")],
        vec![
            Tokenized::new(String::from("st"), None),
            Tokenized::new(String::from("peter"), None),
            Tokenized::new(String::from("av"), Some(TokenType::Way))
        ]),
        vec![
            Tokenized::new(String::from("st"), None),
            Tokenized::new(String::from("peter"), None),
            Tokenized::new(String::from("av"), Some(TokenType::Way))
        ]);
    assert_eq!(
        type_us_st(&vec![String::from("st"), String::from("peter"), String::from("av")],
        vec![
            Tokenized::new(String::from("st"), Some(TokenType::Way)),
            Tokenized::new(String::from("peter"), None),
            Tokenized::new(String::from("av"), Some(TokenType::Way))
        ]),
        vec![
            Tokenized::new(String::from("st"), None),
            Tokenized::new(String::from("peter"), None),
            Tokenized::new(String::from("av"), Some(TokenType::Way))
        ]);
    assert_eq!(
        type_us_st(&vec![String::from("rue"), String::from("st"), String::from("francois"), String::from("st")],
        vec![
            Tokenized::new(String::from("rue"), None),
            Tokenized::new(String::from("st"), None),
            Tokenized::new(String::from("francois"), None),
            Tokenized::new(String::from("st"), None)
        ]),
        vec![
            Tokenized::new(String::from("rue"), None),
            Tokenized::new(String::from("st"), None),
            Tokenized::new(String::from("francois"), None),
            Tokenized::new(String::from("st"), Some(TokenType::Way))
        ]);
    assert_eq!(
        type_us_st(&vec![String::from("rue"), String::from("st"), String::from("francois"), String::from("st")],
        vec![
            Tokenized::new(String::from("rue"), None),
            Tokenized::new(String::from("st"), Some(TokenType::Way)),
            Tokenized::new(String::from("francois"), None),
            Tokenized::new(String::from("st"), Some(TokenType::Way))
        ]),
        vec![
            Tokenized::new(String::from("rue"), None),
            Tokenized::new(String::from("st"), None),
            Tokenized::new(String::from("francois"), None),
            Tokenized::new(String::from("st"), Some(TokenType::Way))
        ]);
}
