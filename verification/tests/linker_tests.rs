use rai_toolkit::{linker, Context, Link, LinkResult, Name, Names, ParsedToken, TokenType, Tokens};

fn test_tokens() -> Tokens {
    let mut tokens: Vec<(String, ParsedToken)> = Vec::new();
    tokens.push((String::from("saint"), ParsedToken::new(String::from("st"), None)));
    tokens.push((String::from("street"), ParsedToken::new(String::from("st"), Some(TokenType::Way))));
    tokens.push((String::from("st"), ParsedToken::new(String::from("st"), Some(TokenType::Way))));
    tokens.push((String::from("lake"), ParsedToken::new(String::from("lk"), None)));
    tokens.push((String::from("lk"), ParsedToken::new(String::from("lk"), None)));
    tokens.push((String::from("road"), ParsedToken::new(String::from("rd"), Some(TokenType::Way))));
    tokens.push((String::from("rd"), ParsedToken::new(String::from("rd"), Some(TokenType::Way))));
    tokens.push((String::from("avenue"), ParsedToken::new(String::from("ave"), Some(TokenType::Way))));
    tokens.push((String::from("ave"), ParsedToken::new(String::from("ave"), Some(TokenType::Way))));
    tokens.push((String::from("west"), ParsedToken::new(String::from("w"), Some(TokenType::Cardinal))));
    tokens.push((String::from("east"), ParsedToken::new(String::from("e"), Some(TokenType::Cardinal))));
    tokens.push((String::from("south"), ParsedToken::new(String::from("s"), Some(TokenType::Cardinal))));
    tokens.push((String::from("north"), ParsedToken::new(String::from("n"), Some(TokenType::Cardinal))));
    tokens.push((String::from("northwest"), ParsedToken::new(String::from("nw"), Some(TokenType::Cardinal))));
    tokens.push((String::from("nw"), ParsedToken::new(String::from("nw"), Some(TokenType::Cardinal))));
    tokens.push((String::from("n"), ParsedToken::new(String::from("n"), Some(TokenType::Cardinal))));
    tokens.push((String::from("s"), ParsedToken::new(String::from("s"), Some(TokenType::Cardinal))));
    tokens.push((String::from("w"), ParsedToken::new(String::from("w"), Some(TokenType::Cardinal))));
    tokens.push((String::from("e"), ParsedToken::new(String::from("e"), Some(TokenType::Cardinal))));
    Tokens::new(tokens)
}

#[test]
fn test_linker() {
    let context = Context::new(String::from("us"), None, test_tokens());

    // === Intentional Matches ===
    {
        let a_name = Names::new(vec![Name::new("S STREET NW", 0, None, &context)], &context);

        let b_name1 = Names::new(vec![Name::new("n capitol st", 0, None, &context)], &context);
        let b_name2 = Names::new(vec![Name::new("t st ne", 0, None, &context)], &context);
        let b_name3 = Names::new(vec![Name::new("todd pl ne", 0, None, &context)], &context);
        let b_name4 = Names::new(vec![Name::new("u st ne", 0, None, &context)], &context);
        let b_name5 = Names::new(vec![Name::new("v st ne", 0, None, &context)], &context);
        let b_name6 = Names::new(vec![Name::new("u st nw", 0, None, &context)], &context);
        let b_name7 = Names::new(vec![Name::new("t st nw", 0, None, &context)], &context);
        let b_name8 = Names::new(vec![Name::new("rhode is av ne", 0, None, &context)], &context);
        let b_name9 = Names::new(vec![Name::new("n capitol st ne", 0, None, &context)], &context);
        let b_name10 = Names::new(vec![Name::new("n capitol st nw", 0, None, &context)], &context);
        let b_name11 = Names::new(vec![Name::new("elm st nw", 0, None, &context)], &context);
        let b_name12 = Names::new(vec![Name::new("bates st nw", 0, None, &context)], &context);
        let b_name13 = Names::new(vec![Name::new("s st nw", 0, None, &context)], &context);
        let b_name14 = Names::new(vec![Name::new("rhode is av nw", 0, None, &context)], &context);
        let b_name15 = Names::new(vec![Name::new("r st nw", 0, None, &context)], &context);
        let b_name16 = Names::new(vec![Name::new("randolph pl ne", 0, None, &context)], &context);
        let b_name17 = Names::new(vec![Name::new("rt 1", 0, None, &context)], &context);
        let b_name18 = Names::new(vec![Name::new("lincoln rd ne", 0, None, &context)], &context);
        let b_name19 = Names::new(vec![Name::new("quincy pl ne", 0, None, &context)], &context);
        let b_name20 = Names::new(vec![Name::new("1st st nw", 0, None, &context)], &context);
        let b_name21 = Names::new(vec![Name::new("porter st ne", 0, None, &context)], &context);
        let b_name22 = Names::new(vec![Name::new("quincy pl nw", 0, None, &context)], &context);
        let b_name23 = Names::new(vec![Name::new("florida av ne", 0, None, &context)], &context);
        let b_name24 = Names::new(vec![Name::new("richardson pl nw", 0, None, &context)], &context);
        let b_name25 = Names::new(vec![Name::new("1st st ne", 0, None, &context)], &context);
        let b_name26 = Names::new(vec![Name::new("q st ne", 0, None, &context)], &context);
        let b_name27 = Names::new(vec![Name::new("florida av nw", 0, None, &context)], &context);
        let b_name28 = Names::new(vec![Name::new("p st ne", 0, None, &context)], &context);
        let b_name29 = Names::new(vec![Name::new("s st ne", 0, None, &context)], &context);
        let b_name30 = Names::new(vec![Name::new("r st ne", 0, None, &context)], &context);
        let b_name31 = Names::new(vec![Name::new("seaton pl ne", 0, None, &context)], &context);
        let b_name32 = Names::new(vec![Name::new("randolph pl nw", 0, None, &context)], &context);
        let b_name33 = Names::new(vec![Name::new("anna j cooper cir nw", 0, None, &context)], &context);
        let b_name34 = Names::new(vec![Name::new("p st nw", 0, None, &context)], &context);
        let b_name35 = Names::new(vec![Name::new("q st nw", 0, None, &context)], &context);
        let b_name36 = Names::new(vec![Name::new("4th st nw", 0, None, &context)], &context);
        let b_name37 = Names::new(vec![Name::new("v st nw", 0, None, &context)], &context);
        let b_name38 = Names::new(vec![Name::new("3rd st nw", 0, None, &context)], &context);
        let b_name39 = Names::new(vec![Name::new("seaton pl nw", 0, None, &context)], &context);
        let b_name40 = Names::new(vec![Name::new("flagler pl nw", 0, None, &context)], &context);
        let b_name41 = Names::new(vec![Name::new("2nd st nw", 0, None, &context)], &context);
        let b_name42 = Names::new(vec![Name::new("thomas st nw", 0, None, &context)], &context);

        let a = Link::new(1, &a_name);
        let b = vec![
            Link::new(2, &b_name1), Link::new(3, &b_name2), Link::new(4, &b_name3),
            Link::new(5, &b_name4), Link::new(6, &b_name5), Link::new(7, &b_name6),
            Link::new(8, &b_name7), Link::new(9, &b_name8), Link::new(10, &b_name9),
            Link::new(11, &b_name10), Link::new(12, &b_name11), Link::new(13, &b_name12),
            Link::new(14, &b_name13), Link::new(15, &b_name14), Link::new(16, &b_name15),
            Link::new(17, &b_name16), Link::new(18, &b_name17), Link::new(19, &b_name18),
            Link::new(20, &b_name19), Link::new(21, &b_name20), Link::new(22, &b_name21),
            Link::new(23, &b_name22), Link::new(24, &b_name23), Link::new(25, &b_name24),
            Link::new(26, &b_name25), Link::new(27, &b_name26), Link::new(28, &b_name27),
            Link::new(29, &b_name28), Link::new(30, &b_name29), Link::new(31, &b_name30),
            Link::new(32, &b_name31), Link::new(33, &b_name32), Link::new(34, &b_name33),
            Link::new(35, &b_name34), Link::new(36, &b_name35), Link::new(37, &b_name36),
            Link::new(38, &b_name37), Link::new(39, &b_name38), Link::new(40, &b_name39),
            Link::new(41, &b_name40), Link::new(42, &b_name41), Link::new(43, &b_name42)
        ];
        assert_eq!(linker(a, b, false), Some(LinkResult::new(14, 10000)));
    }

    {
        let a_name = Names::new(vec![Name::new("N Umpqua St", 0, None, &context)], &context);
        let b_1_name = Names::new(vec![Name::new("Umpqua Street", 0, None, &context)], &context);
        let b_2_name = Names::new(vec![Name::new("South Umpqua Street", 0, None, &context)], &context);
        let a = Link::new(1, &a_name);
        let b = vec![Link::new(2, &b_1_name), Link::new(3, &b_2_name)];
        assert_eq!(linker(a, b, false), Some(LinkResult::new(2, 10000)));
    }

    {
        let a_name = Names::new(vec![Name::new("Main Street", 0, None, &context)], &context);
        let b_name = Names::new(vec![Name::new("Main Street", 0, None, &context)], &context);
        let a = Link::new(1, &a_name);
        let b = vec![Link::new(2, &b_name)];
        assert_eq!(linker(a, b, false), Some(LinkResult::new(2, 10000)));
    }

    {
        let a_name = Names::new(vec![Name::new("Saint Peter Street", 0, None, &context)], &context);
        let b_name = Names::new(vec![Name::new("St Peter St", 0, None, &context)], &context);
        let a = Link::new(1, &a_name);
        let b = vec![Link::new(2, &b_name)];
        assert_eq!(linker(a, b, false), Some(LinkResult::new(2, 10000)));
    }

    {
        let a_name = Names::new(vec![Name::new("Main Street", 0, None, &context)], &context);
        let b_name = Names::new(vec![Name::new("Maim Street", 0, None, &context)], &context);
        let a = Link::new(1, &a_name);
        let b = vec![Link::new(2, &b_name)];
        assert_eq!(linker(a, b, false), Some(LinkResult::new(2, 8571)));
    }

    {
        let a_name = Names::new(vec![Name::new("US Route 50 East", 0, None, &context)], &context);
        let b_name = Names::new(vec![Name::new("US Route 50 West", 0, None, &context)], &context);
        let a = Link::new(1, &a_name);
        let b = vec![Link::new(2, &b_name)];
        assert_eq!(linker(a, b, false), Some(LinkResult::new(2, 9808)));
    }

    {
        let a_name = Names::new(vec![Name::new("11th Street West", 0, None, &context)], &context);
        let b_name = Names::new(vec![Name::new("11th Avenue West", 0, None, &context)], &context);
        let a = Link::new(1, &a_name);
        let b = vec![Link::new(2, &b_name)];
        assert_eq!(linker(a, b, false), Some(LinkResult::new(2, 9211)));
    }

    {
        let a_name = Names::new(vec![Name::new("Main Street", 0, None, &context)], &context);
        let b_name1 = Names::new(vec![Name::new("Main Street", 0, None, &context)], &context);
        let b_name2 = Names::new(vec![Name::new("Main Avenue", 0, None, &context)], &context);
        let b_name3 = Names::new(vec![Name::new("Main Road", 0, None, &context)], &context);
        let b_name4 = Names::new(vec![Name::new("Main Drive", 0, None, &context)], &context);
        let a = Link::new(1, &a_name);
        let b = vec![Link::new(2, &b_name1), Link::new(3, &b_name2), Link::new(4, &b_name3), Link::new(5, &b_name4)];
        assert_eq!(linker(a, b, false), Some(LinkResult::new(2, 10000)));
    }

    {
        let a_name = Names::new(vec![Name::new("Main Street", 0, None, &context)], &context);
        let b_name1 = Names::new(vec![Name::new("Main Street", 0, None, &context)], &context);
        let b_name2 = Names::new(vec![Name::new("Asdg Street", 0, None, &context)], &context);
        let b_name3 = Names::new(vec![Name::new("Asdg Street", 0, None, &context)], &context);
        let b_name4 = Names::new(vec![Name::new("Maim Drive", 0, None, &context)], &context);
        let a = Link::new(1, &a_name);
        let b = vec![Link::new(2, &b_name1), Link::new(3, &b_name2), Link::new(4, &b_name3), Link::new(5, &b_name4)];
        assert_eq!(linker(a, b, false), Some(LinkResult::new(2, 10000)));
    }

    {
        let a_name = Names::new(vec![Name::new("Ola Avenue", 0, None, &context)], &context);
        let b_name1 = Names::new(vec![Name::new("Ola", 0, None, &context)], &context);
        let b_name2 = Names::new(vec![Name::new("Ola Avg", 0, None, &context)], &context);
        let a = Link::new(1, &a_name);
        let b = vec![Link::new(2, &b_name1), Link::new(3, &b_name2)];
        assert_eq!(linker(a, b, false), Some(LinkResult::new(2, 8000)));
    }

    {
        let a_name = Names::new(vec![Name::new("Avenue Street", 0, None, &context)], &context);
        let b_name1 = Names::new(vec![Name::new("Ave", 0, None, &context)], &context);
        let b_name2 = Names::new(vec![Name::new("Avenida", 0, None, &context)], &context);
        let a = Link::new(1, &a_name);
        let b = vec![Link::new(2, &b_name1), Link::new(3, &b_name2)];
        assert_eq!(linker(a, b, false), Some(LinkResult::new(2, 7778)));
    }

    {
        let a_name = Names::new(vec![Name::new("Avenue Street", 0, None, &context)], &context);
        let b_name1 = Names::new(vec![Name::new("Avenue", 0, None, &context)], &context);
        let b_name2 = Names::new(vec![Name::new("Avenue", 0, None, &context)], &context);
        let b_name3 = Names::new(vec![Name::new("Avenida", 0, None, &context)], &context);
        let a = Link::new(1, &a_name);
        let b = vec![Link::new(2, &b_name1), Link::new(3, &b_name2), Link::new(4, &b_name3)];
        assert_eq!(linker(a, b, false), Some(LinkResult::new(2, 7778)));
    }

    {
        let a_name = Names::new(vec![Name::new("Main Street West", 0, None, &context)], &context);
        let b_name1 = Names::new(vec![Name::new("Main Road", 0, None, &context)], &context);
        let b_name2 = Names::new(vec![Name::new("Main Avenue", 0, None, &context)], &context);
        let b_name3 = Names::new(vec![Name::new("Main Street", 0, None, &context)], &context);
        let a = Link::new(1, &a_name);
        let b = vec![Link::new(2, &b_name1), Link::new(3, &b_name2), Link::new(4, &b_name3)];
        assert_eq!(linker(a, b, false), Some(LinkResult::new(4, 10000)));
    }

    {
        let a_name = Names::new(vec![Name::new("Lake Street West", 0, None, &context)], &context);
        let b_name = Names::new(vec![Name::new("West Lake Street", 0, None, &context)], &context);
        let a = Link::new(1, &a_name);
        let b = vec![Link::new(2, &b_name)];
        assert_eq!(linker(a, b, false), Some(LinkResult::new(2, 8571)));
    }

    {
        let a_name = Names::new(vec![Name::new("Main Street", 0, None, &context)], &context);
        let b_name1 = Names::new(vec![Name::new("Maim Street", 0, None, &context)], &context);
        let b_name2 = Names::new(vec![Name::new("Maim Street", 0, None, &context)], &context);
        let b_name3 = Names::new(vec![Name::new("Cross Street", 0, None, &context)], &context);
        let a = Link::new(1, &a_name);
        let b = vec![Link::new(2, &b_name1), Link::new(3, &b_name2), Link::new(4, &b_name3)];
        assert_eq!(linker(a, b, false), Some(LinkResult::new(2, 8571)));
    }

    {
        let a_name = Names::new(vec![Name::new("S Street NW", 0, None, &context)], &context);
        let b_name1 = Names::new(vec![Name::new("P Street Northeast", 0, None, &context)], &context);
        let b_name2 = Names::new(vec![Name::new("S Street NW", 0, None, &context)], &context);
        let b_name3 = Names::new(vec![Name::new("S Street NE", 0, None, &context)], &context);
        let b_name4 = Names::new(vec![Name::new("Bates Street NW", 0, None, &context)], &context);
        let a = Link::new(1, &a_name);
        let b = vec![Link::new(2, &b_name1), Link::new(3, &b_name2), Link::new(4, &b_name3), Link::new(5, &b_name4)];
        assert_eq!(linker(a, b, false), Some(LinkResult::new(3, 10000)));
    }

    // === Intentional Non-Matches ===
    {
        let a_name = Names::new(vec![Name::new("1st Street West", 0, None, &context)], &context);
        let b_name = Names::new(vec![Name::new("2nd Street West", 0, None, &context)], &context);
        let a = Link::new(1, &a_name);
        let b = vec![Link::new(2, &b_name)];
        assert_eq!(linker(a, b, false), None);
    }

    {
        let a_name = Names::new(vec![Name::new("1st Street West", 0, None, &context)], &context);
        let b_name = Names::new(vec![Name::new("3rd Street West", 0, None, &context)], &context);
        let a = Link::new(1, &a_name);
        let b = vec![Link::new(2, &b_name)];
        assert_eq!(linker(a, b, false), None);
    }

    {
        let a_name = Names::new(vec![Name::new("1st Street West", 0, None, &context)], &context);
        let b_name = Names::new(vec![Name::new("4th Street West", 0, None, &context)], &context);
        let a = Link::new(1, &a_name);
        let b = vec![Link::new(2, &b_name)];
        assert_eq!(linker(a, b, false), None);
    }

    {
        let a_name = Names::new(vec![Name::new("11th Street West", 0, None, &context)], &context);
        let b_name = Names::new(vec![Name::new("21st Street West", 0, None, &context)], &context);
        let a = Link::new(1, &a_name);
        let b = vec![Link::new(2, &b_name)];
        assert_eq!(linker(a, b, false), None);
    }

    {
        let a_name = Names::new(vec![Name::new("US Route 60 East", 0, None, &context)], &context);
        let b_name = Names::new(vec![Name::new("US Route 51 West", 0, None, &context)], &context);
        let a = Link::new(1, &a_name);
        let b = vec![Link::new(2, &b_name)];
        assert_eq!(linker(a, b, false), None);
    }

    {
        let a_name = Names::new(vec![Name::new("West Main Street", 0, None, &context)], &context);
        let b_name = Names::new(vec![Name::new("West Saint Street", 0, None, &context)], &context);
        let a = Link::new(1, &a_name);
        let b = vec![Link::new(2, &b_name)];
        assert_eq!(linker(a, b, false), None);
    }

    {
        let a_name = Names::new(vec![Name::new("Main Street", 0, None, &context)], &context);
        let b_name = Names::new(vec![Name::new("Anne Boulevard", 0, None, &context)], &context);
        let a = Link::new(1, &a_name);
        let b = vec![Link::new(2, &b_name)];
        assert_eq!(linker(a, b, false), None);
    }

    // === Intentional Strict Matches ===
    {
        let a_name = Names::new(vec![Name::new("Main Street", 0, None, &context)], &context);
        let b_name = Names::new(vec![Name::new("Main Street", 0, None, &context)], &context);
        let a = Link::new(1, &a_name);
        let b = vec![Link::new(2, &b_name)];
        assert_eq!(linker(a, b, true), Some(LinkResult::new(2, 10000)));
    }

    {
        let a_name = Names::new(vec![Name::new("Saint Peter Street", 0, None, &context)], &context);
        let b_name = Names::new(vec![Name::new("St Peter St", 0, None, &context)], &context);
        let a = Link::new(1, &a_name);
        let b = vec![Link::new(2, &b_name)];
        assert_eq!(linker(a, b, true), Some(LinkResult::new(2, 10000)));
    }

    {
        let a_name = Names::new(vec![Name::new("Main Street West", 0, None, &context)], &context);
        let b_name = Names::new(vec![Name::new("Main Street", 0, None, &context)], &context);
        let a = Link::new(1, &a_name);
        let b = vec![Link::new(2, &b_name)];
        assert_eq!(linker(a, b, true), Some(LinkResult::new(2, 9375)));
    }

    {
        let a_name = Names::new(vec![Name::new("Main West", 0, None, &context)], &context);
        let b_name = Names::new(vec![Name::new("Main Street West", 0, None, &context)], &context);
        let a = Link::new(1, &a_name);
        let b = vec![Link::new(2, &b_name)];
        assert_eq!(linker(a, b, true), Some(LinkResult::new(2, 9000)));
    }

    {
        let a_name = Names::new(vec![Name::new("Main", 0, None, &context)], &context);
        let b_name = Names::new(vec![Name::new("Main Street", 0, None, &context)], &context);
        let a = Link::new(1, &a_name);
        let b = vec![Link::new(2, &b_name)];
        assert_eq!(linker(a, b, true), Some(LinkResult::new(2, 8636)));
    }

    {
        let a_name = Names::new(vec![Name::new("Main Street", 0, None, &context)], &context);
        let b_name = Names::new(vec![Name::new("Main", 0, None, &context)], &context);
        let a = Link::new(1, &a_name);
        let b = vec![Link::new(2, &b_name)];
        assert_eq!(linker(a, b, true), Some(LinkResult::new(2, 8636)));
    }

    {
        let a_name = Names::new(vec![Name::new("Main West", 0, None, &context)], &context);
        let b_name = Names::new(vec![Name::new("Main", 0, None, &context)], &context);
        let a = Link::new(1, &a_name);
        let b = vec![Link::new(2, &b_name)];
        assert_eq!(linker(a, b, true), Some(LinkResult::new(2, 9000)));
    }

    {
        let a_name = Names::new(vec![Name::new("Lake Street West", 0, None, &context)], &context);
        let b_name1 = Names::new(vec![Name::new("West Lake Street", 0, None, &context)], &context);
        let a = Link::new(1, &a_name);
        let b = vec![Link::new(2, &b_name1)];
        assert_eq!(linker(a, b, true), Some(LinkResult::new(2, 8571)));
    }

    {
        let a_name = Names::new(vec![Name::new("East Main", 0, None, &context)], &context);
        let b_name = Names::new(vec![Name::new("Main Street", 0, None, &context)], &context);
        let a = Link::new(1, &a_name);
        let b = vec![Link::new(2, &b_name)];
        assert_eq!(linker(a, b, true), Some(LinkResult::new(2, 8077)));
    }

    {
        let a_name = Names::new(vec![Name::new("East Main", 0, None, &context)], &context);
        let b_name = Names::new(vec![Name::new("Main North East", 0, None, &context)], &context);
        let a = Link::new(1, &a_name);
        let b = vec![Link::new(2, &b_name)];
        assert_eq!(linker(a, b, true), Some(LinkResult::new(2, 7857)));
    }

    // === Intentional Strict Non-Matches ===
    {
        let a_name = Names::new(vec![Name::new("US Route 50 East", 0, None, &context)], &context);
        let b_name = Names::new(vec![Name::new("US Route 50 West", 0, None, &context)], &context);
        let a = Link::new(1, &a_name);
        let b = vec![Link::new(2, &b_name)];
        assert_eq!(linker(a, b, true), None);
    }

    {
        let a_name = Names::new(vec![Name::new("West Main Street", 0, None, &context)], &context);
        let b_name = Names::new(vec![Name::new("West Saint Street", 0, None, &context)], &context);
        let a = Link::new(1, &a_name);
        let b = vec![Link::new(2, &b_name)];
        assert_eq!(linker(a, b, true), None);
    }

    {
        let a_name = Names::new(vec![Name::new("Main Street", 0, None, &context)], &context);
        let b_name = Names::new(vec![Name::new("Main Ave", 0, None, &context)], &context);
        let a = Link::new(1, &a_name);
        let b = vec![Link::new(2, &b_name)];
        assert_eq!(linker(a, b, true), None);
    }

    {
        let a_name = Names::new(vec![Name::new("East Main", 0, None, &context)], &context);
        let b_name = Names::new(vec![Name::new("West Main", 0, None, &context)], &context);
        let a = Link::new(1, &a_name);
        let b = vec![Link::new(2, &b_name)];
        assert_eq!(linker(a, b, true), None);
    }

    {
        let a_name = Names::new(vec![Name::new("East Main Street", 0, None, &context)], &context);
        let b_name = Names::new(vec![Name::new("West Main Street", 0, None, &context)], &context);
        let a = Link::new(1, &a_name);
        let b = vec![Link::new(2, &b_name)];
        assert_eq!(linker(a, b, true), None);
    }

    {
        let a_name = Names::new(vec![Name::new("Main Street Ave", 0, None, &context)], &context);
        let b_name = Names::new(vec![Name::new("Main Street", 0, None, &context)], &context);
        let a = Link::new(1, &a_name);
        let b = vec![Link::new(2, &b_name)];
        assert_eq!(linker(a, b, true), None);
    }
}

#[test]
fn test_linker_first_letter_gate_multibyte() {
    let context = Context::new(String::from("us"), None, test_tokens());

    // Tokenless forms that begin with different Cyrillic characters are
    // gated out, as any differing first characters are.
    {
        let a_name = Names::new(vec![Name::new("москва st", 0, None, &context)], &context);
        let b_name = Names::new(vec![Name::new("тосква st", 0, None, &context)], &context);
        let a = Link::new(1, &a_name);
        let b = vec![Link::new(2, &b_name)];
        assert_eq!(linker(a, b, false), None);
    }

    // The same first character lets a close pair through to scoring.
    {
        let a_name = Names::new(vec![Name::new("москва st", 0, None, &context)], &context);
        let b_name = Names::new(vec![Name::new("москша st", 0, None, &context)], &context);
        let a = Link::new(1, &a_name);
        let b = vec![Link::new(2, &b_name)];
        assert!(linker(a, b, false).is_some());
    }
}
