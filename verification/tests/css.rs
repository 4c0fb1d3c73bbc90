use browser_core::css::cssom::{
    ComponentValue, CssParser, Declaration, QualifiedRule, Selector, StyleSheet,
};
use browser_core::css::token::{CssError, CssNumber, CssToken, CssTokenizer};
use browser_core::css::writer::{write_sheet, write_token};

fn parse(style: &str) -> Result<StyleSheet, CssError> {
    let t = CssTokenizer::new(style.to_string());
    CssParser::new(t).parse_stylesheet()
}

fn tokens(style: &str) -> Result<Vec<CssToken>, CssError> {
    let mut t = CssTokenizer::new(style.to_string());
    let mut found = Vec::new();
    while let Some(token) = t.next()? {
        found.push(token);
    }
    Ok(found)
}

fn number(whole: &[u8], fraction: &[u8]) -> CssToken {
    CssToken::Number(CssNumber { whole: whole.to_vec(), fraction: fraction.to_vec() })
}

/// The value of a number token: whole digits times ten and added, then each
/// fraction digit weighted by the next smaller power of ten.
fn value_of(token: &CssToken) -> f64 {
    let n = match token {
        CssToken::Number(n) => n,
        _ => panic!("not a number"),
    };
    let mut num = 0f64;
    for d in n.whole.iter() {
        num = num * 10.0 + (*d as f64);
    }
    let mut weight = 1f64;
    for d in n.fraction.iter() {
        weight *= 1f64 / 10f64;
        num += (*d as f64) * weight;
    }
    num
}

fn rule(selector: Selector, declarations: Vec<(&str, ComponentValue)>) -> QualifiedRule {
    let mut rule = QualifiedRule::new();
    rule.set_selector(selector);
    let mut list = Vec::new();
    for (property, value) in declarations {
        let mut declaration = Declaration::new();
        declaration.set_property(property.to_string());
        declaration.set_value(value);
        list.push(declaration);
    }
    rule.set_declarations(list);
    rule
}

#[test]
fn test_empty() {
    let style = "".to_string();
    let t = CssTokenizer::new(style);
    let cssom = CssParser::new(t).parse_stylesheet().unwrap();

    assert_eq!(cssom.rules.len(), 0);
}

#[test]
fn test_one_rule() {
    let style = "p { color: red; }".to_string();
    let t = CssTokenizer::new(style);
    let cssom = CssParser::new(t).parse_stylesheet().unwrap();

    let mut rule = QualifiedRule::new();
    rule.set_selector(Selector::TypeSelector("p".to_string()));
    let mut declaration = Declaration::new();
    declaration.set_property("color".to_string());
    declaration.set_value(ComponentValue::Ident("red".to_string()));
    rule.set_declarations(vec![declaration]);

    let expected = [rule];
    assert_eq!(cssom.rules.len(), expected.len());

    for (i, rule) in cssom.rules.iter().enumerate() {
        assert_eq!(&expected[i], rule);
    }
}

#[test]
fn test_id_selector() {
    let style = "#id { color: red; }".to_string();
    let t = CssTokenizer::new(style);
    let cssom = CssParser::new(t).parse_stylesheet().unwrap();

    let mut rule = QualifiedRule::new();
    rule.set_selector(Selector::IdSelector("id".to_string()));
    let mut declaration = Declaration::new();
    declaration.set_property("color".to_string());
    declaration.set_value(ComponentValue::Ident("red".to_string()));
    rule.set_declarations(vec![declaration]);

    let expected = [rule];
    assert_eq!(cssom.rules.len(), expected.len());

    for (i, rule) in cssom.rules.iter().enumerate() {
        assert_eq!(&expected[i], rule);
    }
}

#[test]
fn test_class_selector() {
    let style = ".class { color: red; }".to_string();
    let t = CssTokenizer::new(style);
    let cssom = CssParser::new(t).parse_stylesheet().unwrap();

    let mut rule = QualifiedRule::new();
    rule.set_selector(Selector::ClassSelector("class".to_string()));
    let mut declaration = Declaration::new();
    declaration.set_property("color".to_string());
    declaration.set_value(ComponentValue::Ident("red".to_string()));
    rule.set_declarations(vec![declaration]);

    let expected = [rule];
    assert_eq!(cssom.rules.len(), expected.len());

    for (i, rule) in cssom.rules.iter().enumerate() {
        assert_eq!(&expected[i], rule);
    }
}

#[test]
fn test_multiple_rules() {
    let style = "p { content: \"Hey\"; } h1 { font-size: 40; color: blue; }".to_string();
    let t = CssTokenizer::new(style);
    let cssom = CssParser::new(t).parse_stylesheet().unwrap();

    let mut rule1 = QualifiedRule::new();
    rule1.set_selector(Selector::TypeSelector("p".to_string()));
    let mut declaration1 = Declaration::new();
    declaration1.set_property("content".to_string());
    declaration1.set_value(ComponentValue::StringToken("Hey".to_string()));
    rule1.set_declarations(vec![declaration1]);

    let mut rule2 = QualifiedRule::new();
    rule2.set_selector(Selector::TypeSelector("h1".to_string()));
    let mut declaration2 = Declaration::new();
    declaration2.set_property("font-size".to_string());
    declaration2.set_value(number(&[4, 0], &[]));
    let mut declaration3 = Declaration::new();
    declaration3.set_property("color".to_string());
    declaration3.set_value(ComponentValue::Ident("blue".to_string()));
    rule2.set_declarations(vec![declaration2, declaration3]);

    let expected = [rule1, rule2];
    assert_eq!(cssom.rules.len(), expected.len());

    for (i, rule) in cssom.rules.iter().enumerate() {
        assert_eq!(&expected[i], rule);
    }
    assert_eq!(value_of(&cssom.rules[1].declarations[0].value), 40.0);
}

#[test]
fn single_character_tokens() {
    assert_eq!(
        tokens("( ) , . : ; { }\n").unwrap(),
        vec![
            CssToken::OpenParenthesis,
            CssToken::CloseParenthesis,
            CssToken::Delim(','),
            CssToken::Delim('.'),
            CssToken::Colon,
            CssToken::SemiColon,
            CssToken::OpenCurly,
            CssToken::CloseCurly,
        ]
    );
}

#[test]
fn a_string_ends_at_either_quote_or_at_the_end_of_the_text() {
    assert_eq!(
        tokens("\"a b'c\" x").unwrap(),
        vec![
            CssToken::StringToken("a b".to_string()),
            CssToken::Ident("c".to_string()),
            CssToken::StringToken(" x".to_string()),
        ]
    );
    assert_eq!(tokens("'open").unwrap(), vec![CssToken::StringToken("open".to_string())]);
    assert_eq!(tokens("'").unwrap(), vec![CssToken::StringToken("".to_string())]);
}

#[test]
fn numbers_are_unsigned_decimals() {
    let found = tokens("12.5 7 1.2.3;").unwrap();
    assert_eq!(
        found,
        vec![number(&[1, 2], &[5]), number(&[7], &[]), number(&[1], &[2, 3]), CssToken::SemiColon]
    );
    assert_eq!(value_of(&found[0]), 12.5);
    assert_eq!(value_of(&found[1]), 7.0);
    assert!((value_of(&found[2]) - 1.23).abs() < 1e-12);
}

#[test]
fn a_hyphen_always_starts_an_identifier() {
    assert_eq!(
        tokens("-12 _a-b9 font-size").unwrap(),
        vec![
            CssToken::Ident("-12".to_string()),
            CssToken::Ident("_a-b9".to_string()),
            CssToken::Ident("font-size".to_string()),
        ]
    );
}

#[test]
fn a_hash_token_keeps_its_hash() {
    assert_eq!(
        tokens("#id{# }").unwrap(),
        vec![
            CssToken::HashToken("#id".to_string()),
            CssToken::OpenCurly,
            CssToken::HashToken("#".to_string()),
            CssToken::CloseCurly,
        ]
    );
}

#[test]
fn an_at_keyword_needs_three_alphabetic_characters() {
    assert_eq!(
        tokens("@media x").unwrap(),
        vec![CssToken::AtKeyword("media".to_string()), CssToken::Ident("x".to_string())]
    );
    assert_eq!(
        tokens("@ab c").unwrap(),
        vec![
            CssToken::Delim('@'),
            CssToken::Ident("ab".to_string()),
            CssToken::Ident("c".to_string()),
        ]
    );
    assert_eq!(tokens("@").unwrap(), vec![CssToken::Delim('@')]);
    assert_eq!(
        tokens("@a1b").unwrap(),
        vec![CssToken::Delim('@'), CssToken::Ident("a1b".to_string())]
    );
}

#[test]
fn the_second_and_third_character_of_an_at_keyword_may_be_any_letter() {
    let mut t = CssTokenizer::new("@a\u{e9}\u{e8}".to_string());
    assert_eq!(t.next(), Ok(Some(CssToken::AtKeyword("a".to_string()))));
    assert_eq!(t.next(), Err(CssError::UnsupportedChar('\u{e9}')));
    let mut t = CssTokenizer::new("@\u{e9}ab".to_string());
    assert_eq!(t.next(), Ok(Some(CssToken::Delim('@'))));
}

#[test]
fn an_unsupported_character_is_reported_and_not_passed() {
    let mut t = CssTokenizer::new("a ! b".to_string());
    assert_eq!(t.next(), Ok(Some(CssToken::Ident("a".to_string()))));
    assert_eq!(t.next(), Err(CssError::UnsupportedChar('!')));
    assert_eq!(t.next(), Err(CssError::UnsupportedChar('!')));
    assert_eq!(tokens("p { width: 50% }"), Err(CssError::UnsupportedChar('%')));
}

#[test]
fn the_end_of_the_text_is_reported_again_and_again() {
    let mut t = CssTokenizer::new(" a \n".to_string());
    assert_eq!(t.next(), Ok(Some(CssToken::Ident("a".to_string()))));
    assert_eq!(t.next(), Ok(None));
    assert_eq!(t.next(), Ok(None));
}

#[test]
fn a_copy_of_a_token_equals_it() {
    for token in tokens("#a . 1.5 : ; ( ) { } b 'c' @def").unwrap() {
        assert_eq!(token.copy(), token);
    }
    let mut d = Declaration::new();
    d.set_property("color".to_string());
    d.set_value(number(&[1], &[5]));
    assert_eq!(d.copy(), d);
}

#[test]
fn an_at_rule_is_read_and_dropped() {
    let sheet = parse("@media screen { color: red; } p { color: blue; }").unwrap();
    assert_eq!(
        sheet.rules,
        vec![rule(
            Selector::TypeSelector("p".to_string()),
            vec![("color", CssToken::Ident("blue".to_string()))]
        )]
    );
}

#[test]
fn a_pseudo_class_is_dropped() {
    let sheet = parse("a:hover { color: red; }").unwrap();
    assert_eq!(
        sheet.rules,
        vec![rule(
            Selector::TypeSelector("a".to_string()),
            vec![("color", CssToken::Ident("red".to_string()))]
        )]
    );
}

#[test]
fn the_last_selector_of_a_prelude_stays() {
    let sheet = parse("div p { } ( { } { }").unwrap();
    assert_eq!(
        sheet.rules,
        vec![
            rule(Selector::TypeSelector("p".to_string()), vec![]),
            rule(Selector::UnknownSelector, vec![]),
            rule(Selector::TypeSelector("".to_string()), vec![]),
        ]
    );
}

#[test]
fn a_prelude_without_a_block_gives_no_rule() {
    assert_eq!(parse("p { } h1").unwrap().rules, vec![rule(Selector::TypeSelector("p".to_string()), vec![])]);
    assert_eq!(parse("a:hover").unwrap().rules, vec![]);
    assert_eq!(parse("@media screen").unwrap().rules, vec![]);
}

#[test]
fn a_declaration_without_a_colon_is_dropped_without_resynchronizing() {
    let sheet = parse("p { color red; width: 1; }").unwrap();
    assert_eq!(
        sheet.rules,
        vec![rule(Selector::TypeSelector("p".to_string()), vec![("width", number(&[1], &[]))])]
    );
    let sheet = parse("p { a b c: d; }").unwrap();
    assert_eq!(
        sheet.rules,
        vec![rule(
            Selector::TypeSelector("p".to_string()),
            vec![("c", CssToken::Ident("d".to_string()))]
        )]
    );
}

#[test]
fn other_tokens_in_a_block_are_dropped_and_a_block_may_end_with_the_text() {
    let sheet = parse("p { : ( 1 color: red").unwrap();
    assert_eq!(
        sheet.rules,
        vec![rule(
            Selector::TypeSelector("p".to_string()),
            vec![("color", CssToken::Ident("red".to_string()))]
        )]
    );
    assert_eq!(parse("p { color").unwrap().rules, vec![rule(Selector::TypeSelector("p".to_string()), vec![])]);
}

#[test]
fn parser_errors() {
    assert_eq!(parse(", { }"), Err(CssError::UnexpectedToken));
    assert_eq!(parse(". { }"), Err(CssError::UnexpectedToken));
    assert_eq!(parse("."), Err(CssError::UnexpectedEnd));
    assert_eq!(parse("p { color:"), Err(CssError::UnexpectedEnd));
    assert_eq!(parse("p { color: red; } $"), Err(CssError::UnsupportedChar('$')));
    assert_eq!(parse("p $ { }"), Err(CssError::UnsupportedChar('$')));
    assert_eq!(parse("p { color: $ }"), Err(CssError::UnsupportedChar('$')));
}

#[test]
fn a_parser_reads_what_the_tokenizer_has_not_read() {
    let mut t = CssTokenizer::new("p { } h1 { }".to_string());
    assert_eq!(t.next(), Ok(Some(CssToken::Ident("p".to_string()))));
    let sheet = CssParser::new(t).parse_stylesheet().unwrap();
    assert_eq!(
        sheet.rules,
        vec![
            rule(Selector::TypeSelector("".to_string()), vec![]),
            rule(Selector::TypeSelector("h1".to_string()), vec![]),
        ]
    );
}

#[test]
fn writing_a_sheet_out_and_reading_it_again_gives_the_same_rules() {
    let source = "p { content: 'Hey'; } #id { font-size: 40; } .c { color: blue; width: 1.5; }";
    let first = parse(source).unwrap();
    let text = write_sheet(&first);
    assert_eq!(
        text,
        "p { content : \"Hey\" ; } #id { font-size : 40 ; } . c { color : blue ; width : 1.5 ; } "
    );
    let second = parse(&text).unwrap();
    assert_eq!(first, second);
    assert_eq!(second.rules.len(), 3);
    assert_eq!(write_sheet(&second), text);
}

#[test]
fn the_empty_sheet_is_written_as_the_empty_text() {
    assert_eq!(write_sheet(&StyleSheet::new()), "");
    assert_eq!(write_sheet(&parse("").unwrap()), "");
}

#[test]
fn every_token_is_written_with_a_space_behind_it() {
    let mut out = String::new();
    for token in tokens("#a . , 10.25 7 : ; ( ) { } b-c 'd e' @fgh").unwrap() {
        write_token(&mut out, &token);
    }
    assert_eq!(out, "#a . , 10.25 7 : ; ( ) { } b-c \"d e\" @fgh ");
    assert_eq!(
        tokens(&out).unwrap(),
        tokens("#a . , 10.25 7 : ; ( ) { } b-c 'd e' @fgh").unwrap()
    );
}
