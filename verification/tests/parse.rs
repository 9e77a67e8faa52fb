use rust_jsx::Delimiter;
use rust_jsx::ParseError;
use rust_jsx::SnaxAttribute;
use rust_jsx::SnaxItem;
use rust_jsx::SnaxSelfClosingTag;
use rust_jsx::SnaxTag;
use rust_jsx::Token;
use rust_jsx::parse;

fn ident(name: &str) -> Token {
    Token::Ident(name.to_string())
}

fn lit(raw: &str) -> Token {
    Token::Literal(raw.to_string())
}

fn punct(c: char) -> Token {
    Token::Punct(c, false)
}

fn attr(name: &str, value: Token) -> SnaxAttribute {
    SnaxAttribute::Simple {
        name: name.to_string(),
        value,
    }
}

#[test]
fn just_string() {
    let input = vec![lit("\"hello\"")];
    let output = parse(input).unwrap();

    let expected = SnaxItem::Content(lit("\"hello\""));
    assert_eq!(output, expected);
}

#[test]
fn just_number() {
    let input = vec![lit("5")];
    let output = parse(input).unwrap();

    let expected = SnaxItem::Content(lit("5"));
    assert_eq!(output, expected);
}

#[test]
fn empty_div() {
    let input = vec![
        punct('<'),
        ident("div"),
        punct('>'),
        punct('<'),
        punct('/'),
        ident("div"),
        punct('>'),
    ];
    let output = parse(input).unwrap();

    let expected = SnaxItem::Tag(SnaxTag {
        name: "div".to_string(),
        attributes: Default::default(),
        children: Default::default(),
    });

    assert_eq!(output, expected);
}

#[test]
fn self_closing_div() {
    let input = vec![punct('<'), ident("div"), punct('/'), punct('>')];
    let output = parse(input).unwrap();

    let expected = SnaxItem::SelfClosingTag(SnaxSelfClosingTag {
        name: "div".to_string(),
        attributes: Default::default(),
    });

    assert_eq!(output, expected);
}

// Comments never appear in the token stream: the upstream lexer strips them
// before the tokenizer runs. A tag written around a comment therefore hands
// the parser the same tokens as an empty tag.
#[test]
fn empty_div_comment() {
    let input = vec![
        punct('<'),
        ident("div"),
        punct('>'),
        punct('<'),
        punct('/'),
        ident("div"),
        punct('>'),
    ];
    let output = parse(input).unwrap();

    let expected = SnaxItem::Tag(SnaxTag {
        name: "div".to_string(),
        attributes: Default::default(),
        children: Default::default(),
    });

    assert_eq!(output, expected);
}

#[test]
fn empty_with_literal_attributes() {
    let input = vec![
        punct('<'),
        ident("div"),
        ident("foo"),
        punct('='),
        lit("\"bar\""),
        ident("baz"),
        punct('='),
        lit("\"qux\""),
        punct('>'),
        punct('<'),
        punct('/'),
        ident("div"),
        punct('>'),
    ];
    let output = parse(input).unwrap();

    let expected = SnaxItem::Tag(SnaxTag {
        name: "div".to_string(),
        attributes: vec![attr("foo", lit("\"bar\"")), attr("baz", lit("\"qux\""))],
        children: Default::default(),
    });

    assert_eq!(output, expected);
}

#[test]
fn empty_with_block_attribute() {
    let sum_block = Token::Group(Delimiter::Brace, vec![lit("5"), punct('+'), lit("5")]);
    let input = vec![
        punct('<'),
        ident("label"),
        ident("sum"),
        punct('='),
        sum_block.clone(),
        punct('>'),
        punct('<'),
        punct('/'),
        ident("label"),
        punct('>'),
    ];
    let output = parse(input).unwrap();

    let expected = SnaxItem::Tag(SnaxTag {
        name: "label".to_string(),
        attributes: vec![attr("sum", sum_block)],
        children: Default::default(),
    });

    assert_eq!(output, expected);
}

#[test]
fn self_closing_with_literal_attributes() {
    let input = vec![
        punct('<'),
        ident("div"),
        ident("foo"),
        punct('='),
        lit("\"bar\""),
        ident("baz"),
        punct('='),
        lit("\"qux\""),
        punct('/'),
        punct('>'),
    ];
    let output = parse(input).unwrap();

    let expected = SnaxItem::SelfClosingTag(SnaxSelfClosingTag {
        name: "div".to_string(),
        attributes: vec![attr("foo", lit("\"bar\"")), attr("baz", lit("\"qux\""))],
    });

    assert_eq!(output, expected);
}

#[test]
fn self_closing_with_block_attribute() {
    let sum_block = Token::Group(Delimiter::Brace, vec![lit("5"), punct('+'), lit("5")]);
    let input = vec![
        punct('<'),
        ident("label"),
        ident("sum"),
        punct('='),
        sum_block.clone(),
        punct('/'),
        punct('>'),
    ];
    let output = parse(input).unwrap();

    let expected = SnaxItem::SelfClosingTag(SnaxSelfClosingTag {
        name: "label".to_string(),
        attributes: vec![attr("sum", sum_block)],
    });

    assert_eq!(output, expected);
}

#[test]
fn nested_tags() {
    let input = vec![
        punct('<'),
        ident("div"),
        punct('>'),
        punct('<'),
        ident("span"),
        punct('>'),
        punct('<'),
        punct('/'),
        ident("span"),
        punct('>'),
        punct('<'),
        punct('/'),
        ident("div"),
        punct('>'),
    ];
    let output = parse(input).unwrap();

    let expected = SnaxItem::Tag(SnaxTag {
        name: "div".to_string(),
        attributes: Default::default(),
        children: vec![SnaxItem::Tag(SnaxTag {
            name: "span".to_string(),
            attributes: Default::default(),
            children: Default::default(),
        })],
    });

    assert_eq!(output, expected);
}

#[test]
fn lone_brace_expression() {
    let block = Token::Group(Delimiter::Brace, vec![lit("5"), punct('+'), lit("5")]);
    let input = vec![block.clone()];
    let output = parse(input).unwrap();

    assert_eq!(output, SnaxItem::Content(block));
}

#[test]
fn lone_identifier() {
    let input = vec![ident("hello")];
    let output = parse(input).unwrap();

    assert_eq!(output, SnaxItem::Content(ident("hello")));
}

#[test]
fn content_children_stay_siblings() {
    let input = vec![
        punct('<'),
        ident("div"),
        punct('>'),
        lit("\"a\""),
        lit("\"b\""),
        punct('<'),
        punct('/'),
        ident("div"),
        punct('>'),
    ];
    let output = parse(input).unwrap();

    let expected = SnaxItem::Tag(SnaxTag {
        name: "div".to_string(),
        attributes: Default::default(),
        children: vec![
            SnaxItem::Content(lit("\"a\"")),
            SnaxItem::Content(lit("\"b\"")),
        ],
    });

    assert_eq!(output, expected);
}

#[test]
fn duplicate_attributes_kept_in_order() {
    let input = vec![
        punct('<'),
        ident("div"),
        ident("foo"),
        punct('='),
        lit("\"a\""),
        ident("foo"),
        punct('='),
        lit("\"b\""),
        punct('/'),
        punct('>'),
    ];
    let output = parse(input).unwrap();

    let expected = SnaxItem::SelfClosingTag(SnaxSelfClosingTag {
        name: "div".to_string(),
        attributes: vec![attr("foo", lit("\"a\"")), attr("foo", lit("\"b\""))],
    });

    assert_eq!(output, expected);
}

#[test]
fn unmatched_close_tag_is_unexpected_item() {
    let input = vec![punct('<'), punct('/'), ident("div"), punct('>')];
    let error = parse(input).unwrap_err();

    assert!(matches!(error, ParseError::UnexpectedItem(_)));
}

#[test]
fn token_after_root_is_unexpected_token() {
    let input = vec![
        punct('<'),
        ident("div"),
        punct('/'),
        punct('>'),
        lit("\"extra\""),
    ];
    let error = parse(input).unwrap_err();

    match error {
        ParseError::UnexpectedToken(token) => assert_eq!(token, lit("\"extra\"")),
        other => panic!("expected UnexpectedToken, got {:?}", other),
    }
}

#[test]
fn empty_input_is_unexpected_end() {
    let error = parse(Vec::new()).unwrap_err();

    assert!(matches!(error, ParseError::UnexpectedEnd));
}

#[test]
fn two_top_level_literals_fail_on_the_second() {
    let input = vec![lit("\"a\""), lit("\"b\"")];
    let error = parse(input).unwrap_err();

    match error {
        ParseError::UnexpectedToken(token) => assert_eq!(token, lit("\"b\"")),
        other => panic!("expected UnexpectedToken, got {:?}", other),
    }
}

#[test]
fn mismatched_close_tag_name_is_an_error() {
    let input = vec![
        punct('<'),
        ident("div"),
        punct('>'),
        punct('<'),
        punct('/'),
        ident("span"),
        punct('>'),
    ];
    let error = parse(input).unwrap_err();

    match error {
        ParseError::MismatchedTag { expected, found } => {
            assert_eq!(expected, "div".to_string());
            assert_eq!(found, "span".to_string());
        }
        other => panic!("expected MismatchedTag, got {:?}", other),
    }
}

#[test]
fn unclosed_tag_is_unexpected_end() {
    let input = vec![punct('<'), ident("div"), punct('>')];
    let error = parse(input).unwrap_err();

    assert!(matches!(error, ParseError::UnexpectedEnd));
}

#[test]
fn truncated_tag_header_is_unexpected_end() {
    let input = vec![punct('<'), ident("div")];
    let error = parse(input).unwrap_err();

    assert!(matches!(error, ParseError::UnexpectedEnd));
}

#[test]
fn identifier_attribute_value_is_rejected() {
    let input = vec![
        punct('<'),
        ident("div"),
        ident("foo"),
        punct('='),
        ident("bar"),
        punct('>'),
    ];
    let error = parse(input).unwrap_err();

    match error {
        ParseError::UnexpectedToken(token) => assert_eq!(token, ident("bar")),
        other => panic!("expected UnexpectedToken, got {:?}", other),
    }
}

#[test]
fn parenthesized_attribute_value_is_rejected() {
    let group = Token::Group(Delimiter::Parenthesis, vec![lit("5")]);
    let input = vec![
        punct('<'),
        ident("div"),
        ident("foo"),
        punct('='),
        group.clone(),
        punct('>'),
    ];
    let error = parse(input).unwrap_err();

    match error {
        ParseError::UnexpectedToken(token) => assert_eq!(token, group),
        other => panic!("expected UnexpectedToken, got {:?}", other),
    }
}

#[test]
fn stray_punctuation_is_rejected() {
    let input = vec![punct('+')];
    let error = parse(input).unwrap_err();

    match error {
        ParseError::UnexpectedToken(token) => assert_eq!(token, punct('+')),
        other => panic!("expected UnexpectedToken, got {:?}", other),
    }
}

#[test]
fn missing_tag_name_is_rejected() {
    let input = vec![punct('<'), lit("\"div\""), punct('>')];
    let error = parse(input).unwrap_err();

    match error {
        ParseError::UnexpectedToken(token) => assert_eq!(token, lit("\"div\"")),
        other => panic!("expected UnexpectedToken, got {:?}", other),
    }
}
