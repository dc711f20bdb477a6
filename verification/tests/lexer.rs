use thriftrs2::parser::lexer::{
    parse_identifier, parse_number, parse_string, parse_token, skip_comment,
    skip_whitespace_and_comments, tokenize, Token,
};

#[test]
fn parses_identifier_with_underscore() {
    let (remaining, ident) = parse_identifier("user_id ").unwrap();
    assert_eq!(ident, "user_id");
    assert_eq!(remaining, " ");
}

#[test]
fn parses_negative_number() {
    let (remaining, number) = parse_number("-42,").unwrap();
    assert_eq!(number, -42);
    assert_eq!(remaining, ",");
}

#[test]
fn parses_string_literal() {
    let (remaining, value) = parse_string("\"hello\";").unwrap();
    assert_eq!(value, "hello");
    assert_eq!(remaining, ";");
}

#[test]
fn skips_line_block_and_hash_comments() {
    assert!(skip_comment("// hello\n").is_ok());
    assert!(skip_comment("/* hello */").is_ok());
    assert!(skip_comment("# hello\n").is_ok());
}

#[test]
fn tokenizes_struct_definition() {
    let (_, tokens) = tokenize("struct User { 1: required i32 id; }").unwrap();
    assert_eq!(tokens[0], Token::Keyword("struct".to_string()));
    assert_eq!(tokens[1], Token::Identifier("User".to_string()));
    assert!(tokens.contains(&Token::Colon));
    assert!(tokens.contains(&Token::Semicolon));
}

#[test]
fn tokenizes_container_symbols() {
    let (_, tokens) = tokenize("map<string, list<i32>> values").unwrap();
    assert!(tokens.contains(&Token::LessThan));
    assert!(tokens.contains(&Token::GreaterThan));
    assert!(tokens.contains(&Token::Comma));
}

#[test]
fn tokenizes_oneway_as_keyword() {
    let (_, tokens) = tokenize("oneway void notify()").unwrap();
    assert_eq!(tokens[0], Token::Keyword("oneway".to_string()));
    assert_eq!(tokens[1], Token::Identifier("void".to_string()));
}

#[test]
fn does_not_split_identifier_with_keyword_prefix() {
    let (_, tokens) = tokenize("optional_note required_field oneway_mode include_path").unwrap();
    assert_eq!(tokens[0], Token::Identifier("optional_note".to_string()));
    assert_eq!(tokens[1], Token::Identifier("required_field".to_string()));
    assert_eq!(tokens[2], Token::Identifier("oneway_mode".to_string()));
    assert_eq!(tokens[3], Token::Identifier("include_path".to_string()));
}

#[test]
fn tokenizes_compatibility_keywords() {
    let (_, tokens) = tokenize("include namespace typedef enum const throws exception *").unwrap();
    assert_eq!(tokens[0], Token::Keyword("include".to_string()));
    assert_eq!(tokens[1], Token::Keyword("namespace".to_string()));
    assert_eq!(tokens[2], Token::Keyword("typedef".to_string()));
    assert_eq!(tokens[3], Token::Keyword("enum".to_string()));
    assert_eq!(tokens[4], Token::Keyword("const".to_string()));
    assert_eq!(tokens[5], Token::Keyword("throws".to_string()));
    assert_eq!(tokens[6], Token::Keyword("exception".to_string()));
    assert_eq!(tokens[7], Token::Asterisk);
}

#[test]
fn leaves_unrecognized_input_for_parser_error() {
    let (remaining, tokens) = tokenize("struct Broken @").unwrap();
    assert_eq!(tokens.len(), 2);
    assert_eq!(remaining, " @");
}

#[test]
fn lexer_edge_cases() {
    assert!(skip_comment("/* never closed").is_err());
    assert!(parse_string("\"open").is_err());
    assert!(parse_number("-x").is_err());
    assert_eq!(parse_number("9223372036854775807").unwrap().1, i64::MAX);
    assert_eq!(parse_number("-9223372036854775808").unwrap().1, i64::MIN);
    assert!(parse_number("9223372036854775808").is_err());
    let (rest, ()) = skip_whitespace_and_comments("  // a\n /* b */ # c\n\tx").unwrap();
    assert_eq!(rest, "x");
    let (rest, t) = parse_token("  union Foo").unwrap();
    assert_eq!(t, Token::Keyword("union".to_string()));
    assert_eq!(rest, " Foo");
    let (_, t) = parse_token("extends").unwrap();
    assert_eq!(t, Token::Keyword("extends".to_string()));
    let (_, t) = parse_token("_x1 y").unwrap();
    assert_eq!(t, Token::Identifier("_x1".to_string()));
    let (_, tokens) = tokenize("a.b = \"s\" 12 [ ] ( ) { } : ; *").unwrap();
    assert_eq!(
        tokens,
        vec![
            Token::Identifier("a".to_string()),
            Token::Dot,
            Token::Identifier("b".to_string()),
            Token::Equal,
            Token::String("s".to_string()),
            Token::Number(12),
            Token::LeftBracket,
            Token::RightBracket,
            Token::LeftParen,
            Token::RightParen,
            Token::LeftBrace,
            Token::RightBrace,
            Token::Colon,
            Token::Semicolon,
            Token::Asterisk,
        ]
    );
    let (_, tokens) = tokenize("naïve_名前 x").unwrap();
    assert_eq!(tokens[0], Token::Identifier("naïve_名前".to_string()));
}
