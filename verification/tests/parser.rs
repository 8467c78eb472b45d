use lib::parser::parser::Parser;
use lib::tokens::token::{Tokens, Types, Variable};

fn var(t: Types, n: &str, v: &str) -> Variable {
    Variable { t, n: n.to_string(), v: v.to_string() }
}

fn render_all(tokens: Vec<Tokens>) -> Vec<String> {
    let mut p = Parser::init(tokens);
    let mut out = vec![];
    while p.advance(1) {
        out.push(p.parse_current_token());
    }
    out
}

#[test]
fn parse_type_names_rust_types() {
    assert_eq!(Parser::parse_type("string".to_string()), "String");
    assert_eq!(Parser::parse_type("int".to_string()), "i32");
    assert_eq!(Parser::parse_type("float".to_string()), "float");
    assert_eq!(Parser::parse_type("String".to_string()), "String");
    assert_eq!(Parser::parse_type(String::new()), "");
}

#[test]
fn parse_current_token_writes_each_kind() {
    let out = render_all(vec![
        Tokens::LParen,
        Tokens::RParen,
        Tokens::LBracket,
        Tokens::RBracket,
        Tokens::LCurly,
        Tokens::RCurly,
        Tokens::QuotationMark,
        Tokens::FunctionDef("hello".to_string(), vec![], Types::Void),
        Tokens::FunctionCall("println!".to_string(), vec![var(Types::String, "\"hi\"", "\"hi\"")]),
        Tokens::Semicolon,
        Tokens::String("x".to_string()),
        Tokens::Invalid,
        Tokens::NoToken,
        Tokens::Return((None, "x".to_string())),
    ]);
    assert_eq!(
        out,
        vec!["(", ")", "[", "]", "{", "}", "\"", "fn hello()", "println!(\"hi\")", "", "", "", "", ""]
    );
}

#[test]
fn definitions_write_values_and_rust_types() {
    let out = render_all(vec![
        Tokens::FunctionDef("add".to_string(), vec![var(Types::Int, "a", "x"), var(Types::String, "b", "y")], Types::Int),
        Tokens::FunctionDef("f".to_string(), vec![var(Types::Bool, "a", "")], Types::Placeholder),
        Tokens::FunctionCall("g".to_string(), vec![var(Types::Float, "1", "1"), var(Types::Float, "2", "2")]),
        Tokens::FunctionCall("h".to_string(), vec![]),
    ]);
    assert_eq!(out, vec!["fn add(x: i32,y: String) -> i32", "fn f(: bool) -> placeholder", "g(1,2)", "h()"]);
}

#[test]
fn parser_advance_stops_at_the_last_token() {
    let mut p = Parser::init(vec![Tokens::LParen, Tokens::RParen]);
    assert!(p.advance(1));
    assert!(!p.advance(5));
    assert_eq!(p.parse_current_token(), "(");
    assert!(p.advance(1));
    assert_eq!(p.parse_current_token(), ")");
    assert!(!p.advance(1));
    assert!(p.advance(-3));
    assert!(p.advance(2));
    assert_eq!(p.parse_current_token(), "(");
}

#[test]
fn parse_all_writes_every_token_on_its_own_line() {
    let mut p = Parser::init(vec![
        Tokens::FunctionDef("hello".to_string(), vec![], Types::Void),
        Tokens::LCurly,
        Tokens::Semicolon,
        Tokens::RCurly,
    ]);
    assert_eq!(p.parse_all(), "fn hello()\n{\n\n}\n");
    assert!(!p.advance(1));
    let mut p = Parser::init(vec![Tokens::LParen, Tokens::RParen]);
    assert!(p.advance(1));
    assert_eq!(p.parse_all(), ")\n");
    assert_eq!(p.parse_all(), "");
}
