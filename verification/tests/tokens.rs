use lib::tokens::token::{Tokens, Types, Variable};

fn var(t: Types, n: &str, v: &str) -> Variable {
    Variable { t, n: n.to_string(), v: v.to_string() }
}

#[test]
fn from_char_maps_punctuation() {
    assert_eq!(Tokens::from_char('('), Tokens::LParen);
    assert_eq!(Tokens::from_char(')'), Tokens::RParen);
    assert_eq!(Tokens::from_char('['), Tokens::LBracket);
    assert_eq!(Tokens::from_char(']'), Tokens::RBracket);
    assert_eq!(Tokens::from_char('{'), Tokens::LCurly);
    assert_eq!(Tokens::from_char('}'), Tokens::RCurly);
    assert_eq!(Tokens::from_char('"'), Tokens::QuotationMark);
    assert_eq!(Tokens::from_char(';'), Tokens::Semicolon);
    assert_eq!(Tokens::from_char('a'), Tokens::Invalid);
    assert_eq!(Tokens::from_char(' '), Tokens::Invalid);
    assert_eq!(Tokens::from_char('>'), Tokens::Invalid);
}

#[test]
fn to_char_writes_tokens() {
    assert_eq!(Tokens::LParen.to_char(), '(');
    assert_eq!(Tokens::RParen.to_char(), ')');
    assert_eq!(Tokens::LBracket.to_char(), '[');
    assert_eq!(Tokens::RBracket.to_char(), ']');
    assert_eq!(Tokens::LCurly.to_char(), '{');
    assert_eq!(Tokens::RCurly.to_char(), '}');
    assert_eq!(Tokens::QuotationMark.to_char(), '"');
    assert_eq!(Tokens::Semicolon.to_char(), ';');
    assert_eq!(Tokens::Invalid.to_char(), 'i');
    assert_eq!(Tokens::FunctionDef("f".to_string(), vec![], Types::Void).to_char(), 'f');
    assert_eq!(Tokens::NoToken.to_char(), ' ');
    assert_eq!(Tokens::String("s".to_string()).to_char(), ' ');
    assert_eq!(Tokens::FunctionCall("f".to_string(), vec![]).to_char(), ' ');
}

#[test]
fn char_token_roundtrip() {
    for c in "()[]{}\";".chars() {
        assert_eq!(Tokens::from_char(c).to_char(), c);
    }
    for t in [Tokens::LParen, Tokens::RParen, Tokens::LBracket, Tokens::RBracket, Tokens::LCurly, Tokens::RCurly, Tokens::QuotationMark, Tokens::Semicolon] {
        assert_eq!(Tokens::from_char(t.to_char()), t);
    }
}

#[test]
fn parse_type_reads_type_names() {
    for s in ["i64", "i32", "u8", "u16"] {
        assert_eq!(Types::parse_type(s), Types::Int);
    }
    assert_eq!(Types::parse_type("f32"), Types::Float);
    assert_eq!(Types::parse_type("f64"), Types::Float);
    assert_eq!(Types::parse_type("string"), Types::String);
    assert_eq!(Types::parse_type("bool"), Types::Bool);
    assert_eq!(Types::parse_type("void"), Types::Void);
    assert_eq!(Types::parse_type("String"), Types::Invalid);
    assert_eq!(Types::parse_type("int"), Types::Invalid);
    assert_eq!(Types::parse_type(""), Types::Invalid);
    assert_eq!(Types::parse_type("i64 "), Types::Invalid);
}

#[test]
fn types_are_named_in_lower_case() {
    assert_eq!(Types::Int.to_string(), "int");
    assert_eq!(Types::Float.to_string(), "float");
    assert_eq!(Types::String.to_string(), "string");
    assert_eq!(Types::Bool.to_string(), "bool");
    assert_eq!(Types::Void.to_string(), "void");
    assert_eq!(Types::Invalid.to_string(), "invalid");
    assert_eq!(Types::Placeholder.to_string(), "placeholder");
}

#[test]
fn try_as_function_def_splits_definitions() {
    let t = Tokens::FunctionDef("f".to_string(), vec![var(Types::Int, "a", "")], Types::Bool);
    let (n, a, r) = t.try_as_function_def().unwrap();
    assert_eq!(n, "f");
    assert_eq!(a, vec![var(Types::Int, "a", "")]);
    assert_eq!(r, Types::Bool);
    assert_eq!(Tokens::LParen.try_as_function_def(), None);
    assert_eq!(Tokens::FunctionCall("f".to_string(), vec![]).try_as_function_def(), None);
}

#[test]
fn clone_keeps_tokens_and_variables() {
    let v = var(Types::String, "n", "\"v\"");
    assert_eq!(v.clone(), v);
    let t = Tokens::Return((Some(v.clone()), "x".to_string()));
    assert_eq!(t.clone(), t);
    let d = Tokens::FunctionDef("g".to_string(), vec![v.clone(), var(Types::Int, "b", "1")], Types::Void);
    assert_eq!(d.clone(), d);
}
