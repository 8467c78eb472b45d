use lib::lexer::modules::{Module, ModuleError};
use lib::tokens::token::{Tokens, Types, Variable};

fn var(t: Types, n: &str, v: &str) -> Variable {
    Variable { t, n: n.to_string(), v: v.to_string() }
}

fn tokenize(src: &str) -> Result<Vec<Tokens>, ModuleError> {
    Module::init(src.to_string()).tokenize_module()
}

#[test]
fn module_starts_before_its_text() {
    let mut m = Module::init("a b".to_string());
    assert!(m.advance(1));
    assert_eq!(m.current(), 'a');
    assert!(m.advance(1));
    assert_eq!(m.current(), 'b');
    assert!(!m.advance(1));
    assert_eq!(m.current(), 'b');
    assert!(!m.advance(-2));
}

#[test]
fn check_for_keywords_finds_keywords_and_functions() {
    let mut m = Module::init("let x".to_string());
    m.advance(1);
    assert_eq!(m.check_for_keywords(), Some("let".to_string()));
    m.advance(1);
    assert_eq!(m.check_for_keywords(), None);
    let mut m = Module::init("println!(\"a\")".to_string());
    m.advance(1);
    assert_eq!(m.check_for_keywords(), Some("println!".to_string()));
    let mut m = Module::init("fn".to_string());
    m.advance(1);
    assert_eq!(m.check_for_keywords(), Some("fn".to_string()));
    let mut m = Module::init("retur".to_string());
    m.advance(1);
    assert_eq!(m.check_for_keywords(), None);
}

#[test]
fn tokenize_module_reads_definitions_and_calls() {
    assert_eq!(
        tokenize("fn hello()\n{\n    println!(\"hi\");\n}"),
        Ok(vec![
            Tokens::FunctionDef("hello".to_string(), vec![], Types::Void),
            Tokens::LCurly,
            Tokens::FunctionCall("println!".to_string(), vec![var(Types::String, "\"hi\"", "\"hi\"")]),
            Tokens::Semicolon,
            Tokens::RCurly,
        ])
    );
}

#[test]
fn tokenize_module_reads_parameter_types_in_lower_case() {
    assert_eq!(
        tokenize("fn f(a: I64) {}"),
        Ok(vec![
            Tokens::FunctionDef("f".to_string(), vec![var(Types::Int, "a", "")], Types::Void),
            Tokens::LCurly,
            Tokens::RCurly,
        ])
    );
    assert_eq!(
        tokenize("fn f(s: STRING) {}"),
        Ok(vec![
            Tokens::FunctionDef("f".to_string(), vec![var(Types::String, "s", "")], Types::Void),
            Tokens::LCurly,
            Tokens::RCurly,
        ])
    );
}

#[test]
fn tokenize_module_reads_return_types() {
    assert_eq!(
        tokenize("fn f() -> bool {}"),
        Ok(vec![Tokens::FunctionDef("f".to_string(), vec![], Types::Bool), Tokens::LCurly, Tokens::RCurly])
    );
    assert_eq!(tokenize("fn f()->bad{}"), Err(ModuleError::InvalidReturnType));
    assert_eq!(tokenize("fn f()->{}"), Err(ModuleError::InvalidReturnType));
    assert_eq!(tokenize("fn f() -> bool"), Err(ModuleError::Unterminated));
    assert_eq!(
        tokenize("fn f()-x{}"),
        Ok(vec![
            Tokens::FunctionDef("f".to_string(), vec![], Types::Void),
            Tokens::Invalid,
            Tokens::Invalid,
            Tokens::LCurly,
            Tokens::RCurly,
        ])
    );
}

#[test]
fn tokenize_module_reads_every_parameter() {
    assert_eq!(
        tokenize("fn hello(message: String, number: i32) -> bool {\n    println!(\"{}\", message);\n}"),
        Err(ModuleError::UnknownArgument("message".to_string()))
    );
    assert_eq!(
        tokenize("fn hello(message: String, number: i32) -> bool {}"),
        Ok(vec![
            Tokens::FunctionDef(
                "hello".to_string(),
                vec![var(Types::String, "message", ""), var(Types::Int, "number", "")],
                Types::Bool
            ),
            Tokens::LCurly,
            Tokens::RCurly,
        ])
    );
    assert_eq!(
        tokenize("fn g(a: u8, b: BOOL, c: void) {}"),
        Ok(vec![
            Tokens::FunctionDef(
                "g".to_string(),
                vec![var(Types::Int, "a", ""), var(Types::Bool, "b", ""), var(Types::Void, "c", "")],
                Types::Void
            ),
            Tokens::LCurly,
            Tokens::RCurly,
        ])
    );
}

#[test]
fn module_text_loses_all_whitespace() {
    let mut m = Module::init("a\tb\u{a0}\u{2003}c \n".to_string());
    assert!(m.advance(1));
    assert_eq!(m.current(), 'a');
    assert!(m.advance(1));
    assert_eq!(m.current(), 'b');
    assert!(m.advance(1));
    assert_eq!(m.current(), 'c');
    assert!(!m.advance(1));
}

#[test]
fn tokenize_module_passes_over_let_and_return() {
    assert_eq!(tokenize("let"), Ok(vec![Tokens::Invalid, Tokens::Invalid]));
    assert_eq!(tokenize("return;"), Ok(vec![Tokens::Invalid; 5].into_iter().chain([Tokens::Semicolon]).collect()));
    assert_eq!(tokenize(""), Ok(vec![]));
}

#[test]
fn tokenize_module_reports_errors() {
    assert_eq!(tokenize("fn f(a: i64, b) {}"), Err(ModuleError::Unterminated));
    assert_eq!(tokenize("fn f(a: i64,"), Err(ModuleError::Unterminated));
    assert_eq!(tokenize("fn f(a: i64"), Err(ModuleError::Unterminated));
    assert_eq!(tokenize("fn f"), Err(ModuleError::Unterminated));
    assert_eq!(tokenize("println!(x);"), Err(ModuleError::UnknownArgument("x".to_string())));
    assert_eq!(tokenize("println!(1);"), Err(ModuleError::InvalidArguments("println!".to_string())));
    assert_eq!(tokenize("println!(\"a\",\"b\")"), Err(ModuleError::InvalidArguments("println!".to_string())));
    assert_eq!(tokenize("println!(\"a\""), Err(ModuleError::Unterminated));
    assert_eq!(tokenize("fn f(a: i64) {} f(a)"), Err(ModuleError::InvalidArguments("f".to_string())));
    assert_eq!(tokenize("fn f(a: i64) {} f(b)"), Err(ModuleError::UnknownArgument("b".to_string())));
}

#[test]
fn tokenize_function_call_needs_a_known_function() {
    let mut m = Module::init("nope()".to_string());
    m.advance(1);
    assert_eq!(m.tokenize_function_call("nope".to_string()), Err(ModuleError::UnknownFunction("nope".to_string())));
}

#[test]
fn tokenize_function_definition_reads_after_fn() {
    let mut m = Module::init("fn g()".to_string());
    m.advance(3);
    assert_eq!(m.tokenize_function_definition(), Ok(Tokens::FunctionDef("g".to_string(), vec![], Types::Void)));
    assert_eq!(m.current(), '(');
    let mut m = Module::init("fn g(){}".to_string());
    m.advance(3);
    m.tokenize_function_definition().unwrap();
    assert_eq!(m.current(), ')');
    assert!(m.advance(-2));
    assert_eq!(m.check_for_keywords(), Some("g".to_string()));
}

#[test]
fn definition_closing_the_text_leaves_its_parenthesis() {
    assert_eq!(tokenize("fn f()"), Ok(vec![Tokens::FunctionDef("f".to_string(), vec![], Types::Void), Tokens::RParen]));
}

#[test]
fn tokenize_function_call_before_the_text() {
    let mut m = Module::init("x".to_string());
    assert_eq!(m.tokenize_function_call("nope".to_string()), Err(ModuleError::UnknownFunction("nope".to_string())));
    assert!(m.advance(1));
    assert_eq!(m.current(), 'x');
    let mut m = Module::init("println!(\"a\")".to_string());
    assert_eq!(
        m.tokenize_function_call("println!".to_string()),
        Err(ModuleError::UnknownArgument("(\"a\"".to_string()))
    );
    let mut m = Module::init("println!()".to_string());
    assert_eq!(m.tokenize_function_call("println!".to_string()), Err(ModuleError::UnknownArgument("(".to_string())));
}

#[test]
fn error_messages() {
    assert_eq!(ModuleError::UnknownFunction("f".to_string()).message(), "Invalid function call in module: f");
    assert_eq!(ModuleError::UnknownArgument("x".to_string()).message(), "argument x does not exist in scope");
    assert_eq!(ModuleError::InvalidArguments("f".to_string()).message(), "Invalid arguments provided to function f");
    assert_eq!(ModuleError::InvalidReturnType.message(), "Invalid return type in module");
    assert_eq!(ModuleError::Unterminated.message(), "Module ends inside a function definition or call");
}

#[test]
fn keywords_are_found_where_written() {
    let mut m = Module::init("fn ab() {} ab".to_string());
    assert!(m.advance(3));
    assert_eq!(m.tokenize_function_definition(), Ok(Tokens::FunctionDef("ab".to_string(), vec![], Types::Void)));
    assert!(m.advance(2));
    assert_eq!(m.check_for_keywords(), None);
    assert!(m.advance(1));
    assert_eq!(m.check_for_keywords(), Some("ab".to_string()));
    assert!(m.advance(1));
    assert_eq!(m.check_for_keywords(), None);
}
