use lib::lexer::lexer::{IncludeCall, Lexer};
use lib::lexer::modules::ModuleError;
use lib::text::runs_off_exec;
use lib::tokens::token::{Tokens, Types, Variable};

fn var(t: Types, n: &str, v: &str) -> Variable {
    Variable { t, n: n.to_string(), v: v.to_string() }
}

fn lexer_at(src: &str, index: i64) -> Lexer {
    let mut l = Lexer::init(src.to_string());
    l.index = index;
    l
}

#[test]
fn init_removes_blanks() {
    let l = Lexer::init("a b\nc\r d".to_string());
    assert_eq!(l.contents, vec!['a', 'b', 'c', 'd']);
    assert_eq!(l.index, -1);
    assert!(l.variables_in_space.is_empty());
    assert!(l.functions.is_empty());
    assert!(l.tokens.is_empty());
    assert!(Lexer::init(" \n\r".to_string()).contents.is_empty());
}

#[test]
fn advance_moves_inside_contents_only() {
    let mut l = Lexer::init("abc".to_string());
    assert!(l.advance(1));
    assert_eq!(l.index, 0);
    assert_eq!(l.current(), 'a');
    assert!(!l.advance(5));
    assert_eq!(l.index, 0);
    assert!(!l.advance(-1));
    assert_eq!(l.index, 0);
    assert!(l.advance(2));
    assert_eq!(l.current(), 'c');
    assert!(!l.advance(1));
    assert_eq!(l.index, 2);
    assert!(l.advance(-2));
    assert_eq!(l.index, 0);
}

#[test]
fn discern_type_classifies_values() {
    assert_eq!(Lexer::discern_type("x".to_string(), "\"hi\"".to_string()), var(Types::String, "x", "\"hi\""));
    assert_eq!(Lexer::discern_type("x".to_string(), "\"".to_string()).t, Types::String);
    assert_eq!(Lexer::discern_type("x".to_string(), "\"12\"".to_string()).t, Types::String);
    assert_eq!(Lexer::discern_type("x".to_string(), "12".to_string()).t, Types::Float);
    assert_eq!(Lexer::discern_type("x".to_string(), "-3.5".to_string()).t, Types::Float);
    assert_eq!(Lexer::discern_type("x".to_string(), "inf".to_string()).t, Types::Float);
    assert_eq!(Lexer::discern_type("x".to_string(), "void".to_string()).t, Types::Void);
    assert_eq!(Lexer::discern_type("x".to_string(), "true".to_string()).t, Types::Bool);
    assert_eq!(Lexer::discern_type("x".to_string(), "false".to_string()).t, Types::Bool);
    assert_eq!(Lexer::discern_type("x".to_string(), "abc".to_string()), var(Types::Placeholder, "x", "abc"));
    assert_eq!(Lexer::discern_type("x".to_string(), "".to_string()).t, Types::Placeholder);
}

#[test]
fn discern_string_reads_to_the_next_quote() {
    let mut l = lexer_at("\"abc\"x", 0);
    assert_eq!(l.discern_string(), Some(String::new()));
    assert_eq!(l.index, 0);
    let mut l = lexer_at("\"abc\"x", 1);
    assert_eq!(l.discern_string(), Some("bc\"".to_string()));
    assert_eq!(l.index, 4);
    let mut l = lexer_at("abc", 0);
    assert_eq!(l.discern_string(), None);
    assert_eq!(l.index, 0);
}

#[test]
fn discern_return_finds_variables_by_value() {
    let mut l = lexer_at("x)y", 0);
    l.variables_in_space = vec![var(Types::Int, "a", "y"), var(Types::Int, "b", "x"), var(Types::Bool, "c", "x")];
    assert_eq!(l.discern_return(), Tokens::Return((Some(var(Types::Int, "b", "x")), String::new())));
    assert_eq!(l.index, 1);
    let mut l = lexer_at("xy)", 0);
    assert_eq!(l.discern_return(), Tokens::Return((None, "xy".to_string())));
    assert_eq!(l.index, 2);
    let mut l = lexer_at("x)", 1);
    assert_eq!(l.discern_return(), Tokens::Return((None, String::new())));
    let mut l = lexer_at("xy", 0);
    assert_eq!(l.discern_return(), Tokens::Invalid);
    assert_eq!(l.index, 0);
}

#[test]
fn discern_function_definition_reads_definitions() {
    let mut l = lexer_at("fnc main(a, b)[void]", 0);
    let expected = Tokens::FunctionDef(
        "main".to_string(),
        vec![var(Types::Placeholder, "a", ""), var(Types::Placeholder, "b", "")],
        Types::Placeholder,
    );
    assert_eq!(l.discern_function_definition(), expected);
    assert_eq!(l.index, 17);
    assert_eq!(l.functions, vec![expected]);

    let mut l = lexer_at("fncf()[int]", 0);
    assert_eq!(l.discern_function_definition(), Tokens::FunctionDef("f".to_string(), vec![], Types::Placeholder));
    assert_eq!(l.index, 10);

    let mut l = lexer_at("fncg(,a)[x]", 0);
    assert_eq!(
        l.discern_function_definition(),
        Tokens::FunctionDef("g".to_string(), vec![var(Types::Placeholder, "a", "")], Types::Placeholder)
    );
}

#[test]
fn discern_function_definition_passes_over_other_text() {
    let mut l = lexer_at("(fnc", 0);
    assert_eq!(l.discern_function_definition(), Tokens::NoToken);
    let mut l = lexer_at("abc", 0);
    assert_eq!(l.discern_function_definition(), Tokens::NoToken);
    assert_eq!(l.index, 0);
    assert!(l.functions.is_empty());
}

#[test]
fn unclosed_definitions_are_invalid() {
    for src in ["fncmain(", "fncmain(a", "fncmain(a)", "fncmain(a)[", "fncmain(a)[int", "fncmain", "fncm(a,"] {
        let mut l = lexer_at(src, 0);
        assert_eq!(l.discern_function_definition(), Tokens::Invalid, "{}", src);
        assert_eq!(l.index, 0);
        assert!(l.functions.is_empty());
    }
}

#[test]
fn discern_include_call_reads_the_path() {
    let mut l = lexer_at("include\"m.rs\";", 0);
    assert!(matches!(l.discern_include_call(), IncludeCall::Module(p) if p == "m.rs"));
    assert_eq!(l.index, 12);
    let mut l = lexer_at("includ", 0);
    assert!(matches!(l.discern_include_call(), IncludeCall::NoInclude));
    let mut l = lexer_at("include\"m.rs", 0);
    assert!(matches!(l.discern_include_call(), IncludeCall::Unterminated));
    assert_eq!(l.index, 0);
}

#[test]
fn get_next_token_reads_each_kind() {
    let mut l = lexer_at("fncmain(a,b)[void]", 0);
    let (t, inc) = l.get_next_token();
    assert!(matches!(t, Tokens::FunctionDef(ref n, _, Types::Placeholder) if n == "main"));
    assert!(inc.is_none());
    assert_eq!(l.index, 17);

    let mut l = lexer_at("include\"m.rs\";", 0);
    assert_eq!(l.get_next_token(), (Tokens::QuotationMark, Some("m.rs".to_string())));
    assert_eq!(l.index, 12);

    let mut l = lexer_at("{x", 0);
    assert_eq!(l.get_next_token(), (Tokens::LCurly, None));
    let mut l = lexer_at("x;", 1);
    assert_eq!(l.get_next_token(), (Tokens::Semicolon, None));
    let mut l = lexer_at("xy", 0);
    assert_eq!(l.get_next_token(), (Tokens::Invalid, None));
    let mut l = lexer_at("fnca", 0);
    assert_eq!(l.get_next_token(), (Tokens::Invalid, None));
    let mut l = lexer_at("include\"x", 0);
    assert_eq!(l.get_next_token(), (Tokens::Invalid, None));
}

#[test]
fn runs_off_finds_words_cut_by_the_end() {
    let c: Vec<char> = "xfn".chars().collect();
    assert!(runs_off_exec(&c, 1, "fnc"));
    assert!(!runs_off_exec(&c, 0, "fnc"));
    assert!(!runs_off_exec(&c, 2, "include"));
    let c: Vec<char> = "xinc".chars().collect();
    assert!(runs_off_exec(&c, 1, "include"));
    assert!(!runs_off_exec(&c, 4, "include"));
}

#[test]
fn include_module_appends_the_module_tokens() {
    let mut l = Lexer::init("include\"m.rs\";".to_string());
    l.tokens.push(Tokens::Semicolon);
    assert_eq!(l.include_module("fn hello()\n{\n    println!(\"hi\");\n}".to_string()), Ok(()));
    assert_eq!(
        l.tokens,
        vec![
            Tokens::Semicolon,
            Tokens::FunctionDef("hello".to_string(), vec![], Types::Void),
            Tokens::LCurly,
            Tokens::FunctionCall("println!".to_string(), vec![var(Types::String, "\"hi\"", "\"hi\"")]),
            Tokens::Semicolon,
            Tokens::RCurly,
        ]
    );
}

#[test]
fn include_module_reports_module_errors() {
    let mut l = Lexer::init("x".to_string());
    assert_eq!(l.include_module("println!(x);".to_string()), Err(ModuleError::UnknownArgument("x".to_string())));
    assert!(l.tokens.is_empty());
    assert_eq!(
        l.include_module("println!(1);".to_string()),
        Err(ModuleError::InvalidArguments("println!".to_string()))
    );
    assert!(l.tokens.is_empty());
}

#[test]
fn definitions_are_found_only_at_fnc() {
    let mut l = lexer_at("xfnc f(a)[int]", 0);
    assert_eq!(l.discern_function_definition(), Tokens::NoToken);
    assert_eq!(l.index, 0);
    let mut l = lexer_at("xfnc f(a)[int]", 1);
    let t = l.discern_function_definition();
    assert!(matches!(t, Tokens::FunctionDef(_, _, _)));
    assert_eq!(l.contents[l.index as usize], ']');
}

#[test]
fn plain_characters_are_their_own_tokens() {
    let mut l = lexer_at("fn(include", 0);
    assert_eq!(l.get_next_token(), (Tokens::Invalid, None));
    assert_eq!(l.index, 0);
    let mut l = lexer_at("fn(include", 2);
    assert_eq!(l.get_next_token(), (Tokens::LParen, None));
    assert_eq!(l.index, 2);
    assert!(l.functions.is_empty());
}
