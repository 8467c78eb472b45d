//! Tokens, types and variables shared by the lexer, the module tokenizer
//! and the parser, together with their mathematical models.
use crate::text::str_eq;
use vstd::prelude::*;
use vstd::string::*;

verus! {

/// A lexical token.
#[derive(Debug, PartialEq)]
pub enum Tokens {
    LParen,
    RParen,
    LBracket,
    RBracket,
    LCurly,
    RCurly,
    QuotationMark,
    /// contents
    String(String),
    /// name, arguments, return type
    FunctionDef(String, Vec<Variable>, Types),
    Invalid,
    FunctionCall(String, Vec<Variable>),
    Return((Option<Variable>, String)),
    Semicolon,
    /// a token that stands for "no token"
    NoToken,
}

/// The type of a value or of a function's result.
#[derive(Debug, Clone, Copy, PartialEq, Eq, Structural)]
pub enum Types {
    Int,
    Float,
    String,
    Bool,
    Void,
    Invalid,
    /// not known yet; meant to be replaced by type inference
    Placeholder,
}

/// A typed, named value.
#[derive(Debug, PartialEq)]
pub struct Variable {
    pub t: Types,
    /// name
    pub n: String,
    /// value, kept as text
    pub v: String,
}

/// The kinds of error that stop the lexer.
#[derive(Debug, PartialEq)]
pub enum Exceptions {
    InvalidToken,
    InvalidType,
}

/// An error that stops the lexer, with the position it was found at.
pub struct Exception {
    pub error: Exceptions,
    pub message: String,
    pub character_pos: i64,
}

/// The model of a [`Variable`]: its type, name and value as character sequences.
pub struct SpecVariable {
    pub t: Types,
    pub n: Seq<char>,
    pub v: Seq<char>,
}

/// The model of a [`Tokens`] value: strings become character sequences and
/// vectors of variables become sequences of their models.
pub enum SpecToken {
    LParen,
    RParen,
    LBracket,
    RBracket,
    LCurly,
    RCurly,
    QuotationMark,
    String(Seq<char>),
    FunctionDef(Seq<char>, Seq<SpecVariable>, Types),
    Invalid,
    FunctionCall(Seq<char>, Seq<SpecVariable>),
    Return(Option<SpecVariable>, Seq<char>),
    Semicolon,
    NoToken,
}

impl View for Variable {
    type V = SpecVariable;

    open spec fn view(&self) -> SpecVariable {
        SpecVariable { t: self.t, n: self.n@, v: self.v@ }
    }
}

/// The models of a sequence of variables.
pub open spec fn vars_view(vs: Seq<Variable>) -> Seq<SpecVariable> {
    vs.map_values(|x: Variable| x@)
}

/// The models of a sequence of tokens.
pub open spec fn tokens_view(ts: Seq<Tokens>) -> Seq<SpecToken> {
    ts.map_values(|x: Tokens| x@)
}

impl View for Tokens {
    type V = SpecToken;

    open spec fn view(&self) -> SpecToken {
        match self {
            Tokens::LParen => SpecToken::LParen,
            Tokens::RParen => SpecToken::RParen,
            Tokens::LBracket => SpecToken::LBracket,
            Tokens::RBracket => SpecToken::RBracket,
            Tokens::LCurly => SpecToken::LCurly,
            Tokens::RCurly => SpecToken::RCurly,
            Tokens::QuotationMark => SpecToken::QuotationMark,
            Tokens::String(s) => SpecToken::String(s@),
            Tokens::FunctionDef(n, a, t) => SpecToken::FunctionDef(n@, vars_view(a@), *t),
            Tokens::Invalid => SpecToken::Invalid,
            Tokens::FunctionCall(n, a) => SpecToken::FunctionCall(n@, vars_view(a@)),
            Tokens::Return(r) => SpecToken::Return(
                match r.0 {
                    Option::Some(x) => Option::Some(x@),
                    Option::None => Option::None,
                },
                r.1@,
            ),
            Tokens::Semicolon => SpecToken::Semicolon,
            Tokens::NoToken => SpecToken::NoToken,
        }
    }
}

/// The token that a single character stands for.
pub open spec fn spec_from_char(c: char) -> SpecToken {
    if c == '(' {
        SpecToken::LParen
    } else if c == ')' {
        SpecToken::RParen
    } else if c == '[' {
        SpecToken::LBracket
    } else if c == ']' {
        SpecToken::RBracket
    } else if c == '{' {
        SpecToken::LCurly
    } else if c == '}' {
        SpecToken::RCurly
    } else if c == '"' {
        SpecToken::QuotationMark
    } else if c == ';' {
        SpecToken::Semicolon
    } else {
        SpecToken::Invalid
    }
}

/// The character a token is written with.
pub open spec fn spec_to_char(t: SpecToken) -> char {
    match t {
        SpecToken::LParen => '(',
        SpecToken::RParen => ')',
        SpecToken::LBracket => '[',
        SpecToken::RBracket => ']',
        SpecToken::LCurly => '{',
        SpecToken::RCurly => '}',
        SpecToken::QuotationMark => '"',
        SpecToken::Invalid => 'i',
        SpecToken::FunctionDef(_, _, _) => 'f',
        SpecToken::Semicolon => ';',
        _ => ' ',
    }
}

/// The characters that stand for a token of their own.
pub open spec fn is_token_char(c: char) -> bool {
    c == '(' || c == ')' || c == '[' || c == ']' || c == '{' || c == '}' || c == '"' || c == ';'
}

/// The type that a type name of the source language stands for.
pub open spec fn spec_parse_type(s: Seq<char>) -> Types {
    if s == "i64"@ || s == "i32"@ || s == "u8"@ || s == "u16"@ {
        Types::Int
    } else if s == "f32"@ || s == "f64"@ {
        Types::Float
    } else if s == "string"@ {
        Types::String
    } else if s == "bool"@ {
        Types::Bool
    } else if s == "void"@ {
        Types::Void
    } else {
        Types::Invalid
    }
}

/// The name a type is written with.
pub open spec fn spec_type_name(t: Types) -> Seq<char> {
    match t {
        Types::Int => "int"@,
        Types::Float => "float"@,
        Types::String => "string"@,
        Types::Bool => "bool"@,
        Types::Void => "void"@,
        Types::Invalid => "invalid"@,
        Types::Placeholder => "placeholder"@,
    }
}

impl Clone for Variable {
    fn clone(&self) -> (r: Self)
        ensures
            r@ == self@,
    {
        Variable { t: self.t, n: self.n.clone(), v: self.v.clone() }
    }
}

/// A copy of a vector of variables.
pub fn clone_vars(vs: &Vec<Variable>) -> (r: Vec<Variable>)
    ensures
        vars_view(r@) == vars_view(vs@),
{
    let mut r: Vec<Variable> = Vec::new();
    let mut i: usize = 0;
    while i < vs.len()
        invariant
            0 <= i <= vs.len(),
            r@.len() == i,
            forall|j: int| 0 <= j < i ==> #[trigger] r@[j]@ == vs@[j]@,
        decreases vs.len() - i,
    {
        r.push(vs[i].clone());
        i = i + 1;
    }
    assert(vars_view(r@) =~= vars_view(vs@));
    r
}

impl Clone for Tokens {
    fn clone(&self) -> (r: Self)
        ensures
            r@ == self@,
    {
        match self {
            Tokens::LParen => Tokens::LParen,
            Tokens::RParen => Tokens::RParen,
            Tokens::LBracket => Tokens::LBracket,
            Tokens::RBracket => Tokens::RBracket,
            Tokens::LCurly => Tokens::LCurly,
            Tokens::RCurly => Tokens::RCurly,
            Tokens::QuotationMark => Tokens::QuotationMark,
            Tokens::String(s) => Tokens::String(s.clone()),
            Tokens::FunctionDef(n, a, t) => Tokens::FunctionDef(n.clone(), clone_vars(a), *t),
            Tokens::Invalid => Tokens::Invalid,
            Tokens::FunctionCall(n, a) => Tokens::FunctionCall(n.clone(), clone_vars(a)),
            Tokens::Return(r) => {
                let v = match &r.0 {
                    Option::Some(x) => Option::Some(x.clone()),
                    Option::None => Option::None,
                };
                Tokens::Return((v, r.1.clone()))
            },
            Tokens::Semicolon => Tokens::Semicolon,
            Tokens::NoToken => Tokens::NoToken,
        }
    }
}

impl Tokens {
    /// The token that the character `c` stands for: one of the eight
    /// punctuation tokens, or `Invalid` for any other character.
    pub fn from_char(c: char) -> (r: Tokens)
        ensures
            r@ == spec_from_char(c),
    {
        match c {
            '(' => Tokens::LParen,
            ')' => Tokens::RParen,
            '[' => Tokens::LBracket,
            ']' => Tokens::RBracket,
            '{' => Tokens::LCurly,
            '}' => Tokens::RCurly,
            '"' => Tokens::QuotationMark,
            ';' => Tokens::Semicolon,
            _ => Tokens::Invalid,
        }
    }

    /// The character that the token is written with: its punctuation
    /// character, `'i'` for `Invalid`, `'f'` for a function definition and
    /// `' '` for the rest.
    pub fn to_char(&self) -> (r: char)
        ensures
            r == spec_to_char(self@),
    {
        match self {
            Tokens::LParen => '(',
            Tokens::RParen => ')',
            Tokens::LBracket => '[',
            Tokens::RBracket => ']',
            Tokens::LCurly => '{',
            Tokens::RCurly => '}',
            Tokens::QuotationMark => '"',
            Tokens::Invalid => 'i',
            Tokens::FunctionDef(_, _, _) => 'f',
            Tokens::Semicolon => ';',
            _ => ' ',
        }
    }

    /// The name, arguments and return type of a function definition, or
    /// `None` for any other token.
    pub fn try_as_function_def(self) -> (r: Option<(String, Vec<Variable>, Types)>)
        ensures
            match self@ {
                SpecToken::FunctionDef(n, a, t) => r matches Option::Some(x) && x.0@ == n
                    && vars_view(x.1@) == a && x.2 == t,
                _ => r is None,
            },
    {
        match self {
            Tokens::FunctionDef(n, a, t) => Option::Some((n, a, t)),
            _ => Option::None,
        }
    }
}

impl Types {
    /// The type a type name stands for: `i64`, `i32`, `u8` and `u16` are
    /// `Int`, `f32` and `f64` are `Float`, `string`, `bool` and `void` are
    /// themselves, and every other name is `Invalid`.
    pub fn parse_type(s: &str) -> (r: Types)
        ensures
            r == spec_parse_type(s@),
    {
        if str_eq(s, "i64") || str_eq(s, "i32") || str_eq(s, "u8") || str_eq(s, "u16") {
            Types::Int
        } else if str_eq(s, "f32") || str_eq(s, "f64") {
            Types::Float
        } else if str_eq(s, "string") {
            Types::String
        } else if str_eq(s, "bool") {
            Types::Bool
        } else if str_eq(s, "void") {
            Types::Void
        } else {
            Types::Invalid
        }
    }

    /// The lower-case name of the type.
    pub fn to_string(&self) -> (r: String)
        ensures
            r@ == spec_type_name(*self),
    {
        match self {
            Types::Int => String::from_str("int"),
            Types::Float => String::from_str("float"),
            Types::String => String::from_str("string"),
            Types::Bool => String::from_str("bool"),
            Types::Void => String::from_str("void"),
            Types::Invalid => String::from_str("invalid"),
            Types::Placeholder => String::from_str("placeholder"),
        }
    }
}

/// Reading a punctuation character as a token and writing the token back
/// gives the same character, and writing a punctuation token and reading
/// the character back gives the same token.
pub proof fn lemma_char_token_roundtrip(c: char, t: SpecToken)
    ensures
        is_token_char(c) ==> spec_to_char(spec_from_char(c)) == c,
        !is_token_char(c) ==> spec_from_char(c) == SpecToken::Invalid,
        is_token_char(spec_to_char(t)) ==> spec_from_char(spec_to_char(t)) == t,
{
}

} // verus!
