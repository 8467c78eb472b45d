//! The lexer: reads LeafLang source character by character, recognizes
//! function definitions, `include` calls, return expressions, strings and
//! literal types.
use crate::literal::{float_literal, i32_literal, is_float_literal, parses_as_i32};
use crate::text::{
    adv, find_char, find_stop, find_stop_exec, lemma_find_stop, matches_at, matches_at_exec,
    runs_off, str_eq, string_of_chars, chars_of,
};
use crate::tokens::token::{
    spec_from_char, tokens_view, vars_view, SpecToken, SpecVariable, Tokens, Types, Variable,
};
use crate::lexer::modules::{init_model, module_run, Module, ModuleError};
use vstd::prelude::*;
use vstd::string::*;

verus! {

/// The lexer's state: the source with blanks removed, the position of the
/// character being read (`-1` before the first), the variables in scope,
/// the functions defined so far, and the tokens of included modules.
pub struct Lexer {
    pub contents: Vec<char>,
    pub index: i64,
    pub variables_in_space: Vec<Variable>,
    pub functions: Vec<Tokens>,
    pub tokens: Vec<Tokens>,
}

/// The characters that the lexer drops from its input.
pub open spec fn is_blank(c: char) -> bool {
    c == '\n' || c == '\r' || c == ' '
}

/// The input with every line feed, carriage return and space removed.
pub open spec fn strip_blanks(s: Seq<char>) -> Seq<char> {
    s.filter(|c: char| !is_blank(c))
}

/// The type a literal value is written as: a quoted string, a
/// floating-point literal, an integer literal, `void`, `true` or `false`;
/// anything else is not known yet.
pub open spec fn spec_discern_type(v: Seq<char>) -> Types {
    if v.len() >= 1 && v[0] == '"' && v.last() == '"' {
        Types::String
    } else if float_literal(v) {
        Types::Float
    } else if i32_literal(v) {
        Types::Int
    } else if v == "void"@ {
        Types::Void
    } else if v == "true"@ || v == "false"@ {
        Types::Bool
    } else {
        Types::Placeholder
    }
}

/// A variable of unknown type with the given name and no value.
pub open spec fn placeholder_var(name: Seq<char>) -> SpecVariable {
    SpecVariable { t: Types::Placeholder, n: name, v: Seq::empty() }
}

/// The first position at or after `from` of a variable whose value is
/// `val`, or the number of variables when there is none.
pub open spec fn find_var_value(vs: Seq<SpecVariable>, val: Seq<char>, from: int) -> int
    decreases vs.len() - from,
{
    if from < 0 || from >= vs.len() {
        vs.len() as int
    } else if vs[from].v == val {
        from
    } else {
        find_var_value(vs, val, from + 1)
    }
}

/// The argument names of a function definition, read from `pos` on: the
/// text up to the first `[` that opens the text or follows a `,` or `)`,
/// cut at every `,` and `)`, empty pieces left out; with the position of
/// that `[`. `None` when no such `[` is reached (the scan never ends).
pub open spec fn def_args(c: Seq<char>, pos: int) -> Option<(Seq<Seq<char>>, int)>
    decreases c.len() - pos,
{
    if pos < 0 || pos >= c.len() {
        Option::None
    } else if c[pos] == '[' {
        Option::Some((Seq::empty(), pos))
    } else {
        let q = find_stop(c, pos, ',', ')');
        if q + 1 >= c.len() {
            Option::None
        } else {
            proof {
                lemma_find_stop(c, pos, ',', ')');
            }
            match def_args(c, q + 1) {
                Option::None => Option::None,
                Option::Some((rest, b)) => Option::Some(
                    (if q > pos { seq![c.subrange(pos, q)] + rest } else { rest }, b),
                ),
            }
        }
    }
}

/// What the lexer finds at a position when it looks for a function
/// definition.
pub enum DefScan {
    /// no definition starts here
    NotDef,
    /// a definition: its name, its argument names, and the position of the
    /// `]` that closes it
    Def(Seq<char>, Seq<Seq<char>>, int),
    /// a definition starts here but is never closed
    Stuck,
}

/// A function definition `fnc NAME ( ARGS ) [ RET ]` read at position `i`.
pub open spec fn lex_def(c: Seq<char>, i: int) -> DefScan {
    if crate::tokens::token::is_token_char(c[i]) || !matches_at(c, i, "fnc"@) {
        DefScan::NotDef
    } else {
        let len = c.len() as int;
        let s = adv(len, i, 3);
        let p = find_char(c, s, '(');
        if p == len {
            DefScan::Stuck
        } else {
            match def_args(c, adv(len, p, 1)) {
                Option::None => DefScan::Stuck,
                Option::Some((args, b)) => {
                    let e = find_char(c, adv(len, b, 1), ']');
                    if e == len {
                        DefScan::Stuck
                    } else {
                        DefScan::Def(c.subrange(s, p), args, e)
                    }
                },
            }
        }
    }
}

/// The token of a definition found by the lexer: its name, one argument of
/// unknown type and no value for each argument name, and an unknown return
/// type.
pub open spec fn lex_def_token(name: Seq<char>, args: Seq<Seq<char>>) -> SpecToken {
    SpecToken::FunctionDef(name, args.map_values(|a: Seq<char>| placeholder_var(a)), Types::Placeholder)
}

/// What the lexer finds at a position when it looks for an `include`.
pub enum IncludeScan {
    NoInclude,
    /// the path between the quotes, and the position of the closing quote
    Include(Seq<char>, int),
    /// an include whose path is never closed
    Stuck,
}

/// An include `include"PATH"` read at position `i`.
pub open spec fn lex_include(c: Seq<char>, i: int) -> IncludeScan {
    if !matches_at(c, i, "include"@) {
        IncludeScan::NoInclude
    } else {
        let s = adv(c.len() as int, i, 8);
        let k = find_char(c, s, '"');
        if k == c.len() {
            IncludeScan::Stuck
        } else {
            IncludeScan::Include(c.subrange(s, k), k)
        }
    }
}

/// What [`Lexer::discern_include_call`] found: nothing, a module to include
/// (read by the caller and handed to [`Lexer::include_module`]), or an
/// include whose path is never closed.
pub enum IncludeCall {
    NoInclude,
    Module(String),
    Unterminated,
}

/// The characters of `contents` without line feeds, carriage returns and
/// spaces.
pub fn strip_blanks_exec(contents: &str) -> (r: Vec<char>)
    ensures
        r@ == strip_blanks(contents@),
        r@.len() <= contents@.len(),
        forall|i: int| 0 <= i < r@.len() ==> !is_blank(#[trigger] r@[i]),
{
    let all = chars_of(contents);
    let ghost s = contents@;
    let mut kept: Vec<char> = Vec::new();
    let mut i: usize = 0;
    while i < all.len()
        invariant
            all@ == s,
            0 <= i <= all.len(),
            kept@ == strip_blanks(s.take(i as int)),
        decreases all.len() - i,
    {
        let c = all[i];
        proof {
            let t = s.take(i + 1);
            assert(t.drop_last() =~= s.take(i as int));
            assert(t.last() == c);
            reveal_with_fuel(Seq::<_>::filter, 1);
            assert(strip_blanks(t) == strip_blanks(s.take(i as int)) + (if !is_blank(c) {
                seq![c]
            } else {
                Seq::empty()
            }));
        }
        if !(c == '\n' || c == '\r' || c == ' ') {
            kept.push(c);
        }
        proof {
            assert(kept@ =~= strip_blanks(s.take(i + 1)));
        }
        i = i + 1;
    }
    assert(s.take(all.len() as int) =~= s);
    proof {
        broadcast use vstd::seq_lib::group_filter_ensures;
        assert forall|i: int| 0 <= i < kept@.len() implies !is_blank(#[trigger] kept@[i]) by {
            assert(strip_blanks(s).contains(kept@[i]));
        }
    }
    proof {
        s.lemma_filter_len(|c: char| !is_blank(c));
    }
    kept
}

/// The empty value is of no known type.
pub proof fn lemma_empty_value_is_placeholder()
    ensures
        spec_discern_type(Seq::empty()) == Types::Placeholder,
{
    reveal_strlit("inf");
    reveal_strlit("infinity");
    reveal_strlit("nan");
    reveal_strlit("void");
    reveal_strlit("true");
    reveal_strlit("false");
    let e: Seq<char> = Seq::empty();
    assert(e.skip(0) =~= e);
}

/// The position of the first variable whose value is `val`.
fn find_variable(vars: &Vec<Variable>, val: &String) -> (r: Option<usize>)
    ensures
        ({
            let vs = vars_view(vars@);
            let j = find_var_value(vs, val@, 0);
            &&& j < vs.len() ==> (r matches Option::Some(k) && k == j)
            &&& j >= vs.len() ==> r is None
            &&& r matches Option::Some(k) ==> k < vars.len() && vars@[k as int]@ == vs[k as int]
        }),
{
    let ghost vs = vars_view(vars@);
    let mut j: usize = 0;
    while j < vars.len()
        invariant
            vs == vars_view(vars@),
            0 <= j <= vs.len(),
            find_var_value(vs, val@, j as int) == find_var_value(vs, val@, 0),
        decreases vs.len() - j,
    {
        if vars[j].v == *val {
            assert(vs[j as int].v == val@);
            return Option::Some(j);
        }
        j = j + 1;
    }
    Option::None
}

/// The arguments of a function definition read from `a` on (see
/// [`def_args`]), each of unknown type and no value, with the position of
/// the `[` that ends them.
fn scan_def_args(contents: &Vec<char>, a: usize) -> (r: Option<(Vec<Variable>, usize)>)
    requires
        a < contents.len(),
    ensures
        match def_args(contents@, a as int) {
            Option::None => r is None,
            Option::Some((names, b)) => r matches Option::Some(x) && x.1 == b && x.1 < contents.len()
                && vars_view(x.0@) == names.map_values(|n: Seq<char>| placeholder_var(n)),
        },
{
    let ghost c = contents@;
    let len = contents.len();
    let mut args: Vec<Variable> = Vec::new();
    let ghost mut names: Seq<Seq<char>> = Seq::empty();
    let mut pos = a;
    proof {
        lemma_empty_value_is_placeholder();
    }
    while contents[pos] != '['
        invariant
            c == contents@,
            len == c.len(),
            a <= pos < len,
            vars_view(args@) == names.map_values(|n: Seq<char>| placeholder_var(n)),
            def_args(c, a as int) == match def_args(c, pos as int) {
                Option::None => Option::None,
                Option::Some((rest, b)) => Option::Some((names + rest, b)),
            },
            spec_discern_type(Seq::empty()) == Types::Placeholder,
        decreases len - pos,
    {
        let q = find_stop_exec(contents, pos, ',', ')');
        proof {
            lemma_find_stop(c, pos as int, ',', ')');
        }
        if q >= len - 1 {
            assert(def_args(c, pos as int) is None);
            return Option::None;
        }
        let ghost old_names = names;
        if q > pos {
            let buf = string_of_chars(contents, pos, q);
            let arg = Lexer::discern_type(buf, String::new());
            let ghost old_args = args@;
            args.push(arg);
            proof {
                names = names.push(c.subrange(pos as int, q as int));
                assert(vars_view(args@) =~= vars_view(old_args).push(arg@));
                assert(names.map_values(|n: Seq<char>| placeholder_var(n)) =~= old_names.map_values(
                    |n: Seq<char>| placeholder_var(n),
                ).push(placeholder_var(c.subrange(pos as int, q as int))));
            }
        }
        proof {
            match def_args(c, q + 1) {
                Option::None => {},
                Option::Some((rest, b)) => {
                    if q > pos {
                        assert(old_names + (seq![c.subrange(pos as int, q as int)] + rest) =~= names + rest);
                    }
                },
            }
        }
        pos = q + 1;
    }
    assert(names + Seq::<Seq<char>>::empty() =~= names);
    Option::Some((args, pos))
}

impl Lexer {
    /// `next` differs from `self` in its position only, which is `k`.
    pub open spec fn moved_to(&self, next: &Lexer, k: int) -> bool {
        &&& next.index == k
        &&& next.contents == self.contents
        &&& next.variables_in_space == self.variables_in_space
        &&& next.functions == self.functions
        &&& next.tokens == self.tokens
    }

    /// The character being read.
    pub fn current(&self) -> (r: char)
        requires
            0 <= self.index < self.contents.len(),
        ensures
            r == self.contents@[self.index as int],
    {
        self.contents[self.index as usize]
    }

    /// A lexer positioned before the first character of `contents`, with
    /// every line feed, carriage return and space removed.
    pub fn init(contents: String) -> (r: Lexer)
        ensures
            r.contents@ == strip_blanks(contents@),
            forall|i: int| 0 <= i < r.contents@.len() ==> !is_blank(#[trigger] r.contents@[i]),
            r.index == -1,
            r.variables_in_space@.len() == 0,
            r.functions@.len() == 0,
            r.tokens@.len() == 0,
    {
        let kept = strip_blanks_exec(contents.as_str());
        Lexer {
            contents: kept,
            index: -1,
            variables_in_space: Vec::new(),
            functions: Vec::new(),
            tokens: Vec::new(),
        }
    }

    /// Moves `amount` places when the new position lies inside the
    /// contents, and says whether it moved.
    pub fn advance(&mut self, amount: i64) -> (r: bool)
        requires
            i64::MIN <= old(self).index + amount <= i64::MAX,
        ensures
            r == (0 <= old(self).index + amount < old(self).contents.len()),
            final(self).index == adv(old(self).contents.len() as int, old(self).index as int, amount as int),
            final(self).contents == old(self).contents,
            final(self).variables_in_space == old(self).variables_in_space,
            final(self).functions == old(self).functions,
            final(self).tokens == old(self).tokens,
    {
        let target = self.index + amount;
        if target < 0 || (target as u64) >= (self.contents.len() as u64) {
            return false;
        }
        self.index = target;
        true
    }

    /// A variable named `name` holding `value`, of the type the value is
    /// written as (see [`spec_discern_type`]).
    pub fn discern_type(name: String, value: String) -> (r: Variable)
        ensures
            r@ == (SpecVariable { t: spec_discern_type(value@), n: name@, v: value@ }),
    {
        let t = {
            let vs = value.as_str();
            let n = vs.unicode_len();
            if n >= 1 && vs.get_char(0) == '"' && vs.get_char(n - 1) == '"' {
                Types::String
            } else if is_float_literal(vs) {
                Types::Float
            } else if parses_as_i32(vs) {
                Types::Int
            } else if str_eq(vs, "void") {
                Types::Void
            } else if str_eq(vs, "true") || str_eq(vs, "false") {
                Types::Bool
            } else {
                Types::Placeholder
            }
        };
        Variable { t, v: value, n: name }
    }

    /// Reads a string that ends at the next quotation mark: the characters
    /// after the current one up to and including the first `"` at or after
    /// the current position, which becomes the new position. When the
    /// current character is that quotation mark the string is empty. `None`
    /// when no quotation mark follows (the lexer is left unchanged).
    pub fn discern_string(&mut self) -> (r: Option<String>)
        requires
            0 <= old(self).index < old(self).contents.len(),
            old(self).contents.len() <= i64::MAX,
        ensures
            ({
                let c = old(self).contents@;
                let k = find_char(c, old(self).index as int, '"');
                &&& k == c.len() ==> r is None && *final(self) == *old(self)
                &&& k < c.len() ==> (r matches Option::Some(s) && s@ == c.subrange(old(self).index + 1, k + 1)
                    && old(self).moved_to(&*final(self), k))
            }),
    {
        let i = self.index as usize;
        let k = find_stop_exec(&self.contents, i, '"', '"');
        proof {
            lemma_find_stop(self.contents@, i as int, '"', '"');
        }
        if k == self.contents.len() {
            return Option::None;
        }
        let s = string_of_chars(&self.contents, i + 1, k + 1);
        self.index = k as i64;
        Option::Some(s)
    }

    /// Reads a return expression: the characters from the current one up
    /// to the first `)` at or after it, which becomes the new position. The
    /// result is `Return` with the first variable in scope whose value is
    /// that text (and an empty text), or with no variable and the text.
    /// `Invalid` when no `)` follows (the lexer is left unchanged).
    pub fn discern_return(&mut self) -> (r: Tokens)
        requires
            0 <= old(self).index < old(self).contents.len(),
            old(self).contents.len() <= i64::MAX,
        ensures
            ({
                let c = old(self).contents@;
                let i = old(self).index as int;
                let k = find_char(c, i, ')');
                let val = c.subrange(i, k);
                let vs = vars_view(old(self).variables_in_space@);
                let j = find_var_value(vs, val, 0);
                &&& k == c.len() ==> r@ == SpecToken::Invalid && *final(self) == *old(self)
                &&& k < c.len() ==> r@ == (if j < vs.len() {
                    SpecToken::Return(Option::Some(vs[j]), Seq::empty())
                } else {
                    SpecToken::Return(Option::None, val)
                }) && old(self).moved_to(&*final(self), k)
            }),
    {
        let i = self.index as usize;
        let k = find_stop_exec(&self.contents, i, ')', ')');
        proof {
            lemma_find_stop(self.contents@, i as int, ')', ')');
        }
        if k == self.contents.len() {
            return Tokens::Invalid;
        }
        let to_return = string_of_chars(&self.contents, i, k);
        self.index = k as i64;
        match find_variable(&self.variables_in_space, &to_return) {
            Option::Some(j) => {
                let found = self.variables_in_space[j].clone();
                Tokens::Return((Option::Some(found), String::new()))
            },
            Option::None => Tokens::Return((Option::None, to_return)),
        }
    }

    /// Looks for an `include"PATH"` at the current position. When there is
    /// one, the position moves to the quotation mark that closes the path
    /// and the path is handed back, for the caller to read the module and
    /// give its text to [`Lexer::include_module`]. An include whose path is
    /// never closed gives `Unterminated`; in that case and when there is no
    /// include the lexer is left unchanged.
    pub fn discern_include_call(&mut self) -> (r: IncludeCall)
        requires
            0 <= old(self).index < old(self).contents.len(),
            old(self).contents.len() <= i64::MAX,
            !runs_off(old(self).contents@, old(self).index as int, "include"@),
        ensures
            match lex_include(old(self).contents@, old(self).index as int) {
                IncludeScan::NoInclude => r is NoInclude && *final(self) == *old(self),
                IncludeScan::Stuck => r is Unterminated && *final(self) == *old(self),
                IncludeScan::Include(path, k) => (r matches IncludeCall::Module(p) && p@ == path)
                    && old(self).moved_to(&*final(self), k),
            },
    {
        let i = self.index as usize;
        if !matches_at_exec(&self.contents, i, "include") {
            return IncludeCall::NoInclude;
        }
        let len = self.contents.len();
        let s = if 8 < len - i { i + 8 } else { i };
        let k = find_stop_exec(&self.contents, s, '"', '"');
        proof {
            lemma_find_stop(self.contents@, s as int, '"', '"');
        }
        if k == len {
            return IncludeCall::Unterminated;
        }
        let path = string_of_chars(&self.contents, s, k);
        self.index = k as i64;
        IncludeCall::Module(path)
    }

    /// Looks for a function definition `fnc NAME(ARGS)[RET]` at the current
    /// position. A definition gives `FunctionDef` with the name, one
    /// argument of unknown type and no value for each piece of ARGS cut at
    /// `,` and `)`, and an unknown return type; the definition is added to
    /// the functions and the position moves to the closing `]`. A
    /// punctuation character or any other text gives `NoToken`, and a
    /// definition that is never closed gives `Invalid`; in both cases the
    /// lexer is left unchanged.
    pub fn discern_function_definition(&mut self) -> (r: Tokens)
        requires
            0 <= old(self).index < old(self).contents.len(),
            old(self).contents.len() <= i64::MAX,
            !runs_off(old(self).contents@, old(self).index as int, "fnc"@),
        ensures
            match lex_def(old(self).contents@, old(self).index as int) {
                DefScan::NotDef => r@ == SpecToken::NoToken && *final(self) == *old(self),
                DefScan::Stuck => r@ == SpecToken::Invalid && *final(self) == *old(self),
                DefScan::Def(name, args, e) => r@ == lex_def_token(name, args) && final(self).index == e
                    && tokens_view(final(self).functions@) == tokens_view(old(self).functions@).push(r@)
                    && final(self).contents == old(self).contents
                    && final(self).variables_in_space == old(self).variables_in_space
                    && final(self).tokens == old(self).tokens,
            },
    {
        let i = self.index as usize;
        let len = self.contents.len();
        let ghost c = self.contents@;
        if let Tokens::Invalid = Tokens::from_char(self.current()) {
        } else {
            return Tokens::NoToken;
        }
        if !matches_at_exec(&self.contents, i, "fnc") {
            return Tokens::NoToken;
        }
        let s = if 3 < len - i { i + 3 } else { i };
        let p = find_stop_exec(&self.contents, s, '(', '(');
        proof {
            lemma_find_stop(c, s as int, '(', '(');
        }
        if p == len {
            return Tokens::Invalid;
        }
        let function_name = string_of_chars(&self.contents, s, p);
        let a = if p + 1 < len { p + 1 } else { p };
        let (args, b) = match scan_def_args(&self.contents, a) {
            Option::Some(x) => x,
            Option::None => {
                return Tokens::Invalid;
            },
        };
        let r = if b < len - 1 { b + 1 } else { b };
        let e = find_stop_exec(&self.contents, r, ']', ']');
        proof {
            lemma_find_stop(c, r as int, ']', ']');
            lemma_empty_value_is_placeholder();
        }
        if e == len {
            return Tokens::Invalid;
        }
        let stringbuf = string_of_chars(&self.contents, r, e);
        let return_type = Self::discern_type(stringbuf, String::new());
        let function_def = Tokens::FunctionDef(function_name, args, return_type.t);
        self.functions.push(function_def.clone());
        self.index = e as i64;
        proof {
            assert(tokens_view(self.functions@) =~= tokens_view(old(self).functions@).push(function_def@));
        }
        function_def
    }

    /// Reads the token at the current position. A function definition
    /// there gives its token (see [`Lexer::discern_function_definition`]).
    /// Otherwise an `include"PATH"` there moves the position to the quote
    /// that closes the path and gives `QuotationMark` with the path, which
    /// the caller reads and hands to [`Lexer::include_module`]; anything
    /// else gives the token of the current character. A definition or an
    /// include that is never closed gives `Invalid` and leaves the lexer
    /// unchanged.
    pub fn get_next_token(&mut self) -> (r: (Tokens, Option<String>))
        requires
            0 <= old(self).index < old(self).contents.len(),
            old(self).contents.len() <= i64::MAX,
            !runs_off(old(self).contents@, old(self).index as int, "fnc"@),
            !runs_off(old(self).contents@, old(self).index as int, "include"@),
        ensures
            ({
                let c = old(self).contents@;
                let i = old(self).index as int;
                match lex_def(c, i) {
                    DefScan::Def(name, args, e) => r.0@ == lex_def_token(name, args) && r.1 is None
                        && final(self).index == e
                        && tokens_view(final(self).functions@) == tokens_view(old(self).functions@).push(r.0@)
                        && final(self).contents == old(self).contents
                        && final(self).variables_in_space == old(self).variables_in_space
                        && final(self).tokens == old(self).tokens,
                    DefScan::Stuck => r.0@ == SpecToken::Invalid && r.1 is None && *final(self) == *old(self),
                    DefScan::NotDef => match lex_include(c, i) {
                        IncludeScan::NoInclude => r.0@ == spec_from_char(c[i]) && r.1 is None
                            && *final(self) == *old(self),
                        IncludeScan::Stuck => r.0@ == SpecToken::Invalid && r.1 is None
                            && *final(self) == *old(self),
                        IncludeScan::Include(path, k) => r.0@ == SpecToken::QuotationMark
                            && (r.1 matches Option::Some(p) && p@ == path) && old(self).moved_to(&*final(self), k),
                    },
                }
            }),
    {
        let def = self.discern_function_definition();
        match def {
            Tokens::FunctionDef(_, _, _) => {
                return (def, Option::None);
            },
            Tokens::Invalid => {
                return (def, Option::None);
            },
            _ => {},
        }
        proof {
            let c = self.contents@;
            lemma_find_stop(c, adv(c.len() as int, self.index as int, 8), '"', '"');
        }
        match self.discern_include_call() {
            IncludeCall::Unterminated => (Tokens::Invalid, Option::None),
            IncludeCall::Module(path) => (Tokens::from_char(self.current()), Option::Some(path)),
            IncludeCall::NoInclude => (Tokens::from_char(self.current()), Option::None),
        }
    }

    /// Includes a module: tokenizes the module made from `module_source`
    /// (the text of the file that an include names) and appends its tokens
    /// to the lexer's tokens. When tokenizing the module fails, its error is
    /// handed back and the lexer is left unchanged.
    pub fn include_module(&mut self, module_source: String) -> (r: Result<(), ModuleError>)
        requires
            module_source@.len() <= i64::MAX,
        ensures
            match module_run(init_model(module_source@), Seq::empty()) {
                Result::Ok((ts, _)) => r is Ok && tokens_view(final(self).tokens@) == tokens_view(old(self).tokens@) + ts
                    && final(self).index == old(self).index
                    && final(self).contents == old(self).contents
                    && final(self).variables_in_space == old(self).variables_in_space
                    && final(self).functions == old(self).functions,
                Result::Err(e) => (r matches Result::Err(x) && x@ == e) && *final(self) == *old(self),
            },
    {
        let mut module = Module::init(module_source);
        match module.tokenize_module() {
            Result::Ok(tokens) => {
                let mut tokens = tokens;
                let ghost before = self.tokens@;
                let ghost added = tokens@;
                self.tokens.append(&mut tokens);
                proof {
                    assert(tokens_view(self.tokens@) =~= tokens_view(before) + tokens_view(added));
                }
                Result::Ok(())
            },
            Result::Err(e) => Result::Err(e),
        }
    }
}

/// No value is read as an integer: every integer literal is read as a
/// floating-point literal first.
pub proof fn lemma_discern_type_never_int(v: Seq<char>)
    ensures
        spec_discern_type(v) != Types::Int,
{
    crate::literal::lemma_i32_literal_is_float_literal(v);
}

/// The token of a definition the lexer reads keeps its name and has one
/// argument per argument name, in order, each named by it, of unknown type
/// and with no value; its return type is unknown.
pub proof fn lemma_lex_def_token_fields(name: Seq<char>, args: Seq<Seq<char>>)
    ensures
        lex_def_token(name, args) matches SpecToken::FunctionDef(n, vs, t) && n == name && t == Types::Placeholder
            && vs.len() == args.len() && forall|j: int| 0 <= j < args.len() ==> (#[trigger] vs[j]).n == args[j]
            && vs[j].t == Types::Placeholder && vs[j].v.len() == 0,
{
}

/// The argument names of a definition end on a `[` at or after where they
/// start.
pub proof fn lemma_def_args_bounds(c: Seq<char>, pos: int)
    ensures
        def_args(c, pos) matches Option::Some((args, b)) ==> pos <= b < c.len() && c[b] == '[',
    decreases c.len() - pos,
{
    if 0 <= pos < c.len() && c[pos] != '[' {
        lemma_find_stop(c, pos, ',', ')');
        let q = find_stop(c, pos, ',', ')');
        if q + 1 < c.len() {
            lemma_def_args_bounds(c, q + 1);
        }
    }
}

/// The lexer finds a function definition only where `fnc` is written, and
/// finds one (closed or not) wherever it is: `NotDef` exactly when `fnc` is
/// not written at the position. A definition that is read ends on the `]`
/// that closes its return type, after the position where it starts; its
/// name is the text written after `fnc` up to the first `(`, whole.
pub proof fn lemma_lex_def_where_fnc(c: Seq<char>, i: int)
    requires
        0 <= i < c.len(),
    ensures
        (lex_def(c, i) is NotDef) <==> !matches_at(c, i, "fnc"@),
        lex_def(c, i) matches DefScan::Def(name, args, e) ==> i < e < c.len() && c[e] == ']',
        lex_def(c, i) matches DefScan::Def(name, args, e) ==> i + 3 < c.len() ==> i + 3 + name.len() < c.len()
            && c.subrange(i + 3, i + 3 + name.len()) == name && c[i + 3 + name.len()] == '('
            && forall|j: int| 0 <= j < name.len() ==> #[trigger] name[j] != '(',
{
    reveal_strlit("fnc");
    if matches_at(c, i, "fnc"@) {
        assert(c[i] == "fnc"@[0]);
        let len = c.len() as int;
        let s = adv(len, i, 3);
        lemma_find_stop(c, s, '(', '(');
        let p = find_char(c, s, '(');
        if p < len {
            let name = c.subrange(s, p);
            assert forall|j: int| 0 <= j < name.len() implies #[trigger] name[j] != '(' by {
                assert(name[j] == c[s + j]);
            }
            lemma_def_args_bounds(c, adv(len, p, 1));
            if let Option::Some((args, b)) = def_args(c, adv(len, p, 1)) {
                lemma_find_stop(c, adv(len, b, 1), ']', ']');
            }
        }
    }
}

/// The lexer finds an include only where `include` is written. One that is
/// read ends on the quotation mark that closes its path, after the
/// position where it starts.
pub proof fn lemma_lex_include_where_written(c: Seq<char>, i: int)
    requires
        0 <= i < c.len(),
    ensures
        (lex_include(c, i) is NoInclude) <==> !matches_at(c, i, "include"@),
        lex_include(c, i) matches IncludeScan::Include(path, k) ==> i < k < c.len() && c[k] == '"',
        lex_include(c, i) matches IncludeScan::Include(path, k) ==> i + 8 < c.len() ==> i + 8 <= k
            && path == c.subrange(i + 8, k),
        lex_include(c, i) matches IncludeScan::Include(path, k) ==> forall|j: int|
            0 <= j < path.len() ==> #[trigger] path[j] != '"',
{
    reveal_strlit("include");
    if matches_at(c, i, "include"@) {
        assert(c[i] == "include"@[0]);
        lemma_find_stop(c, adv(c.len() as int, i, 8), '"', '"');
        if let IncludeScan::Include(path, k) = lex_include(c, i) {
            let s = adv(c.len() as int, i, 8);
            assert forall|j: int| 0 <= j < path.len() implies #[trigger] path[j] != '"' by {
                assert(path[j] == c[s + j]);
            }
        }
    }
}

/// The include path handed back is the text between `include"` and the
/// next quotation mark, character for character: where that text is
/// `path` (no quotation mark in it) followed by a quotation mark, the
/// include is `path`, closed at that mark.
pub proof fn lemma_include_path_as_written(c: Seq<char>, i: int, path: Seq<char>)
    requires
        0 <= i,
        i + 8 + path.len() < c.len(),
        matches_at(c, i, "include\""@),
        c.subrange(i + 8, i + 8 + path.len()) == path,
        forall|j: int| 0 <= j < path.len() ==> #[trigger] path[j] != '"',
        c[i + 8 + path.len()] == '"',
    ensures
        lex_include(c, i) == IncludeScan::Include(path, i + 8 + path.len()),
{
    reveal_strlit("include\"");
    reveal_strlit("include");
    let k = i + 8 + path.len();
    assert(c.subrange(i, i + 7) =~= c.subrange(i, i + 8).subrange(0, 7));
    assert("include"@ =~= "include\""@.subrange(0, 7));
    assert(matches_at(c, i, "include"@));
    assert forall|j: int| i + 8 <= j < k implies c[j] != '"' by {
        assert(c[j] == c.subrange(i + 8, k)[j - (i + 8)]);
    }
    lemma_find_stop_is(c, i + 8, k, '"', '"');
    assert(c.subrange(i + 8, k) =~= path);
}

/// The first stop at or after `from` is `q` when the characters from `from`
/// up to `q` are none of the stops and `q` is one.
pub proof fn lemma_find_stop_is(c: Seq<char>, from: int, q: int, x: char, y: char)
    requires
        0 <= from <= q < c.len(),
        forall|j: int| from <= j < q ==> c[j] != x && c[j] != y,
        c[q] == x || c[q] == y,
    ensures
        find_stop(c, from, x, y) == q,
{
    lemma_find_stop(c, from, x, y);
    let r = find_stop(c, from, x, y);
    if r < q {
        assert(c[r] != x && c[r] != y);
    } else if r > q {
        assert(c[q] != x && c[q] != y);
    }
}

/// The argument names of a definition are the pieces of text between its
/// delimiters, whole: a piece `c[pos..q]` holding none of `,`, `)` and `[`
/// and closed by `,` or `)` is the next argument name, followed by the
/// names read after that delimiter. A `,` or `)` with nothing before it
/// adds no name.
pub proof fn lemma_def_args_pieces(c: Seq<char>, pos: int, q: int)
    requires
        0 <= pos <= q < c.len() - 1,
        forall|j: int| pos <= j < q ==> c[j] != ',' && c[j] != ')' && c[j] != '[',
        c[q] == ',' || c[q] == ')',
    ensures
        def_args(c, pos) == match def_args(c, q + 1) {
            Option::None => Option::None,
            Option::Some((names, end)) => Option::Some(
                (if pos < q { seq![c.subrange(pos, q)].add(names) } else { names }, end),
            ),
        },
{
    lemma_find_stop_is(c, pos, q, ',', ')');
}

/// Where the text from `pos` is `[`, a definition has no (more) argument
/// names and they end there.
pub proof fn lemma_def_args_end(c: Seq<char>, pos: int)
    requires
        0 <= pos < c.len(),
        c[pos] == '[',
    ensures
        def_args(c, pos) == Option::Some((Seq::<Seq<char>>::empty(), pos)),
{
}

/// The variable found for a value is the first whose value is exactly
/// that text; none is found only when no variable holds exactly that text.
pub proof fn lemma_find_var_value_exact(vs: Seq<SpecVariable>, val: Seq<char>, from: int)
    requires
        0 <= from,
    ensures
        ({
            let j = find_var_value(vs, val, from);
            &&& j < vs.len() ==> from <= j && vs[j].v == val
                && forall|k: int| from <= k < j ==> #[trigger] vs[k].v != val
            &&& j >= vs.len() ==> j == vs.len() && forall|k: int| from <= k < vs.len() ==> #[trigger] vs[k].v != val
        }),
    decreases vs.len() - from,
{
    if from < vs.len() && vs[from].v != val {
        lemma_find_var_value_exact(vs, val, from + 1);
    }
}


/// Where neither `fnc` nor `include` is written, the lexer finds neither a
/// definition nor an include, so the next token is the token of the
/// character there and the lexer is left as it was (see
/// [`Lexer::get_next_token`]).
pub proof fn lemma_plain_character(c: Seq<char>, i: int)
    requires
        0 <= i < c.len(),
        !matches_at(c, i, "fnc"@),
        !matches_at(c, i, "include"@),
    ensures
        lex_def(c, i) is NotDef,
        lex_include(c, i) is NoInclude,
{
    lemma_lex_def_where_fnc(c, i);
    lemma_lex_include_where_written(c, i);
}

} // verus!
