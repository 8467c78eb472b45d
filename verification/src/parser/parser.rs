//! The parser: writes tokens back out as Rust source text.
use crate::text::{chars_of, push_char, str_eq, string_of_chars};
use crate::tokens::token::{
    is_token_char, spec_from_char, spec_to_char, spec_type_name, tokens_view, SpecToken,
    SpecVariable, Tokens, Types, Variable, vars_view,
};
use vstd::prelude::*;
use vstd::string::*;

verus! {

/// The parser's state: the tokens, the position of the token being
/// written (`-1` before the first), and an output buffer.
pub struct Parser {
    tokens: Vec<Tokens>,
    index: i64,
    output: String,
}

/// The Rust name of a type name: `string` is `String`, `int` is `i32`, and
/// every other name is itself.
pub open spec fn parser_type(s: Seq<char>) -> Seq<char> {
    if s == "string"@ {
        "String"@
    } else if s == "int"@ {
        "i32"@
    } else {
        s
    }
}

/// The text without its last character (the empty text stays empty).
pub open spec fn drop_last_char(s: Seq<char>) -> Seq<char> {
    if s.len() > 0 {
        s.drop_last()
    } else {
        s
    }
}

/// The parameters of a definition, each written `VALUE: TYPE,`.
pub open spec fn params_text(vs: Seq<SpecVariable>) -> Seq<char>
    decreases vs.len(),
{
    if vs.len() == 0 {
        Seq::empty()
    } else {
        params_text(vs.drop_last()) + vs.last().v + ": "@ + parser_type(spec_type_name(vs.last().t)) + ","@
    }
}

/// The arguments of a call, each written `VALUE,`.
pub open spec fn values_text(vs: Seq<SpecVariable>) -> Seq<char>
    decreases vs.len(),
{
    if vs.len() == 0 {
        Seq::empty()
    } else {
        values_text(vs.drop_last()) + vs.last().v + ","@
    }
}

/// The return type of a definition: nothing for `void`, otherwise
/// ` -> TYPE`.
pub open spec fn return_suffix(t: Types) -> Seq<char> {
    let r = parser_type(spec_type_name(t));
    if r == "void"@ {
        Seq::empty()
    } else {
        " -> "@ + r
    }
}

/// The Rust text of a token: a bracket, parenthesis, brace or quotation
/// mark is its character; a definition is `fn NAME(PARAMS) -> TYPE`; a call
/// is `NAME(ARGS)`; any other token is written as nothing.
pub open spec fn render(t: SpecToken) -> Seq<char> {
    match t {
        SpecToken::LParen | SpecToken::RParen | SpecToken::LCurly | SpecToken::RCurly
        | SpecToken::QuotationMark | SpecToken::RBracket | SpecToken::LBracket => seq![spec_to_char(t)],
        SpecToken::FunctionDef(x, y, z) => "fn "@ + x + "("@ + drop_last_char(params_text(y)) + ")"@
            + return_suffix(z),
        SpecToken::FunctionCall(x, y) => x + "("@ + drop_last_char(values_text(y)) + ")"@,
        _ => Seq::empty(),
    }
}

/// The Rust text of the tokens after position `from` up to and including
/// position `to`, each followed by a line feed.
pub open spec fn rendered_lines(ts: Seq<SpecToken>, from: int, to: int) -> Seq<char>
    decreases to - from,
{
    if to <= from {
        Seq::empty()
    } else {
        rendered_lines(ts, from, to - 1) + render(ts[to]) + seq!['\n']
    }
}

/// The text without its last character.
fn without_last_char(s: String) -> (r: String)
    ensures
        r@ == drop_last_char(s@),
{
    let cs = chars_of(s.as_str());
    if cs.len() == 0 {
        return s;
    }
    let r = string_of_chars(&cs, 0, cs.len() - 1);
    assert(r@ =~= s@.drop_last());
    r
}

/// The parameters of a definition written out (see [`params_text`]).
fn write_params(vs: &Vec<Variable>) -> (r: String)
    ensures
        r@ == params_text(vars_view(vs@)),
{
    let ghost vv = vars_view(vs@);
    let mut out = String::new();
    let mut i: usize = 0;
    while i < vs.len()
        invariant
            vv == vars_view(vs@),
            0 <= i <= vs.len(),
            out@ == params_text(vv.take(i as int)),
        decreases vs.len() - i,
    {
        let arg = &vs[i];
        out.append(arg.v.as_str());
        out.append(": ");
        let t = Parser::parse_type(arg.t.to_string());
        out.append(t.as_str());
        out.append(",");
        proof {
            assert(vv.take(i + 1).drop_last() =~= vv.take(i as int));
            assert(vv.take(i + 1).last() == arg@);
        }
        i = i + 1;
    }
    assert(vv.take(vs.len() as int) =~= vv);
    out
}

/// The arguments of a call written out (see [`values_text`]).
fn write_values(vs: &Vec<Variable>) -> (r: String)
    ensures
        r@ == values_text(vars_view(vs@)),
{
    let ghost vv = vars_view(vs@);
    let mut out = String::new();
    let mut i: usize = 0;
    while i < vs.len()
        invariant
            vv == vars_view(vs@),
            0 <= i <= vs.len(),
            out@ == values_text(vv.take(i as int)),
        decreases vs.len() - i,
    {
        out.append(vs[i].v.as_str());
        out.append(",");
        proof {
            assert(vv.take(i + 1).drop_last() =~= vv.take(i as int));
            assert(vv.take(i + 1).last() == vs@[i as int]@);
        }
        i = i + 1;
    }
    assert(vv.take(vs.len() as int) =~= vv);
    out
}

impl Parser {
    /// The models of the tokens.
    pub closed spec fn token_models(&self) -> Seq<SpecToken> {
        tokens_view(self.tokens@)
    }

    /// The position of the token being written.
    pub closed spec fn position(&self) -> int {
        self.index as int
    }

    /// The text of the output buffer.
    pub closed spec fn output_text(&self) -> Seq<char> {
        self.output@
    }

    /// A parser for `tokens`, positioned before the first.
    pub fn init(tokens: Vec<Tokens>) -> (r: Parser)
        ensures
            r.token_models() == tokens_view(tokens@),
            r.position() == -1,
            r.output_text() == Seq::<char>::empty(),
    {
        Parser { tokens, index: -1, output: String::new() }
    }

    /// Moves `amount` places when the new position is not past the last
    /// token, and says whether it moved. There must be a token (the last
    /// position is computed from the number of tokens).
    pub fn advance(&mut self, amount: i64) -> (r: bool)
        requires
            1 <= old(self).token_models().len() <= i64::MAX,
            i64::MIN <= old(self).position() + amount <= i64::MAX,
        ensures
            r == (old(self).position() + amount <= old(self).token_models().len() - 1),
            final(self).position() == if r {
                old(self).position() + amount
            } else {
                old(self).position()
            },
            final(self).token_models() == old(self).token_models(),
            final(self).output_text() == old(self).output_text(),
    {
        let last = (self.tokens.len() - 1) as i64;
        if self.index + amount > last {
            return false;
        }
        self.index = self.index + amount;
        true
    }

    /// The Rust name of a type name (see [`parser_type`]).
    pub fn parse_type(type_str: String) -> (r: String)
        ensures
            r@ == parser_type(type_str@),
    {
        if str_eq(type_str.as_str(), "string") {
            String::from_str("String")
        } else if str_eq(type_str.as_str(), "int") {
            String::from_str("i32")
        } else {
            type_str
        }
    }

    /// The Rust text of the token being written (see [`render`]).
    pub fn parse_current_token(&mut self) -> (r: String)
        requires
            0 <= old(self).position() < old(self).token_models().len(),
        ensures
            r@ == render(old(self).token_models()[old(self).position()]),
            final(self).token_models() == old(self).token_models(),
            final(self).position() == old(self).position(),
            final(self).output_text() == old(self).output_text(),
    {
        assert(self.token_models().len() == self.tokens.len());
        assert(0 <= self.index < self.tokens.len());
        let i = self.index as usize;
        assert(i as int == self.position());
        let current = &self.tokens[i];
        match current {
            Tokens::LParen | Tokens::RParen | Tokens::LCurly | Tokens::RCurly | Tokens::QuotationMark
            | Tokens::RBracket | Tokens::LBracket => {
                let mut s = String::new();
                push_char(&mut s, current.to_char());
                s
            },
            Tokens::FunctionDef(x, y, z) => {
                let args = without_last_char(write_params(y));
                let ret_type = Self::parse_type(z.to_string());
                let mut out = String::from_str("fn ");
                out.append(x.as_str());
                out.append("(");
                out.append(args.as_str());
                out.append(")");
                if !str_eq(ret_type.as_str(), "void") {
                    out.append(" -> ");
                    out.append(ret_type.as_str());
                }
                out
            },
            Tokens::FunctionCall(x, y) => {
                let args = without_last_char(write_values(y));
                let mut out = x.clone();
                out.append("(");
                out.append(args.as_str());
                out.append(")");
                out
            },
            _ => String::new(),
        }
    }
    /// Writes every token after the current position, each followed by a
    /// line feed, moving the position to the last token. The position must
    /// lie inside the tokens or just before them (writing a token at a
    /// position before the first fails).
    pub fn parse_all(&mut self) -> (r: String)
        requires
            1 <= old(self).token_models().len() <= i64::MAX,
            -1 <= old(self).position() < old(self).token_models().len(),
        ensures
            ({
                let last = old(self).token_models().len() - 1;
                &&& r@ == rendered_lines(old(self).token_models(), old(self).position(), last)
                &&& final(self).position() == last
                &&& final(self).token_models() == old(self).token_models()
                &&& final(self).output_text() == old(self).output_text()
            }),
    {
        let ghost ts = self.token_models();
        let ghost p0 = self.position();
        let ghost last = ts.len() - 1;
        let mut file_str = String::new();
        loop
            invariant
                ts == self.token_models(),
                ts == old(self).token_models(),
                ts.len() <= i64::MAX,
                1 <= ts.len(),
                last == ts.len() - 1,
                p0 == old(self).position(),
                -1 <= p0 <= self.position() <= last,
                self.output_text() == old(self).output_text(),
                file_str@ == rendered_lines(ts, p0, self.position()),
            decreases ts.len() - self.position(),
        {
            if !self.advance(1) {
                return file_str;
            }
            let line = self.parse_current_token();
            file_str.append(line.as_str());
            file_str.append("\n");
            proof {
                reveal_strlit("\n");
                assert(file_str@ =~= rendered_lines(ts, p0, self.position()));
            }
        }
    }

}

/// A bracket, parenthesis, brace or quotation mark that the lexer reads as
/// a token is written back as the same character; a semicolon is written
/// as nothing.
pub proof fn lemma_render_punctuation(c: char)
    ensures
        is_token_char(c) && c != ';' ==> render(spec_from_char(c)) == seq![c],
        c == ';' ==> render(spec_from_char(c)) == Seq::<char>::empty(),
{
}

/// Naming a type in Rust twice changes nothing more than naming it once.
pub proof fn lemma_parser_type_idempotent(s: Seq<char>)
    ensures
        parser_type(parser_type(s)) == parser_type(s),
{
    reveal_strlit("string");
    reveal_strlit("String");
    reveal_strlit("int");
    reveal_strlit("i32");
}

/// The Rust name of each type: `int` is `i32`, `string` is `String`, and
/// every other type keeps its own name.
pub proof fn lemma_rust_type_names(t: Types)
    ensures
        parser_type(spec_type_name(t)) == match t {
            Types::Int => "i32"@,
            Types::Float => "float"@,
            Types::String => "String"@,
            Types::Bool => "bool"@,
            Types::Void => "void"@,
            Types::Invalid => "invalid"@,
            Types::Placeholder => "placeholder"@,
        },
{
    reveal_strlit("string");
    reveal_strlit("int");
    reveal_strlit("float");
    reveal_strlit("bool");
    reveal_strlit("void");
    reveal_strlit("invalid");
    reveal_strlit("placeholder");
    let n = spec_type_name(t);
    assert("string"@.len() == 6 && "int"@.len() == 3);
    if t is Int {
        assert(n != "string"@);
    } else if !(t is String) {
        assert(n.len() != 3 && n.len() != 6);
        assert(n != "string"@ && n != "int"@);
        assert(parser_type(n) == n);
    }
}

/// A definition is written `fn NAME(PARAMS)`, followed by ` -> ` and the
/// Rust name of its return type for every return type but `Void`, which
/// writes none.
pub proof fn lemma_render_definition(name: Seq<char>, params: Seq<SpecVariable>, t: Types)
    ensures
        render(SpecToken::FunctionDef(name, params, t)) == "fn "@ + name + "("@ + drop_last_char(
            params_text(params),
        ) + ")"@ + match t {
            Types::Void => Seq::<char>::empty(),
            Types::Int => " -> i32"@,
            Types::Float => " -> float"@,
            Types::String => " -> String"@,
            Types::Bool => " -> bool"@,
            Types::Invalid => " -> invalid"@,
            Types::Placeholder => " -> placeholder"@,
        },
{
    lemma_rust_type_names(t);
    reveal_strlit(" -> ");
    reveal_strlit(" -> i32");
    reveal_strlit(" -> float");
    reveal_strlit(" -> String");
    reveal_strlit(" -> bool");
    reveal_strlit(" -> invalid");
    reveal_strlit(" -> placeholder");
    reveal_strlit("i32");
    reveal_strlit("float");
    reveal_strlit("String");
    reveal_strlit("bool");
    reveal_strlit("void");
    reveal_strlit("invalid");
    reveal_strlit("placeholder");
    let r = parser_type(spec_type_name(t));
    assert("void"@.len() == 4 && "void"@[0] == 'v');
    if !(t is Void) {
        assert(r.len() != 4 || r[0] != 'v');
        assert(r != "void"@);
    }
    let tail = match t {
        Types::Void => Seq::<char>::empty(),
        Types::Int => " -> i32"@,
        Types::Float => " -> float"@,
        Types::String => " -> String"@,
        Types::Bool => " -> bool"@,
        Types::Invalid => " -> invalid"@,
        Types::Placeholder => " -> placeholder"@,
    };
    if !(t is Void) {
        assert(" -> "@ + r =~= tail);
    }
    assert(return_suffix(t) == tail);
}

/// The parameters of a definition are written in order, each as
/// `VALUE: TYPE` with the Rust name of its type, separated by commas: no
/// parameters write nothing, and one more parameter adds a comma (unless
/// it is the first) and its own text.
pub proof fn lemma_params_written(vs: Seq<SpecVariable>, v: SpecVariable)
    ensures
        drop_last_char(params_text(Seq::empty())) == Seq::<char>::empty(),
        drop_last_char(params_text(vs.push(v))) == (if vs.len() == 0 {
            Seq::<char>::empty()
        } else {
            drop_last_char(params_text(vs)) + ","@
        }) + v.v + ": "@ + parser_type(spec_type_name(v.t)),
{
    reveal_strlit(",");
    assert(vs.push(v).drop_last() =~= vs);
    let x = params_text(vs) + v.v + ": "@ + parser_type(spec_type_name(v.t));
    assert((x + ","@).drop_last() =~= x);
    if vs.len() == 0 {
        assert(params_text(vs) =~= Seq::<char>::empty());
        assert(x =~= v.v + ": "@ + parser_type(spec_type_name(v.t)));
    } else {
        let y = params_text(vs.drop_last()) + vs.last().v + ": "@ + parser_type(spec_type_name(vs.last().t));
        assert(params_text(vs) == y + ","@);
        assert((y + ","@).drop_last() =~= y);
        assert(params_text(vs) =~= drop_last_char(params_text(vs)) + ","@);
    }
}

/// A call is written `NAME(ARGS)` with the values of its arguments in
/// order, separated by commas: without arguments it is `NAME()`, and one
/// more argument goes before the closing `)`, after a comma unless it is
/// the first.
pub proof fn lemma_render_call(name: Seq<char>, vs: Seq<SpecVariable>, v: SpecVariable)
    ensures
        render(SpecToken::FunctionCall(name, Seq::empty())) == name + "()"@,
        render(SpecToken::FunctionCall(name, vs.push(v))) == render(SpecToken::FunctionCall(name, vs)).drop_last()
            + (if vs.len() == 0 { Seq::<char>::empty() } else { ","@ }) + v.v + ")"@,
{
    reveal_strlit(",");
    reveal_strlit("(");
    reveal_strlit(")");
    reveal_strlit("()");
    assert(values_text(Seq::<SpecVariable>::empty()) =~= Seq::<char>::empty());
    assert(name + "("@ + Seq::<char>::empty() + ")"@ =~= name + "()"@);
    assert(vs.push(v).drop_last() =~= vs);
    let x = values_text(vs) + v.v;
    assert((x + ","@).drop_last() =~= x);
    let inner = drop_last_char(values_text(vs));
    assert((name + "("@ + inner + ")"@).drop_last() =~= name + "("@ + inner);
    if vs.len() == 0 {
        assert(values_text(vs) =~= Seq::<char>::empty());
        assert(name + "("@ + x + ")"@ =~= name + "("@ + inner + v.v + ")"@);
    } else {
        let y = values_text(vs.drop_last()) + vs.last().v;
        assert(values_text(vs) == y + ","@);
        assert((y + ","@).drop_last() =~= y);
        assert(values_text(vs) =~= inner + ","@);
        assert(name + "("@ + x + ")"@ =~= name + "("@ + inner + ","@ + v.v + ")"@);
    }
}

/// Writing tokens one line each: the lines after `from` up to `to` are the
/// lines up to `mid` followed by the lines after `mid`, and the line of a
/// single token is its text followed by a line feed. So every token in the
/// range is written, in order, each on a line of its own.
pub proof fn lemma_rendered_lines(ts: Seq<SpecToken>, from: int, mid: int, to: int)
    requires
        from <= mid <= to,
    ensures
        rendered_lines(ts, from, to) == rendered_lines(ts, from, mid) + rendered_lines(ts, mid, to),
        rendered_lines(ts, to - 1, to) == render(ts[to]) + seq!['\n'],
        rendered_lines(ts, from, from) == Seq::<char>::empty(),
    decreases to - mid,
{
    assert(rendered_lines(ts, to - 1, to) =~= rendered_lines(ts, to - 1, to - 1) + render(ts[to]) + seq!['\n']);
    assert(rendered_lines(ts, to - 1, to - 1) =~= Seq::<char>::empty());
    if mid < to {
        lemma_rendered_lines(ts, from, mid, to - 1);
        assert(rendered_lines(ts, mid, to) == rendered_lines(ts, mid, to - 1) + render(ts[to]) + seq!['\n']);
        assert(rendered_lines(ts, from, to) =~= rendered_lines(ts, from, mid) + rendered_lines(ts, mid, to));
    } else {
        assert(rendered_lines(ts, mid, to) =~= Seq::<char>::empty());
        assert(rendered_lines(ts, from, to) =~= rendered_lines(ts, from, mid) + rendered_lines(ts, mid, to));
    }
}

} // verus!
