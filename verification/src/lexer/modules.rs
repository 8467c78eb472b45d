//! Modules written in Rust, included by LeafLang programs: their function
//! definitions and the calls of known functions become tokens.
use crate::lexer::lexer::{spec_discern_type, Lexer};
use crate::text::{
    adv, ascii_lowercase, find_char, find_stop, find_stop_exec, lemma_find_stop, lowercase, matches_at,
    matches_at_exec, str_eq, string_of_chars, strip_whitespace, strip_whitespace_exec, to_lowercase,
};
use crate::tokens::token::{
    clone_vars, spec_from_char, spec_parse_type, tokens_view, vars_view, SpecToken, SpecVariable,
    Tokens, Types, Variable,
};
use vstd::prelude::*;
use vstd::string::*;
use vstd::utf8::encode_utf8;

verus! {

/// A LeafLang module written in Rust: its text with whitespace removed, the
/// position being read (`-1` before the first character), the functions
/// known so far, and the arguments of each function by name.
pub struct Module {
    contents: Vec<char>,
    index: i64,
    functions: Vec<Tokens>,
    scopes: Vec<(String, Vec<Variable>)>,
    tokens: Vec<Tokens>,
}

/// The model of a [`Module`].
pub struct ModuleModel {
    pub contents: Seq<char>,
    pub index: int,
    pub functions: Seq<SpecToken>,
    pub scopes: Seq<(Seq<char>, Seq<SpecVariable>)>,
    pub tokens: Seq<SpecToken>,
}

/// Why tokenizing a module stops.
#[derive(Debug, PartialEq)]
pub enum ModuleError {
    /// a call of a function that is not known (its name)
    UnknownFunction(String),
    /// an argument that is neither a literal nor an argument of the
    /// function (its text)
    UnknownArgument(String),
    /// arguments that do not fit the function's parameters (its name)
    InvalidArguments(String),
    /// a return type that names no type
    InvalidReturnType,
    /// a definition or a call that is never closed
    Unterminated,
}

/// The model of a [`ModuleError`].
pub enum SpecModuleError {
    UnknownFunction(Seq<char>),
    UnknownArgument(Seq<char>),
    InvalidArguments(Seq<char>),
    InvalidReturnType,
    Unterminated,
}

impl View for ModuleError {
    type V = SpecModuleError;

    open spec fn view(&self) -> SpecModuleError {
        match self {
            ModuleError::UnknownFunction(s) => SpecModuleError::UnknownFunction(s@),
            ModuleError::UnknownArgument(s) => SpecModuleError::UnknownArgument(s@),
            ModuleError::InvalidArguments(s) => SpecModuleError::InvalidArguments(s@),
            ModuleError::InvalidReturnType => SpecModuleError::InvalidReturnType,
            ModuleError::Unterminated => SpecModuleError::Unterminated,
        }
    }
}

/// The text of an error, as it is reported.
pub open spec fn error_message(e: SpecModuleError) -> Seq<char> {
    match e {
        SpecModuleError::UnknownFunction(f) => "Invalid function call in module: "@ + f,
        SpecModuleError::UnknownArgument(a) => "argument "@ + a + " does not exist in scope"@,
        SpecModuleError::InvalidArguments(f) => "Invalid arguments provided to function "@ + f,
        SpecModuleError::InvalidReturnType => "Invalid return type in module"@,
        SpecModuleError::Unterminated => "Module ends inside a function definition or call"@,
    }
}

impl ModuleError {
    /// The text of the error (see [`error_message`]).
    pub fn message(&self) -> (r: String)
        ensures
            r@ == error_message(self@),
    {
        match self {
            ModuleError::UnknownFunction(f) => {
                let mut m = String::from_str("Invalid function call in module: ");
                m.append(f.as_str());
                m
            },
            ModuleError::UnknownArgument(a) => {
                let mut m = String::from_str("argument ");
                m.append(a.as_str());
                m.append(" does not exist in scope");
                m
            },
            ModuleError::InvalidArguments(f) => {
                let mut m = String::from_str("Invalid arguments provided to function ");
                m.append(f.as_str());
                m
            },
            ModuleError::InvalidReturnType => String::from_str("Invalid return type in module"),
            ModuleError::Unterminated => String::from_str("Module ends inside a function definition or call"),
        }
    }
}

/// The models of a module's scopes.
pub open spec fn scopes_view(s: Seq<(String, Vec<Variable>)>) -> Seq<(Seq<char>, Seq<SpecVariable>)> {
    s.map_values(|x: (String, Vec<Variable>)| (x.0@, vars_view(x.1@)))
}

impl View for Module {
    type V = ModuleModel;

    closed spec fn view(&self) -> ModuleModel {
        ModuleModel {
            contents: self.contents@,
            index: self.index as int,
            functions: tokens_view(self.functions@),
            scopes: scopes_view(self.scopes@),
            tokens: tokens_view(self.tokens@),
        }
    }
}

/// A well-formed module state: the position lies inside the text or just
/// before it, the text's length fits the position's type, and every known
/// function is a function definition.
pub open spec fn module_wf(m: ModuleModel) -> bool {
    &&& -1 <= m.index < m.contents.len()
    &&& m.contents.len() <= i64::MAX
    &&& forall|j: int| 0 <= j < m.functions.len() ==> #[trigger] m.functions[j] is FunctionDef
}

/// The definition of `println!`, which every module knows: one string
/// argument, no result.
pub open spec fn println_def() -> SpecToken {
    SpecToken::FunctionDef(
        "println!"@,
        seq![SpecVariable { t: Types::String, n: Seq::empty(), v: Seq::empty() }],
        Types::Void,
    )
}

/// The state of a module made from the text `src`: the text stripped of
/// whitespace, the position before it, `println!` known, no scopes and no
/// tokens.
pub open spec fn init_model(src: Seq<char>) -> ModuleModel {
    ModuleModel {
        contents: strip_whitespace(src),
        index: -1,
        functions: seq![println_def()],
        scopes: Seq::empty(),
        tokens: Seq::empty(),
    }
}

/// The name of a function definition.
pub open spec fn def_name(t: SpecToken) -> Seq<char> {
    match t {
        SpecToken::FunctionDef(n, _, _) => n,
        _ => Seq::empty(),
    }
}

/// The words a module looks for: `fn`, `let`, `return`, then the name of
/// every known function, in the order they became known.
pub open spec fn module_keywords(fs: Seq<SpecToken>) -> Seq<Seq<char>> {
    seq!["fn"@, "let"@, "return"@] + fs.map_values(|t: SpecToken| def_name(t))
}

/// The length in bytes of the UTF-8 encoding of `w`, as `str::len` reports it.
pub open spec fn byte_len(w: Seq<char>) -> int {
    (encode_utf8(w).len() as usize) as int
}

/// The word `w` is found at position `i` of `c`: the characters from `i`
/// on, as many as `w` has bytes (none when the text is shorter), are `w`.
pub open spec fn keyword_at(c: Seq<char>, i: int, w: Seq<char>) -> bool {
    let end = if i + byte_len(w) <= c.len() { i + byte_len(w) } else { i };
    c.subrange(i, end) == w
}

/// A word of ASCII characters is found at a position exactly when it is
/// written there: its length in bytes is its number of characters.
pub proof fn lemma_ascii_keyword_at(c: Seq<char>, i: int, w: Seq<char>)
    requires
        0 <= i <= c.len(),
        vstd::utf8::is_ascii_chars(w),
        w.len() <= usize::MAX,
    ensures
        keyword_at(c, i, w) == matches_at(c, i, w),
{
    vstd::utf8::is_ascii_chars_encode_utf8(w);
    assert(byte_len(w) == w.len());
    if i + w.len() > c.len() && w.len() > 0 {
        assert(c.subrange(i, i).len() != w.len());
    }
}

/// The first of the words `ws`, from the `from`-th on, found at position
/// `i` (its place in `ws`), or the number of words.
pub open spec fn first_keyword(c: Seq<char>, i: int, ws: Seq<Seq<char>>, from: int) -> int
    decreases ws.len() - from,
{
    if from < 0 || from >= ws.len() {
        ws.len() as int
    } else if keyword_at(c, i, ws[from]) {
        from
    } else {
        first_keyword(c, i, ws, from + 1)
    }
}

/// The keyword found at the module's position, if any.
pub open spec fn keyword_found(m: ModuleModel) -> Option<Seq<char>> {
    let ws = module_keywords(m.functions);
    let k = first_keyword(m.contents, m.index, ws, 0);
    if k < ws.len() {
        Option::Some(ws[k])
    } else {
        Option::None
    }
}

/// The first of the words `ws`, from the `from`-th on, written at position
/// `i` character by character (its place in `ws`), or the number of words.
pub open spec fn first_written(c: Seq<char>, i: int, ws: Seq<Seq<char>>, from: int) -> int
    decreases ws.len() - from,
{
    if from < 0 || from >= ws.len() {
        ws.len() as int
    } else if matches_at(c, i, ws[from]) {
        from
    } else {
        first_written(c, i, ws, from + 1)
    }
}

/// Words of ASCII characters are looked for character by character: the
/// first found is the first written.
pub proof fn lemma_ascii_first_keyword(c: Seq<char>, i: int, ws: Seq<Seq<char>>, from: int)
    requires
        0 <= i <= c.len(),
        forall|k: int| 0 <= k < ws.len() ==> #[trigger] vstd::utf8::is_ascii_chars(ws[k]) && ws[k].len() <= usize::MAX,
    ensures
        first_keyword(c, i, ws, from) == first_written(c, i, ws, from),
    decreases ws.len() - from,
{
    if 0 <= from < ws.len() {
        assert(vstd::utf8::is_ascii_chars(ws[from]));
        lemma_ascii_keyword_at(c, i, ws[from]);
        lemma_ascii_first_keyword(c, i, ws, from + 1);
    }
}

/// When the names of the known functions are ASCII, the keyword found at
/// the module's position is the first of `fn`, `let`, `return` and those
/// names (in the order they became known) that is written there character
/// by character; none is found when none is written there.
pub proof fn lemma_keyword_found_when_ascii(m: ModuleModel)
    requires
        module_wf(m),
        0 <= m.index,
        forall|j: int|
            0 <= j < m.functions.len() ==> #[trigger] vstd::utf8::is_ascii_chars(def_name(m.functions[j]))
                && def_name(m.functions[j]).len() <= usize::MAX,
    ensures
        ({
            let ws = module_keywords(m.functions);
            let k = first_written(m.contents, m.index, ws, 0);
            &&& k < ws.len() ==> keyword_found(m) == Option::Some(ws[k])
            &&& k >= ws.len() ==> keyword_found(m) is None
        }),
{
    reveal_strlit("fn");
    reveal_strlit("let");
    reveal_strlit("return");
    let ws = module_keywords(m.functions);
    assert forall|k: int| 0 <= k < ws.len() implies #[trigger] vstd::utf8::is_ascii_chars(ws[k]) && ws[k].len()
        <= usize::MAX by {
        if k >= 3 {
            assert(ws[k] == def_name(m.functions[k - 3]));
            assert(vstd::utf8::is_ascii_chars(def_name(m.functions[k - 3])));
        }
    }
    lemma_ascii_first_keyword(m.contents, m.index, ws, 0);
}

/// The lower-case form of a type's text: by letter for ASCII text, by
/// [`lowercase`] otherwise.
pub open spec fn type_lowercase(type_text: Seq<char>) -> Seq<char> {
    if vstd::utf8::is_ascii_chars(type_text) {
        ascii_lowercase(type_text)
    } else {
        lowercase(type_text)
    }
}

/// A parameter `NAME:TYPE`: the name, the type read in lower case, no
/// value.
pub open spec fn param_var(name: Seq<char>, type_text: Seq<char>) -> SpecVariable {
    SpecVariable { t: spec_parse_type(type_lowercase(type_text)), n: name, v: Seq::empty() }
}

/// The parameters `NAME:TYPE,NAME:TYPE,...)` of a Rust function definition
/// read from `pos` on (at least one): each name runs to the next `:`, each
/// type to the next `,` or `)`; with the position of the closing `)`.
/// `None` when a `:`, `,` or `)` is missing.
pub open spec fn param_list(c: Seq<char>, pos: int) -> Option<(Seq<SpecVariable>, int)>
    decreases c.len() - pos,
{
    let len = c.len() as int;
    if pos < 0 || pos >= len {
        Option::None
    } else {
        let k = find_char(c, pos, ':');
        let m = find_stop(c, k + 1, ',', ')');
        if k == len || m == len {
            Option::None
        } else {
            let v = param_var(c.subrange(pos, k), c.subrange(k + 1, m));
            if c[m] == ')' {
                Option::Some((seq![v], m))
            } else {
                proof {
                    lemma_find_stop(c, pos, ':', ':');
                    lemma_find_stop(c, k + 1, ',', ')');
                }
                match param_list(c, m + 1) {
                    Option::None => Option::None,
                    Option::Some((rest, e)) => Option::Some((seq![v] + rest, e)),
                }
            }
        }
    }
}

/// The parameters of a Rust function definition read from `a` (just after
/// the `(`) on: none when `)` is there, otherwise the list read by
/// [`param_list`]; with the position of the closing `)`.
pub open spec fn fn_params(c: Seq<char>, a: int) -> Option<(Seq<SpecVariable>, int)> {
    if a < 0 || a >= c.len() {
        Option::None
    } else if c[a] == ')' {
        Option::Some((Seq::empty(), a))
    } else {
        param_list(c, a)
    }
}

/// The position of the first scope at or after `from` named `name`, or
/// the number of scopes.
pub open spec fn find_scope(s: Seq<(Seq<char>, Seq<SpecVariable>)>, name: Seq<char>, from: int) -> int
    decreases s.len() - from,
{
    if from < 0 || from >= s.len() {
        s.len() as int
    } else if s[from].0 == name {
        from
    } else {
        find_scope(s, name, from + 1)
    }
}

/// The scopes after the arguments `args` of function `name` are added: to
/// the first scope of that name, or to a new scope at the end.
pub open spec fn add_to_scope(
    s: Seq<(Seq<char>, Seq<SpecVariable>)>,
    name: Seq<char>,
    args: Seq<SpecVariable>,
) -> Seq<(Seq<char>, Seq<SpecVariable>)> {
    let j = find_scope(s, name, 0);
    if j < s.len() {
        s.update(j, (s[j].0, s[j].1 + args))
    } else {
        s.push((name, args))
    }
}

/// A Rust function definition `NAME(PARAMS)` or `NAME(PARAMS)->RET{`
/// read at the module's position (the text after `fn`): its token and the
/// state after it. Without `->` after the parameters the function returns
/// `Void` and the position moves one place past the closing `)` and one
/// place back (so it ends on the `)`, or just before it when the `)` is the
/// last character); with `->` the return type
/// is the text between `->` and the `{` that opens the body, and the
/// position ends just before that `{`. The parameters are added to the
/// function's scope and the definition to the known functions.
pub open spec fn mod_def(m: ModuleModel) -> Result<(SpecToken, ModuleModel), SpecModuleError> {
    let c = m.contents;
    let len = c.len() as int;
    let p = find_char(c, m.index, '(');
    if p == len {
        Result::Err(SpecModuleError::Unterminated)
    } else {
        let name = c.subrange(m.index, p);
        match fn_params(c, p + 1) {
            Option::None => Result::Err(SpecModuleError::Unterminated),
            Option::Some((args, mp)) => {
                let scopes = add_to_scope(m.scopes, name, args);
                if !matches_at(c, mp + 1, "->"@) {
                    let def = SpecToken::FunctionDef(name, args, Types::Void);
                    Result::Ok(
                        (
                            def,
                            ModuleModel {
                                index: adv(len, adv(len, mp, 1), -1),
                                functions: m.functions.push(def),
                                scopes,
                                ..m
                            },
                        ),
                    )
                } else {
                    let b = find_char(c, mp + 3, '{');
                    let rt = spec_parse_type(c.subrange(mp + 3, b));
                    if b == len {
                        Result::Err(SpecModuleError::Unterminated)
                    } else if rt == Types::Invalid {
                        Result::Err(SpecModuleError::InvalidReturnType)
                    } else {
                        let def = SpecToken::FunctionDef(name, args, rt);
                        Result::Ok(
                            (
                                def,
                                ModuleModel { index: b - 1, functions: m.functions.push(def), scopes, ..m },
                            ),
                        )
                    }
                }
            },
        }
    }
}

/// The position of the first variable at or after `from` named `name`, or
/// the number of variables.
pub open spec fn find_var_name(vs: Seq<SpecVariable>, name: Seq<char>, from: int) -> int
    decreases vs.len() - from,
{
    if from < 0 || from >= vs.len() {
        vs.len() as int
    } else if vs[from].n == name {
        from
    } else {
        find_var_name(vs, name, from + 1)
    }
}

/// An argument of a call of `f`: a literal becomes a variable of its type
/// named and valued by its text; any other text must name an argument in
/// the first scope of `f`, which it then stands for.
pub open spec fn resolve_arg(
    s: Seq<(Seq<char>, Seq<SpecVariable>)>,
    f: Seq<char>,
    arg: Seq<char>,
) -> Result<SpecVariable, SpecModuleError> {
    let t = spec_discern_type(arg);
    if t != Types::Placeholder {
        Result::Ok(SpecVariable { t, n: arg, v: arg })
    } else {
        let j = find_scope(s, f, 0);
        if j >= s.len() {
            Result::Err(SpecModuleError::UnknownArgument(arg))
        } else {
            let k = find_var_name(s[j].1, arg, 0);
            if k >= s[j].1.len() {
                Result::Err(SpecModuleError::UnknownArgument(arg))
            } else {
                Result::Ok(s[j].1[k])
            }
        }
    }
}

/// The arguments of a call of `f` read from `pos` on, after `acc`: until
/// `)`, each step moves one place and reads up to the next `,` or `)`; with
/// the position of the closing `)`. A step that finds no `,` or `)`, or that
/// makes no progress, never ends.
pub open spec fn call_args(
    c: Seq<char>,
    s: Seq<(Seq<char>, Seq<SpecVariable>)>,
    f: Seq<char>,
    pos: int,
    acc: Seq<SpecVariable>,
) -> Result<(Seq<SpecVariable>, int), SpecModuleError>
    decreases c.len() - pos,
{
    let len = c.len() as int;
    if pos < 0 || pos >= len {
        Result::Err(SpecModuleError::Unterminated)
    } else if c[pos] == ')' {
        Result::Ok((acc, pos))
    } else {
        let p1 = adv(len, pos, 1);
        let q = find_stop(c, p1, ',', ')');
        if q == len {
            Result::Err(SpecModuleError::Unterminated)
        } else {
            match resolve_arg(s, f, c.subrange(p1, q)) {
                Result::Err(e) => Result::Err(e),
                Result::Ok(v) => {
                    if q <= pos {
                        Result::Err(SpecModuleError::Unterminated)
                    } else {
                        proof {
                            lemma_find_stop(c, p1, ',', ')');
                        }
                        call_args(c, s, f, q, acc.push(v))
                    }
                },
            }
        }
    }
}

/// The arguments of a call fit the parameters of the definition: as many,
/// of the same types, each parameter with an empty name and value.
pub open spec fn params_match(args: Seq<SpecVariable>, params: Seq<SpecVariable>) -> bool {
    &&& args.len() == params.len()
    &&& forall|j: int| 0 <= j < args.len() ==> #[trigger] params[j] == (SpecVariable { t: args[j].t, n: Seq::empty(), v: Seq::empty() })
}

/// The position of the first known function at or after `from` named
/// `name`, or the number of known functions.
pub open spec fn find_def(fs: Seq<SpecToken>, name: Seq<char>, from: int) -> int
    decreases fs.len() - from,
{
    if from < 0 || from >= fs.len() {
        fs.len() as int
    } else if def_name(fs[from]) == name {
        from
    } else {
        find_def(fs, name, from + 1)
    }
}

/// A call of the known function `f` read at the module's position (its
/// name's first character): its token and the state after it, whose
/// position is the closing `)`.
pub open spec fn mod_call(m: ModuleModel, f: Seq<char>) -> Result<(SpecToken, ModuleModel), SpecModuleError> {
    let c = m.contents;
    let j = find_def(m.functions, f, 0);
    if j >= m.functions.len() {
        Result::Err(SpecModuleError::UnknownFunction(f))
    } else {
        match m.functions[j] {
            SpecToken::FunctionDef(cname, params, _) => {
                let s = adv(c.len() as int, m.index, byte_len(f));
                match call_args(c, m.scopes, cname, s, Seq::empty()) {
                    Result::Err(e) => Result::Err(e),
                    Result::Ok((args, end)) => {
                        if !params_match(args, params) {
                            Result::Err(SpecModuleError::InvalidArguments(cname))
                        } else {
                            Result::Ok(
                                (
                                    SpecToken::FunctionCall(f, args),
                                    ModuleModel { index: end, ..m },
                                ),
                            )
                        }
                    },
                }
            },
            _ => Result::Err(SpecModuleError::UnknownFunction(f)),
        }
    }
}

/// A parameter list ends on a `)` at or after where it starts.
pub proof fn lemma_param_list_bounds(c: Seq<char>, pos: int)
    requires
        0 <= pos < c.len(),
    ensures
        param_list(c, pos) matches Option::Some((args, mp)) ==> pos <= mp < c.len() && c[mp] == ')',
    decreases c.len() - pos,
{
    let len = c.len() as int;
    lemma_find_stop(c, pos, ':', ':');
    let k = find_char(c, pos, ':');
    if k < len {
        lemma_find_stop(c, k + 1, ',', ')');
        let m = find_stop(c, k + 1, ',', ')');
        if m < len && c[m] != ')' && m + 1 < len {
            lemma_param_list_bounds(c, m + 1);
        }
    }
}

/// The parameters end on a `)` at or after where they start.
pub proof fn lemma_fn_params_bounds(c: Seq<char>, a: int)
    requires
        0 <= a < c.len(),
    ensures
        fn_params(c, a) matches Option::Some((args, mp)) ==> a <= mp < c.len() && c[mp] == ')',
{
    if c[a] != ')' {
        lemma_param_list_bounds(c, a);
    }
}

/// A definition that is read leaves the position at or after where it
/// started, inside the text, and the text and the tokens unchanged.
pub proof fn lemma_mod_def_progress(m: ModuleModel)
    requires
        0 <= m.index < m.contents.len(),
    ensures
        mod_def(m) matches Result::Ok((t, m2)) ==> m.index <= m2.index < m.contents.len()
            && m2.contents == m.contents && m2.tokens == m.tokens
            && m2.functions == m.functions.push(t) && t is FunctionDef,
{
    let c = m.contents;
    let len = c.len() as int;
    lemma_find_stop(c, m.index, '(', '(');
    let p = find_char(c, m.index, '(');
    if p + 1 < len {
        lemma_fn_params_bounds(c, p + 1);
        if let Option::Some((args, mp)) = fn_params(c, p + 1) {
            if matches_at(c, mp + 1, "->"@) && mp + 3 <= len {
                lemma_find_stop(c, mp + 3, '{', '{');
            }
        }
    }
}

/// The arguments of a call end on a `)` at or after where they start.
pub proof fn lemma_call_args_progress(
    c: Seq<char>,
    s: Seq<(Seq<char>, Seq<SpecVariable>)>,
    f: Seq<char>,
    pos: int,
    acc: Seq<SpecVariable>,
)
    requires
        0 <= pos < c.len(),
    ensures
        call_args(c, s, f, pos, acc) matches Result::Ok((args, end)) ==> pos <= end < c.len() && c[end] == ')',
    decreases c.len() - pos,
{
    let len = c.len() as int;
    if c[pos] != ')' {
        let p1 = adv(len, pos, 1);
        lemma_find_stop(c, p1, ',', ')');
        let q = find_stop(c, p1, ',', ')');
        if q < len && q > pos {
            if let Result::Ok(v) = resolve_arg(s, f, c.subrange(p1, q)) {
                lemma_call_args_progress(c, s, f, q, acc.push(v));
            }
        }
    }
}

/// A call that is read leaves the position at or after where it started,
/// inside the text, and the text and the known functions unchanged.
pub proof fn lemma_mod_call_progress(m: ModuleModel, f: Seq<char>)
    requires
        0 <= m.index < m.contents.len(),
    ensures
        mod_call(m, f) matches Result::Ok((t, m2)) ==> m.index <= m2.index < m.contents.len()
            && m2.contents == m.contents && m2.functions == m.functions && m2.scopes == m.scopes
            && m2.tokens == m.tokens,
{
    let c = m.contents;
    let j = find_def(m.functions, f, 0);
    if j < m.functions.len() {
        if let SpecToken::FunctionDef(cname, params, _) = m.functions[j] {
            let s = adv(c.len() as int, m.index, byte_len(f));
            lemma_call_args_progress(c, m.scopes, cname, s, Seq::empty());
        }
    }
}

/// Tokenizing a module from state `m` on, after the tokens `acc`: at each
/// step the position moves one place (the run ends when it cannot); `fn`
/// there starts a definition read two places further on, `let` and
/// `return` are passed over, the name of a known function starts a call,
/// and any other character becomes its own token.
pub open spec fn module_run(m: ModuleModel, acc: Seq<SpecToken>) -> Result<(Seq<SpecToken>, ModuleModel), SpecModuleError>
    decreases m.contents.len() - m.index,
{
    let c = m.contents;
    let len = c.len() as int;
    let i = m.index + 1;
    if !(0 <= i < len) {
        Result::Ok((acc, m))
    } else {
        let m1 = ModuleModel { index: i, ..m };
        match keyword_found(m1) {
            Option::None => module_run(m1, acc.push(spec_from_char(c[i]))),
            Option::Some(w) => {
                if w == "fn"@ {
                    let m0 = ModuleModel { index: adv(len, i, 2), ..m1 };
                    match mod_def(m0) {
                        Result::Err(e) => Result::Err(e),
                        Result::Ok((t, m2)) => {
                            proof {
                                lemma_mod_def_progress(m0);
                            }
                            module_run(m2, acc.push(t))
                        },
                    }
                } else if w == "let"@ || w == "return"@ {
                    module_run(m1, acc)
                } else {
                    match mod_call(m1, w) {
                        Result::Err(e) => Result::Err(e),
                        Result::Ok((t, m2)) => {
                            proof {
                                lemma_mod_call_progress(m1, w);
                            }
                            module_run(m2, acc.push(t))
                        },
                    }
                }
            },
        }
    }
}

/// Whether the word `w` is found at position `i` of `c` (see [`keyword_at`]).
fn keyword_matches(c: &Vec<char>, i: usize, w: &str) -> (r: bool)
    requires
        i <= c.len(),
    ensures
        r == keyword_at(c@, i as int, w@),
{
    let bl = w.len();
    let end = if bl <= c.len() - i { i + bl } else { i };
    assert(c@.subrange(i as int, end as int).len() == end - i);
    let n = w.unicode_len();
    if end - i != n {
        return false;
    }
    let mut j: usize = 0;
    while j < n
        invariant
            n == w@.len(),
            i + n == end <= c.len(),
            0 <= j <= n,
            forall|k: int| 0 <= k < j ==> c@[i + k] == #[trigger] w@[k],
        decreases n - j,
    {
        if c[i + j] != w.get_char(j) {
            assert(c@.subrange(i as int, end as int)[j as int] != w@[j as int]);
            return false;
        }
        j = j + 1;
    }
    assert(c@.subrange(i as int, end as int) =~= w@);
    true
}

/// The parameters of a Rust function definition read from `a` on (see
/// [`fn_params`]), with the position of the closing `)`.
fn scan_params(c: &Vec<char>, a: usize) -> (r: Option<(Vec<Variable>, usize)>)
    requires
        a < c.len(),
    ensures
        match fn_params(c@, a as int) {
            Option::None => r is None,
            Option::Some((args, mp)) => r matches Option::Some(x) && vars_view(x.0@) == args && x.1 == mp,
        },
{
    let ghost cs = c@;
    let len = c.len();
    let mut args: Vec<Variable> = Vec::new();
    if c[a] == ')' {
        assert(vars_view(args@) =~= Seq::empty());
        return Option::Some((args, a));
    }
    let mut pos = a;
    loop
        invariant
            cs == c@,
            len == c.len(),
            a <= pos < len,
            fn_params(cs, a as int) == match param_list(cs, pos as int) {
                Option::None => Option::None,
                Option::Some((rest, e)) => Option::Some((vars_view(args@) + rest, e)),
            },
        decreases len - pos,
    {
        let k = find_stop_exec(c, pos, ':', ':');
        proof {
            lemma_find_stop(cs, pos as int, ':', ':');
        }
        if k == len {
            return Option::None;
        }
        let m = find_stop_exec(c, k + 1, ',', ')');
        proof {
            lemma_find_stop(cs, k + 1, ',', ')');
        }
        if m == len {
            return Option::None;
        }
        let name = string_of_chars(c, pos, k);
        let type_text = string_of_chars(c, k + 1, m);
        let lower = to_lowercase(type_text.as_str());
        let t = Types::parse_type(lower.as_str());
        let ghost before = vars_view(args@);
        let v = Variable { t, n: name, v: String::new() };
        args.push(v);
        proof {
            assert(v@ == param_var(cs.subrange(pos as int, k as int), cs.subrange(k + 1, m as int)));
            assert(vars_view(args@) =~= before.push(v@));
            match param_list(cs, m + 1) {
                Option::None => {},
                Option::Some((rest, e)) => {
                    assert(before + (seq![v@] + rest) =~= vars_view(args@) + rest);
                },
            }
        }
        if c[m] == ')' {
            assert(before + seq![v@] =~= vars_view(args@));
            return Option::Some((args, m));
        }
        if m + 1 >= len {
            return Option::None;
        }
        pos = m + 1;
    }
}

/// Adds the arguments `args` of function `name` to the first scope of that
/// name, or to a new scope at the end.
fn add_args_to_scope(scopes: &mut Vec<(String, Vec<Variable>)>, name: &String, args: &Vec<Variable>)
    ensures
        scopes_view(final(scopes)@) == add_to_scope(scopes_view(old(scopes)@), name@, vars_view(args@)),
{
    let ghost sv = scopes_view(scopes@);
    let mut j: usize = 0;
    while j < scopes.len()
        invariant
            sv == scopes_view(scopes@),
            scopes@ == old(scopes)@,
            0 <= j <= scopes.len(),
            find_scope(sv, name@, j as int) == find_scope(sv, name@, 0),
        decreases scopes.len() - j,
    {
        if scopes[j].0 == *name {
            assert(sv[j as int].0 == name@);
            assert(find_scope(sv, name@, j as int) == j);
            let mut vars = clone_vars(&scopes[j].1);
            let mut more = clone_vars(args);
            let ghost before = vars@;
            let ghost added = more@;
            vars.append(&mut more);
            proof {
                assert(vars@ == before + added);
                assert(vars_view(vars@) =~= vars_view(before) + vars_view(added));
            }
            let scope_name = scopes[j].0.clone();
            scopes.set(j, (scope_name, vars));
            proof {
                assert(scopes_view(scopes@) =~= sv.update(j as int, (sv[j as int].0, sv[j as int].1 + vars_view(args@))));
            }
            return;
        }
        j = j + 1;
    }
    scopes.push((name.clone(), clone_vars(args)));
    proof {
        assert(scopes_view(scopes@) =~= sv.push((name@, vars_view(args@))));
    }
}

/// The position of the first scope named `name`.
fn scope_position(scopes: &Vec<(String, Vec<Variable>)>, name: &String) -> (r: Option<usize>)
    ensures
        ({
            let sv = scopes_view(scopes@);
            let j = find_scope(sv, name@, 0);
            &&& j < sv.len() ==> (r matches Option::Some(k) && k == j)
            &&& j >= sv.len() ==> r is None
            &&& r matches Option::Some(k) ==> k < scopes.len() && (scopes@[k as int].0@, vars_view(scopes@[k as int].1@)) == sv[k as int]
        }),
{
    let ghost sv = scopes_view(scopes@);
    let mut j: usize = 0;
    while j < scopes.len()
        invariant
            sv == scopes_view(scopes@),
            0 <= j <= sv.len(),
            find_scope(sv, name@, j as int) == find_scope(sv, name@, 0),
        decreases sv.len() - j,
    {
        if scopes[j].0 == *name {
            assert(sv[j as int].0 == name@);
            return Option::Some(j);
        }
        j = j + 1;
    }
    Option::None
}

/// The position of the first variable named `name`.
fn variable_position(vars: &Vec<Variable>, name: &String) -> (r: Option<usize>)
    ensures
        ({
            let vv = vars_view(vars@);
            let k = find_var_name(vv, name@, 0);
            &&& k < vv.len() ==> (r matches Option::Some(x) && x == k)
            &&& k >= vv.len() ==> r is None
            &&& r matches Option::Some(x) ==> x < vars.len() && vars@[x as int]@ == vv[x as int]
        }),
{
    let ghost vv = vars_view(vars@);
    let mut k: usize = 0;
    while k < vars.len()
        invariant
            vv == vars_view(vars@),
            0 <= k <= vv.len(),
            find_var_name(vv, name@, k as int) == find_var_name(vv, name@, 0),
        decreases vv.len() - k,
    {
        if vars[k].n == *name {
            assert(vv[k as int].n == name@);
            return Option::Some(k);
        }
        k = k + 1;
    }
    Option::None
}

/// An argument of a call of `f` (see [`resolve_arg`]).
fn resolve_argument(scopes: &Vec<(String, Vec<Variable>)>, f: &String, arg: String) -> (r: Result<Variable, ModuleError>)
    ensures
        match resolve_arg(scopes_view(scopes@), f@, arg@) {
            Result::Ok(v) => r matches Result::Ok(x) && x@ == v,
            Result::Err(e) => r matches Result::Err(x) && x@ == e,
        },
{
    let literal = Lexer::discern_type(arg.clone(), arg.clone());
    if literal.t != Types::Placeholder {
        return Result::Ok(literal);
    }
    let j = match scope_position(scopes, f) {
        Option::Some(j) => j,
        Option::None => {
            return Result::Err(ModuleError::UnknownArgument(arg));
        },
    };
    match variable_position(&scopes[j].1, &arg) {
        Option::Some(k) => Result::Ok(scopes[j].1[k].clone()),
        Option::None => Result::Err(ModuleError::UnknownArgument(arg)),
    }
}

/// Whether the arguments of a call fit the parameters of the definition
/// (see [`params_match`]).
fn params_fit(args: &Vec<Variable>, params: &Vec<Variable>) -> (r: bool)
    ensures
        r == params_match(vars_view(args@), vars_view(params@)),
{
    let ghost av = vars_view(args@);
    let ghost pv = vars_view(params@);
    if args.len() != params.len() {
        return false;
    }
    let mut j: usize = 0;
    while j < args.len()
        invariant
            av == vars_view(args@),
            pv == vars_view(params@),
            args.len() == params.len(),
            0 <= j <= args.len(),
            forall|k: int| 0 <= k < j ==> #[trigger] pv[k] == (SpecVariable { t: av[k].t, n: Seq::empty(), v: Seq::empty() }),
        decreases args.len() - j,
    {
        let fits = params[j].t == args[j].t && params[j].n.as_str().is_empty() && params[j].v.as_str().is_empty();
        if !fits {
            assert(pv[j as int] != (SpecVariable { t: av[j as int].t, n: Seq::empty(), v: Seq::empty() }));
            return false;
        }
        assert(pv[j as int].n =~= Seq::<char>::empty());
        assert(pv[j as int].v =~= Seq::<char>::empty());
        j = j + 1;
    }
    true
}

/// The position of the first known function named `name`.
fn function_position(fs: &Vec<Tokens>, name: &String) -> (r: Option<usize>)
    requires
        forall|j: int| 0 <= j < fs@.len() ==> #[trigger] fs@[j]@ is FunctionDef,
    ensures
        ({
            let fv = tokens_view(fs@);
            let j = find_def(fv, name@, 0);
            &&& j < fv.len() ==> (r matches Option::Some(k) && k == j)
            &&& j >= fv.len() ==> r is None
            &&& r matches Option::Some(k) ==> k < fs.len() && fs@[k as int]@ == fv[k as int]
        }),
{
    let ghost fv = tokens_view(fs@);
    let mut j: usize = 0;
    while j < fs.len()
        invariant
            fv == tokens_view(fs@),
            forall|j: int| 0 <= j < fs@.len() ==> #[trigger] fs@[j]@ is FunctionDef,
            0 <= j <= fv.len(),
            find_def(fv, name@, j as int) == find_def(fv, name@, 0),
        decreases fv.len() - j,
    {
        assert(fs@[j as int]@ is FunctionDef);
        match &fs[j] {
            Tokens::FunctionDef(n, _, _) => {
                if *n == *name {
                    assert(def_name(fv[j as int]) == name@);
                    return Option::Some(j);
                }
            },
            _ => {},
        }
        j = j + 1;
    }
    Option::None
}

impl Module {
    /// The module's state is well formed (see [`module_wf`]).
    pub open spec fn wf(&self) -> bool {
        module_wf(self@)
    }

    /// A module made from the text of a Rust source file: the text with
    /// every whitespace character removed, positioned before
    /// its first character, knowing only `println!`.
    pub fn init(contents: String) -> (r: Module)
        requires
            contents@.len() <= i64::MAX,
        ensures
            r.wf(),
            r@ == init_model(contents@),
            r@.contents == strip_whitespace(contents@),
            r@.index == -1,
            r@.functions == seq![println_def()],
            r@.scopes.len() == 0,
            r@.tokens.len() == 0,
    {
        let kept = strip_whitespace_exec(contents.as_str());
        let mut params: Vec<Variable> = Vec::new();
        params.push(Variable { t: Types::String, n: String::new(), v: String::new() });
        let mut functions: Vec<Tokens> = Vec::new();
        functions.push(Tokens::FunctionDef(String::from_str("println!"), params, Types::Void));
        let r = Module { contents: kept, index: -1, functions, scopes: Vec::new(), tokens: Vec::new() };
        proof {
            assert(vars_view(params@) =~= seq![SpecVariable { t: Types::String, n: Seq::empty(), v: Seq::empty() }]);
            assert(r@.functions =~= seq![println_def()]);
            assert(r@.scopes =~= Seq::empty());
            assert(r@.tokens =~= Seq::empty());
        }
        r
    }

    /// Moves `amount` places when the new position lies inside the text,
    /// and says whether it moved.
    pub fn advance(&mut self, amount: i64) -> (r: bool)
        requires
            old(self).wf(),
            i64::MIN <= old(self)@.index + amount <= i64::MAX,
        ensures
            final(self).wf(),
            r == (0 <= old(self)@.index + amount < old(self)@.contents.len()),
            final(self)@ == (ModuleModel {
                index: adv(old(self)@.contents.len() as int, old(self)@.index, amount as int),
                ..old(self)@
            }),
    {
        let target = self.index + amount;
        if target < 0 || (target as u64) >= (self.contents.len() as u64) {
            return false;
        }
        self.index = target;
        true
    }

    /// The character being read.
    pub fn current(&self) -> (r: char)
        requires
            self.wf(),
            0 <= self@.index,
        ensures
            r == self@.contents[self@.index],
    {
        assert(self@.index == self.index as int);
        assert(self@.contents.len() == self.contents.len());
        assert(self.index < self.contents.len());
        let i = self.index as usize;
        assert(i as int == self@.index);
        self.contents[i]
    }

    /// The first of `fn`, `let`, `return` and the names of the known
    /// functions (in the order they became known) that is written at the
    /// current position, its length taken in bytes (see [`keyword_at`]).
    pub fn check_for_keywords(&self) -> (r: Option<String>)
        requires
            self.wf(),
            0 <= self@.index,
        ensures
            match keyword_found(self@) {
                Option::Some(w) => r matches Option::Some(x) && x@ == w,
                Option::None => r is None,
            },
    {
        let ghost c = self@.contents;
        let ghost fs = self@.functions;
        let ghost ws = module_keywords(fs);
        let i = self.index as usize;
        assert(ws[0] == "fn"@ && ws[1] == "let"@ && ws[2] == "return"@);
        if keyword_matches(&self.contents, i, "fn") {
            return Option::Some(String::from_str("fn"));
        }
        assert(first_keyword(c, i as int, ws, 0) == first_keyword(c, i as int, ws, 1));
        if keyword_matches(&self.contents, i, "let") {
            return Option::Some(String::from_str("let"));
        }
        assert(first_keyword(c, i as int, ws, 1) == first_keyword(c, i as int, ws, 2));
        if keyword_matches(&self.contents, i, "return") {
            return Option::Some(String::from_str("return"));
        }
        assert(first_keyword(c, i as int, ws, 2) == first_keyword(c, i as int, ws, 3));
        let mut j: usize = 0;
        while j < self.functions.len()
            invariant
                self.wf(),
                c == self@.contents,
                fs == self@.functions,
                ws == module_keywords(fs),
                i == self@.index,
                0 <= j <= fs.len(),
                first_keyword(c, i as int, ws, 3 + j) == first_keyword(c, i as int, ws, 0),
            decreases fs.len() - j,
        {
            assert(ws[3 + j] == def_name(fs[j as int]));
            match &self.functions[j] {
                Tokens::FunctionDef(n, _, _) => {
                    if keyword_matches(&self.contents, i, n.as_str()) {
                        return Option::Some(n.clone());
                    }
                },
                _ => {
                    assert(fs[j as int] is FunctionDef);
                },
            }
            j = j + 1;
        }
        Option::None
    }

    /// Reads a Rust function definition at the current position (the text
    /// after `fn`); see [`mod_def`] for what it reads and the state it
    /// leaves. The definition is added to the known functions and its
    /// parameters to the function's scope. A return type that names no type
    /// gives `InvalidReturnType`, and a definition that is never closed
    /// gives `Unterminated`.
    pub fn tokenize_function_definition(&mut self) -> (r: Result<Tokens, ModuleError>)
        requires
            old(self).wf(),
            0 <= old(self)@.index,
        ensures
            final(self).wf(),
            match mod_def(old(self)@) {
                Result::Ok((t, m2)) => r matches Result::Ok(x) && x@ == t && final(self)@ == m2,
                Result::Err(e) => (r matches Result::Err(x) && x@ == e) && final(self)@.contents == old(self)@.contents
                    && final(self)@.index == old(self)@.index && final(self)@.functions == old(self)@.functions
                    && final(self)@.tokens == old(self)@.tokens,
            },
    {
        let ghost m = self@;
        let ghost c = m.contents;
        proof {
            lemma_mod_def_progress(m);
        }
        assert(self@.contents.len() == self.contents.len());
        let len = self.contents.len();
        assert(self.index < len);
        let i = self.index as usize;
        // the function's name
        let p = find_stop_exec(&self.contents, i, '(', '(');
        proof {
            lemma_find_stop(c, i as int, '(', '(');
        }
        if p == len {
            return Result::Err(ModuleError::Unterminated);
        }
        let function_name = string_of_chars(&self.contents, i, p);
        // the parameters and their types
        if p + 1 >= len {
            return Result::Err(ModuleError::Unterminated);
        }
        let (args, mp) = match scan_params(&self.contents, p + 1) {
            Option::Some(x) => x,
            Option::None => {
                return Result::Err(ModuleError::Unterminated);
            },
        };
        proof {
            lemma_fn_params_bounds(c, p + 1);
        }
        add_args_to_scope(&mut self.scopes, &function_name, &args);
        // the return type: none written means `void`
        if !matches_at_exec(&self.contents, mp + 1, "->") {
            let function_def = Tokens::FunctionDef(function_name, args, Types::Void);
            self.functions.push(function_def.clone());
            // one place on and back again: at the end of the text the
            // step on fails and the position ends before the `)`
            self.index = if mp + 1 < len { mp as i64 } else { (mp - 1) as i64 };
            proof {
                assert(self@.functions =~= m.functions.push(function_def@));
            }
            return Result::Ok(function_def);
        }
        proof {
            reveal_strlit("->");
        }
        let r = mp + 3;
        let b = find_stop_exec(&self.contents, r, '{', '{');
        proof {
            lemma_find_stop(c, r as int, '{', '{');
        }
        if b == len {
            return Result::Err(ModuleError::Unterminated);
        }
        let ret_text = string_of_chars(&self.contents, r, b);
        let return_type = Types::parse_type(ret_text.as_str());
        if let Types::Invalid = return_type {
            return Result::Err(ModuleError::InvalidReturnType);
        }
        let function_def = Tokens::FunctionDef(function_name, args, return_type);
        self.functions.push(function_def.clone());
        self.index = (b - 1) as i64;
        proof {
            assert(self@.functions =~= m.functions.push(function_def@));
        }
        Result::Ok(function_def)
    }

    /// Reads a call of the known function `function` at the current
    /// position (the first character of its name); see [`mod_call`] for
    /// what it reads and the state it leaves. A function that is not known
    /// gives `UnknownFunction`, an argument that is neither a literal nor an
    /// argument of the function gives `UnknownArgument`, arguments that do
    /// not fit the parameters give `InvalidArguments`, and a call that is
    /// never closed gives `Unterminated`. Before the first character (the
    /// position `-1`) a known function's name must reach into the text,
    /// since the call is read from where the move past the name ends.
    pub fn tokenize_function_call(&mut self, function: String) -> (r: Result<Tokens, ModuleError>)
        requires
            old(self).wf(),
            old(self)@.index < 0 && find_def(old(self)@.functions, function@, 0) < old(self)@.functions.len()
                ==> 0 <= old(self)@.index + byte_len(function@) < old(self)@.contents.len(),
        ensures
            final(self).wf(),
            match mod_call(old(self)@, function@) {
                Result::Ok((t, m2)) => r matches Result::Ok(x) && x@ == t && final(self)@ == m2,
                Result::Err(e) => (r matches Result::Err(x) && x@ == e) && final(self)@ == old(self)@,
            },
    {
        let ghost m = self@;
        let ghost c = m.contents;
        let ghost sv = m.scopes;
        assert(forall|j: int| 0 <= j < self.functions@.len() ==> #[trigger] self.functions@[j]@ == m.functions[j]);
        let j = match function_position(&self.functions, &function) {
            Option::Some(j) => j,
            Option::None => {
                return Result::Err(ModuleError::UnknownFunction(function));
            },
        };
        let (called_name, params) = match &self.functions[j] {
            Tokens::FunctionDef(n, p, _) => (n.clone(), clone_vars(p)),
            _ => {
                return Result::Err(ModuleError::UnknownFunction(function));
            },
        };
        // move past the function's name
        assert(self@.contents.len() == self.contents.len());
        let len = self.contents.len();
        let bl = function.as_str().len();
        let s = if self.index >= 0 {
            assert(self.index < len);
            let i = self.index as usize;
            if bl < len - i { i + bl } else { i }
        } else {
            assert(self.index == -1);
            bl - 1
        };
        // read the arguments up to the closing `)`
        let mut pos = s;
        let mut arguments: Vec<Variable> = Vec::new();
        assert(vars_view(arguments@) =~= Seq::<SpecVariable>::empty());
        let ghost outcome = match call_args(c, sv, called_name@, s as int, Seq::empty()) {
            Result::Err(e) => Result::Err(e),
            Result::Ok((args, end)) => {
                if !params_match(args, vars_view(params@)) {
                    Result::Err(SpecModuleError::InvalidArguments(called_name@))
                } else {
                    Result::Ok((SpecToken::FunctionCall(function@, args), ModuleModel { index: end, ..m }))
                }
            },
        };
        assert(mod_call(m, function@) == outcome);
        while self.contents[pos] != ')'
            invariant
                m == self@,
                self.wf(),
                mod_call(m, function@) == outcome,
                outcome == match call_args(c, sv, called_name@, s as int, Seq::empty()) {
                    Result::Err(e) => Result::Err(e),
                    Result::Ok((args, end)) => {
                        if !params_match(args, vars_view(params@)) {
                            Result::Err(SpecModuleError::InvalidArguments(called_name@))
                        } else {
                            Result::Ok((SpecToken::FunctionCall(function@, args), ModuleModel { index: end, ..m }))
                        }
                    },
                },
                c == self.contents@,
                sv == scopes_view(self.scopes@),
                len == c.len(),
                s <= pos < len,
                call_args(c, sv, called_name@, s as int, Seq::empty()) == call_args(
                    c,
                    sv,
                    called_name@,
                    pos as int,
                    vars_view(arguments@),
                ),
            decreases len - pos,
        {
            let p1 = if pos < len - 1 { pos + 1 } else { pos };
            let q = find_stop_exec(&self.contents, p1, ',', ')');
            proof {
                lemma_find_stop(c, p1 as int, ',', ')');
            }
            if q == len {
                return Result::Err(ModuleError::Unterminated);
            }
            let arg = string_of_chars(&self.contents, p1, q);
            let v = match resolve_argument(&self.scopes, &called_name, arg) {
                Result::Ok(v) => v,
                Result::Err(e) => {
                    return Result::Err(e);
                },
            };
            if q <= pos {
                return Result::Err(ModuleError::Unterminated);
            }
            let ghost before = arguments@;
            arguments.push(v);
            proof {
                assert(vars_view(arguments@) =~= vars_view(before).push(v@));
            }
            pos = q;
        }
        if !params_fit(&arguments, &params) {
            return Result::Err(ModuleError::InvalidArguments(called_name));
        }
        self.index = pos as i64;
        Result::Ok(Tokens::FunctionCall(function, arguments))
    }

    /// Tokenizes the module from the current position on (see
    /// [`module_run`]): the tokens of its function definitions and calls,
    /// and of every other character that is not part of a keyword. Stops at
    /// the first error that [`Module::tokenize_function_definition`] or
    /// [`Module::tokenize_function_call`] reports.
    pub fn tokenize_module(&mut self) -> (r: Result<Vec<Tokens>, ModuleError>)
        requires
            old(self).wf(),
        ensures
            final(self).wf(),
            match module_run(old(self)@, Seq::empty()) {
                Result::Ok((ts, m2)) => r matches Result::Ok(v) && tokens_view(v@) == ts && final(self)@ == m2,
                Result::Err(e) => (r matches Result::Err(x) && x@ == e) && final(self)@.contents == old(self)@.contents
                    && final(self)@.tokens == old(self)@.tokens,
            },
    {
        let ghost m0 = self@;
        let mut tokens: Vec<Tokens> = Vec::new();
        assert(tokens_view(tokens@) =~= Seq::<SpecToken>::empty());
        loop
            invariant
                m0 == old(self)@,
                self@.contents == m0.contents,
                self@.tokens == m0.tokens,
                self.wf(),
                module_run(self@, tokens_view(tokens@)) == module_run(m0, Seq::empty()),
            decreases self@.contents.len() - self@.index,
        {
            let ghost before = self@;
            let ghost acc = tokens_view(tokens@);
            if !self.advance(1) {
                return Result::Ok(tokens);
            }
            let ghost m1 = self@;
            let ghost len = m1.contents.len() as int;
            match self.check_for_keywords() {
                Option::None => {
                    let t = Tokens::from_char(self.current());
                    tokens.push(t);
                    proof {
                        assert(tokens_view(tokens@) =~= acc.push(t@));
                    }
                },
                Option::Some(word) => {
                    if str_eq(word.as_str(), "fn") {
                        if self.index <= i64::MAX - 2 {
                            self.advance(2);
                        }
                        assert(self@ == ModuleModel { index: adv(len, m1.index, 2), ..m1 });
                        proof {
                            lemma_mod_def_progress(self@);
                        }
                        match self.tokenize_function_definition() {
                            Result::Ok(t) => {
                                tokens.push(t);
                                proof {
                                    assert(tokens_view(tokens@) =~= acc.push(t@));
                                }
                            },
                            Result::Err(e) => {
                                return Result::Err(e);
                            },
                        }
                    } else if str_eq(word.as_str(), "let") || str_eq(word.as_str(), "return") {
                    } else {
                        proof {
                            lemma_mod_call_progress(m1, word@);
                        }
                        match self.tokenize_function_call(word) {
                            Result::Ok(t) => {
                                tokens.push(t);
                                proof {
                                    assert(tokens_view(tokens@) =~= acc.push(t@));
                                }
                            },
                            Result::Err(e) => {
                                return Result::Err(e);
                            },
                        }
                    }
                },
            }
        }
    }
}

} // verus!
