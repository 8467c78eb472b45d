//! Character and string helpers shared by the lexer, the module tokenizer
//! and the parser.
use vstd::prelude::*;
use vstd::string::*;
use vstd::std_specs::iter::IteratorSpec;

verus! {

/// Appends one character to a string.
///
/// Trusted: calls `String::push`, which appends the character to the end
/// of the string; the contract claims that the character sequence grows by
/// exactly that character.
#[verifier::external_body]
pub fn push_char(s: &mut String, c: char)
    ensures
        final(s)@ == old(s)@.push(c),
{
    s.push(c)
}

/// Whether two string slices hold the same characters.
pub fn str_eq(a: &str, b: &str) -> (r: bool)
    ensures
        r == (a@ == b@),
{
    let n = a.unicode_len();
    if n != b.unicode_len() {
        return false;
    }
    let mut i: usize = 0;
    while i < n
        invariant
            n == a@.len(),
            n == b@.len(),
            0 <= i <= n,
            a@.subrange(0, i as int) == b@.subrange(0, i as int),
        decreases n - i,
    {
        if a.get_char(i) != b.get_char(i) {
            assert(a@[i as int] != b@[i as int]);
            return false;
        }
        assert(a@.subrange(0, i + 1) == a@.subrange(0, i as int).push(a@[i as int]));
        assert(b@.subrange(0, i + 1) == b@.subrange(0, i as int).push(b@[i as int]));
        i = i + 1;
    }
    assert(a@ == a@.subrange(0, n as int));
    assert(b@ == b@.subrange(0, n as int));
    true
}

/// A string holding the characters of `s`, in order.
pub fn string_of_chars(s: &Vec<char>, from: usize, to: usize) -> (r: String)
    requires
        from <= to <= s.len(),
    ensures
        r@ == s@.subrange(from as int, to as int),
{
    let mut r = String::new();
    let mut i = from;
    while i < to
        invariant
            from <= i <= to <= s.len(),
            r@ == s@.subrange(from as int, i as int),
        decreases to - i,
    {
        push_char(&mut r, s[i]);
        assert(s@.subrange(from as int, i + 1) == s@.subrange(from as int, i as int).push(s@[i as int]));
        i = i + 1;
    }
    r
}

/// The characters of a string slice, in order.
pub fn chars_of(s: &str) -> (r: Vec<char>)
    ensures
        r@ == s@,
{
    broadcast use vstd::string::group_string_axioms;
    let mut it = s.chars();
    let mut r: Vec<char> = Vec::new();
    loop
        invariant
            it.obeys_prophetic_iter_laws(),
            it.remaining() == s@.skip(r@.len() as int),
            r@ == s@.take(r@.len() as int),
            r@.len() <= s@.len(),
        decreases s@.len() - r@.len(),
    {
        match it.next() {
            Option::Some(c) => {
                assert(s@.skip(r@.len() as int)[0] == s@[r@.len() as int]);
                r.push(c);
                assert(s@.skip(r@.len() as int) == s@.skip(r@.len() - 1).drop_first());
                assert(r@ == s@.take(r@.len() as int));
            },
            Option::None => {
                assert(s@ == s@.take(r@.len() as int));
                return r;
            },
        }
    }
}

/// The position reached by moving `amount` places from `index` in a text
/// of `len` characters: the new position where it lies inside the text,
/// otherwise `index` itself.
pub open spec fn adv(len: int, index: int, amount: int) -> int {
    if 0 <= index + amount < len {
        index + amount
    } else {
        index
    }
}

/// The first position at or after `from` that holds `x` or `y`, or the
/// length of `s` when there is none.
pub open spec fn find_stop(s: Seq<char>, from: int, x: char, y: char) -> int
    decreases s.len() - from,
{
    if from < 0 || from >= s.len() {
        s.len() as int
    } else if s[from] == x || s[from] == y {
        from
    } else {
        find_stop(s, from + 1, x, y)
    }
}

/// The first position at or after `from` that holds `x`, or the length of
/// `s` when there is none.
pub open spec fn find_char(s: Seq<char>, from: int, x: char) -> int {
    find_stop(s, from, x, x)
}

/// What `find_stop` finds: a stop character preceded (from `from` on) by
/// none, or the end of the text preceded by none.
pub proof fn lemma_find_stop(s: Seq<char>, from: int, x: char, y: char)
    requires
        0 <= from <= s.len(),
    ensures
        from <= find_stop(s, from, x, y) <= s.len(),
        find_stop(s, from, x, y) < s.len() ==> (s[find_stop(s, from, x, y)] == x || s[find_stop(s, from, x, y)] == y),
        forall|j: int| from <= j < find_stop(s, from, x, y) ==> #[trigger] s[j] != x && s[j] != y,
    decreases s.len() - from,
{
    if from < s.len() && !(s[from] == x || s[from] == y) {
        lemma_find_stop(s, from + 1, x, y);
    }
}

/// The word `w` is written at position `i` of `s`.
pub open spec fn matches_at(s: Seq<char>, i: int, w: Seq<char>) -> bool {
    0 <= i && i + w.len() <= s.len() && s.subrange(i, i + w.len()) == w
}

/// `s` ends, at or after position `i`, in the middle of the word `w`: the
/// characters from `i` to the end are a proper beginning of `w`.
pub open spec fn runs_off(s: Seq<char>, i: int, w: Seq<char>) -> bool {
    0 <= i < s.len() && s.len() < i + w.len() && s.subrange(i, s.len() as int) == w.subrange(0, s.len() - i)
}

/// The first position at or after `from` that holds `x` or `y`, or the
/// length of `s`.
pub fn find_stop_exec(s: &Vec<char>, from: usize, x: char, y: char) -> (r: usize)
    requires
        from <= s.len(),
    ensures
        r == find_stop(s@, from as int, x, y),
{
    let mut i = from;
    while i < s.len() && s[i] != x && s[i] != y
        invariant
            from <= i <= s.len(),
            find_stop(s@, i as int, x, y) == find_stop(s@, from as int, x, y),
        decreases s.len() - i,
    {
        i = i + 1;
    }
    i
}

/// Whether the word `w` is written at position `i` of `s`.
pub fn matches_at_exec(s: &Vec<char>, i: usize, w: &str) -> (r: bool)
    requires
        i <= s.len(),
    ensures
        r == matches_at(s@, i as int, w@),
{
    let n = w.unicode_len();
    if n > s.len() - i {
        return false;
    }
    let mut j: usize = 0;
    while j < n
        invariant
            n == w@.len(),
            i + n <= s.len(),
            0 <= j <= n,
            forall|k: int| 0 <= k < j ==> s@[i + k] == #[trigger] w@[k],
        decreases n - j,
    {
        if s[i + j] != w.get_char(j) {
            assert(s@.subrange(i as int, i + n)[j as int] != w@[j as int]);
            return false;
        }
        j = j + 1;
    }
    assert(s@.subrange(i as int, i + n) =~= w@);
    true
}

/// The lower-case form of a string, as `str::to_lowercase` computes it
/// (by the Unicode lower-case mapping).
pub uninterp spec fn lowercase(s: Seq<char>) -> Seq<char>;

/// Each ASCII upper-case letter of `s` replaced by its lower-case letter;
/// every other character kept.
pub open spec fn ascii_lowercase(s: Seq<char>) -> Seq<char> {
    s.map_values(|c: char| if 'A' <= c <= 'Z' { ((c as u32) + 32) as char } else { c })
}

/// The lower-case form of a string.
///
/// Trusted: calls `str::to_lowercase`. The contract claims that the result
/// is a function of the characters of the argument, named [`lowercase`],
/// and that on ASCII text it maps each upper-case letter to its lower-case
/// letter and keeps every other character (the Unicode lower-case mapping
/// of the ASCII range). The mapping of other characters is left unstated.
#[verifier::external_body]
pub fn to_lowercase(s: &str) -> (r: String)
    ensures
        r@ == lowercase(s@),
        vstd::utf8::is_ascii_chars(s@) ==> r@ == ascii_lowercase(s@),
{
    s.to_lowercase()
}

/// A character with the Unicode `White_Space` property: the ASCII tab,
/// line feed, vertical tab, form feed, carriage return and space, and
/// U+0085, U+00A0, U+1680, U+2000 to U+200A, U+2028, U+2029, U+202F,
/// U+205F and U+3000.
pub open spec fn is_whitespace(c: char) -> bool {
    let u = c as u32;
    ||| 0x9 <= u <= 0xd
    ||| u == 0x20
    ||| u == 0x85
    ||| u == 0xa0
    ||| u == 0x1680
    ||| 0x2000 <= u <= 0x200a
    ||| u == 0x2028
    ||| u == 0x2029
    ||| u == 0x202f
    ||| u == 0x205f
    ||| u == 0x3000
}

/// Whether a character is whitespace (see [`is_whitespace`]).
pub fn is_whitespace_exec(c: char) -> (r: bool)
    ensures
        r == is_whitespace(c),
{
    let u = c as u32;
    (0x9 <= u && u <= 0xd) || u == 0x20 || u == 0x85 || u == 0xa0 || u == 0x1680 || (0x2000 <= u
        && u <= 0x200a) || u == 0x2028 || u == 0x2029 || u == 0x202f || u == 0x205f || u == 0x3000
}

/// The text with every whitespace character removed.
pub open spec fn strip_whitespace(s: Seq<char>) -> Seq<char> {
    s.filter(|c: char| !is_whitespace(c))
}

/// The characters of `contents` without whitespace.
pub fn strip_whitespace_exec(contents: &str) -> (r: Vec<char>)
    ensures
        r@ == strip_whitespace(contents@),
        r@.len() <= contents@.len(),
        forall|i: int| 0 <= i < r@.len() ==> !is_whitespace(#[trigger] r@[i]),
{
    let all = chars_of(contents);
    let ghost s = contents@;
    let mut kept: Vec<char> = Vec::new();
    let mut i: usize = 0;
    while i < all.len()
        invariant
            all@ == s,
            0 <= i <= all.len(),
            kept@ == strip_whitespace(s.take(i as int)),
        decreases all.len() - i,
    {
        let c = all[i];
        proof {
            let t = s.take(i + 1);
            assert(t.drop_last() =~= s.take(i as int));
            assert(t.last() == c);
            reveal_with_fuel(Seq::<_>::filter, 1);
            assert(strip_whitespace(t) == strip_whitespace(s.take(i as int)) + (if !is_whitespace(c) {
                seq![c]
            } else {
                Seq::empty()
            }));
        }
        if !is_whitespace_exec(c) {
            kept.push(c);
        }
        proof {
            assert(kept@ =~= strip_whitespace(s.take(i + 1)));
        }
        i = i + 1;
    }
    assert(s.take(all.len() as int) =~= s);
    proof {
        broadcast use vstd::seq_lib::group_filter_ensures;
        assert forall|i: int| 0 <= i < kept@.len() implies !is_whitespace(#[trigger] kept@[i]) by {
            assert(strip_whitespace(s).contains(kept@[i]));
        }
        s.lemma_filter_len(|c: char| !is_whitespace(c));
    }
    kept
}

/// Moving never leaves the text: from a position inside it (or just before
/// it) every move ends inside it (or where it started), and a move succeeds
/// exactly when its target is inside.
pub proof fn lemma_adv_inside(len: int, index: int, amount: int)
    requires
        -1 <= index < len,
    ensures
        -1 <= adv(len, index, amount) < len,
        adv(len, index, amount) == index + amount <==> (0 <= index + amount < len || amount == 0),
{
}

/// Whether `s` ends, at or after position `i`, in the middle of the word
/// `w` (see [`runs_off`]).
pub fn runs_off_exec(s: &Vec<char>, i: usize, w: &str) -> (r: bool)
    ensures
        r == runs_off(s@, i as int, w@),
{
    let n = w.unicode_len();
    if i >= s.len() || s.len() - i >= n {
        return false;
    }
    let m = s.len() - i;
    let mut j: usize = 0;
    while j < m
        invariant
            n == w@.len(),
            m == s.len() - i,
            m < n,
            0 <= j <= m,
            forall|k: int| 0 <= k < j ==> s@[i + k] == #[trigger] w@[k],
        decreases m - j,
    {
        if s[i + j] != w.get_char(j) {
            assert(s@.subrange(i as int, s.len() as int)[j as int] != w@.subrange(0, m as int)[j as int]);
            return false;
        }
        j = j + 1;
    }
    assert(s@.subrange(i as int, s.len() as int) =~= w@.subrange(0, m as int));
    true
}

} // verus!
