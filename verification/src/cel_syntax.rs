//! The CEL expressions a rule may hold: a syntax check run before a match
//! expression is compiled.
//!
//! The accepted language is a part of CEL's grammar in which every text is
//! also read by CEL's own lexer and parser without a syntax error, and
//! evaluates without a panic and without depending on the order in which a
//! map is walked: identifiers, member selection, calls, lists, map literals,
//! parentheses, `!`, the binary operators, the conditional `?:`, decimal
//! numbers, `true`/`false`/`null` and quoted strings with simple escapes.
//! It leaves out:
//! - message literals (`Name{..}`), which the interpreter cannot evaluate;
//! - the comprehension macros (`all`, `exists`, `exists_one`, `map`,
//!   `filter`) on anything but a list literal, a `sets.<name>` list or the
//!   list a `map`/`filter` gives, and with `sets` as the loop variable: on
//!   other values the interpreter panics or walks a map in no fixed order;
//! - calls of `duration` and `timestamp`, whose durations can overflow
//!   chrono's unchecked arithmetic;
//! - a unary `-` before anything but a number literal, and indexing by
//!   anything but a string literal or a number literal of at most 18
//!   characters, so that no `i64::MIN` is negated and no `i64::MAX` string
//!   index overflows.

use vstd::prelude::*;

use crate::client::str_chars;

verus! {

/// Whitespace of the CEL lexer.
pub open spec fn is_ws(c: char) -> bool {
    c == ' ' || c == '\t' || c == '\n' || c == '\r' || c == '\x0C'
}

/// A character that may start an identifier.
pub open spec fn is_letter(c: char) -> bool {
    ('a' <= c && c <= 'z') || ('A' <= c && c <= 'Z') || c == '_'
}

/// A decimal digit.
pub open spec fn is_digit(c: char) -> bool {
    '0' <= c && c <= '9'
}

/// A character that may continue an identifier.
pub open spec fn is_word_char(c: char) -> bool {
    is_letter(c) || is_digit(c)
}

/// A character that may follow a backslash in a string.
pub open spec fn is_escape(c: char) -> bool {
    c == '\\' || c == '"' || c == '\'' || c == 'n' || c == 'r' || c == 't'
}

/// First position at or after `i` that is not whitespace.
pub open spec fn skip_ws(s: Seq<char>, i: int) -> int
    decreases s.len() - i,
{
    if 0 <= i < s.len() && is_ws(s[i]) {
        skip_ws(s, i + 1)
    } else {
        i
    }
}

/// End of the run of identifier characters from `i`.
pub open spec fn word_end(s: Seq<char>, i: int) -> int
    decreases s.len() - i,
{
    if 0 <= i < s.len() && is_word_char(s[i]) {
        word_end(s, i + 1)
    } else {
        i
    }
}

/// End of the run of digits from `i`.
pub open spec fn digits_end(s: Seq<char>, i: int) -> int
    decreases s.len() - i,
{
    if 0 <= i < s.len() && is_digit(s[i]) {
        digits_end(s, i + 1)
    } else {
        i
    }
}

/// End of a decimal number from `i`: digits, then '.' and digits if a
/// digit follows the '.'.
pub open spec fn number_end(s: Seq<char>, i: int) -> int {
    let d = digits_end(s, i);
    if 0 <= d && d + 1 < s.len() && s[d] == '.' && is_digit(s[d + 1]) {
        digits_end(s, d + 1)
    } else {
        d
    }
}

/// End (after the closing quote `q`) of a string body from `i`, or -1.
pub open spec fn quoted_end(s: Seq<char>, i: int, q: char) -> int
    decreases s.len() - i,
{
    if i < 0 || i >= s.len() {
        -1
    } else if s[i] == q {
        i + 1
    } else if s[i] == '\\' {
        if i + 1 < s.len() && is_escape(s[i + 1]) {
            quoted_end(s, i + 2, q)
        } else {
            -1
        }
    } else if s[i] == '\n' || s[i] == '\r' {
        -1
    } else {
        quoted_end(s, i + 1, q)
    }
}

/// End of the string literal whose opening quote is at `i`, or -1; a quote
/// right after it is refused (the lexer would read a triple quote).
pub open spec fn string_end(s: Seq<char>, i: int) -> int {
    let e = quoted_end(s, i + 1, s[i]);
    if e < 0 || (e < s.len() && (s[e] == '"' || s[e] == '\'')) {
        -1
    } else {
        e
    }
}

/// The text from `a` to `b` is `w`.
pub open spec fn word_is(s: Seq<char>, a: int, b: int, w: Seq<char>) -> bool {
    s.subrange(a, b) == w
}

/// A word the lexer reads as a keyword.
pub open spec fn keyword(s: Seq<char>, a: int, b: int) -> bool {
    word_is(s, a, b, "in"@) || word_is(s, a, b, "true"@) || word_is(s, a, b, "false"@) || word_is(
        s,
        a,
        b,
        "null"@,
    )
}

/// A literal word.
pub open spec fn literal_word(s: Seq<char>, a: int, b: int) -> bool {
    word_is(s, a, b, "true"@) || word_is(s, a, b, "false"@) || word_is(s, a, b, "null"@)
}

/// A comprehension macro name.
pub open spec fn macro_name(s: Seq<char>, a: int, b: int) -> bool {
    ||| word_is(s, a, b, "all"@)
    ||| word_is(s, a, b, "exists"@)
    ||| word_is(s, a, b, "exists_one"@)
    ||| word_is(s, a, b, "existsOne"@)
    ||| word_is(s, a, b, "map"@)
    ||| word_is(s, a, b, "filter"@)
}

/// A function a rule may call: any but the macros, `duration` and
/// `timestamp`.
pub open spec fn callable(s: Seq<char>, a: int, b: int) -> bool {
    !macro_name(s, a, b) && !word_is(s, a, b, "duration"@) && !word_is(s, a, b, "timestamp"@)
}

/// What the primary from `i` is known to be: 1 a list literal, 2 the name
/// `sets`, 0 anything else.
pub open spec fn target_kind(s: Seq<char>, i: int) -> int {
    let j = skip_ws(s, i);
    if i <= j < s.len() && s[j] == '[' {
        1
    } else if i <= j < s.len() && is_letter(s[j]) && word_is(s, j, word_end(s, j), "sets"@) {
        2
    } else {
        0
    }
}

/// End of a negated number literal after the `-` (nothing may follow it).
pub open spec fn cel_neg(s: Seq<char>, i: int) -> int {
    let k = skip_ws(s, i);
    if 0 <= i <= k < s.len() && is_digit(s[k]) {
        number_end(s, k)
    } else {
        -1
    }
}

/// End (after `]`) of an index from `i`: a string literal or a number
/// literal of at most 18 characters.
pub open spec fn cel_index(s: Seq<char>, i: int) -> int {
    let k = skip_ws(s, i);
    if !(0 <= i <= k < s.len()) {
        -1
    } else {
        let e = if is_digit(s[k]) {
            if number_end(s, k) - k <= 18 {
                number_end(s, k)
            } else {
                -1
            }
        } else if s[k] == '"' || s[k] == '\'' {
            string_end(s, k)
        } else {
            -1
        };
        if e <= k || e > s.len() {
            -1
        } else {
            let m = skip_ws(s, e);
            if e <= m < s.len() && s[m] == ']' {
                m + 1
            } else {
                -1
            }
        }
    }
}

/// Length of the binary operator at `j`, or 0.
pub open spec fn binop_len(s: Seq<char>, j: int) -> int {
    if j < 0 || j >= s.len() {
        0
    } else if j + 1 < s.len() && ((s[j] == '|' && s[j + 1] == '|') || (s[j] == '&' && s[j + 1] == '&') || (
    s[j] == '=' && s[j + 1] == '=') || (s[j] == '!' && s[j + 1] == '=') || (s[j] == '<' && s[j + 1] == '=')
        || (s[j] == '>' && s[j + 1] == '=')) {
        2
    } else if s[j] == '<' || s[j] == '>' || s[j] == '+' || s[j] == '-' || s[j] == '*' || s[j] == '/' || s[j]
        == '%' {
        1
    } else if j + 1 < s.len() && s[j] == 'i' && s[j + 1] == 'n' && (j + 2 >= s.len() || !is_word_char(s[j + 2])) {
        2
    } else {
        0
    }
}

/// End of an expression from `i`: operands joined by binary operators,
/// optionally followed by `? operands : expression`; -1 when there is none.
pub open spec fn cel_expr(s: Seq<char>, i: int) -> int
    decreases s.len() - i, 6int,
{
    if i < 0 || i > s.len() {
        -1
    } else {
        let a = cel_seq(s, i);
        if a <= i || a > s.len() {
            -1
        } else {
            let j = skip_ws(s, a);
            if a <= j < s.len() && s[j] == '?' {
                let b = cel_seq(s, j + 1);
                if b <= j + 1 || b > s.len() {
                    -1
                } else {
                    let k = skip_ws(s, b);
                    if b <= k < s.len() && s[k] == ':' {
                        cel_expr(s, k + 1)
                    } else {
                        -1
                    }
                }
            } else {
                a
            }
        }
    }
}

/// End of operands joined by binary operators from `i`, or -1.
pub open spec fn cel_seq(s: Seq<char>, i: int) -> int
    decreases s.len() - i, 5int,
{
    if i < 0 || i > s.len() {
        -1
    } else {
        let a = cel_unary(s, i);
        if a <= i || a > s.len() {
            -1
        } else {
            cel_seq_rest(s, a)
        }
    }
}

/// End of further `operator operand` pairs after position `a`.
pub open spec fn cel_seq_rest(s: Seq<char>, a: int) -> int
    decreases s.len() - a, 5int,
{
    if a < 0 || a > s.len() {
        -1
    } else {
        let j = skip_ws(s, a);
        let l = binop_len(s, j);
        if a <= j && l > 0 && j + l <= s.len() {
            let b = cel_unary(s, j + l);
            if b <= j + l || b > s.len() {
                -1
            } else {
                cel_seq_rest(s, b)
            }
        } else {
            a
        }
    }
}

/// End of an operand from `i`: a member, after any `!`s or any `-`s.
pub open spec fn cel_unary(s: Seq<char>, i: int) -> int
    decreases s.len() - i, 4int,
{
    if i < 0 || i > s.len() {
        -1
    } else {
        let j = skip_ws(s, i);
        if i <= j < s.len() && s[j] == '!' && !(j + 1 < s.len() && s[j + 1] == '=') {
            cel_prefixed(s, j + 1, '!')
        } else if i <= j < s.len() && s[j] == '-' {
            cel_neg(s, j + 1)
        } else if i <= j <= s.len() {
            cel_member(s, j)
        } else {
            -1
        }
    }
}

/// End of a member after one or more prefix operators `c`.
pub open spec fn cel_prefixed(s: Seq<char>, i: int, c: char) -> int
    decreases s.len() - i, 4int,
{
    if i < 0 || i > s.len() {
        -1
    } else {
        let j = skip_ws(s, i);
        if i <= j < s.len() && s[j] == c && !(c == '!' && j + 1 < s.len() && s[j + 1] == '=') {
            cel_prefixed(s, j + 1, c)
        } else if i <= j <= s.len() {
            cel_member(s, j)
        } else {
            -1
        }
    }
}

/// End of a primary followed by selections, method calls and indexes.
pub open spec fn cel_member(s: Seq<char>, i: int) -> int
    decreases s.len() - i, 3int,
{
    if i < 0 || i > s.len() {
        -1
    } else {
        let p = cel_primary(s, i);
        if p <= i || p > s.len() {
            -1
        } else {
            cel_member_rest(s, p, target_kind(s, i))
        }
    }
}

/// End of further selections, method calls and indexes after `p`, where
/// `t` is what the member so far is known to be (see [`target_kind`]; a
/// `sets.<name>` or a `map`/`filter` result is a list).
pub open spec fn cel_member_rest(s: Seq<char>, p: int, t: int) -> int
    decreases s.len() - p, 3int,
{
    if p < 0 || p > s.len() {
        -1
    } else {
        let j = skip_ws(s, p);
        if p <= j < s.len() && s[j] == '.' {
            let k = skip_ws(s, j + 1);
            if j + 1 <= k < s.len() && is_letter(s[k]) {
                let e = word_end(s, k);
                if e <= k || e > s.len() || keyword(s, k, e) {
                    -1
                } else {
                    let m = skip_ws(s, e);
                    if e <= m < s.len() && s[m] == '(' {
                        if macro_name(s, k, e) {
                            if t == 1 {
                                let lists = word_is(s, k, e, "map"@) || word_is(s, k, e, "filter"@);
                                let q = cel_macro_args(s, m + 1, word_is(s, k, e, "map"@));
                                if q <= m + 1 || q > s.len() {
                                    -1
                                } else {
                                    cel_member_rest(s, q, if lists { 1 } else { 0 })
                                }
                            } else {
                                -1
                            }
                        } else if callable(s, k, e) {
                            let q = cel_args(s, m + 1, ')');
                            if q <= m + 1 || q > s.len() {
                                -1
                            } else {
                                cel_member_rest(s, q, 0)
                            }
                        } else {
                            -1
                        }
                    } else {
                        cel_member_rest(s, e, if t == 2 { 1 } else { 0 })
                    }
                }
            } else {
                -1
            }
        } else if p <= j < s.len() && s[j] == '[' {
            let q = cel_index(s, j + 1);
            if q <= j + 1 || q > s.len() {
                -1
            } else {
                cel_member_rest(s, q, 0)
            }
        } else {
            p
        }
    }
}

/// End (after `)`) of a macro's arguments from `i`: a loop variable other
/// than `sets`, then one expression, or two where `three` (`map`'s filter
/// form).
pub open spec fn cel_macro_args(s: Seq<char>, i: int, three: bool) -> int
    decreases s.len() - i, 7int,
{
    if i < 0 || i > s.len() {
        -1
    } else {
        let k = skip_ws(s, i);
        if i <= k < s.len() && is_letter(s[k]) {
            let e = word_end(s, k);
            if e <= k || e > s.len() || keyword(s, k, e) || word_is(s, k, e, "sets"@) {
                -1
            } else {
                let m = skip_ws(s, e);
                if e <= m < s.len() && s[m] == ',' {
                    let f = cel_expr(s, m + 1);
                    if f <= m + 1 || f > s.len() {
                        -1
                    } else {
                        let n = skip_ws(s, f);
                        if f <= n < s.len() && s[n] == ')' {
                            n + 1
                        } else if three && f <= n < s.len() && s[n] == ',' {
                            let g = cel_expr(s, n + 1);
                            if g <= n + 1 || g > s.len() {
                                -1
                            } else {
                                let q = skip_ws(s, g);
                                if g <= q < s.len() && s[q] == ')' {
                                    q + 1
                                } else {
                                    -1
                                }
                            }
                        } else {
                            -1
                        }
                    }
                } else {
                    -1
                }
            }
        } else {
            -1
        }
    }
}

/// End (after `}`) of a non-empty comma-separated list of `key: value`
/// entries from `i`.
pub open spec fn cel_entries(s: Seq<char>, i: int) -> int
    decreases s.len() - i, 7int,
{
    if i < 0 || i > s.len() {
        -1
    } else {
        let e = cel_expr(s, i);
        if e <= i || e > s.len() {
            -1
        } else {
            let k = skip_ws(s, e);
            if e <= k < s.len() && s[k] == ':' {
                let f = cel_expr(s, k + 1);
                if f <= k + 1 || f > s.len() {
                    -1
                } else {
                    let m = skip_ws(s, f);
                    if f <= m < s.len() && s[m] == ',' {
                        cel_entries(s, m + 1)
                    } else if f <= m < s.len() && s[m] == '}' {
                        m + 1
                    } else {
                        -1
                    }
                }
            } else {
                -1
            }
        }
    }
}

/// End of a parenthesized, a list, a name or call, or a literal from `i`.
pub open spec fn cel_primary(s: Seq<char>, i: int) -> int
    decreases s.len() - i, 2int,
{
    if i < 0 || i > s.len() {
        -1
    } else {
        let j = skip_ws(s, i);
        if !(i <= j < s.len()) {
            -1
        } else if s[j] == '(' {
            let e = cel_expr(s, j + 1);
            if e <= j + 1 || e > s.len() {
                -1
            } else {
                let k = skip_ws(s, e);
                if e <= k < s.len() && s[k] == ')' {
                    k + 1
                } else {
                    -1
                }
            }
        } else if s[j] == '[' {
            cel_args(s, j + 1, ']')
        } else if s[j] == '{' {
            let k = skip_ws(s, j + 1);
            if j + 1 <= k < s.len() && s[k] == '}' {
                k + 1
            } else {
                cel_entries(s, j + 1)
            }
        } else if s[j] == '.' {
            let k = skip_ws(s, j + 1);
            if j + 1 <= k < s.len() {
                cel_name(s, k)
            } else {
                -1
            }
        } else if is_letter(s[j]) {
            let e = word_end(s, j);
            if j < e <= s.len() && literal_word(s, j, e) {
                e
            } else {
                cel_name(s, j)
            }
        } else if is_digit(s[j]) {
            number_end(s, j)
        } else if s[j] == '"' || s[j] == '\'' {
            string_end(s, j)
        } else {
            -1
        }
    }
}

/// End of an identifier or a call of an allowed function from `k`.
pub open spec fn cel_name(s: Seq<char>, k: int) -> int
    decreases s.len() - k, 1int,
{
    if k < 0 || k >= s.len() || !is_letter(s[k]) {
        -1
    } else {
        let e = word_end(s, k);
        if e <= k || e > s.len() || keyword(s, k, e) {
            -1
        } else {
            let m = skip_ws(s, e);
            if e <= m < s.len() && s[m] == '(' {
                if callable(s, k, e) {
                    cel_args(s, m + 1, ')')
                } else {
                    -1
                }
            } else {
                e
            }
        }
    }
}

/// End (after `close`) of a possibly empty comma-separated list of
/// expressions from `i`.
pub open spec fn cel_args(s: Seq<char>, i: int, close: char) -> int
    decreases s.len() - i, 8int,
{
    if i < 0 || i > s.len() {
        -1
    } else {
        let j = skip_ws(s, i);
        if i <= j < s.len() && s[j] == close {
            j + 1
        } else {
            cel_elems(s, i, close)
        }
    }
}

/// End (after `close`) of a non-empty comma-separated list of expressions.
pub open spec fn cel_elems(s: Seq<char>, i: int, close: char) -> int
    decreases s.len() - i, 7int,
{
    if i < 0 || i > s.len() {
        -1
    } else {
        let e = cel_expr(s, i);
        if e <= i || e > s.len() {
            -1
        } else {
            let k = skip_ws(s, e);
            if e <= k < s.len() && s[k] == ',' {
                cel_elems(s, k + 1, close)
            } else if e <= k < s.len() && s[k] == close {
                k + 1
            } else {
                -1
            }
        }
    }
}

/// `s` is one expression of the accepted language, with only whitespace
/// around it.
pub open spec fn cel_plain(s: Seq<char>) -> bool {
    let e = cel_expr(s, 0);
    0 < e <= s.len() && skip_ws(s, e) == s.len()
}

/// A position result of the checks below: `None` stands for -1.
pub open spec fn pos_of(r: Option<usize>) -> int {
    match r {
        Some(e) => e as int,
        None => -1,
    }
}

fn is_ws_x(c: char) -> (r: bool)
    ensures
        r == is_ws(c),
{
    c == ' ' || c == '\t' || c == '\n' || c == '\r' || c == '\x0C'
}

fn is_letter_x(c: char) -> (r: bool)
    ensures
        r == is_letter(c),
{
    ('a' <= c && c <= 'z') || ('A' <= c && c <= 'Z') || c == '_'
}

fn is_digit_x(c: char) -> (r: bool)
    ensures
        r == is_digit(c),
{
    '0' <= c && c <= '9'
}

fn is_escape_x(c: char) -> (r: bool)
    ensures
        r == is_escape(c),
{
    c == '\\' || c == '"' || c == '\'' || c == 'n' || c == 'r' || c == 't'
}

fn skip_ws_x(v: &Vec<char>, i: usize) -> (r: usize)
    requires
        i <= v@.len(),
    ensures
        r as int == skip_ws(v@, i as int),
        i <= r <= v@.len(),
{
    let mut j = i;
    while j < v.len() && is_ws_x(v[j])
        invariant
            i <= j <= v@.len(),
            skip_ws(v@, j as int) == skip_ws(v@, i as int),
        decreases v@.len() - j,
    {
        j = j + 1;
    }
    j
}

fn word_end_x(v: &Vec<char>, i: usize) -> (r: usize)
    requires
        i <= v@.len(),
    ensures
        r as int == word_end(v@, i as int),
        i <= r <= v@.len(),
{
    let mut j = i;
    while j < v.len() && (is_letter_x(v[j]) || is_digit_x(v[j]))
        invariant
            i <= j <= v@.len(),
            word_end(v@, j as int) == word_end(v@, i as int),
        decreases v@.len() - j,
    {
        j = j + 1;
    }
    j
}

fn digits_end_x(v: &Vec<char>, i: usize) -> (r: usize)
    requires
        i <= v@.len(),
    ensures
        r as int == digits_end(v@, i as int),
        i <= r <= v@.len(),
{
    let mut j = i;
    while j < v.len() && is_digit_x(v[j])
        invariant
            i <= j <= v@.len(),
            digits_end(v@, j as int) == digits_end(v@, i as int),
        decreases v@.len() - j,
    {
        j = j + 1;
    }
    j
}

fn number_end_x(v: &Vec<char>, i: usize) -> (r: usize)
    requires
        i <= v@.len(),
    ensures
        r as int == number_end(v@, i as int),
        i <= r <= v@.len(),
{
    let d = digits_end_x(v, i);
    if d < v.len() && d + 1 < v.len() && v[d] == '.' && is_digit_x(v[d + 1]) {
        digits_end_x(v, d + 1)
    } else {
        d
    }
}

fn quoted_end_x(v: &Vec<char>, i: usize, q: char) -> (r: Option<usize>)
    requires
        i <= v@.len(),
    ensures
        pos_of(r) == quoted_end(v@, i as int, q),
        r matches Some(e) ==> i < e <= v@.len(),
{
    let mut j = i;
    while j < v.len()
        invariant
            i <= j <= v@.len(),
            quoted_end(v@, j as int, q) == quoted_end(v@, i as int, q),
        decreases v@.len() - j,
    {
        if v[j] == q {
            return Some(j + 1);
        } else if v[j] == '\\' {
            if j + 1 < v.len() && is_escape_x(v[j + 1]) {
                j = j + 2;
            } else {
                return None;
            }
        } else if v[j] == '\n' || v[j] == '\r' {
            return None;
        } else {
            j = j + 1;
        }
    }
    None
}

fn string_end_x(v: &Vec<char>, i: usize) -> (r: Option<usize>)
    requires
        i < v@.len(),
    ensures
        pos_of(r) == string_end(v@, i as int),
        r matches Some(e) ==> i < e <= v@.len(),
{
    let n = v.len();
    match quoted_end_x(v, i + 1, v[i]) {
        None => None,
        Some(e) => {
            if e < n && (v[e] == '"' || v[e] == '\'') {
                None
            } else {
                Some(e)
            }
        },
    }
}

fn word_is_x(v: &Vec<char>, a: usize, b: usize, w: &str) -> (r: bool)
    requires
        a <= b <= v@.len(),
    ensures
        r == word_is(v@, a as int, b as int, w@),
{
    let wv = str_chars(w);
    if b - a != wv.len() {
        proof {
            assert(v@.subrange(a as int, b as int).len() != w@.len());
        }
        return false;
    }
    let mut k: usize = 0;
    while k < wv.len()
        invariant
            b - a == wv@.len(),
            wv@ == w@,
            a <= b <= v@.len(),
            k <= wv@.len(),
            forall|t: int| 0 <= t < k ==> v@[a + t] == wv@[t],
        decreases wv@.len() - k,
    {
        if v[a + k] != wv[k] {
            proof {
                assert(v@.subrange(a as int, b as int)[k as int] != w@[k as int]);
            }
            return false;
        }
        k = k + 1;
    }
    proof {
        assert(v@.subrange(a as int, b as int) =~= w@);
    }
    true
}

fn keyword_x(v: &Vec<char>, a: usize, b: usize) -> (r: bool)
    requires
        a <= b <= v@.len(),
    ensures
        r == keyword(v@, a as int, b as int),
{
    word_is_x(v, a, b, "in") || word_is_x(v, a, b, "true") || word_is_x(v, a, b, "false") || word_is_x(
        v,
        a,
        b,
        "null",
    )
}

fn literal_word_x(v: &Vec<char>, a: usize, b: usize) -> (r: bool)
    requires
        a <= b <= v@.len(),
    ensures
        r == literal_word(v@, a as int, b as int),
{
    word_is_x(v, a, b, "true") || word_is_x(v, a, b, "false") || word_is_x(v, a, b, "null")
}

fn macro_name_x(v: &Vec<char>, a: usize, b: usize) -> (r: bool)
    requires
        a <= b <= v@.len(),
    ensures
        r == macro_name(v@, a as int, b as int),
{
    word_is_x(v, a, b, "all") || word_is_x(v, a, b, "exists") || word_is_x(v, a, b, "exists_one") || word_is_x(
        v,
        a,
        b,
        "existsOne",
    ) || word_is_x(v, a, b, "map") || word_is_x(v, a, b, "filter")
}

fn callable_x(v: &Vec<char>, a: usize, b: usize) -> (r: bool)
    requires
        a <= b <= v@.len(),
    ensures
        r == callable(v@, a as int, b as int),
{
    !macro_name_x(v, a, b) && !word_is_x(v, a, b, "duration") && !word_is_x(v, a, b, "timestamp")
}

fn target_kind_x(v: &Vec<char>, i: usize) -> (r: u8)
    requires
        i <= v@.len(),
    ensures
        r as int == target_kind(v@, i as int),
{
    let j = skip_ws_x(v, i);
    if j < v.len() && v[j] == '[' {
        1
    } else if j < v.len() && is_letter_x(v[j]) {
        let e = word_end_x(v, j);
        if word_is_x(v, j, e, "sets") {
            2
        } else {
            0
        }
    } else {
        0
    }
}

fn neg_x(v: &Vec<char>, i: usize) -> (r: Option<usize>)
    requires
        i <= v@.len(),
    ensures
        pos_of(r) == cel_neg(v@, i as int),
{
    let k = skip_ws_x(v, i);
    if k < v.len() && is_digit_x(v[k]) {
        Some(number_end_x(v, k))
    } else {
        None
    }
}

fn index_x(v: &Vec<char>, i: usize) -> (r: Option<usize>)
    requires
        i <= v@.len(),
    ensures
        pos_of(r) == cel_index(v@, i as int),
{
    let k = skip_ws_x(v, i);
    if k >= v.len() {
        return None;
    }
    let e = if is_digit_x(v[k]) {
        let d = number_end_x(v, k);
        if d - k <= 18 {
            d
        } else {
            return None;
        }
    } else if v[k] == '"' || v[k] == '\'' {
        match string_end_x(v, k) {
            Some(e) => e,
            None => return None,
        }
    } else {
        return None;
    };
    if e <= k || e > v.len() {
        return None;
    }
    let m = skip_ws_x(v, e);
    if m < v.len() && v[m] == ']' {
        Some(m + 1)
    } else {
        None
    }
}

fn binop_len_x(v: &Vec<char>, j: usize) -> (r: usize)
    requires
        j <= v@.len(),
    ensures
        r as int == binop_len(v@, j as int),
        r <= 2,
{
    if j >= v.len() {
        0
    } else if j + 1 < v.len() && ((v[j] == '|' && v[j + 1] == '|') || (v[j] == '&' && v[j + 1] == '&') || (
    v[j] == '=' && v[j + 1] == '=') || (v[j] == '!' && v[j + 1] == '=') || (v[j] == '<' && v[j + 1] == '=')
        || (v[j] == '>' && v[j + 1] == '=')) {
        2
    } else if v[j] == '<' || v[j] == '>' || v[j] == '+' || v[j] == '-' || v[j] == '*' || v[j] == '/' || v[j]
        == '%' {
        1
    } else if j + 1 < v.len() && v[j] == 'i' && v[j + 1] == 'n' && (j + 2 >= v.len() || !(is_letter_x(
        v[j + 2],
    ) || is_digit_x(v[j + 2]))) {
        2
    } else {
        0
    }
}

fn expr_x(v: &Vec<char>, i: usize) -> (r: Option<usize>)
    requires
        i <= v@.len(),
    ensures
        pos_of(r) == cel_expr(v@, i as int),
    decreases v@.len() - i, 6int,
{
    let a = match seq_x(v, i) {
        Some(a) => a,
        None => return None,
    };
    if a <= i || a > v.len() {
        return None;
    }
    let j = skip_ws_x(v, a);
    if j < v.len() && v[j] == '?' {
        let b = match seq_x(v, j + 1) {
            Some(b) => b,
            None => return None,
        };
        if b <= j + 1 || b > v.len() {
            return None;
        }
        let k = skip_ws_x(v, b);
        if k < v.len() && v[k] == ':' {
            expr_x(v, k + 1)
        } else {
            None
        }
    } else {
        Some(a)
    }
}

fn seq_x(v: &Vec<char>, i: usize) -> (r: Option<usize>)
    requires
        i <= v@.len(),
    ensures
        pos_of(r) == cel_seq(v@, i as int),
    decreases v@.len() - i, 5int,
{
    let a = match unary_x(v, i) {
        Some(a) => a,
        None => return None,
    };
    if a <= i || a > v.len() {
        return None;
    }
    seq_rest_x(v, a)
}

fn seq_rest_x(v: &Vec<char>, a: usize) -> (r: Option<usize>)
    requires
        a <= v@.len(),
    ensures
        pos_of(r) == cel_seq_rest(v@, a as int),
    decreases v@.len() - a, 5int,
{
    let j = skip_ws_x(v, a);
    let l = binop_len_x(v, j);
    if l > 0 && j < v.len() && l <= v.len() - j {
        let b = match unary_x(v, j + l) {
            Some(b) => b,
            None => return None,
        };
        if b <= j + l || b > v.len() {
            return None;
        }
        seq_rest_x(v, b)
    } else {
        Some(a)
    }
}

fn unary_x(v: &Vec<char>, i: usize) -> (r: Option<usize>)
    requires
        i <= v@.len(),
    ensures
        pos_of(r) == cel_unary(v@, i as int),
    decreases v@.len() - i, 4int,
{
    let j = skip_ws_x(v, i);
    if j < v.len() && v[j] == '!' && !(j + 1 < v.len() && v[j + 1] == '=') {
        prefixed_x(v, j + 1, '!')
    } else if j < v.len() && v[j] == '-' {
        neg_x(v, j + 1)
    } else {
        member_x(v, j)
    }
}

fn prefixed_x(v: &Vec<char>, i: usize, c: char) -> (r: Option<usize>)
    requires
        i <= v@.len(),
    ensures
        pos_of(r) == cel_prefixed(v@, i as int, c),
    decreases v@.len() - i, 4int,
{
    let j = skip_ws_x(v, i);
    if j < v.len() && v[j] == c && !(c == '!' && j + 1 < v.len() && v[j + 1] == '=') {
        prefixed_x(v, j + 1, c)
    } else {
        member_x(v, j)
    }
}

fn member_x(v: &Vec<char>, i: usize) -> (r: Option<usize>)
    requires
        i <= v@.len(),
    ensures
        pos_of(r) == cel_member(v@, i as int),
    decreases v@.len() - i, 3int,
{
    let p = match primary_x(v, i) {
        Some(p) => p,
        None => return None,
    };
    if p <= i || p > v.len() {
        return None;
    }
    let t = target_kind_x(v, i);
    member_rest_x(v, p, t)
}

fn member_rest_x(v: &Vec<char>, p: usize, t: u8) -> (r: Option<usize>)
    requires
        p <= v@.len(),
    ensures
        pos_of(r) == cel_member_rest(v@, p as int, t as int),
    decreases v@.len() - p, 3int,
{
    let j = skip_ws_x(v, p);
    if j < v.len() && v[j] == '.' {
        let k = skip_ws_x(v, j + 1);
        if k < v.len() && is_letter_x(v[k]) {
            let e = word_end_x(v, k);
            if e <= k || keyword_x(v, k, e) {
                return None;
            }
            let m = skip_ws_x(v, e);
            if m < v.len() && v[m] == '(' {
                if macro_name_x(v, k, e) {
                    if t == 1 {
                        let is_map = word_is_x(v, k, e, "map");
                        let lists = is_map || word_is_x(v, k, e, "filter");
                        let q = match macro_args_x(v, m + 1, is_map) {
                            Some(q) => q,
                            None => return None,
                        };
                        if q <= m + 1 || q > v.len() {
                            return None;
                        }
                        member_rest_x(v, q, if lists { 1 } else { 0 })
                    } else {
                        None
                    }
                } else if callable_x(v, k, e) {
                    let q = match args_x(v, m + 1, ')') {
                        Some(q) => q,
                        None => return None,
                    };
                    if q <= m + 1 || q > v.len() {
                        return None;
                    }
                    member_rest_x(v, q, 0)
                } else {
                    None
                }
            } else {
                member_rest_x(v, e, if t == 2 { 1 } else { 0 })
            }
        } else {
            None
        }
    } else if j < v.len() && v[j] == '[' {
        let q = match index_x(v, j + 1) {
            Some(q) => q,
            None => return None,
        };
        if q <= j + 1 || q > v.len() {
            return None;
        }
        member_rest_x(v, q, 0)
    } else {
        Some(p)
    }
}

fn macro_args_x(v: &Vec<char>, i: usize, three: bool) -> (r: Option<usize>)
    requires
        i <= v@.len(),
    ensures
        pos_of(r) == cel_macro_args(v@, i as int, three),
    decreases v@.len() - i, 7int,
{
    let k = skip_ws_x(v, i);
    if !(k < v.len() && is_letter_x(v[k])) {
        return None;
    }
    let e = word_end_x(v, k);
    if e <= k || keyword_x(v, k, e) || word_is_x(v, k, e, "sets") {
        return None;
    }
    let m = skip_ws_x(v, e);
    if !(m < v.len() && v[m] == ',') {
        return None;
    }
    let f = match expr_x(v, m + 1) {
        Some(f) => f,
        None => return None,
    };
    if f <= m + 1 || f > v.len() {
        return None;
    }
    let n = skip_ws_x(v, f);
    if n < v.len() && v[n] == ')' {
        Some(n + 1)
    } else if three && n < v.len() && v[n] == ',' {
        let g = match expr_x(v, n + 1) {
            Some(g) => g,
            None => return None,
        };
        if g <= n + 1 || g > v.len() {
            return None;
        }
        let q = skip_ws_x(v, g);
        if q < v.len() && v[q] == ')' {
            Some(q + 1)
        } else {
            None
        }
    } else {
        None
    }
}

fn entries_x(v: &Vec<char>, i: usize) -> (r: Option<usize>)
    requires
        i <= v@.len(),
    ensures
        pos_of(r) == cel_entries(v@, i as int),
    decreases v@.len() - i, 7int,
{
    let e = match expr_x(v, i) {
        Some(e) => e,
        None => return None,
    };
    if e <= i || e > v.len() {
        return None;
    }
    let k = skip_ws_x(v, e);
    if !(k < v.len() && v[k] == ':') {
        return None;
    }
    let f = match expr_x(v, k + 1) {
        Some(f) => f,
        None => return None,
    };
    if f <= k + 1 || f > v.len() {
        return None;
    }
    let m = skip_ws_x(v, f);
    if m < v.len() && v[m] == ',' {
        entries_x(v, m + 1)
    } else if m < v.len() && v[m] == '}' {
        Some(m + 1)
    } else {
        None
    }
}

fn primary_x(v: &Vec<char>, i: usize) -> (r: Option<usize>)
    requires
        i <= v@.len(),
    ensures
        pos_of(r) == cel_primary(v@, i as int),
    decreases v@.len() - i, 2int,
{
    let j = skip_ws_x(v, i);
    if j >= v.len() {
        None
    } else if v[j] == '(' {
        let e = match expr_x(v, j + 1) {
            Some(e) => e,
            None => return None,
        };
        if e <= j + 1 || e > v.len() {
            return None;
        }
        let k = skip_ws_x(v, e);
        if k < v.len() && v[k] == ')' {
            Some(k + 1)
        } else {
            None
        }
    } else if v[j] == '[' {
        args_x(v, j + 1, ']')
    } else if v[j] == '{' {
        let k = skip_ws_x(v, j + 1);
        if k < v.len() && v[k] == '}' {
            Some(k + 1)
        } else {
            entries_x(v, j + 1)
        }
    } else if v[j] == '.' {
        let k = skip_ws_x(v, j + 1);
        if k < v.len() {
            name_x(v, k)
        } else {
            None
        }
    } else if is_letter_x(v[j]) {
        let e = word_end_x(v, j);
        if j < e && literal_word_x(v, j, e) {
            Some(e)
        } else {
            name_x(v, j)
        }
    } else if is_digit_x(v[j]) {
        Some(number_end_x(v, j))
    } else if v[j] == '"' || v[j] == '\'' {
        string_end_x(v, j)
    } else {
        None
    }
}

fn name_x(v: &Vec<char>, k: usize) -> (r: Option<usize>)
    requires
        k <= v@.len(),
    ensures
        pos_of(r) == cel_name(v@, k as int),
    decreases v@.len() - k, 1int,
{
    if k >= v.len() || !is_letter_x(v[k]) {
        return None;
    }
    let e = word_end_x(v, k);
    if e <= k || keyword_x(v, k, e) {
        return None;
    }
    let m = skip_ws_x(v, e);
    if m < v.len() && v[m] == '(' {
        if callable_x(v, k, e) {
            args_x(v, m + 1, ')')
        } else {
            None
        }
    } else {
        Some(e)
    }
}

fn args_x(v: &Vec<char>, i: usize, close: char) -> (r: Option<usize>)
    requires
        i <= v@.len(),
    ensures
        pos_of(r) == cel_args(v@, i as int, close),
    decreases v@.len() - i, 8int,
{
    let j = skip_ws_x(v, i);
    if j < v.len() && v[j] == close {
        Some(j + 1)
    } else {
        elems_x(v, i, close)
    }
}

fn elems_x(v: &Vec<char>, i: usize, close: char) -> (r: Option<usize>)
    requires
        i <= v@.len(),
    ensures
        pos_of(r) == cel_elems(v@, i as int, close),
    decreases v@.len() - i, 7int,
{
    let e = match expr_x(v, i) {
        Some(e) => e,
        None => return None,
    };
    if e <= i || e > v.len() {
        return None;
    }
    let k = skip_ws_x(v, e);
    if k < v.len() && v[k] == ',' {
        elems_x(v, k + 1, close)
    } else if k < v.len() && v[k] == close {
        Some(k + 1)
    } else {
        None
    }
}

/// Whether `src` is one expression of the language rules may use.
pub fn is_plain_cel(src: &str) -> (r: bool)
    ensures
        r == cel_plain(src@),
{
    let v = str_chars(src);
    match expr_x(&v, 0) {
        Some(e) => 0 < e && e <= v.len() && skip_ws_x(&v, e) == v.len(),
        None => false,
    }
}

} // verus!
