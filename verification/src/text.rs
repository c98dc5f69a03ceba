//! Small verified text helpers shared by the parsers and formatters.

use vstd::prelude::*;
use vstd::utf8::valid_utf8;
use vstd::utf8::decode_utf8;

verus! {

/// ASCII lower-casing of one character; every other character is unchanged.
pub open spec fn ascii_lower_char(c: char) -> char {
    if 'A' <= c && c <= 'Z' {
        ((c as u32) + 32) as char
    } else {
        c
    }
}

/// ASCII lower-casing of a character sequence.
pub open spec fn ascii_lower(s: Seq<char>) -> Seq<char> {
    s.map_values(|c: char| ascii_lower_char(c))
}

/// A copy of `s` where 'A'..='Z' become 'a'..='z' and every other character
/// is unchanged.
pub(crate) fn to_ascii_lowercase(s: &str) -> (r: String)
    ensures
        r@ == ascii_lower(s@),
{
    let alphabet = "abcdefghijklmnopqrstuvwxyz";
    proof {
        reveal_strlit("abcdefghijklmnopqrstuvwxyz");
        assert(alphabet@.len() == 26);
        assert forall|k: int| 0 <= k < 26 implies #[trigger] alphabet@[k] == ((97 + k) as u32) as char by {
            reveal_strlit("abcdefghijklmnopqrstuvwxyz");
        }
    }
    let n = s.unicode_len();
    let mut out = String::new();
    let mut i: usize = 0;
    while i < n
        invariant
            n == s@.len(),
            i <= n,
            alphabet@.len() == 26,
            forall|k: int| 0 <= k < 26 ==> #[trigger] alphabet@[k] == ((97 + k) as u32) as char,
            out@ == ascii_lower(s@.take(i as int)),
        decreases n - i,
    {
        let c = s.get_char(i);
        let ghost before = out@;
        if 'A' <= c && c <= 'Z' {
            let k = (c as u32 - 65) as usize;
            let piece = alphabet.substring_char(k, k + 1);
            proof {
                assert(piece@ =~= seq![alphabet@[k as int]]);
                assert(97 + k == (c as u32) + 32);
                assert(alphabet@[k as int] == ascii_lower_char(c));
            }
            out.append(piece);
        } else {
            let piece = s.substring_char(i, i + 1);
            proof {
                assert(piece@ =~= seq![c]);
            }
            out.append(piece);
        }
        proof {
            assert(s@.take(i + 1) =~= s@.take(i as int).push(c));
            assert(ascii_lower(s@.take(i + 1)) =~= ascii_lower(s@.take(i as int)).push(ascii_lower_char(c)));
        }
        i = i + 1;
    }
    proof {
        assert(s@.take(n as int) =~= s@);
    }
    out
}

/// True when `s` holds exactly the characters of `lit`.
pub fn text_is(s: &String, lit: &str) -> (r: bool)
    ensures
        r == (s@ == lit@),
{
    let other = String::from_str(lit);
    *s == other
}

/// Concatenation of three pieces into a fresh string.
pub fn concat3(a: &str, b: &str, c: &str) -> (r: String)
    ensures
        r@ == a@ + b@ + c@,
{
    let s = String::from_str(a);
    let s = s.concat(b);
    s.concat(c)
}


/// `char::is_whitespace`: the Unicode `White_Space` characters.
pub open spec fn is_ws(c: char) -> bool {
    ||| ('\u{9}' <= c && c <= '\u{d}')
    ||| c == ' '
    ||| c == '\u{85}'
    ||| c == '\u{a0}'
    ||| c == '\u{1680}'
    ||| ('\u{2000}' <= c && c <= '\u{200a}')
    ||| c == '\u{2028}'
    ||| c == '\u{2029}'
    ||| c == '\u{202f}'
    ||| c == '\u{205f}'
    ||| c == '\u{3000}'
}

/// Executable [`is_ws`].
pub fn is_whitespace(c: char) -> (r: bool)
    ensures
        r == is_ws(c),
{
    ('\u{9}' <= c && c <= '\u{d}') || c == ' ' || c == '\u{85}' || c == '\u{a0}' || c == '\u{1680}'
        || ('\u{2000}' <= c && c <= '\u{200a}') || c == '\u{2028}' || c == '\u{2029}' || c == '\u{202f}'
        || c == '\u{205f}' || c == '\u{3000}'
}

/// First index in `s[i..end]` that is not whitespace, or `end`.
pub open spec fn skip_ws_fwd(s: Seq<char>, i: int, end: int) -> int
    decreases end - i,
{
    if i < end && is_ws(s[i]) {
        skip_ws_fwd(s, i + 1, end)
    } else {
        i
    }
}

/// End of `s[start..j]` once trailing whitespace is dropped.
pub open spec fn skip_ws_back(s: Seq<char>, start: int, j: int) -> int
    decreases j - start,
{
    if j > start && is_ws(s[j - 1]) {
        skip_ws_back(s, start, j - 1)
    } else {
        j
    }
}

/// `str::trim` of `s[a..b]`: leading and trailing whitespace removed.
pub open spec fn trim_range(s: Seq<char>, a: int, b: int) -> Seq<char> {
    let a2 = skip_ws_fwd(s, a, b);
    s.subrange(a2, skip_ws_back(s, a2, b))
}

/// `str::trim` of a whole sequence.
pub open spec fn trim(s: Seq<char>) -> Seq<char> {
    trim_range(s, 0, s.len() as int)
}

/// The bounds of `v[a..b]` once trimmed.
pub fn trim_bounds(v: &Vec<char>, a: usize, b: usize) -> (r: (usize, usize))
    requires
        a <= b <= v@.len(),
    ensures
        r.0 == skip_ws_fwd(v@, a as int, b as int),
        r.1 == skip_ws_back(v@, r.0 as int, b as int),
        a <= r.0 <= r.1 <= b,
{
    let mut i = a;
    while i < b && is_whitespace(v[i])
        invariant
            a <= i <= b <= v@.len(),
            skip_ws_fwd(v@, i as int, b as int) == skip_ws_fwd(v@, a as int, b as int),
        decreases b - i,
    {
        i = i + 1;
    }
    let mut j = b;
    while j > i && is_whitespace(v[j - 1])
        invariant
            a <= i <= j <= b <= v@.len(),
            skip_ws_back(v@, i as int, j as int) == skip_ws_back(v@, i as int, b as int),
        decreases j - i,
    {
        j = j - 1;
    }
    (i, j)
}

/// `std::str::from_utf8`: the text of `bytes` when they are well-formed
/// UTF-8 (as std documents it: an error exactly when they are not), decoded
/// character by character.
#[verifier::external_body]
pub(crate) fn utf8_text(bytes: &[u8]) -> (r: Option<&str>)
    ensures
        r is Some <==> valid_utf8(bytes@),
        r matches Some(s) ==> s@ == decode_utf8(bytes@),
{
    std::str::from_utf8(bytes).ok()
}

/// `char::to_string`: the one-character string.
#[verifier::external_body]
pub(crate) fn char_string(c: char) -> (r: String)
    ensures
        r@ == seq![c],
{
    c.to_string()
}

/// True when `v[a..b]` starts with the characters of `pat`.
pub fn starts_with_at(v: &Vec<char>, a: usize, b: usize, pat: &str) -> (r: bool)
    requires
        a <= b <= v@.len(),
    ensures
        r == (b - a >= pat@.len() && v@.subrange(a as int, a + pat@.len()) == pat@),
{
    let n = pat.unicode_len();
    if b - a < n {
        return false;
    }
    let mut i: usize = 0;
    while i < n
        invariant
            n == pat@.len(),
            a + n <= b <= v@.len(),
            i <= n,
            forall|k: int| 0 <= k < i ==> v@[a + k] == pat@[k],
        decreases n - i,
    {
        if v[a + i] != pat.get_char(i) {
            assert(v@.subrange(a as int, a + n)[i as int] != pat@[i as int]);
            return false;
        }
        i = i + 1;
    }
    assert(v@.subrange(a as int, a + n) =~= pat@);
    true
}

} // verus!
