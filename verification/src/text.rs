//! Text helpers: string comparison and the pieces of the JSON text format.

use vstd::prelude::*;

verus! {

/// Compares two string slices with `<str as PartialEq>::eq` from std, which
/// vstd leaves without a specification. The contract claims what std documents:
/// the result is true exactly when the two slices hold the same characters.
#[verifier::external_body]
pub fn str_equal(a: &str, b: &str) -> (r: bool)
    ensures
        r == (a@ == b@),
{
    a == b
}

/// The characters of each string of a list.
pub open spec fn string_views(s: Seq<String>) -> Seq<Seq<char>> {
    s.map_values(|x: String| x@)
}

/// Copies a list of strings.
pub fn copy_strings(v: &Vec<String>) -> (r: Vec<String>)
    ensures
        r@.map_values(|s: String| s@) == v@.map_values(|s: String| s@),
{
    let n = v.len();
    let mut r: Vec<String> = Vec::new();
    let mut i: usize = 0;
    while i < n
        invariant
            n == v@.len(),
            i <= n,
            r@.len() == i,
            forall|j: int| 0 <= j < i ==> #[trigger] r@[j]@ == v@[j]@,
        decreases n - i,
    {
        r.push(v[i].clone());
        i = i + 1;
    }
    assert(r@.map_values(|s: String| s@) =~= v@.map_values(|s: String| s@));
    r
}

/// The lower-case hexadecimal digits.
pub open spec fn hex_digits() -> Seq<char> {
    seq!['0', '1', '2', '3', '4', '5', '6', '7', '8', '9', 'a', 'b', 'c', 'd', 'e', 'f']
}

/// The decimal digits.
pub open spec fn dec_digits() -> Seq<char> {
    seq!['0', '1', '2', '3', '4', '5', '6', '7', '8', '9']
}

/// The decimal text of `n`, most significant digit first, without leading zeros.
pub open spec fn decimal(n: nat) -> Seq<char>
    decreases n,
{
    if n < 10 {
        seq![dec_digits()[n as int]]
    } else {
        decimal(n / 10) + seq![dec_digits()[(n % 10) as int]]
    }
}

/// How one character is written inside a JSON string: the quote, the
/// backslash and the control characters are escaped, the short forms used
/// where JSON has them; every other character stands for itself.
pub open spec fn json_escape_char(c: char) -> Seq<char> {
    if c == '"' {
        seq!['\\', '"']
    } else if c == '\\' {
        seq!['\\', '\\']
    } else if c == '\u{8}' {
        seq!['\\', 'b']
    } else if c == '\u{c}' {
        seq!['\\', 'f']
    } else if c == '\n' {
        seq!['\\', 'n']
    } else if c == '\r' {
        seq!['\\', 'r']
    } else if c == '\t' {
        seq!['\\', 't']
    } else if (c as u32) < 0x20 {
        seq!['\\', 'u', '0', '0', hex_digits()[((c as u32) / 16) as int], hex_digits()[((c as u32) % 16) as int]]
    } else {
        seq![c]
    }
}

/// The characters of `s`, each written as inside a JSON string.
pub open spec fn json_escape(s: Seq<char>) -> Seq<char>
    decreases s.len(),
{
    if s.len() == 0 {
        Seq::empty()
    } else {
        json_escape(s.drop_last()) + json_escape_char(s.last())
    }
}

/// `s` as a JSON string literal.
pub open spec fn json_string(s: Seq<char>) -> Seq<char> {
    seq!['"'] + json_escape(s) + seq!['"']
}

/// The one-character string of the decimal digit `d`.
fn dec_digit(d: u64) -> (r: &'static str)
    requires
        d < 10,
    ensures
        r@ == seq![dec_digits()[d as int]],
{
    let digits = "0123456789";
    proof {
        reveal_strlit("0123456789");
    }
    digits.substring_char(d as usize, (d + 1) as usize)
}

/// The decimal text of `n`.
pub fn write_decimal(n: u64) -> (r: String)
    ensures
        r@ == decimal(n as nat),
    decreases n,
{
    if n < 10 {
        String::from_str(dec_digit(n))
    } else {
        let mut s = write_decimal(n / 10);
        s.append(dec_digit(n % 10));
        s
    }
}

/// Appends `lit` to `out`.
fn push_lit(out: &mut String, lit: &str)
    ensures
        final(out)@ == old(out)@ + lit@,
{
    out.append(lit);
}

/// Appends the JSON form of the character `c`, which stands at `i` in `s`.
fn push_escaped_char(out: &mut String, s: &str, i: usize)
    requires
        i < s@.len() <= usize::MAX,
    ensures
        final(out)@ == old(out)@ + json_escape_char(s@[i as int]),
{
    let c = s.get_char(i);
    let code = c as u32;
    if c == '"' {
        proof { reveal_strlit("\\\""); }
        push_lit(out, "\\\"");
    } else if c == '\\' {
        proof { reveal_strlit("\\\\"); }
        push_lit(out, "\\\\");
    } else if c == '\u{8}' {
        proof { reveal_strlit("\\b"); }
        push_lit(out, "\\b");
    } else if c == '\u{c}' {
        proof { reveal_strlit("\\f"); }
        push_lit(out, "\\f");
    } else if c == '\n' {
        proof { reveal_strlit("\\n"); }
        push_lit(out, "\\n");
    } else if c == '\r' {
        proof { reveal_strlit("\\r"); }
        push_lit(out, "\\r");
    } else if c == '\t' {
        proof { reveal_strlit("\\t"); }
        push_lit(out, "\\t");
    } else if code < 0x20 {
        let hex = "0123456789abcdef";
        proof {
            reveal_strlit("\\u00");
            reveal_strlit("0123456789abcdef");
        }
        push_lit(out, "\\u00");
        let hi = (code / 16) as usize;
        let lo = (code % 16) as usize;
        push_lit(out, hex.substring_char(hi, hi + 1));
        push_lit(out, hex.substring_char(lo, lo + 1));
        assert(final(out)@ =~= old(out)@ + json_escape_char(c));
    } else {
        push_lit(out, s.substring_char(i, i + 1));
        assert(s@.subrange(i as int, i + 1) =~= seq![c]);
    }
}

/// Appends `s` as a JSON string literal to `out`.
pub fn push_json_string(out: &mut String, s: &str)
    ensures
        final(out)@ == old(out)@ + json_string(s@),
{
    proof { reveal_strlit("\""); }
    push_lit(out, "\"");
    let ghost start = out@;
    let n = s.unicode_len();
    let mut i: usize = 0;
    while i < n
        invariant
            n == s@.len(),
            i <= n,
            out@ == start + json_escape(s@.subrange(0, i as int)),
        decreases n - i,
    {
        push_escaped_char(out, s, i);
        assert(s@.subrange(0, i + 1).drop_last() =~= s@.subrange(0, i as int));
        i = i + 1;
    }
    assert(s@.subrange(0, n as int) =~= s@);
    push_lit(out, "\"");
    assert(final(out)@ =~= old(out)@ + json_string(s@));
}

} // verus!
