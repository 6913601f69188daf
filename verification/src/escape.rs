//! Escaping of text for embedding as a string literal in generated source:
//! backslash, quote, newline, carriage return and tab become two-character
//! escape sequences; every other character stands unchanged.

use crate::text::to_chars;
use crate::text::chars_to_string;
use vstd::prelude::*;

verus! {

/// The escape sequence a single character becomes.
pub open spec fn escaped_char(c: char) -> Seq<char> {
    if c == '\\' {
        seq!['\\', '\\']
    } else if c == '"' {
        seq!['\\', '"']
    } else if c == '\n' {
        seq!['\\', 'n']
    } else if c == '\r' {
        seq!['\\', 'r']
    } else if c == '\t' {
        seq!['\\', 't']
    } else {
        seq![c]
    }
}

/// The escaped form of the suffix of `s` starting at `i`.
pub open spec fn escaped_from(s: Seq<char>, i: int) -> Seq<char>
    decreases s.len() - i,
{
    if i < 0 || i >= s.len() {
        Seq::empty()
    } else {
        escaped_char(s[i]) + escaped_from(s, i + 1)
    }
}

/// The escaped form of `s`.
pub open spec fn escaped(s: Seq<char>) -> Seq<char> {
    escaped_from(s, 0)
}

/// `s` with backslash, quote, newline, carriage return and tab replaced by
/// their two-character escape sequences.
pub fn escape_rust_string(s: &str) -> (r: String)
    ensures
        r@ == escaped(s@),
{
    let cs = to_chars(s);
    let n = cs.len();
    let mut out: Vec<char> = Vec::new();
    let mut i: usize = 0;
    while i < n
        invariant
            i <= n,
            n == cs@.len(),
            cs@ == s@,
            escaped(s@) == out@ + escaped_from(s@, i as int),
        decreases n - i,
    {
        let c = cs[i];
        let ghost out0 = out@;
        if c == '\\' {
            out.push('\\');
            out.push('\\');
        } else if c == '"' {
            out.push('\\');
            out.push('"');
        } else if c == '\n' {
            out.push('\\');
            out.push('n');
        } else if c == '\r' {
            out.push('\\');
            out.push('r');
        } else if c == '\t' {
            out.push('\\');
            out.push('t');
        } else {
            out.push(c);
        }
        proof {
            assert(out@ =~= out0 + escaped_char(c));
            assert(escaped_from(s@, i as int) == escaped_char(s@[i as int]) + escaped_from(
                s@,
                i + 1 as int,
            ));
            assert(out0 + escaped_from(s@, i as int) =~= out@ + escaped_from(s@, i + 1 as int));
        }
        i += 1;
    }
    proof {
        assert(escaped(s@) =~= out@);
    }
    chars_to_string(&out)
}

} // verus!
