//! Small helpers for building `String` values in verified code: turning
//! character sequences back into strings and rendering integers in decimal.

use vstd::prelude::*;

verus! {

use vstd::std_specs::iter::IteratorSpec;
use vstd::string::StringExecFns;

/// Relies on char::to_string: the returned string holds exactly this character.
#[verifier::external_body]
pub(crate) fn char_to_string(c: char) -> (r: String)
    ensures
        r@ == seq![c],
{
    c.to_string()
}

/// Appends one character to a string.
pub fn push_char(s: &mut String, c: char)
    ensures
        final(s)@ == old(s)@.push(c),
{
    let t = char_to_string(c);
    s.append(t.as_str());
    proof {
        assert(s@ =~= old(s)@.push(c));
    }
}

/// Appends a string slice to a string.
pub fn push_str(s: &mut String, t: &str)
    ensures
        final(s)@ == old(s)@ + t@,
{
    s.append(t);
}

/// Builds a string out of a character sequence.
pub fn chars_to_string(cs: &[char]) -> (r: String)
    ensures
        r@ == cs@,
{
    let mut out = String::new();
    let n = cs.len();
    let mut i: usize = 0;
    while i < n
        invariant
            i <= n,
            n == cs@.len(),
            out@ == cs@.subrange(0, i as int),
        decreases n - i,
    {
        push_char(&mut out, cs[i]);
        i = i + 1;
        proof {
            assert(out@ =~= cs@.subrange(0, i as int));
        }
    }
    proof {
        assert(out@ =~= cs@);
    }
    out
}

/// Collects the characters of a string slice.
pub fn str_to_chars(s: &str) -> (r: Vec<char>)
    ensures
        r@ == s@,
{
    let mut it = s.chars();
    let mut out: Vec<char> = Vec::new();
    proof {
        broadcast use vstd::string::next_postcondition;
        broadcast use vstd::string::axiom_spec_iter;
    }
    loop
        invariant
            out@ + it.remaining() == s@,
            it.obeys_prophetic_iter_laws(),
            it.decrease() is Some,
        decreases it.decrease()->0,
    {
        match it.next() {
            Some(c) => {
                out.push(c);
            },
            None => {
                proof {
                    assert(out@ =~= s@);
                }
                return out;
            },
        }
    }
}

/// Whether two strings hold the same characters.
pub fn string_eq(a: &String, b: &String) -> (r: bool)
    ensures
        r == (a@ == b@),
{
    String::eq(a, b)
}

/// The decimal digit character for a value below ten.
pub open spec fn digit_char(d: int) -> char {
    ((d + 48) as u8) as char
}

/// The decimal rendering of a non-negative integer, most significant digit first.
pub open spec fn dec_digits(n: int) -> Seq<char>
    decreases n,
{
    if n < 10 {
        seq![digit_char(n)]
    } else {
        dec_digits(n / 10) + seq![digit_char(n % 10)]
    }
}

/// The decimal rendering of a signed integer, with a leading minus sign when negative.
pub open spec fn int_text(i: int) -> Seq<char> {
    if i < 0 {
        seq!['-'] + dec_digits(-i)
    } else {
        dec_digits(i)
    }
}

fn dec_chars(n: u64) -> (r: Vec<char>)
    ensures
        r@ == dec_digits(n as int),
{
    let mut out: Vec<char> = Vec::new();
    let mut cur = n;
    if n < 10 {
        out.push((48 + n as u8) as char);
        return out;
    }
    while cur >= 10
        invariant
            cur >= 1,
            dec_digits(n as int) == dec_digits(cur as int) + out@,
        decreases cur,
    {
        let d = cur % 10;
        out.insert(0, (48 + d as u8) as char);
        cur = cur / 10;
        proof {
            assert(dec_digits(n as int) =~= dec_digits(cur as int) + out@);
        }
    }
    out.insert(0, (48 + cur as u8) as char);
    proof {
        assert(dec_digits(cur as int) == seq![digit_char(cur as int)]);
        assert(out@ =~= dec_digits(n as int));
    }
    out
}

/// Renders a signed integer in decimal.
pub fn i64_to_string(i: i64) -> (r: String)
    ensures
        r@ == int_text(i as int),
{
    if i >= 0 {
        let digits = dec_chars(i as u64);
        chars_to_string(digits.as_slice())
    } else {
        let mag: u64 = if i == i64::MIN {
            9223372036854775808u64
        } else {
            (-i) as u64
        };
        let digits = dec_chars(mag);
        let mut out = char_to_string('-');
        let rest = chars_to_string(digits.as_slice());
        out.append(rest.as_str());
        proof {
            assert(out@ =~= int_text(i as int));
        }
        out
    }
}

} // verus!
