//! Building text: single characters and decimal numbers.

use vstd::prelude::*;

verus! {

/// `String::push` of std appends one character to the end of the string, as
/// its documentation says; this contract states that and nothing else.
pub assume_specification[ String::push ](s: &mut String, ch: char)
    ensures
        final(s)@ == old(s)@.push(ch),
;

/// The character that stands for a byte: the code point of the same number.
pub open spec fn byte_char(b: u8) -> char {
    b as char
}

/// The text that a run of bytes stands for, byte by byte.
pub open spec fn latin1(bytes: Seq<u8>) -> Seq<char> {
    Seq::new(bytes.len(), |i: int| byte_char(bytes[i]))
}

/// What each of a list of strings holds.
pub open spec fn texts(lines: Seq<String>) -> Seq<Seq<char>> {
    Seq::new(lines.len(), |i: int| lines[i]@)
}

/// The character of a decimal digit.
pub open spec fn digit_char(d: int) -> char {
    byte_char((48 + d) as u8)
}

/// A number written in decimal, without sign or leading zeros.
pub open spec fn decimal(n: nat) -> Seq<char>
    decreases n,
{
    if n < 10 {
        seq![digit_char(n as int)]
    } else {
        decimal(n / 10).push(digit_char((n % 10) as int))
    }
}

/// Ten to the power `k`.
pub open spec fn pow10(k: nat) -> nat
    decreases k,
{
    if k == 0 {
        1
    } else {
        10 * pow10((k - 1) as nat)
    }
}

/// A number below ten to the power `k` has at most `k` decimal digits.
pub proof fn lemma_decimal_len(n: nat, k: nat)
    requires
        1 <= k,
        n < pow10(k),
    ensures
        1 <= decimal(n).len() <= k,
    decreases n,
{
    if n >= 10 {
        if k == 1 {
            assert(pow10(1) == 10) by {
                reveal_with_fuel(pow10, 2);
            }
        } else {
            lemma_decimal_len(n / 10, (k - 1) as nat);
        }
    }
}

/// Every unsigned 64-bit number has at most twenty decimal digits.
pub proof fn lemma_decimal_len_u64(n: nat)
    requires
        n <= u64::MAX,
    ensures
        1 <= decimal(n).len() <= 20,
{
    assert(pow10(20) == 100000000000000000000) by {
        reveal_with_fuel(pow10, 21);
    }
    lemma_decimal_len(n, 20);
}

/// Appends `n`, written in decimal, to `s`.
pub fn push_decimal(s: &mut String, n: u64)
    ensures
        final(s)@ == old(s)@ + decimal(n as nat),
    decreases n,
{
    if n >= 10 {
        push_decimal(s, n / 10);
    }
    let d: u8 = (n % 10) as u8;
    s.push((48 + d) as char);
    assert(final(s)@ =~= old(s)@ + decimal(n as nat));
}

/// The number of decimal digits of `val`.
pub fn digits_len(val: usize) -> (len: usize)
    ensures
        len == decimal(val as nat).len(),
        1 <= len <= 20,
{
    let mut rest: usize = val;
    let mut len: usize = 1;
    proof {
        lemma_decimal_len_u64(val as nat);
    }
    while rest >= 10
        invariant
            1 <= len,
            len + decimal(rest as nat).len() == 1 + decimal(val as nat).len(),
            decimal(val as nat).len() <= 20,
        decreases rest,
    {
        proof {
            lemma_decimal_len_u64((rest / 10) as nat);
        }
        rest = rest / 10;
        len = len + 1;
    }
    len
}

} // verus!
