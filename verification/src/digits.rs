//! Fixed-width decimal rendering and reading of small numbers, used by the
//! timestamp display format and the persistence codec.

use vstd::prelude::*;

verus! {

/// The decimal digit character for a value below ten.
pub open spec fn digit(n: int) -> char {
    if n == 0 {
        '0'
    } else if n == 1 {
        '1'
    } else if n == 2 {
        '2'
    } else if n == 3 {
        '3'
    } else if n == 4 {
        '4'
    } else if n == 5 {
        '5'
    } else if n == 6 {
        '6'
    } else if n == 7 {
        '7'
    } else if n == 8 {
        '8'
    } else {
        '9'
    }
}

/// The value of a decimal digit character, or `None` for any other character.
pub open spec fn digit_val(c: char) -> Option<int> {
    if c == '0' {
        Some(0int)
    } else if c == '1' {
        Some(1int)
    } else if c == '2' {
        Some(2int)
    } else if c == '3' {
        Some(3int)
    } else if c == '4' {
        Some(4int)
    } else if c == '5' {
        Some(5int)
    } else if c == '6' {
        Some(6int)
    } else if c == '7' {
        Some(7int)
    } else if c == '8' {
        Some(8int)
    } else if c == '9' {
        Some(9int)
    } else {
        None
    }
}

/// Reading back the digit character of a value below ten yields that value.
pub proof fn lemma_digit_val_of_digit(n: int)
    requires
        0 <= n < 10,
    ensures
        digit_val(digit(n)) == Some(n),
{
}

/// A value below one hundred as exactly two decimal digit characters.
pub open spec fn two_digits(n: int) -> Seq<char> {
    seq![digit(n / 10), digit(n % 10)]
}

/// A value below ten thousand as exactly four decimal digit characters.
pub open spec fn four_digits(n: int) -> Seq<char> {
    seq![digit(n / 1000), digit((n / 100) % 10), digit((n / 10) % 10), digit(n % 10)]
}



/// The digit character of a value below ten.
pub fn digit_char(n: u16) -> (r: char)
    requires
        n < 10,
    ensures
        r == digit(n as int),
{
    match n {
        0 => '0',
        1 => '1',
        2 => '2',
        3 => '3',
        4 => '4',
        5 => '5',
        6 => '6',
        7 => '7',
        8 => '8',
        _ => '9',
    }
}

/// Appends the two-digit rendering of `n` to `out`.
pub fn push_two_digits(out: &mut Vec<char>, n: u16)
    requires
        n < 100,
    ensures
        final(out)@ == old(out)@ + two_digits(n as int),
{
    let ghost pre = out@;
    out.push(digit_char(n / 10));
    out.push(digit_char(n % 10));
    proof {
        assert(out@ =~= pre + two_digits(n as int));
    }
}

/// Appends the four-digit rendering of `n` to `out`.
pub fn push_four_digits(out: &mut Vec<char>, n: u16)
    requires
        n < 10000,
    ensures
        final(out)@ == old(out)@ + four_digits(n as int),
{
    let ghost pre = out@;
    out.push(digit_char(n / 1000));
    out.push(digit_char((n / 100) % 10));
    out.push(digit_char((n / 10) % 10));
    out.push(digit_char(n % 10));
    proof {
        assert(out@ =~= pre + four_digits(n as int));
    }
}

} // verus!
