//! Building the text of a dump.

use vstd::prelude::*;

verus! {

/// The character of a decimal digit.
pub open spec fn digit_char(digit: int) -> char {
    if digit == 0 {
        '0'
    } else if digit == 1 {
        '1'
    } else if digit == 2 {
        '2'
    } else if digit == 3 {
        '3'
    } else if digit == 4 {
        '4'
    } else if digit == 5 {
        '5'
    } else if digit == 6 {
        '6'
    } else if digit == 7 {
        '7'
    } else if digit == 8 {
        '8'
    } else {
        '9'
    }
}

/// The decimal digits of a natural number, without leading zeros.
pub open spec fn natural_text(n: nat) -> Seq<char>
    decreases n,
{
    if n < 10 {
        seq![digit_char(n as int)]
    } else {
        natural_text(n / 10).push(digit_char((n % 10) as int))
    }
}

/// The decimal text of an integer: a minus sign if it is negative, then the
/// digits of its magnitude.
pub open spec fn integer_text(n: int) -> Seq<char> {
    if n < 0 {
        seq!['-'] + natural_text((-n) as nat)
    } else {
        natural_text(n as nat)
    }
}

/// A run of `n` spaces.
pub open spec fn spaces(n: nat) -> Seq<char> {
    Seq::new(n, |i: int| ' ')
}

/// `String::push` of the standard library appends one character to a
/// string. Trusted: the string afterwards is the string before followed by
/// the character.
pub assume_specification[ String::push ](dest: &mut String, ch: char)
    ensures
        final(dest)@ == old(dest)@.push(ch),
;

/// Appends `n` spaces to `dest`.
pub fn push_spaces(dest: &mut String, n: usize)
    ensures
        final(dest)@ == old(dest)@ + spaces(n as nat),
{
    let mut done: usize = 0;
    while done < n
        invariant
            done <= n,
            dest@ == old(dest)@ + spaces(done as nat),
        decreases n - done,
    {
        dest.push(' ');
        done += 1;
    }
}

/// Appends the character of one decimal digit to `dest`.
fn push_digit(dest: &mut String, digit: u8)
    requires
        digit < 10,
    ensures
        final(dest)@ == old(dest)@.push(digit_char(digit as int)),
{
    let c = if digit == 0 {
        '0'
    } else if digit == 1 {
        '1'
    } else if digit == 2 {
        '2'
    } else if digit == 3 {
        '3'
    } else if digit == 4 {
        '4'
    } else if digit == 5 {
        '5'
    } else if digit == 6 {
        '6'
    } else if digit == 7 {
        '7'
    } else if digit == 8 {
        '8'
    } else {
        '9'
    };
    dest.push(c);
}

/// Appends the decimal text of `n` to `dest`.
pub fn push_integer(dest: &mut String, n: i8)
    ensures
        final(dest)@ == old(dest)@ + integer_text(n as int),
{
    let magnitude: u8 = if n < 0 {
        dest.push('-');
        (-(n as i16)) as u8
    } else {
        n as u8
    };
    if magnitude >= 100 {
        push_digit(dest, magnitude / 100);
    }
    if magnitude >= 10 {
        push_digit(dest, (magnitude / 10) % 10);
    }
    push_digit(dest, magnitude % 10);
    proof {
        reveal_with_fuel(natural_text, 3);
    }
}

} // verus!
