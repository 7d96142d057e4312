//! Decimal notation: the text of an integer and the value of a run of digits.

use vstd::prelude::*;

verus! {

/// `String::push` of the standard library appends one character to the end
/// of the string and leaves the characters before it as they were.
pub assume_specification[ std::string::String::push ](s: &mut std::string::String, c: char)
    ensures
        final(s)@ == old(s)@.push(c),
;

/// The character that writes the digit `d`.
pub open spec fn digit_char(d: int) -> char {
    if d == 0 {
        '0'
    } else if d == 1 {
        '1'
    } else if d == 2 {
        '2'
    } else if d == 3 {
        '3'
    } else if d == 4 {
        '4'
    } else if d == 5 {
        '5'
    } else if d == 6 {
        '6'
    } else if d == 7 {
        '7'
    } else if d == 8 {
        '8'
    } else {
        '9'
    }
}

/// Whether `c` is one of the ten ASCII digits.
pub open spec fn is_digit(c: char) -> bool {
    '0' <= c && c <= '9'
}

/// The number that the digit `c` stands for.
pub open spec fn digit_value(c: char) -> int {
    c as int - '0' as int
}

/// The decimal digits of a natural number, most significant first, without
/// leading zeros.
pub open spec fn natural_text(n: nat) -> Seq<char>
    decreases n,
{
    if n < 10 {
        seq![digit_char(n as int)]
    } else {
        natural_text(n / 10).push(digit_char((n % 10) as int))
    }
}

/// The decimal notation of an integer: a minus sign for a negative number,
/// then the digits of its magnitude.
pub open spec fn decimal_text(i: int) -> Seq<char> {
    if i < 0 {
        seq!['-'] + natural_text((-i) as nat)
    } else {
        natural_text(i as nat)
    }
}

/// The number that a run of digits denotes, read most significant first.
pub open spec fn digits_value(digits: Seq<char>) -> nat
    decreases digits.len(),
{
    if digits.len() == 0 {
        0
    } else {
        (digits_value(digits.drop_last()) * 10 + digit_value(digits.last())) as nat
    }
}

/// A digit stands for the number whose digit character it is.
pub proof fn lemma_digit_char_value(c: char)
    requires
        is_digit(c),
    ensures
        0 <= digit_value(c) < 10,
        digit_char(digit_value(c)) == c,
{
}

/// Reading the decimal digits of a natural number gives the number back.
pub proof fn lemma_digits_of_natural_text(n: nat)
    ensures
        natural_text(n).len() >= 1,
        forall|i: int| 0 <= i < natural_text(n).len() ==> is_digit(#[trigger] natural_text(n)[i]),
        digits_value(natural_text(n)) == n,
        n > 0 ==> natural_text(n)[0] != '0',
    decreases n,
{
    if n < 10 {
        let t = natural_text(n);
        assert(t.drop_last() =~= Seq::<char>::empty());
        assert(digits_value(t.drop_last()) == 0);
        assert(t.last() == digit_char(n as int));
    } else {
        lemma_digits_of_natural_text(n / 10);
        let t = natural_text(n);
        let head = natural_text(n / 10);
        assert(t.drop_last() =~= head);
        assert(t.last() == digit_char((n % 10) as int));
        assert(t[0] == head[0]);
    }
}

/// Writing the value of a run of digits that does not start with a
/// superfluous zero gives the run back.
pub proof fn lemma_natural_text_of_digits(digits: Seq<char>)
    requires
        digits.len() >= 1,
        forall|i: int| 0 <= i < digits.len() ==> is_digit(#[trigger] digits[i]),
        digits.len() > 1 ==> digits[0] != '0',
    ensures
        natural_text(digits_value(digits)) == digits,
        digits.len() > 1 ==> digits_value(digits) >= 10,
        digits_value(digits) == 0 ==> digits[0] == '0',
    decreases digits.len(),
{
    let front = digits.drop_last();
    let last = digits.last();
    lemma_digit_char_value(last);
    if digits.len() == 1 {
        assert(front =~= Seq::<char>::empty());
        assert(digits_value(front) == 0);
        assert(digits_value(digits) == digit_value(last));
        assert(natural_text(digits_value(digits)) =~= digits);
    } else {
        assert(front[0] == digits[0]);
        assert forall|i: int| 0 <= i < front.len() implies is_digit(#[trigger] front[i]) by {
            assert(front[i] == digits[i]);
        }
        lemma_natural_text_of_digits(front);
        let v = digits_value(front);
        assert(v >= 1) by {
            if front.len() == 1 {
                lemma_digit_char_value(front[0]);
                assert(front.drop_last() =~= Seq::<char>::empty());
                assert(digits_value(front.drop_last()) == 0);
            }
        }
        let n = digits_value(digits);
        assert(n == v * 10 + digit_value(last));
        assert(n / 10 == v && n % 10 == digit_value(last));
        assert(natural_text(n) =~= digits);
    }
}

/// The character for one digit.
pub fn digit_to_char(d: u8) -> (c: char)
    requires
        d < 10,
    ensures
        c == digit_char(d as int),
{
    if d == 0 {
        '0'
    } else if d == 1 {
        '1'
    } else if d == 2 {
        '2'
    } else if d == 3 {
        '3'
    } else if d == 4 {
        '4'
    } else if d == 5 {
        '5'
    } else if d == 6 {
        '6'
    } else if d == 7 {
        '7'
    } else if d == 8 {
        '8'
    } else {
        '9'
    }
}

/// Appends the decimal digits of `n` to `out`.
pub fn push_natural(out: &mut String, n: u64)
    ensures
        final(out)@ == old(out)@ + natural_text(n as nat),
    decreases n,
{
    if n >= 10 {
        push_natural(out, n / 10);
    }
    let d: u8 = (n % 10) as u8;
    out.push(digit_to_char(d));
    proof {
        if n >= 10 {
            assert(final(out)@ =~= old(out)@ + natural_text(n as nat));
        } else {
            assert(final(out)@ =~= old(out)@ + natural_text(n as nat));
        }
    }
}

/// The decimal notation of a signed 64-bit integer.
pub fn i64_to_string(i: i64) -> (s: String)
    ensures
        s@ == decimal_text(i as int),
{
    let mut s = String::new();
    if i < 0 {
        s.push('-');
        let magnitude: u64 = if i == i64::MIN {
            9223372036854775808u64
        } else {
            (-i) as u64
        };
        push_natural(&mut s, magnitude);
        assert(s@ =~= decimal_text(i as int));
    } else {
        push_natural(&mut s, i as u64);
        assert(s@ =~= decimal_text(i as int));
    }
    s
}

/// The decimal notation of a length or a count.
pub fn usize_to_string(n: usize) -> (s: String)
    ensures
        s@ == natural_text(n as nat),
{
    let mut s = String::new();
    push_natural(&mut s, n as u64);
    assert(s@ =~= natural_text(n as nat));
    s
}

} // verus!
