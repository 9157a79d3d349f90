//! Decimal digits of integers and the text of booleans.
use vstd::prelude::*;
use vstd::string::StringExecFns;

verus! {

/// The character of the decimal digit `d`.
pub open spec fn digit_char(d: nat) -> char {
    (48 + d) as char
}

/// The decimal digits of `n`, most significant first, with no leading zeros.
pub open spec fn digits_text(n: nat) -> Seq<char>
    decreases n,
{
    if n < 10 {
        seq![digit_char(n)]
    } else {
        digits_text(n / 10).push(digit_char(n % 10))
    }
}

/// The text of a `u16` in decimal.
pub open spec fn u16_text(n: nat) -> Seq<char> {
    digits_text(n)
}

/// `"true"` or `"false"`.
pub open spec fn bool_text(b: bool) -> Seq<char> {
    if b {
        "true"@
    } else {
        "false"@
    }
}

/// The one-character text of the digit `d`.
fn digit_str(d: u16) -> (r: &'static str)
    requires
        d < 10,
    ensures
        r@ == seq![digit_char(d as nat)],
{
    proof {
        reveal_strlit("0");
        reveal_strlit("1");
        reveal_strlit("2");
        reveal_strlit("3");
        reveal_strlit("4");
        reveal_strlit("5");
        reveal_strlit("6");
        reveal_strlit("7");
        reveal_strlit("8");
        reveal_strlit("9");
    }
    match d {
        0 => "0",
        1 => "1",
        2 => "2",
        3 => "3",
        4 => "4",
        5 => "5",
        6 => "6",
        7 => "7",
        8 => "8",
        _ => "9",
    }
}

/// Appends the decimal digits of `n` to `s`.
pub fn append_u16(s: &mut String, n: u16)
    ensures
        final(s)@ == old(s)@ + u16_text(n as nat),
    decreases n,
{
    if n >= 10 {
        append_u16(s, n / 10);
    }
    s.append(digit_str(n % 10));
    proof {
        reveal_with_fuel(digits_text, 2);
        assert(s@ =~= old(s)@ + u16_text(n as nat));
    }
}

/// Whether `c` is one of the characters `0` to `9`.
pub open spec fn is_digit(c: char) -> bool {
    48 <= c as int <= 57
}

/// The number that a string of decimal digits reads as.
pub open spec fn numeral_value(s: Seq<char>) -> int
    decreases s.len(),
{
    if s.len() == 0 {
        0
    } else {
        numeral_value(s.drop_last()) * 10 + (s.last() as int - 48)
    }
}

/// The decimal digits of `n` are digits, read back as `n`, and do not start
/// with a zero unless `n` is zero.
proof fn lemma_digits_text(n: nat)
    ensures
        digits_text(n).len() >= 1,
        forall|i: int| 0 <= i < digits_text(n).len() ==> is_digit(#[trigger] digits_text(n)[i]),
        numeral_value(digits_text(n)) == n,
        n > 0 ==> digits_text(n)[0] != '0',
    decreases n,
{
    if n >= 10 {
        lemma_digits_text(n / 10);
        let t = digits_text(n / 10);
        assert(digits_text(n) == t.push(digit_char(n % 10)));
        assert(t.push(digit_char(n % 10)).drop_last() =~= t);
        assert(digit_char(n % 10) as int == 48 + n % 10);
        assert(t.push(digit_char(n % 10))[0] == t[0]);
        assert(numeral_value(t.push(digit_char(n % 10))) == numeral_value(t) * 10 + (n % 10));
        assert((n / 10) * 10 + n % 10 == n);
    } else {
        assert(digit_char(n) as int == 48 + n);
        assert(seq![digit_char(n)].drop_last() =~= Seq::<char>::empty());
        assert(numeral_value(Seq::<char>::empty()) == 0);
        assert(numeral_value(seq![digit_char(n)]) == 0 * 10 + (n as int));
    }
}

/// The client column is the plain decimal numeral of the client id: at
/// least one digit, only digits, reading back as the id, and no leading
/// zero except for the id zero itself.
pub proof fn law_u16_text_is_the_numeral(n: u16)
    ensures
        u16_text(n as nat).len() >= 1,
        forall|i: int|
            0 <= i < u16_text(n as nat).len() ==> is_digit(#[trigger] u16_text(n as nat)[i]),
        numeral_value(u16_text(n as nat)) == n,
        n > 0 ==> u16_text(n as nat)[0] != '0',
{
    lemma_digits_text(n as nat);
}

} // verus!
