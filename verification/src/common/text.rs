//! Numbers as text.

use vstd::prelude::*;
use vstd::string::StringExecFns;

verus! {

/// The character of a decimal digit.
pub open spec fn digit_char(d: nat) -> char {
    (('0' as u32) + d) as char
}

/// A natural number in decimal digits, without leading zeros.
pub open spec fn decimal(n: nat) -> Seq<char>
    decreases n,
{
    if n < 10 {
        seq![digit_char(n)]
    } else {
        decimal(n / 10).push(digit_char(n % 10))
    }
}

/// An integer in decimal digits.
pub open spec fn signed_decimal(n: int) -> Seq<char> {
    if n < 0 {
        seq!['-'] + decimal((-n) as nat)
    } else {
        decimal(n as nat)
    }
}

/// Two natural numbers have the same digits only if they are the same.
pub proof fn law_decimal_injective(a: nat, b: nat)
    requires
        decimal(a) == decimal(b),
    ensures
        a == b,
    decreases a,
{
    let (x, y) = (decimal(a), decimal(b));
    lemma_decimal_len(a);
    lemma_decimal_len(b);
    assert(x.last() == digit_char(a % 10) && y.last() == digit_char(b % 10));
    assert(a % 10 == b % 10);
    if a >= 10 {
        assert(x.drop_last() =~= decimal(a / 10));
        assert(y.drop_last() =~= decimal(b / 10));
        law_decimal_injective(a / 10, b / 10);
    }
}

proof fn lemma_decimal_len(n: nat)
    ensures
        decimal(n).len() >= 1,
        n >= 10 ==> decimal(n).len() >= 2,
    decreases n,
{
    if n >= 10 {
        lemma_decimal_len(n / 10);
    }
}

/// A decimal digit as text.
fn digit(d: u8) -> (r: &'static str)
    requires
        d < 10,
    ensures
        r@ == seq![digit_char(d as nat)],
{
    proof {
        reveal_strlit("0");
        reveal_strlit("1");
        reveal_strlit("2");
        reveal_strlit("3");
        reveal_strlit("4");
        reveal_strlit("5");
        reveal_strlit("6");
        reveal_strlit("7");
        reveal_strlit("8");
        reveal_strlit("9");
    }
    let r = match d {
        0 => "0",
        1 => "1",
        2 => "2",
        3 => "3",
        4 => "4",
        5 => "5",
        6 => "6",
        7 => "7",
        8 => "8",
        _ => "9",
    };
    proof {
        assert(r@ =~= seq![digit_char(d as nat)]);
    }
    r
}

/// A number in decimal digits.
pub fn decimal_text(n: u64) -> (r: String)
    ensures
        r@ == decimal(n as nat),
    decreases n,
{
    if n < 10 {
        digit(n as u8).to_owned()
    } else {
        let mut r = decimal_text(n / 10);
        r.append(digit((n % 10) as u8));
        proof {
            assert(r@ =~= decimal(n as nat));
        }
        r
    }
}

/// A signed number in decimal digits.
pub fn signed_decimal_text(n: i64) -> (r: String)
    ensures
        r@ == signed_decimal(n as int),
{
    if n < 0 {
        let mut r: String = "-".to_owned();
        let magnitude: u64 = (-(n as i128)) as u64;
        r.append(decimal_text(magnitude).as_str());
        proof {
            reveal_strlit("-");
            assert("-"@ =~= seq!['-']);
        }
        r
    } else {
        decimal_text(n as u64)
    }
}

/// The character of a hexadecimal digit, in upper case.
pub open spec fn hex_char(d: nat) -> char {
    if d < 10 {
        digit_char(d)
    } else {
        (('A' as u32) + (d - 10)) as char
    }
}

/// A natural number in hexadecimal digits, without leading zeros.
pub open spec fn hexadecimal(n: nat) -> Seq<char>
    decreases n,
{
    if n < 16 {
        seq![hex_char(n)]
    } else {
        hexadecimal(n / 16).push(hex_char(n % 16))
    }
}

/// A hexadecimal digit as text.
fn hex_digit(d: u8) -> (r: &'static str)
    requires
        d < 16,
    ensures
        r@ == seq![hex_char(d as nat)],
{
    if d < 10 {
        return digit(d);
    }
    proof {
        reveal_strlit("A");
        reveal_strlit("B");
        reveal_strlit("C");
        reveal_strlit("D");
        reveal_strlit("E");
        reveal_strlit("F");
    }
    let r = match d {
        10 => "A",
        11 => "B",
        12 => "C",
        13 => "D",
        14 => "E",
        _ => "F",
    };
    proof {
        assert(r@ =~= seq![hex_char(d as nat)]);
    }
    r
}

/// A number in hexadecimal digits.
pub fn hexadecimal_text(n: u64) -> (r: String)
    ensures
        r@ == hexadecimal(n as nat),
    decreases n,
{
    if n < 16 {
        hex_digit(n as u8).to_owned()
    } else {
        let mut r = hexadecimal_text(n / 16);
        r.append(hex_digit((n % 16) as u8));
        proof {
            assert(r@ =~= hexadecimal(n as nat));
        }
        r
    }
}

/// A string in quotes, as `Debug` writes it.
pub uninterp spec fn quoted(s: Seq<char>) -> Seq<char>;

/// `<str as Debug>::fmt` writes the string in quotes, with some characters
/// escaped. What it writes depends on the string alone.
#[verifier::external_body]
pub(crate) fn quoted_text(s: &str) -> (r: String)
    ensures
        r@ == quoted(s@),
{
    format!("{:?}", s)
}

/// The number that digits stand for, the highest first, each given by its value.
pub open spec fn number_of(digits: Seq<char>, base: nat, value: spec_fn(char) -> nat) -> nat
    decreases digits.len(),
{
    if digits.len() == 0 {
        0
    } else {
        number_of(digits.drop_last(), base, value) * base + value(digits.last())
    }
}

/// The decimal text of a number is made of digits only, has no leading zero, and stands for the number.
pub proof fn law_decimal_stands_for_number(n: nat)
    ensures
        number_of(decimal(n), 10, |c: char| (c as u32 - '0' as u32) as nat) == n,
        decimal(n).len() > 0,
        forall|i: int| 0 <= i < decimal(n).len() ==> '0' as u32 <= (#[trigger] decimal(n)[i]) as u32 <= '9' as u32,
        n >= 10 ==> decimal(n).len() > 1 && decimal(n)[0] != '0',
        n < 10 ==> decimal(n).len() == 1,
    decreases n,
{
    let value = |c: char| (c as u32 - '0' as u32) as nat;
    if n < 10 {
        assert(decimal(n).drop_last() =~= Seq::<char>::empty());
        assert(number_of(decimal(n).drop_last(), 10, value) == 0);
    } else {
        law_decimal_stands_for_number(n / 10);
        assert(decimal(n).drop_last() =~= decimal(n / 10));
        assert(decimal(n)[0] == decimal(n / 10)[0]);
        if n / 10 < 10 {
            assert(decimal(n / 10)[0] == digit_char(n / 10));
        }
    }
}

/// The text of a number below zero is that of its amount behind a minus sign; there is no plus sign.
pub proof fn law_sign_comes_first(n: int)
    ensures
        n >= 0 ==> signed_decimal(n) == decimal(n as nat),
        n < 0 ==> signed_decimal(n)[0] == '-' && signed_decimal(n).skip(1) == decimal((-n) as nat),
{
    if n < 0 {
        assert(signed_decimal(n).skip(1) =~= decimal((-n) as nat));
    }
}

/// The hexadecimal text of a number is made of digits and capital letters, has no leading zero, and stands
/// for the number.
pub proof fn law_hexadecimal_stands_for_number(n: nat)
    ensures
        number_of(
            hexadecimal(n),
            16,
            |c: char|
                if 'A' as u32 <= c as u32 {
                    (c as u32 - 'A' as u32 + 10) as nat
                } else {
                    (c as u32 - '0' as u32) as nat
                },
        ) == n,
        hexadecimal(n).len() > 0,
        forall|i: int|
            0 <= i < hexadecimal(n).len() ==> ('0' as u32 <= (#[trigger] hexadecimal(n)[i]) as u32 <= '9' as u32 || 'A' as u32
                <= hexadecimal(n)[i] as u32 <= 'F' as u32),
        n >= 16 ==> hexadecimal(n).len() > 1 && hexadecimal(n)[0] != '0',
        n < 16 ==> hexadecimal(n).len() == 1,
    decreases n,
{
    let value = |c: char|
        if 'A' as u32 <= c as u32 {
            (c as u32 - 'A' as u32 + 10) as nat
        } else {
            (c as u32 - '0' as u32) as nat
        };
    if n < 16 {
        assert(hexadecimal(n).drop_last() =~= Seq::<char>::empty());
        assert(number_of(hexadecimal(n).drop_last(), 16, value) == 0);
    } else {
        law_hexadecimal_stands_for_number(n / 16);
        assert(hexadecimal(n).drop_last() =~= hexadecimal(n / 16));
        assert(hexadecimal(n)[0] == hexadecimal(n / 16)[0]);
        if n / 16 < 16 {
            assert(hexadecimal(n / 16)[0] == hex_char(n / 16));
        }
    }
}

} // verus!
