//! Numbers in decimal notation.
use vstd::prelude::*;
use vstd::string::*;

use crate::text::chars_of;

verus! {

/// The decimal digit of value `d`.
pub open spec fn digit(d: nat) -> char {
    (('0' as u32) + d) as char
}

/// `n` in decimal notation, without leading zeros.
pub open spec fn decimal(n: nat) -> Seq<char>
    decreases n,
{
    if n < 10 {
        seq![digit(n)]
    } else {
        decimal(n / 10).push(digit(n % 10))
    }
}

/// `n` in decimal notation, with a minus sign where it is negative.
pub open spec fn signed_decimal(n: int) -> Seq<char> {
    if n < 0 {
        seq!['-'] + decimal((-n) as nat)
    } else {
        decimal(n as nat)
    }
}

/// Whether `c` is one of the digits 0 to 9.
pub open spec fn is_digit(c: char) -> bool {
    '0' <= c <= '9'
}

/// Whether every character of `s` is a digit.
pub open spec fn all_digits(s: Seq<char>) -> bool {
    forall|i: int| 0 <= i < s.len() ==> is_digit(#[trigger] s[i])
}

/// The number that a sequence of digits denotes.
pub open spec fn value(s: Seq<char>) -> nat
    decreases s.len(),
{
    if s.len() == 0 {
        0
    } else {
        (10 * value(s.drop_last()) + (s.last() as u32 - '0' as u32)) as nat
    }
}

/// The number that `s` denotes: an optional plus sign and then at least one digit and nothing
/// else, of a value that 64 bits hold.
pub open spec fn parsed(s: Seq<char>) -> Option<u64> {
    let digits = if s.len() > 0 && s[0] == '+' {
        s.drop_first()
    } else {
        s
    };
    if digits.len() > 0 && all_digits(digits) && value(digits) <= u64::MAX {
        Some(value(digits) as u64)
    } else {
        None
    }
}

/// The digit of value `d` as a text.
fn digit_text(d: u128) -> (s: &'static str)
    requires
        d < 10,
    ensures
        s@ == seq![digit(d as nat)],
{
    proof {
        reveal_strlit("0");
        reveal_strlit("1");
        reveal_strlit("2");
        reveal_strlit("3");
        reveal_strlit("4");
        reveal_strlit("5");
        reveal_strlit("6");
        reveal_strlit("7");
        reveal_strlit("8");
        reveal_strlit("9");
    }
    match d {
        0 => "0",
        1 => "1",
        2 => "2",
        3 => "3",
        4 => "4",
        5 => "5",
        6 => "6",
        7 => "7",
        8 => "8",
        _ => "9",
    }
}

/// `n` in decimal notation.
pub fn to_decimal(n: u128) -> (s: String)
    ensures
        s@ == decimal(n as nat),
    decreases n,
{
    if n < 10 {
        digit_text(n).to_string()
    } else {
        let mut s = to_decimal(n / 10);
        s.append(digit_text(n % 10));
        assert(s@ == decimal(n as nat));
        s
    }
}

/// `n` in decimal notation, with a minus sign where it is negative.
pub fn to_signed_decimal(n: i32) -> (s: String)
    ensures
        s@ == signed_decimal(n as int),
{
    if n < 0 {
        let magnitude: i64 = -(n as i64);
        let mut s = "-".to_string();
        proof {
            reveal_strlit("-");
        }
        s.append(to_decimal(magnitude as u128).as_str());
        assert(s@ == signed_decimal(n as int));
        s
    } else {
        to_decimal(n as u128)
    }
}

/// A longer sequence of digits never denotes less than its beginning.
proof fn lemma_value_grows(s: Seq<char>, n: int)
    requires
        0 <= n <= s.len(),
        all_digits(s),
    ensures
        value(s.take(n)) <= value(s),
    decreases s.len(),
{
    if n < s.len() {
        assert(is_digit(s.last()));
        assert forall|i: int| 0 <= i < s.drop_last().len() implies is_digit(
            #[trigger] s.drop_last()[i],
        ) by {
            assert(is_digit(s[i]));
        }
        lemma_value_grows(s.drop_last(), n);
        assert(s.drop_last().take(n) == s.take(n));
    } else {
        assert(s.take(n) == s);
    }
}

/// The number that `s` denotes, if it denotes one that 64 bits hold.
pub fn parse_u64(s: &str) -> (n: Option<u64>)
    ensures
        n == parsed(s@),
{
    let chars = chars_of(s);
    let len = chars.len();
    let from: usize = if len > 0 && chars[0] == '+' {
        1
    } else {
        0
    };
    let ghost digits = s@.skip(from as int);
    proof {
        if from == 1 {
            assert(s@.drop_first() == digits);
        } else {
            assert(s@ == digits);
        }
    }
    if from >= len {
        return None;
    }
    let mut n: u64 = 0;
    let mut i: usize = from;
    assert(digits.take(0) == Seq::<char>::empty());
    while i < len
        invariant
            chars@ == s@,
            len == chars@.len(),
            from <= i <= len,
            from < len,
            digits == s@.skip(from as int),
            parsed(s@) == (if all_digits(digits) && value(digits) <= u64::MAX {
                Some(value(digits) as u64)
            } else {
                None
            }),
            forall|j: int| 0 <= j < i - from ==> is_digit(#[trigger] digits[j]),
            n == value(digits.take(i - from)),
        decreases len - i,
    {
        let c = chars[i];
        assert(c == digits[i - from]);
        if !('0' <= c && c <= '9') {
            assert(!is_digit(digits[i - from]));
            return None;
        }
        let d: u64 = (c as u32 - '0' as u32) as u64;
        let ghost upto = digits.take(i - from + 1);
        proof {
            assert(upto.drop_last() == digits.take(i - from));
            assert(value(upto) == 10 * n + d);
            if all_digits(digits) {
                lemma_value_grows(digits, i - from + 1);
            }
        }
        let tenfold = n.checked_mul(10);
        if tenfold.is_none() {
            return None;
        }
        let sum = tenfold.unwrap().checked_add(d);
        if sum.is_none() {
            return None;
        }
        n = sum.unwrap();
        i = i + 1;
    }
    assert(digits.take(len - from) == digits);
    Some(n)
}

/// Decimal notation consists of digits that denote the number again.
pub proof fn lemma_decimal(n: nat)
    ensures
        decimal(n).len() > 0,
        all_digits(decimal(n)),
        value(decimal(n)) == n,
    decreases n,
{
    if n < 10 {
        assert(decimal(n).drop_last() == Seq::<char>::empty());
        assert(value(decimal(n)) == 10 * value(Seq::<char>::empty()) + n);
    } else {
        lemma_decimal(n / 10);
        assert(decimal(n).drop_last() == decimal(n / 10));
        assert forall|i: int| 0 <= i < decimal(n).len() implies is_digit(
            #[trigger] decimal(n)[i],
        ) by {
            if i < decimal(n / 10).len() {
                assert(is_digit(decimal(n / 10)[i]));
            }
        }
    }
}

/// Reading back what was written: a 64-bit number in decimal notation denotes itself.
pub proof fn law_decimal_is_read_back(n: u64)
    ensures
        parsed(decimal(n as nat)) == Some(n),
{
    lemma_decimal(n as nat);
    let s = decimal(n as nat);
    assert(is_digit(s[0]));
}

} // verus!
