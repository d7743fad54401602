//! Decimal numbers: how they are written and how they are read.

use crate::text::chars_of;
use vstd::prelude::*;
use vstd::string::*;

verus! {

/// The character that writes the digit `d`.
pub open spec fn digit_char(d: nat) -> char
    recommends
        d < 10,
{
    (48 + d) as char
}

/// `n` in decimal, without leading zeros.
pub open spec fn decimal(n: nat) -> Seq<char>
    decreases n,
{
    if n < 10 {
        seq![digit_char(n)]
    } else {
        decimal(n / 10).push(digit_char(n % 10))
    }
}

/// `i` in decimal, with a `-` before it if it is negative.
pub open spec fn decimal_int(i: int) -> Seq<char> {
    if i < 0 {
        seq!['-'] + decimal((-i) as nat)
    } else {
        decimal(i as nat)
    }
}

/// Whether `c` is one of the characters `0` to `9`.
pub open spec fn is_digit(c: char) -> bool {
    48 <= c as u32 <= 57
}

/// Whether every character of `s` is a digit.
pub open spec fn all_digits(s: Seq<char>) -> bool {
    forall|i: int| 0 <= i < s.len() ==> is_digit(#[trigger] s[i])
}

/// The number that the digits `s` write.
pub open spec fn digits_value(s: Seq<char>) -> nat
    decreases s.len(),
{
    if s.len() == 0 {
        0
    } else {
        digits_value(s.drop_last()) * 10 + (s.last() as u32 - 48) as nat
    }
}

/// The number up to `max` that `s` writes: digits, of which there is at least
/// one, after at most one `+`.
pub open spec fn uint_of(s: Seq<char>, max: nat) -> Option<nat> {
    let digits = if s.len() > 0 && s[0] == '+' {
        s.drop_first()
    } else {
        s
    };
    if digits.len() > 0 && all_digits(digits) && digits_value(digits) <= max {
        Some(digits_value(digits))
    } else {
        None
    }
}

proof fn lemma_digits_value_grows(s: Seq<char>, n: int)
    requires
        0 <= n <= s.len(),
    ensures
        digits_value(s.take(n)) <= digits_value(s),
    decreases s.len() - n,
{
    if n < s.len() {
        lemma_digits_value_grows(s, n + 1);
        assert(s.take(n + 1).drop_last() =~= s.take(n));
    } else {
        assert(s.take(n) =~= s);
    }
}

/// The decimal form of `n` consists of digits and writes `n`.
pub proof fn lemma_decimal_is_read_back(n: nat)
    ensures
        decimal(n).len() > 0,
        all_digits(decimal(n)),
        digits_value(decimal(n)) == n,
    decreases n,
{
    if n < 10 {
        let s = decimal(n);
        assert(s.drop_last() =~= seq![]);
        assert(digits_value(s.drop_last()) == 0);
        assert(s.last() as u32 == 48 + n);
    } else {
        lemma_decimal_is_read_back(n / 10);
        let s = decimal(n);
        assert(s.drop_last() =~= decimal(n / 10));
        assert(s.last() as u32 == 48 + n % 10);
        assert forall|i: int| 0 <= i < s.len() implies is_digit(#[trigger] s[i]) by {
            if i < s.len() - 1 {
                assert(s[i] == decimal(n / 10)[i]);
            }
        }
    }
}

/// A number is read back from its decimal form wherever it is not over the bound.
pub proof fn lemma_uint_of_decimal(n: nat, max: nat)
    requires
        n <= max,
    ensures
        uint_of(decimal(n), max) == Some(n),
{
    lemma_decimal_is_read_back(n);
    assert(is_digit(decimal(n)[0]));
}

/// A number below ten is written as its digit, and one more digit at the end
/// stands for ten times the number, and the digit.
pub proof fn law_digits_stand_for_powers_of_ten(n: nat, d: nat)
    requires
        d < 10,
    ensures
        decimal(d) == seq![('0' as u32 + d) as char],
        n > 0 ==> decimal(10 * n + d) == decimal(n) + decimal(d),
        decimal(n).len() > 0,
        n > 0 ==> decimal(n)[0] != '0',
    decreases n,
{
    lemma_decimal_is_read_back(n);
    if n > 0 {
        let m = 10 * n + d;
        assert(m / 10 == n && m % 10 == d);
        assert(decimal(m) =~= decimal(n) + decimal(d));
        if n >= 10 {
            law_digits_stand_for_powers_of_ten(n / 10, n % 10);
            assert(decimal(n)[0] == decimal(n / 10)[0]);
        } else {
            assert(decimal(n)[0] as u32 == 48 + n);
        }
    }
}

/// `k` zeros.
pub open spec fn zeros(k: nat) -> Seq<char> {
    Seq::new(k, |i: int| '0')
}

/// Whether `s` writes `n`: its decimal form, after any number of zeros, and
/// with or without a `+` before it.
pub open spec fn writes(s: Seq<char>, n: nat) -> bool {
    exists|k: nat|
        s == #[trigger] zeros(k) + decimal(n) || s == seq!['+'] + (#[trigger] zeros(k) + decimal(n))
}

proof fn lemma_value_of_zeros(k: nat, s: Seq<char>)
    ensures
        digits_value(zeros(k) + s) == digits_value(s),
    decreases k + s.len(),
{
    let t = zeros(k) + s;
    if s.len() > 0 {
        assert(t.drop_last() =~= zeros(k) + s.drop_last());
        assert(t.last() == s.last());
        lemma_value_of_zeros(k, s.drop_last());
    } else if k > 0 {
        assert(t.drop_last() =~= zeros((k - 1) as nat) + s);
        assert(t.last() == '0');
        lemma_value_of_zeros((k - 1) as nat, s);
    } else {
        assert(t =~= s);
    }
}

proof fn lemma_digit_char(c: char)
    requires
        is_digit(c),
    ensures
        digit_char((c as u32 - 48) as nat) == c,
{
    let u = c as u32;
    assert(u as char == c);
}

/// Digits are the decimal form of what they write, after zeros.
proof fn lemma_digits_are_decimal(s: Seq<char>) -> (k: nat)
    requires
        s.len() > 0,
        all_digits(s),
    ensures
        s == zeros(k) + decimal(digits_value(s)),
    decreases s.len(),
{
    let before = s.drop_last();
    let v = digits_value(before);
    let d = (s.last() as u32 - 48) as nat;
    assert(is_digit(s[s.len() - 1]));
    lemma_digit_char(s.last());
    if before.len() == 0 {
        assert(s =~= zeros(0) + decimal(d));
        0
    } else {
        assert forall|i: int| 0 <= i < before.len() implies is_digit(#[trigger] before[i]) by {
            assert(before[i] == s[i]);
        }
        let k = lemma_digits_are_decimal(before);
        assert(s =~= before.push(digit_char(d)));
        if v == 0 {
            assert(decimal(0) =~= seq!['0']);
            assert(zeros(k + 1) =~= zeros(k) + decimal(0));
            assert(s =~= zeros(k + 1) + decimal(d));
            k + 1
        } else {
            law_digits_stand_for_powers_of_ten(v, d);
            assert(s =~= zeros(k) + decimal(10 * v + d));
            k
        }
    }
}

/// What is read as the number `n` is what writes `n`, and nothing else; and a
/// number over the bound is not read.
pub proof fn law_numbers_are_read_as_written(s: Seq<char>, n: nat, max: nat)
    ensures
        uint_of(s, max) == Some(n) <==> n <= max && writes(s, n),
{
    let digits = if s.len() > 0 && s[0] == '+' {
        s.drop_first()
    } else {
        s
    };
    if uint_of(s, max) == Some(n) {
        let k = lemma_digits_are_decimal(digits);
        if s.len() > 0 && s[0] == '+' {
            assert(s =~= seq!['+'] + (zeros(k) + decimal(n)));
        } else {
            assert(s == zeros(k) + decimal(n));
        }
    }
    if n <= max && writes(s, n) {
        let k = choose|k: nat|
            s == #[trigger] zeros(k) + decimal(n) || s == seq!['+'] + (#[trigger] zeros(k)
                + decimal(n));
        let t = zeros(k) + decimal(n);
        lemma_decimal_is_read_back(n);
        lemma_value_of_zeros(k, decimal(n));
        assert forall|i: int| 0 <= i < t.len() implies is_digit(#[trigger] t[i]) by {
            if i >= k {
                assert(t[i] == decimal(n)[i - k]);
            }
        }
        assert(is_digit(t[0]));
        if s == t {
            assert(digits == t);
        } else {
            assert(s.drop_first() =~= t);
            assert(digits == t);
        }
    }
}

/// An integer is written as its magnitude, with a `-` before it exactly if it
/// is negative.
pub proof fn law_integers_are_written_with_their_sign(n: nat)
    ensures
        decimal_int(n as int) == decimal(n),
        n > 0 ==> decimal_int(-(n as int)) == seq!['-'] + decimal(n),
{
}

fn digit_text(d: u8) -> (r: &'static str)
    requires
        d < 10,
    ensures
        r@ == seq![digit_char(d as nat)],
{
    proof {
        reveal_strlit("0");
        reveal_strlit("1");
        reveal_strlit("2");
        reveal_strlit("3");
        reveal_strlit("4");
        reveal_strlit("5");
        reveal_strlit("6");
        reveal_strlit("7");
        reveal_strlit("8");
        reveal_strlit("9");
    }
    let r = match d {
        0 => "0",
        1 => "1",
        2 => "2",
        3 => "3",
        4 => "4",
        5 => "5",
        6 => "6",
        7 => "7",
        8 => "8",
        _ => "9",
    };
    assert(r@ =~= seq![digit_char(d as nat)]);
    r
}

/// Writes `n` in decimal.
pub fn write_uint(n: u128) -> (s: String)
    ensures
        s@ == decimal(n as nat),
    decreases n,
{
    if n < 10 {
        digit_text(n as u8).to_owned()
    } else {
        let mut s = write_uint(n / 10);
        s.append(digit_text((n % 10) as u8));
        assert(s@ =~= decimal(n as nat));
        s
    }
}

/// Writes `i` in decimal.
pub fn write_int(i: i64) -> (s: String)
    ensures
        s@ == decimal_int(i as int),
{
    if i < 0 {
        let magnitude = (-(i as i128)) as u128;
        let mut s = "-".to_owned();
        s.append(write_uint(magnitude).as_str());
        proof {
            reveal_strlit("-");
        }
        assert(s@ =~= decimal_int(i as int));
        s
    } else {
        write_uint(i as u128)
    }
}

/// Reads a number up to `max`.
pub fn read_uint(s: &str, max: u64) -> (r: Option<u64>)
    ensures
        match r {
            Some(n) => uint_of(s@, max as nat) == Some(n as nat),
            None => uint_of(s@, max as nat) is None,
        },
{
    let v = chars_of(s);
    let from: usize = if v.len() > 0 && v[0] == '+' {
        1
    } else {
        0
    };
    let ghost digits = s@.skip(from as int);
    assert(from == 1 ==> digits =~= s@.drop_first());
    assert(from == 0 ==> digits =~= s@);
    if from == v.len() {
        return None;
    }
    let mut n: u64 = 0;
    let mut i: usize = from;
    assert(digits.take(0) =~= seq![]);
    while i < v.len()
        invariant
            v@ == s@,
            from <= i <= v.len(),
            digits == s@.skip(from as int),
            digits == (if s@.len() > 0 && s@[0] == '+' {
                s@.drop_first()
            } else {
                s@
            }),
            forall|j: int| 0 <= j < i - from ==> is_digit(#[trigger] digits[j]),
            n == digits_value(digits.take(i - from)),
            n <= max,
        decreases v.len() - i,
    {
        let u = v[i] as u32;
        assert(digits[i - from] == v@[i as int]);
        if u < 48 || u > 57 {
            return None;
        }
        let next = (n as u128) * 10 + ((u - 48) as u128);
        assert(digits.take(i - from + 1).drop_last() =~= digits.take(i - from));
        if next > max as u128 {
            proof {
                lemma_digits_value_grows(digits, i - from + 1);
            }
            return None;
        }
        n = next as u64;
        i += 1;
    }
    assert(digits.take(i - from) =~= digits);
    Some(n)
}

} // verus!
