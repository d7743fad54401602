//! What holds of byte counts as they are printed.

use crate::number;
use crate::size;
use crate::text;
use crate::text_laws;
use vstd::arithmetic::div_mod::lemma_fundamental_div_mod;
use vstd::prelude::*;
use vstd::string::*;

verus! {

/// A rounded quotient is off by no more than half, and where it is off by just
/// half it is even.
pub proof fn law_quotients_are_rounded_to_the_nearest(a: nat, b: nat)
    requires
        b > 0,
    ensures
        2 * a - b <= 2 * (size::rounded_quotient(a, b) * b) <= 2 * a + b,
        2 * (size::rounded_quotient(a, b) * b) == 2 * a - b || 2 * (size::rounded_quotient(a, b)
            * b) == 2 * a + b ==> size::rounded_quotient(a, b) % 2 == 0,
{
    lemma_fundamental_div_mod(a as int, b as int);
    let q = a / b;
    let r = a % b;
    assert(q * b == b * q) by (nonlinear_arith);
    assert((q + 1) * b == b * q + b) by (nonlinear_arith);
    assert(0 <= r < b) by (nonlinear_arith)
        requires
            b > 0,
            r == a % b,
    ;
}

/// A count below 2^53 is a double-precision number itself. From there on the
/// nearest one is off by no more than half the distance between neighbours,
/// which is such that 53 bits count them.
pub proof fn law_doubles_are_the_nearest(n: nat)
    ensures
        n < 0x20_0000_0000_0000 ==> size::as_double(n) == n,
        size::double_step(n) > 0,
        2 * n - size::double_step(n) <= 2 * size::as_double(n) <= 2 * n + size::double_step(n),
        n >= 0x20_0000_0000_0000 ==> size::double_step(n) * 0x10_0000_0000_0000 <= n
            < size::double_step(n) * 0x20_0000_0000_0000,
    decreases n,
{
    if n >= 0x20_0000_0000_0000 {
        law_doubles_are_the_nearest(n / 2);
        let s = size::double_step(n / 2);
        assert(size::double_step(n) == 2 * s);
        if n / 2 >= 0x20_0000_0000_0000 {
            assert(s * 0x10_0000_0000_0000 <= n / 2 < s * 0x20_0000_0000_0000);
        } else {
            assert(s == 1);
        }
    }
    law_quotients_are_rounded_to_the_nearest(n, size::double_step(n));
}

/// `h` hundredths are printed with a point before the last two of the digits
/// that write `h`.
#[verifier::rlimit(40)]
pub proof fn law_two_decimals(h: nat)
    ensures
        ({
            let whole = number::decimal(h / 100);
            let part = size::two_decimals(h).skip(whole.len() as int + 1);
            &&& size::two_decimals(h) == whole + seq!['.'] + part
            &&& part.len() == 2
            &&& number::all_digits(whole + part)
            &&& number::digits_value(whole + part) == h
        }),
{
    reveal_strlit(".");
    let whole = number::decimal(h / 100);
    let tens = number::decimal(h / 10 % 10);
    let ones = number::decimal(h % 10);
    let part = size::two_decimals(h).skip(whole.len() as int + 1);
    assert(part =~= tens + ones);
    assert(size::two_decimals(h) =~= whole + seq!['.'] + part);
    number::lemma_decimal_is_read_back(h / 100);
    number::lemma_decimal_is_read_back(h / 10 % 10);
    number::lemma_decimal_is_read_back(h % 10);
    let all = whole + part;
    assert(all.drop_last() =~= whole + tens);
    assert(all.drop_last().drop_last() =~= whole);
    assert(all.last() == ones[0]);
    assert(all.drop_last().last() == tens[0]);
    assert(ones[0] as u32 == 48 + h % 10);
    assert(tens[0] as u32 == 48 + h / 10 % 10);
    assert forall|i: int| 0 <= i < all.len() implies number::is_digit(#[trigger] all[i]) by {
        if i < whole.len() {
            assert(all[i] == whole[i]);
        }
    }
    assert(number::all_digits(all));
    assert(tens.len() == 1 && ones.len() == 1);
    let front = all.drop_last();
    assert(number::digits_value(front) == h / 100 * 10 + h / 10 % 10) by {
        assert(front.drop_last() =~= whole);
        assert((front.last() as u32 - 48) as nat == h / 10 % 10);
    }
    assert(number::digits_value(all) == number::digits_value(front) * 10 + h % 10) by {
        assert((all.last() as u32 - 48) as nat == h % 10);
    }
    assert(h == (h / 100 * 10 + h / 10 % 10) * 10 + h % 10);
}

/// What the largest unit is that there is one of, and how many bytes it has.
pub open spec fn unit_of(n: nat) -> (Seq<char>, nat) {
    if n < 1024 {
        (seq!['B'], 1)
    } else if n < 1024 * 1024 {
        (seq!['K', 'i', 'B'], 1024)
    } else if n < 1024 * 1024 * 1024 {
        (seq!['M', 'i', 'B'], 1024 * 1024)
    } else {
        (seq!['G', 'i', 'B'], 1024 * 1024 * 1024)
    }
}

/// A count is printed as a number, a space and the largest unit that there is
/// one of: bytes as they are, and larger units in hundredths, which are the
/// nearest to what the double-precision number nearest to the count comes to.
pub proof fn law_sizes_are_numbers_with_units(n: nat)
    ensures
        n < 1024 ==> size::human(n) == number::decimal(n) + seq![' '] + unit_of(n).0,
        n >= 1024 ==> ({
            let h = size::rounded_quotient(100 * size::as_double(n), unit_of(n).1);
            let u = unit_of(n).1;
            &&& size::human(n) == size::two_decimals(h) + seq![' '] + unit_of(n).0
            &&& 200 * size::as_double(n) - u <= 2 * (h * u) <= 200 * size::as_double(n) + u
        }),
{
    reveal_strlit(" B");
    reveal_strlit(" KiB");
    reveal_strlit(" MiB");
    reveal_strlit(" GiB");
    assert(" B"@ =~= seq![' '] + seq!['B']);
    assert(" KiB"@ =~= seq![' '] + seq!['K', 'i', 'B']);
    assert(" MiB"@ =~= seq![' '] + seq!['M', 'i', 'B']);
    assert(" GiB"@ =~= seq![' '] + seq!['G', 'i', 'B']);
    let h = size::rounded_quotient(100 * size::as_double(n), unit_of(n).1);
    law_quotients_are_rounded_to_the_nearest(100 * size::as_double(n), unit_of(n).1);
    if n < 1024 {
        assert(size::human(n) =~= number::decimal(n) + seq![' '] + unit_of(n).0);
    } else {
        assert(size::human(n) =~= size::two_decimals(h) + seq![' '] + unit_of(n).0);
    }
}

/// A printed count is two words, the number and the unit.
pub proof fn law_sizes_are_two_words(n: nat)
    ensures
        text::words(size::human(n)).len() == 2,
        text::words(size::human(n))[1] == unit_of(n).0,
        size::human(n) == text::words(size::human(n))[0] + seq![' '] + text::words(
            size::human(n),
        )[1],
        text_laws::has_no_space(text::words(size::human(n))[0]),
        text_laws::has_no_space(text::words(size::human(n))[1]),
        text::words(size::human(n))[0].len() > 0,
{
    law_sizes_are_numbers_with_units(n);
    let unit = unit_of(n).0;
    let h = size::rounded_quotient(100 * size::as_double(n), unit_of(n).1);
    let x = if n < 1024 {
        number::decimal(n)
    } else {
        size::two_decimals(h)
    };
    number::lemma_decimal_is_read_back(n);
    law_two_decimals(h);
    let whole = number::decimal(h / 100);
    let part = size::two_decimals(h).skip(whole.len() as int + 1);
    number::lemma_decimal_is_read_back(h / 100);
    assert forall|i: int| 0 <= i < x.len() implies !text::is_space(#[trigger] x[i]) by {
        if n < 1024 {
            assert(number::is_digit(number::decimal(n)[i]));
        } else if i < whole.len() {
            assert(number::is_digit((whole + part)[i]));
        } else if i > whole.len() {
            assert(number::is_digit((whole + part)[i - 1]));
        }
    }
    assert(x.len() > 0);
    assert forall|i: int| 0 <= i < unit.len() implies !text::is_space(#[trigger] unit[i]) by {}
    text_laws::law_a_word_is_one_word(x);
    text_laws::law_a_word_is_one_word(unit);
    text_laws::law_white_space_parts_words(x, ' ', unit);
    assert(text::words(size::human(n)) =~= seq![x, unit]);
}

} // verus!
