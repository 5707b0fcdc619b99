//! Whole numbers as text: reading them in a given radix, and writing them.

use crate::text;
use vstd::prelude::*;
use vstd::slice::*;

verus! {

/// The value of one digit: `0` to `9`, then the letters in either case.
pub open spec fn digit_value(c: char) -> Option<nat> {
    if '0' <= c <= '9' {
        Some((c as u32 - '0' as u32) as nat)
    } else if 'a' <= c <= 'z' {
        Some((c as u32 - 'a' as u32 + 10) as nat)
    } else if 'A' <= c <= 'Z' {
        Some((c as u32 - 'A' as u32 + 10) as nat)
    } else {
        None
    }
}

/// Whether `c` is a digit in the radix.
pub open spec fn is_digit(c: char, radix: nat) -> bool {
    digit_value(c) matches Some(d) && d < radix
}

/// Whether a text is made of digits alone, and of at least one.
pub open spec fn is_numeral(s: Seq<char>, radix: nat) -> bool {
    &&& s.len() > 0
    &&& forall|i: int| 0 <= i < s.len() ==> is_digit(#[trigger] s[i], radix)
}

/// The number that the digits of a text denote, the most significant first.
pub open spec fn value(s: Seq<char>, radix: nat) -> nat
    decreases s.len(),
{
    if s.len() == 0 {
        0
    } else {
        value(s.drop_last(), radix) * radix + digit_value(s.last())->0
    }
}

/// A text without the plus sign that may start it.
pub open spec fn without_plus(s: Seq<char>) -> Seq<char> {
    if s.len() > 0 && s[0] == '+' {
        s.drop_first()
    } else {
        s
    }
}

/// The number that a text denotes: digits, after a plus sign or not, whose value is at most
/// `max`. Any other text denotes none.
pub open spec fn number(s: Seq<char>, radix: nat, max: nat) -> Option<nat> {
    let digits = without_plus(s);
    if is_numeral(digits, radix) && value(digits, radix) <= max {
        Some(value(digits, radix))
    } else {
        None
    }
}

/// The digit with the given value, in lower case.
pub open spec fn digit(d: nat) -> char {
    if d < 10 {
        ('0' as u32 + d) as char
    } else {
        ('a' as u32 + d - 10) as char
    }
}

/// A number without leading zeros.
pub open spec fn numeral(n: nat, radix: nat) -> Seq<char>
    decreases n,
{
    if radix < 2 || n < radix {
        seq![digit(n)]
    } else {
        proof {
            quotient_smaller(n, radix);
        }
        numeral(n / radix, radix).push(digit(n % radix))
    }
}

/// The last `width` digits of a number, zeros where it has fewer.
pub open spec fn last_digits(n: nat, radix: nat, width: nat) -> Seq<char>
    decreases width,
{
    if width == 0 {
        seq![]
    } else {
        last_digits(n / radix, radix, (width - 1) as nat).push(digit(n % radix))
    }
}

/// A number in decimal.
pub open spec fn decimal(n: int) -> Seq<char> {
    if n < 0 {
        seq!['-'] + numeral((-n) as nat, 10)
    } else {
        numeral(n as nat, 10)
    }
}

/// Division by two or more makes a positive number smaller.
pub proof fn quotient_smaller(n: nat, radix: nat)
    requires
        radix >= 2,
        n >= radix,
    ensures
        n / radix < n,
{
    assert(n / radix < n) by (nonlinear_arith)
        requires
            radix >= 2,
            n >= radix,
    ;
}

/// A longer numeral denotes no smaller number.
proof fn value_grows(s: Seq<char>, radix: nat, k: int)
    requires
        0 <= k <= s.len(),
        radix >= 1,
    ensures
        value(s.take(k), radix) <= value(s, radix),
    decreases s.len(),
{
    if k == s.len() {
        assert(s.take(k) =~= s);
    } else {
        value_grows(s.drop_last(), radix, k);
        assert(s.drop_last().take(k) =~= s.take(k));
        let v = value(s.drop_last(), radix);
        assert(v * radix >= v) by (nonlinear_arith)
            requires
                radix >= 1,
        ;
    }
}

/// A digit written out is read back as the same digit.
pub proof fn digit_round_trip(d: nat, radix: nat)
    requires
        d < radix <= 36,
    ensures
        is_digit(digit(d), radix),
        digit_value(digit(d)) == Some(d),
        digit(d) != '+',
        digit(d) != '.',
        digit(d) != ':',
{
}

/// Whether a number has at most `width` digits.
pub open spec fn fits(n: nat, radix: nat, width: nat) -> bool
    decreases width,
{
    if width == 0 {
        n == 0
    } else {
        fits(n / radix, radix, (width - 1) as nat)
    }
}

/// The last digits of a number that has no more of them denote the number.
pub proof fn last_digits_round_trip(n: nat, radix: nat, width: nat)
    requires
        2 <= radix <= 36,
        fits(n, radix, width),
    ensures
        last_digits(n, radix, width).len() == width,
        forall|i: int|
            0 <= i < width ==> is_digit(#[trigger] last_digits(n, radix, width)[i], radix),
        value(last_digits(n, radix, width), radix) == n,
    decreases width,
{
    if width > 0 {
        let s = last_digits(n, radix, width);
        let shorter = last_digits(n / radix, radix, (width - 1) as nat);
        last_digits_round_trip(n / radix, radix, (width - 1) as nat);
        digit_round_trip(n % radix, radix);
        assert(s.drop_last() =~= shorter);
        assert((n / radix) * radix + n % radix == n) by {
            vstd::arithmetic::div_mod::lemma_fundamental_div_mod(n as int, radix as int);
            vstd::arithmetic::mul::lemma_mul_is_commutative((n / radix) as int, radix as int);
        }
    }
}

/// A number written without leading zeros is read back as the same number.
pub proof fn numeral_round_trip(n: nat, radix: nat)
    requires
        2 <= radix <= 36,
    ensures
        is_numeral(numeral(n, radix), radix),
        value(numeral(n, radix), radix) == n,
        numeral(n, radix)[0] != '+',
    decreases n,
{
    let s = numeral(n, radix);
    if n < radix {
        digit_round_trip(n, radix);
        assert(s.drop_last() =~= seq![]);
        assert(value(s.drop_last(), radix) == 0);
        assert(0 * radix == 0);
    } else {
        quotient_smaller(n, radix);
        numeral_round_trip(n / radix, radix);
        digit_round_trip(n % radix, radix);
        let shorter = numeral(n / radix, radix);
        assert(s.drop_last() =~= shorter);
        assert(s[0] == shorter[0]);
        assert((n / radix) * radix + n % radix == n) by {
            vstd::arithmetic::div_mod::lemma_fundamental_div_mod(n as int, radix as int);
            vstd::arithmetic::mul::lemma_mul_is_commutative((n / radix) as int, radix as int);
        }
    }
}

/// Reading a number that was written out gives the number back.
pub proof fn written_number_is_read_back(n: nat, radix: nat, max: nat)
    requires
        2 <= radix <= 36,
        n <= max,
    ensures
        number(numeral(n, radix), radix, max) == Some(n),
{
    numeral_round_trip(n, radix);
}

proof fn value_ignores_case(a: Seq<char>, b: Seq<char>, radix: nat)
    requires
        text::same_ignoring_case(a, b),
    ensures
        value(a, radix) == value(b, radix),
    decreases a.len(),
{
    if a.len() > 0 {
        text::parts_ignore_case(a, b, a.len() - 1);
        assert(a.take(a.len() - 1) =~= a.drop_last());
        assert(b.take(b.len() - 1) =~= b.drop_last());
        value_ignores_case(a.drop_last(), b.drop_last(), radix);
        assert(text::ascii_lower(a[a.len() - 1]) == text::ascii_lower(b[a.len() - 1]));
    }
}

/// The number that a text denotes does not depend on the case of its digits.
pub proof fn number_ignores_case(a: Seq<char>, b: Seq<char>, radix: nat, max: nat)
    requires
        text::same_ignoring_case(a, b),
    ensures
        number(a, radix, max) == number(b, radix, max),
{
    let s = without_plus(a);
    let t = without_plus(b);
    if a.len() > 0 {
        text::case_keeps_the_class(a[0], b[0]);
        text::parts_ignore_case(a, b, 1);
        assert(a.skip(1) =~= a.drop_first());
        assert(b.skip(1) =~= b.drop_first());
    }
    assert(text::same_ignoring_case(s, t));
    assert forall|i: int| 0 <= i < s.len() implies is_digit(s[i], radix) == is_digit(
        t[i],
        radix,
    ) by {
        assert(text::ascii_lower(s[i]) == text::ascii_lower(t[i]));
    }
    value_ignores_case(s, t, radix);
}

/// The digits and their values: `0` to `9`, then the letters, of which capitals count as small
/// ones; small ones are written.
pub proof fn digits_are(c: char, d: nat)
    ensures
        digit_value(c) == Some(d) <==> {
            let n = c as u32;
            ||| d < 10 && n == 48 + d
            ||| 10 <= d < 36 && (n == 97 + (d - 10) || n == 65 + (d - 10))
        },
        d < 10 ==> digit(d) as u32 == 48 + d,
        10 <= d < 36 ==> digit(d) as u32 == 97 + (d - 10),
{
}

/// The value of digits that stand before others is multiplied by the radix once for each of
/// those.
pub proof fn value_of_both(a: Seq<char>, b: Seq<char>, radix: nat)
    ensures
        value(a + b, radix) == value(a, radix) * vstd::arithmetic::power::pow(
            radix as int,
            b.len(),
        ) + value(b, radix),
        a.len() == 1 && digit_value(a[0]) is Some ==> value(a, radix) == digit_value(a[0])->0,
    decreases b.len(),
{
    reveal(vstd::arithmetic::power::pow);
    if a.len() == 1 {
        assert(value(a.drop_last(), radix) == 0);
        assert(0 * radix == 0) by (nonlinear_arith);
    }
    if b.len() == 0 {
        assert(a + b =~= a);
    } else {
        let shorter = b.drop_last();
        value_of_both(a, shorter, radix);
        assert((a + b).drop_last() =~= a + shorter);
        assert((a + b).last() == b.last());
        let x = value(a, radix) as int;
        let y = value(shorter, radix) as int;
        let p = vstd::arithmetic::power::pow(radix as int, shorter.len());
        assert((x * p + y) * radix == x * (radix * p) + y * radix) by (nonlinear_arith);
        assert(vstd::arithmetic::power::pow(radix as int, b.len()) == radix * p);
    }
}

/// A text denotes a number exactly when it is made of digits of the radix, of at least one, with
/// a plus sign before them or not, and their value is the number and is not too large.
pub proof fn number_is(s: Seq<char>, radix: nat, max: nat, n: nat)
    ensures
        number(s, radix, max) == Some(n) <==> n <= max && exists|digits: Seq<char>|
            {
                &&& s == digits || s == seq!['+'] + digits
                &&& digits.len() > 0
                &&& forall|i: int|
                    0 <= i < digits.len() ==> digit_value(#[trigger] digits[i]) is Some
                        && digit_value(digits[i])->0 < radix
                &&& #[trigger] value(digits, radix) == n
            },
{
    if number(s, radix, max) == Some(n) {
        let digits = without_plus(s);
        if s != digits {
            assert(s =~= seq!['+'] + digits);
        }
        assert(value(digits, radix) == n);
    }
    if n <= max && exists|digits: Seq<char>|
        {
            &&& s == digits || s == seq!['+'] + digits
            &&& digits.len() > 0
            &&& forall|i: int|
                0 <= i < digits.len() ==> digit_value(#[trigger] digits[i]) is Some
                    && digit_value(digits[i])->0 < radix
            &&& #[trigger] value(digits, radix) == n
        } {
        let digits = choose|digits: Seq<char>|
            {
                &&& s == digits || s == seq!['+'] + digits
                &&& digits.len() > 0
                &&& forall|i: int|
                    0 <= i < digits.len() ==> digit_value(#[trigger] digits[i]) is Some
                        && digit_value(digits[i])->0 < radix
                &&& #[trigger] value(digits, radix) == n
            };
        assert(digit_value(digits[0]) is Some);
        assert((seq!['+'] + digits).drop_first() =~= digits);
        assert(without_plus(s) =~= digits);
    }
}

/// A text that denotes a number holds neither a colon nor a full stop.
pub proof fn number_has_no_separator(s: Seq<char>, radix: nat, max: nat)
    requires
        number(s, radix, max) is Some,
    ensures
        !s.contains(':'),
        !s.contains('.'),
{
    let digits = without_plus(s);
    assert forall|i: int| 0 <= i < s.len() implies s[i] != ':' && s[i] != '.' by {
        if digits == s {
            assert(is_digit(digits[i], radix));
        } else if i > 0 {
            assert(s[i] == digits[i - 1]);
            assert(is_digit(digits[i - 1], radix));
        }
    }
}

/// A number that is written has no zero before it, and its digits are small letters where they
/// are letters.
pub proof fn numeral_is_plain(n: nat, radix: nat)
    requires
        2 <= radix <= 36,
    ensures
        numeral(n, radix).len() > 0,
        n > 0 ==> numeral(n, radix)[0] != '0',
        n == 0 ==> numeral(n, radix) == seq!['0'],
        forall|i: int| 0 <= i < numeral(n, radix).len() ==> !('A' <= #[trigger] numeral(n, radix)[i] <= 'Z'),
    decreases n,
{
    if n >= radix {
        quotient_smaller(n, radix);
        assert(n / radix > 0) by (nonlinear_arith)
            requires
                n >= radix,
                radix >= 2,
        ;
        numeral_is_plain(n / radix, radix);
        let shorter = numeral(n / radix, radix);
        assert(numeral(n, radix)[0] == shorter[0]);
        digit_is_small(n % radix, radix);
        assert forall|i: int| 0 <= i < numeral(n, radix).len() implies !('A' <= #[trigger] numeral(
            n,
            radix,
        )[i] <= 'Z') by {
            if i < shorter.len() {
                assert(numeral(n, radix)[i] == shorter[i]);
            }
        }
    } else {
        digit_is_small(n, radix);
    }
}

proof fn digit_is_small(d: nat, radix: nat)
    requires
        d < radix <= 36,
    ensures
        !('A' <= digit(d) <= 'Z'),
        (digit(d) == '0') == (d == 0),
{
}

/// The last digits of a number are as many as are asked for, are small letters where they are
/// letters, and denote what is left of the number when it is divided by the radix as often.
pub proof fn last_digits_are(n: nat, radix: nat, width: nat)
    requires
        2 <= radix <= 36,
    ensures
        last_digits(n, radix, width).len() == width,
        forall|i: int|
            0 <= i < width ==> is_digit(#[trigger] last_digits(n, radix, width)[i], radix) && !('A'
                <= last_digits(n, radix, width)[i] <= 'Z'),
        value(last_digits(n, radix, width), radix) == (n as int)
            % vstd::arithmetic::power::pow(radix as int, width),
    decreases width,
{
    reveal(vstd::arithmetic::power::pow);
    if width > 0 {
        let fewer = (width - 1) as nat;
        let s = last_digits(n, radix, width);
        let shorter = last_digits(n / radix, radix, fewer);
        let p = vstd::arithmetic::power::pow(radix as int, fewer);
        last_digits_are(n / radix, radix, fewer);
        digit_round_trip(n % radix, radix);
        digit_is_small(n % radix, radix);
        assert(s.drop_last() =~= shorter);
        assert forall|i: int| 0 <= i < width implies is_digit(#[trigger] s[i], radix) && !('A'
            <= s[i] <= 'Z') by {
            if i < fewer {
                assert(s[i] == shorter[i]);
            }
        }
        vstd::arithmetic::power::lemma_pow_positive(radix as int, fewer);
        vstd::arithmetic::div_mod::lemma_mod_breakdown(n as int, radix as int, p);
        vstd::arithmetic::mul::lemma_mul_is_commutative(
            (n / radix) as int % p,
            radix as int,
        );
    } else {
        assert((n as int) % 1 == 0);
    }
}

/// A number in decimal is its digits, with a minus sign before those of its opposite where it is
/// negative.
pub proof fn decimal_is(n: int)
    ensures
        n < 0 ==> decimal(n) == seq!['-'] + decimal(-n),
        n >= 0 ==> {
            &&& number(decimal(n), 10, n as nat) == Some(n as nat)
            &&& decimal(n)[0] != '+'
            &&& n > 0 ==> decimal(n)[0] != '0'
            &&& n == 0 ==> decimal(n) == seq!['0']
        },
{
    if n >= 0 {
        written_number_is_read_back(n as nat, 10, n as nat);
        numeral_round_trip(n as nat, 10);
        numeral_is_plain(n as nat, 10);
    }
}

fn value_of_digit(c: char) -> (res: Option<u64>)
    ensures
        match digit_value(c) {
            Some(d) => res == Some(d as u64) && d < 36,
            None => res is None,
        },
{
    if '0' <= c && c <= '9' {
        Some(c as u64 - '0' as u64)
    } else if 'a' <= c && c <= 'z' {
        Some(c as u64 - 'a' as u64 + 10)
    } else if 'A' <= c && c <= 'Z' {
        Some(c as u64 - 'A' as u64 + 10)
    } else {
        None
    }
}

/// Reads a number in the given radix: digits, after a plus sign or not, of a value that is at
/// most `max`.
pub fn read_number(s: &[char], radix: u64, max: u64) -> (res: Option<u64>)
    requires
        2 <= radix <= 36,
        max <= u32::MAX,
    ensures
        match number(s@, radix as nat, max as nat) {
            Some(n) => res == Some(n as u64) && n <= max,
            None => res is None,
        },
{
    let signed = s.len() > 0 && s[0] == '+';
    let digits = if signed {
        slice_subrange(s, 1, s.len())
    } else {
        s
    };
    assert(digits@ =~= without_plus(s@));
    if digits.len() == 0 {
        return None;
    }
    let mut acc: u64 = 0;
    for i in 0..digits.len()
        invariant
            2 <= radix <= 36,
            max <= u32::MAX,
            digits@ == without_plus(s@),
            acc <= max,
            acc == value(digits@.take(i as int), radix as nat),
            forall|j: int| 0 <= j < i ==> is_digit(#[trigger] digits@[j], radix as nat),
    {
        let ghost upto = digits@.take(i + 1);
        assert(upto.drop_last() =~= digits@.take(i as int));
        let d: u64 = match value_of_digit(digits[i]) {
            Some(d) => d,
            None => {
                assert(!is_digit(digits@[i as int], radix as nat));
                return None;
            },
        };
        if d >= radix {
            assert(!is_digit(digits@[i as int], radix as nat));
            return None;
        }
        assert(acc * radix <= 0xffff_ffff * 36) by (nonlinear_arith)
            requires
                acc <= 0xffff_ffff,
                radix <= 36,
        ;
        acc = acc * radix + d;
        assert(acc == value(upto, radix as nat));
        if acc > max {
            proof {
                value_grows(digits@, radix as nat, i + 1);
            }
            return None;
        }
    }
    assert(digits@.take(digits@.len() as int) =~= digits@);
    Some(acc)
}

fn digit_char(d: u64) -> (c: char)
    requires
        d < 36,
    ensures
        c == digit(d as nat),
{
    if d < 10 {
        ('0' as u8 + d as u8) as char
    } else {
        ('a' as u8 + (d as u8 - 10)) as char
    }
}

/// Appends a number without leading zeros.
pub fn push_numeral(out: &mut String, n: u64, radix: u64)
    requires
        2 <= radix <= 36,
    ensures
        final(out)@ == old(out)@ + numeral(n as nat, radix as nat),
    decreases n,
{
    if n < radix {
        out.push(digit_char(n));
        assert(out@ =~= old(out)@ + numeral(n as nat, radix as nat));
    } else {
        proof {
            quotient_smaller(n as nat, radix as nat);
        }
        push_numeral(out, n / radix, radix);
        out.push(digit_char(n % radix));
        assert(out@ =~= old(out)@ + numeral(n as nat, radix as nat));
    }
}

/// Appends the last `width` hexadecimal digits of a number.
pub fn push_hex_digits(out: &mut String, n: u64, width: usize)
    ensures
        final(out)@ == old(out)@ + last_digits(n as nat, 16, width as nat),
    decreases width,
{
    if width > 0 {
        push_hex_digits(out, n / 16, width - 1);
        out.push(digit_char(n % 16));
    }
    assert(out@ =~= old(out)@ + last_digits(n as nat, 16, width as nat));
}

/// Appends a number in decimal.
pub fn push_decimal(out: &mut String, n: i64)
    ensures
        final(out)@ == old(out)@ + decimal(n as int),
{
    if n < 0 {
        out.push('-');
        let magnitude: u64 = if n == i64::MIN {
            0x8000_0000_0000_0000
        } else {
            (-n) as u64
        };
        push_numeral(out, magnitude, 10);
        assert(out@ =~= old(out)@ + decimal(n as int));
    } else {
        push_numeral(out, n as u64, 10);
    }
}

} // verus!
