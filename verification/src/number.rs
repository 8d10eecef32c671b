//! Decimal numerals: how integers are written and read.
use vstd::prelude::*;

use crate::text::chars_of;

verus! {

/// `c` is one of `0` to `9`.
pub open spec fn digit(c: char) -> bool {
    '0' <= c <= '9'
}

/// The number that a digit stands for.
pub open spec fn digit_value(c: char) -> int {
    c as int - '0' as int
}

/// The digit that stands for `d`.
pub open spec fn digit_char(d: int) -> char {
    (d + '0' as int) as char
}

/// Every character of `s` is a digit.
pub open spec fn all_digits(s: Seq<char>) -> bool {
    forall|i: int| 0 <= i < s.len() ==> digit(#[trigger] s[i])
}

/// The number that the digits of `s` write in base ten.
pub open spec fn decimal_value(s: Seq<char>) -> int
    decreases s.len(),
{
    if s.len() == 0 {
        0
    } else {
        decimal_value(s.drop_last()) * 10 + digit_value(s.last())
    }
}

/// `n` in base ten, without leading zeros.
pub open spec fn decimal(n: nat) -> Seq<char>
    decreases n,
{
    if n < 10 {
        seq![digit_char(n as int)]
    } else {
        decimal(n / 10).push(digit_char((n % 10) as int))
    }
}

/// `n` in base ten, with a minus sign where it is negative.
pub open spec fn signed_decimal(n: int) -> Seq<char> {
    if n < 0 {
        seq!['-'] + decimal((-n) as nat)
    } else {
        decimal(n as nat)
    }
}

/// The number that `s` writes, if `s` is one or more digits and nothing else.
pub open spec fn magnitude(s: Seq<char>) -> Option<int> {
    if s.len() > 0 && all_digits(s) {
        Some(decimal_value(s))
    } else {
        None
    }
}

/// `s` without one leading `c`.
pub open spec fn without_sign(s: Seq<char>, c: char) -> Seq<char> {
    if s.len() > 0 && s.first() == c {
        s.drop_first()
    } else {
        s
    }
}

/// The `u64` that `s` writes: digits, with an optional plus sign before them.
pub open spec fn parsed_u64(s: Seq<char>) -> Option<u64> {
    match magnitude(without_sign(s, '+')) {
        Some(v) => if v <= u64::MAX {
            Some(v as u64)
        } else {
            None
        },
        None => None,
    }
}

/// The `i64` that `s` writes: digits, with an optional plus or minus sign before them.
pub open spec fn parsed_i64(s: Seq<char>) -> Option<i64> {
    if s.len() > 0 && s.first() == '-' {
        match magnitude(s.drop_first()) {
            Some(v) => if -v >= i64::MIN {
                Some((-v) as i64)
            } else {
                None
            },
            None => None,
        }
    } else {
        match magnitude(without_sign(s, '+')) {
            Some(v) => if v <= i64::MAX {
                Some(v as i64)
            } else {
                None
            },
            None => None,
        }
    }
}

/// The number that two's complement reads in the bits of `x`: what a cast to `i64` gives.
pub open spec fn as_signed(x: u64) -> int {
    if x <= i64::MAX {
        x as int
    } else {
        x - 0x1_0000_0000_0000_0000
    }
}

/// A prefix of a numeral writes no more than the whole.
proof fn lemma_decimal_value_prefix(s: Seq<char>, k: int)
    requires
        all_digits(s),
        0 <= k <= s.len(),
    ensures
        0 <= decimal_value(s.take(k)) <= decimal_value(s),
    decreases s.len(),
{
    if k == s.len() {
        assert(s.take(k) =~= s);
        if s.len() > 0 {
            lemma_decimal_value_prefix(s.drop_last(), s.len() - 1);
        }
    } else {
        let rest = s.drop_last();
        lemma_decimal_value_prefix(rest, k);
        assert(rest.take(k) =~= s.take(k));
        assert(digit(s.last()));
    }
}

/// What `decimal` writes are digits, and they write the number.
pub proof fn lemma_decimal(n: nat)
    ensures
        decimal(n).len() > 0,
        all_digits(decimal(n)),
        decimal_value(decimal(n)) == n,
    decreases n,
{
    if n < 10 {
        let s = seq![digit_char(n as int)];
        assert(s.drop_last() =~= Seq::<char>::empty());
        assert(decimal_value(s.drop_last()) == 0);
    } else {
        lemma_decimal(n / 10);
        let s = decimal(n);
        assert(s.drop_last() =~= decimal(n / 10));
    }
}

/// Reading a written `i64` gives it back.
pub proof fn law_signed_decimal_reads_back(n: i64)
    ensures
        parsed_i64(signed_decimal(n as int)) == Some(n),
{
    if n < 0 {
        lemma_decimal((-n) as nat);
        assert(signed_decimal(n as int).drop_first() =~= decimal((-n) as nat));
    } else {
        lemma_decimal(n as nat);
        assert(digit(decimal(n as nat)[0]));
    }
}

/// Reading a written `u64` gives it back.
pub proof fn law_decimal_reads_back(n: u64)
    ensures
        parsed_u64(decimal(n as nat)) == Some(n),
{
    lemma_decimal(n as nat);
    assert(digit(decimal(n as nat)[0]));
}

/// Appends `n` in base ten to `out`.
pub fn push_decimal(out: &mut String, n: u64)
    ensures
        final(out)@ == old(out)@ + decimal(n as nat),
    decreases n,
{
    if n >= 10 {
        push_decimal(out, n / 10);
    }
    let d: u8 = (n % 10) as u8;
    let ghost before = out@;
    out.push((d + 48) as char);
    assert(out@ =~= before.push(digit_char((n % 10) as int)));
    assert(out@ =~= old(out)@ + decimal(n as nat));
}

/// `n` in base ten.
pub fn u64_text(n: u64) -> (r: String)
    ensures
        r@ == decimal(n as nat),
{
    let mut out: String = String::new();
    push_decimal(&mut out, n);
    assert(out@ =~= decimal(n as nat));
    out
}

/// `n` in base ten, with a minus sign where it is negative.
pub fn i64_text(n: i64) -> (r: String)
    ensures
        r@ == signed_decimal(n as int),
{
    let mut out: String = String::new();
    if n < 0 {
        out.push('-');
        let m: u64 = (-(n + 1)) as u64 + 1;
        push_decimal(&mut out, m);
    } else {
        push_decimal(&mut out, n as u64);
    }
    assert(out@ =~= signed_decimal(n as int));
    out
}

/// The number that the characters from `from` on write, if they are digits and the number
/// fits.
fn magnitude_from(chars: &Vec<char>, from: usize) -> (r: Option<u64>)
    requires
        from <= chars@.len(),
    ensures
        match r {
            Some(v) => magnitude(chars@.skip(from as int)) == Some(v as int),
            None => magnitude(chars@.skip(from as int)) matches Some(v) ==> v > u64::MAX,
        },
{
    let ghost s = chars@.skip(from as int);
    if from == chars.len() {
        return None;
    }
    let mut i: usize = from;
    let mut acc: u64 = 0;
    assert(s.take(0) =~= Seq::<char>::empty());
    while i < chars.len()
        invariant
            from <= i <= chars@.len(),
            s == chars@.skip(from as int),
            acc == decimal_value(s.take(i - from)),
            forall|j: int| 0 <= j < i - from ==> digit(#[trigger] s[j]),
        decreases chars@.len() - i,
    {
        let c: char = chars[i];
        assert(s[i - from] == c);
        if c < '0' || '9' < c {
            assert(!digit(s[i - from]));
            return None;
        }
        let d: u64 = (c as u32 - 48) as u64;
        let ghost next = s.take(i - from + 1);
        assert(next.drop_last() =~= s.take(i - from));
        assert(next.last() == c);
        assert(decimal_value(next) == acc * 10 + d);
        if acc > u64::MAX / 10 || acc * 10 > u64::MAX - d {
            proof {
                if all_digits(s) {
                    lemma_decimal_value_prefix(s, i - from + 1);
                }
            }
            return None;
        }
        acc = acc * 10 + d;
        i = i + 1;
    }
    assert(s.take(i - from) =~= s);
    Some(acc)
}

/// The `u64` that `chars` write, if they write one.
pub fn parse_u64(chars: &Vec<char>) -> (r: Option<u64>)
    ensures
        r == parsed_u64(chars@),
{
    assert(chars@.skip(0) =~= chars@);
    if chars.len() > 0 && chars[0] == '+' {
        assert(chars@.skip(1) =~= chars@.drop_first());
        magnitude_from(chars, 1)
    } else {
        magnitude_from(chars, 0)
    }
}

/// The `i64` that `s` writes, if it writes one.
pub fn parse_i64(s: &str) -> (r: Option<i64>)
    ensures
        r == parsed_i64(s@),
{
    let chars: Vec<char> = chars_of(s);
    assert(chars@.skip(0) =~= chars@);
    let negative: bool = chars.len() > 0 && chars[0] == '-';
    let from: usize = if negative || (chars.len() > 0 && chars[0] == '+') {
        1
    } else {
        0
    };
    proof {
        if from == 1 {
            assert(chars@.skip(1) =~= chars@.drop_first());
        }
    }
    match magnitude_from(&chars, from) {
        None => None,
        Some(v) => {
            if negative {
                if v <= 0x7fff_ffff_ffff_ffff {
                    Some(-(v as i64))
                } else if v == 0x8000_0000_0000_0000 {
                    Some(i64::MIN)
                } else {
                    None
                }
            } else if v <= 0x7fff_ffff_ffff_ffff {
                Some(v as i64)
            } else {
                None
            }
        },
    }
}

/// The signed number with the bits of `x`.
pub fn to_signed(x: u64) -> (r: i64)
    ensures
        r == as_signed(x),
{
    if x <= 0x7fff_ffff_ffff_ffff {
        x as i64
    } else {
        -((u64::MAX - x) as i64) - 1
    }
}

/// The numerals below ten are the digits in order, and a numeral with one more digit behind
/// it stands for ten times the number and that digit.
pub proof fn law_numerals_are_in_base_ten(n: nat, d: int)
    requires
        0 <= d < 10,
    ensures
        decimal(d as nat) == seq!["0123456789"@[d]],
        n > 0 ==> decimal((10 * n + d) as nat) == decimal(n).push("0123456789"@[d]),
{
    reveal_strlit("0123456789");
    assert("0123456789"@[d] as int == 48 + d) by {
        assert(d == 0 || d == 1 || d == 2 || d == 3 || d == 4 || d == 5 || d == 6 || d == 7 || d
            == 8 || d == 9);
    }
    if n > 0 {
        assert((10 * n + d) / 10 == n && (10 * n + d) % 10 == d);
    }
}

/// A minus sign stands before a negative number, and nothing before another one.
pub proof fn law_negative_numerals_have_a_minus_sign(n: nat)
    ensures
        signed_decimal(n as int) == decimal(n),
        n > 0 ==> signed_decimal(-n) == seq!['-'] + decimal(n),
{
}

/// Zeros in front of a numeral change nothing.
proof fn lemma_leading_zeros(zeros: Seq<char>, s: Seq<char>)
    requires
        forall|i: int| 0 <= i < zeros.len() ==> #[trigger] zeros[i] == '0',
        all_digits(s),
    ensures
        all_digits(zeros + s),
        decimal_value(zeros + s) == decimal_value(s),
    decreases s.len(), zeros.len(),
{
    if s.len() > 0 {
        let rest = s.drop_last();
        assert((zeros + s).drop_last() =~= zeros + rest);
        assert forall|i: int| 0 <= i < rest.len() implies digit(#[trigger] rest[i]) by {
            assert(rest[i] == s[i]);
        }
        lemma_leading_zeros(zeros, rest);
    } else if zeros.len() > 0 {
        let fewer = zeros.drop_last();
        assert(zeros + s =~= zeros);
        assert(zeros.drop_last() =~= fewer + s);
        lemma_leading_zeros(fewer, s);
        assert(zeros[zeros.len() - 1] == '0');
    } else {
        assert(zeros + s =~= s);
    }
}

/// A numeral is read with or without a plus sign and whatever zeros stand before it.
pub proof fn law_plus_signs_and_zeros_are_read(n: u64, zeros: Seq<char>)
    requires
        forall|i: int| 0 <= i < zeros.len() ==> #[trigger] zeros[i] == '0',
    ensures
        parsed_u64(zeros + decimal(n as nat)) == Some(n),
        parsed_u64(seq!['+'] + (zeros + decimal(n as nat))) == Some(n),
        n <= i64::MAX ==> parsed_i64(zeros + decimal(n as nat)) == Some(n as i64),
        n <= i64::MAX ==> parsed_i64(seq!['+'] + (zeros + decimal(n as nat))) == Some(n as i64),
        n <= i64::MAX ==> parsed_i64(seq!['-'] + (zeros + decimal(n as nat))) == Some((-n) as i64),
{
    let s = zeros + decimal(n as nat);
    lemma_decimal(n as nat);
    lemma_leading_zeros(zeros, decimal(n as nat));
    assert(digit(s[0]));
    assert((seq!['+'] + s).drop_first() =~= s);
    assert((seq!['-'] + s).drop_first() =~= s);
}

/// What is read as a number is digits behind one sign at most, and no digits stand for more
/// than the greatest number of the type.
pub proof fn law_only_digits_behind_a_sign_are_numbers(s: Seq<char>)
    ensures
        parsed_u64(s) is Some ==> s.len() > 0 && ('0' <= s[0] <= '9' || (s[0] == '+' && s.len()
            > 1)) && forall|i: int| 0 < i < s.len() ==> '0' <= #[trigger] s[i] <= '9',
        parsed_i64(s) is Some ==> s.len() > 0 && ('0' <= s[0] <= '9' || ((s[0] == '+' || s[0]
            == '-') && s.len() > 1)) && forall|i: int|
            0 < i < s.len() ==> '0' <= #[trigger] s[i] <= '9',
        s.len() > 0 && all_digits(s) && decimal_value(s) > u64::MAX ==> parsed_u64(s) is None,
        s.len() > 0 && all_digits(s) && decimal_value(s) > i64::MAX ==> parsed_i64(s) is None,
{
    if s.len() > 0 {
        assert forall|i: int| 0 < i < s.len() implies s[i] == s.drop_first()[i - 1] by {}
        if s.drop_first().len() > 0 && all_digits(s.drop_first()) {
            assert forall|i: int| 0 < i < s.len() implies digit(#[trigger] s[i]) by {
                assert(digit(s.drop_first()[i - 1]));
            }
        }
        if all_digits(s) {
            assert(digit(s[0]));
        }
    }
}

/// The signed number with the bits of `x` is an `i64`, and it differs from `x` by a multiple
/// of two to the power of 64.
pub proof fn law_the_sign_is_the_top_bit(x: u64)
    ensures
        i64::MIN <= as_signed(x) <= i64::MAX,
        as_signed(x) == x || as_signed(x) + 0x1_0000_0000_0000_0000 == x,
        as_signed(x) < 0 <==> x >= 0x8000_0000_0000_0000,
{
}

} // verus!
