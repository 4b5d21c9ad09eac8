use vstd::prelude::*;

use crate::uci::text::char_from_ascii;

verus! {

/// Whether `c` is one of the decimal digits `0` to `9`.
pub open spec fn is_digit(c: char) -> bool {
    '0' <= c <= '9'
}

/// The value of the decimal digit `c`.
pub open spec fn digit_value(c: char) -> nat {
    (c as int - '0' as int) as nat
}

/// The decimal digit that stands for `d`, for `d` below ten.
pub open spec fn digit_char(d: nat) -> char {
    (d + '0' as nat) as char
}

/// Whether every character of `d` is a decimal digit.
pub open spec fn all_digits(d: Seq<char>) -> bool {
    forall|i: int| 0 <= i < d.len() ==> is_digit(#[trigger] d[i])
}

/// The number that the decimal digits `d` spell, most significant first.
pub open spec fn decimal_value(d: Seq<char>) -> nat
    decreases d.len(),
{
    if d.len() == 0 {
        0
    } else {
        decimal_value(d.drop_last()) * 10 + digit_value(d.last())
    }
}

/// The digits of an unsigned number's text: the text without one leading `+`.
pub open spec fn unsigned_digits(s: Seq<char>) -> Seq<char> {
    if s.len() > 0 && s[0] == '+' {
        s.skip(1)
    } else {
        s
    }
}

/// What `str::parse` gives for an unsigned integer type whose greatest value
/// is `max`: the value of a non-empty run of decimal digits, after at most one
/// leading `+`, when it is no greater than `max`; nothing otherwise.
pub open spec fn parse_unsigned(s: Seq<char>, max: nat) -> Option<nat> {
    let d = unsigned_digits(s);
    if d.len() > 0 && all_digits(d) && decimal_value(d) <= max {
        Some(decimal_value(d))
    } else {
        None
    }
}

/// The shortest decimal text of `n`, most significant digit first.
pub open spec fn decimal_digits(n: nat) -> Seq<char>
    decreases n,
{
    if n < 10 {
        seq![digit_char(n)]
    } else {
        decimal_digits(n / 10).push(digit_char(n % 10))
    }
}

/// The decimal text of `x`, with a leading `-` when it is negative.
pub open spec fn signed_decimal(x: int) -> Seq<char> {
    if x < 0 {
        seq!['-'] + decimal_digits((-x) as nat)
    } else {
        decimal_digits(x as nat)
    }
}

/// A prefix of a run of digits never spells a greater number than the run.
proof fn lemma_decimal_prefix_le(d: Seq<char>, k: int)
    requires
        0 <= k <= d.len(),
        all_digits(d),
    ensures
        decimal_value(d.subrange(0, k)) <= decimal_value(d),
    decreases d.len() - k,
{
    if k < d.len() {
        let next = d.subrange(0, k + 1);
        assert(next.drop_last() =~= d.subrange(0, k));
        assert(is_digit(d[k]));
        lemma_decimal_prefix_le(d, k + 1);
    } else {
        assert(d.subrange(0, k) =~= d);
    }
}

/// Parses `s` as `str::parse` parses an unsigned integer no greater than `max`.
pub fn parse_decimal(s: &[char], max: u64) -> (value: Option<u64>)
    ensures
        match value {
            Some(v) => parse_unsigned(s@, max as nat) == Some(v as nat),
            None => parse_unsigned(s@, max as nat) is None,
        },
{
    let start: usize = if s.len() > 0 && s[0] == '+' {
        1
    } else {
        0
    };
    let ghost d = unsigned_digits(s@);
    assert(d =~= s@.subrange(start as int, s@.len() as int));
    if start >= s.len() {
        return None;
    }
    let mut value: u64 = 0;
    let mut i: usize = start;
    while i < s.len()
        invariant
            start <= i <= s@.len(),
            d == unsigned_digits(s@),
            d == s@.subrange(start as int, s@.len() as int),
            all_digits(d.subrange(0, i - start)),
            value as nat == decimal_value(d.subrange(0, i - start)),
            value <= max,
        decreases s@.len() - i,
    {
        let c = s[i];
        if !('0' <= c && c <= '9') {
            assert(d[i - start] == c);
            assert(!is_digit(d[i - start]));
            assert(!all_digits(d));
            return None;
        }
        let digit = (c as u32 - '0' as u32) as u64;
        let ghost k = i - start;
        let ghost next = d.subrange(0, k + 1);
        assert(next.drop_last() =~= d.subrange(0, k));
        assert(next.last() == c);
        assert(digit_value(c) == digit as nat);
        assert(decimal_value(next) == value * 10 + digit);
        if (value as u128) * 10 + (digit as u128) > max as u128 {
            proof {
                if all_digits(d) {
                    lemma_decimal_prefix_le(d, k + 1);
                    assert(decimal_value(d) > max);
                }
            }
            return None;
        }
        value = value * 10 + digit;
        i = i + 1;
        assert(all_digits(d.subrange(0, i - start)));
    }
    assert(d.subrange(0, i - start) =~= d);
    Some(value)
}

/// Appends the decimal text of `n` to `out`.
pub fn push_decimal(out: &mut Vec<char>, n: u64)
    ensures
        final(out)@ == old(out)@ + decimal_digits(n as nat),
    decreases n,
{
    if n >= 10 {
        push_decimal(out, n / 10);
    }
    let digit = char_from_ascii((n % 10) as u8 + 48);
    out.push(digit);
    assert(n < 10 ==> decimal_digits(n as nat) =~= seq![digit_char(n as nat)]);
}

/// Appends the decimal text of `x`, signed, to `out`.
pub fn push_signed_decimal(out: &mut Vec<char>, x: i64)
    requires
        x > i64::MIN,
    ensures
        final(out)@ == old(out)@ + signed_decimal(x as int),
{
    if x < 0 {
        out.push('-');
        push_decimal(out, (0 - x) as u64);
        assert(final(out)@ =~= old(out)@ + signed_decimal(x as int));
    } else {
        push_decimal(out, x as u64);
    }
}

/// Decimal text reads back as the number it was written from.
pub proof fn lemma_decimal_roundtrip(n: nat)
    ensures
        decimal_digits(n).len() > 0,
        all_digits(decimal_digits(n)),
        decimal_digits(n)[0] != '+',
        decimal_value(decimal_digits(n)) == n,
    decreases n,
{
    if n >= 10 {
        lemma_decimal_roundtrip(n / 10);
        let d = decimal_digits(n);
        assert(d.drop_last() =~= decimal_digits(n / 10));
        assert(digit_value(digit_char(n % 10)) == n % 10);
        assert(d.last() == digit_char(n % 10));
        assert(decimal_value(d) == (n / 10) * 10 + n % 10);
        assert((n / 10) * 10 + n % 10 == n);
        assert(decimal_value(d) == n);
    } else {
        let d = decimal_digits(n);
        assert(d.drop_last() =~= Seq::<char>::empty());
        assert(digit_value(digit_char(n)) == n);
        assert(decimal_value(d) == decimal_value(d.drop_last()) * 10 + digit_value(d.last()));
        assert(decimal_value(d) == n);
        assert forall|i: int| 0 <= i < d.len() implies is_digit(#[trigger] d[i]) by {
            if i < d.len() - 1 {
                assert(d[i] == decimal_digits(n / 10)[i]);
            }
        }
    }
}

/// Every number up to `max` written in decimal parses back to itself.
pub proof fn lemma_parse_unsigned_decimal(n: nat, max: nat)
    requires
        n <= max,
    ensures
        parse_unsigned(decimal_digits(n), max) == Some(n),
{
    lemma_decimal_roundtrip(n);
}

} // verus!
