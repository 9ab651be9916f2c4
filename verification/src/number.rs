//! Unsigned integer parsing with the rules of `u*::from_str_radix` and
//! `str::parse`: an optional `+`, then at least one digit of the radix,
//! and a value that fits the target type.
use vstd::prelude::*;
use crate::text::chars_of;

verus! {

/// The value of `c` as a digit of `radix` (`char::to_digit`), if it is one.
pub open spec fn digit_value(c: char, radix: nat) -> Option<nat> {
    let v: int = if '0' <= c && c <= '9' {
        c as int - '0' as int
    } else if 'a' <= c && c <= 'z' {
        c as int - 'a' as int + 10
    } else if 'A' <= c && c <= 'Z' {
        c as int - 'A' as int + 10
    } else {
        radix as int
    };
    if v < radix {
        Some(v as nat)
    } else {
        None
    }
}

/// Every character of `s` is a digit of `radix`.
pub open spec fn all_digits(s: Seq<char>, radix: nat) -> bool {
    forall|i: int| 0 <= i < s.len() ==> #[trigger] digit_value(s[i], radix) is Some
}

/// The number that the digits `s` denote in `radix`, most significant first.
pub open spec fn digits_value(s: Seq<char>, radix: nat) -> nat
    decreases s.len(),
{
    if s.len() == 0 {
        0
    } else {
        digits_value(s.drop_last(), radix) * radix + digit_value(s.last(), radix)->0
    }
}

/// `s` without one leading `+`, if it has one.
pub open spec fn unsigned_digits(s: Seq<char>) -> Seq<char> {
    if s.len() > 0 && s[0] == '+' {
        s.drop_first()
    } else {
        s
    }
}

/// What parsing `s` as an unsigned number of `radix` no larger than `max` gives.
pub open spec fn parse_unsigned(s: Seq<char>, radix: nat, max: nat) -> Option<nat> {
    let d = unsigned_digits(s);
    if d.len() > 0 && all_digits(d, radix) && digits_value(d, radix) <= max {
        Some(digits_value(d, radix))
    } else {
        None
    }
}

proof fn lemma_digits_prefix_le(s: Seq<char>, radix: nat, i: int)
    requires
        1 <= radix,
        0 <= i <= s.len(),
        all_digits(s, radix),
    ensures
        digits_value(s.take(i), radix) <= digits_value(s, radix),
    decreases s.len() - i,
{
    if i < s.len() {
        lemma_digits_prefix_le(s, radix, i + 1);
        let t = s.take(i + 1);
        assert(t.drop_last() =~= s.take(i));
        let a = digits_value(s.take(i), radix);
        assert(digit_value(t.last(), radix) is Some) by {
            assert(t.last() == s[i]);
        }
        assert(a <= a * radix) by (nonlinear_arith)
            requires
                1 <= radix,
        ;
    } else {
        assert(s.take(i) =~= s);
    }
}

fn char_digit(c: char, radix: u32) -> (r: Option<u32>)
    requires
        2 <= radix <= 36,
    ensures
        r matches Some(d) ==> digit_value(c, radix as nat) == Some(d as nat),
        r is None ==> digit_value(c, radix as nat) is None,
{
    let v: u32 = if '0' <= c && c <= '9' {
        (c as u32) - ('0' as u32)
    } else if 'a' <= c && c <= 'z' {
        (c as u32) - ('a' as u32) + 10
    } else if 'A' <= c && c <= 'Z' {
        (c as u32) - ('A' as u32) + 10
    } else {
        radix
    };
    if v < radix {
        Some(v)
    } else {
        None
    }
}

/// Parses the characters `v[start..end]` as an unsigned number of `radix`
/// no larger than `max`.
pub fn parse_unsigned_range(v: &Vec<char>, start: usize, end: usize, radix: u32, max: u64) -> (r: Option<u64>)
    requires
        start <= end <= v.len(),
        2 <= radix <= 36,
    ensures
        r == (match parse_unsigned(v@.subrange(start as int, end as int), radix as nat, max as nat) {
            Some(x) => Some(x as u64),
            None => None,
        }),
{
    let ghost s = v@.subrange(start as int, end as int);
    let mut i = start;
    if start < end && v[start] == '+' {
        i = start + 1;
    }
    let ghost d = unsigned_digits(s);
    assert(d =~= v@.subrange(i as int, end as int));
    if i == end {
        return None;
    }
    let mut value: u64 = 0;
    let first = i;
    while i < end
        invariant
            start <= first <= i <= end <= v.len(),
            2 <= radix <= 36,
            d == v@.subrange(first as int, end as int),
            s == v@.subrange(start as int, end as int),
            d == unsigned_digits(s),
            d.len() > 0,
            all_digits(d.take(i - first), radix as nat),
            value == digits_value(d.take(i - first), radix as nat),
            value <= max,
        decreases end - i,
    {
        let k = i - first;
        let c = v[i];
        assert(d[k as int] == c);
        match char_digit(c, radix) {
            None => {
                assert(digit_value(d[k as int], radix as nat) is None);
                return None;
            },
            Some(dig) => {
                let ghost t = d.take(k + 1);
                assert(t.drop_last() =~= d.take(k as int));
                assert(t.last() == c);
                if dig as u64 > max || value > (max - dig as u64) / (radix as u64) {
                    proof {
                        let r = radix as int;
                        let nv = value * r + dig;
                        if dig <= max {
                            let m = max - dig;
                            vstd::arithmetic::div_mod::lemma_fundamental_div_mod(m, r);
                            assert(nv > max) by (nonlinear_arith)
                                requires
                                    value > m / r,
                                    m == r * (m / r) + m % r,
                                    m % r < r,
                                    r >= 2,
                                    nv == value * r + dig,
                                    m == max - dig,
                            ;
                        } else {
                            assert(nv > max) by (nonlinear_arith)
                                requires
                                    dig > max,
                                    value >= 0,
                                    r >= 2,
                                    nv == value * r + dig,
                            ;
                        }
                        assert(digits_value(t, radix as nat) == nv);
                        if all_digits(d, radix as nat) {
                            lemma_digits_prefix_le(d, radix as nat, k + 1);
                        }
                    }
                    return None;
                }
                proof {
                    let r = radix as int;
                    let m = max - dig;
                    vstd::arithmetic::div_mod::lemma_fundamental_div_mod(m, r);
                    assert(value * r + dig <= max) by (nonlinear_arith)
                        requires
                            value <= m / r,
                            m == r * (m / r) + m % r,
                            m % r >= 0,
                            r >= 2,
                            m == max - dig,
                    ;
                    assert forall|j: int| 0 <= j < t.len() implies
                        #[trigger] digit_value(t[j], radix as nat) is Some by {
                        if j < k {
                            assert(t[j] == d.take(k as int)[j]);
                        }
                    }
                }
                value = value * (radix as u64) + dig as u64;
            },
        }
        i += 1;
    }
    assert(d.take(d.len() as int) =~= d);
    Some(value)
}

/// Parses `s` as an unsigned decimal number no larger than `max`
/// (`str::parse` for an unsigned integer type whose largest value is `max`).
pub fn parse_decimal(s: &str, max: u64) -> (r: Option<u64>)
    ensures
        r == (match parse_unsigned(s@, 10, max as nat) {
            Some(x) => Some(x as u64),
            None => None,
        }),
{
    let v = chars_of(s);
    assert(v@.subrange(0, v@.len() as int) =~= s@);
    parse_unsigned_range(&v, 0, v.len(), 10, max)
}

/// The decimal digit character of `d` (below 10).
pub open spec fn decimal_digit(d: nat) -> char {
    (48 + d) as char
}

/// The decimal numeral of `n`, most significant digit first, without
/// leading zeros (`0` for zero).
pub open spec fn decimal_text(n: nat) -> Seq<char>
    decreases n,
{
    if n < 10 {
        seq![decimal_digit(n)]
    } else {
        decimal_text(n / 10).push(decimal_digit(n % 10))
    }
}

proof fn lemma_decimal_text(n: nat)
    ensures
        decimal_text(n).len() > 0,
        all_digits(decimal_text(n), 10),
        digits_value(decimal_text(n), 10) == n,
        '0' <= decimal_text(n)[0] <= '9',
    decreases n,
{
    if n >= 10 {
        lemma_decimal_text(n / 10);
        let t = decimal_text(n);
        let h = decimal_text(n / 10);
        assert(t.drop_last() =~= h);
        assert(t[0] == h[0]);
        assert forall|i: int| 0 <= i < t.len() implies #[trigger] digit_value(t[i], 10) is Some by {
            if i < h.len() {
                assert(t[i] == h[i]);
            }
        }
        assert(t.last() == decimal_digit(n % 10));
        assert(digit_value(t.last(), 10) == Some((n % 10) as nat));
        assert(digits_value(t, 10) == digits_value(h, 10) * 10 + (n % 10) as nat);
        assert(n == (n / 10) * 10 + n % 10);
        assert(digits_value(t, 10) == n);
    } else {
        let t = decimal_text(n);
        assert(t.drop_last() =~= Seq::<char>::empty());
        assert(digit_value(t.last(), 10) == Some(n));
        assert(digits_value(t.drop_last(), 10) == 0);
        assert(digits_value(t, 10) == n);
    }
}

/// Reading the decimal numeral of a number gives the number back: every
/// number up to `max` is read from its decimal digits as itself.
pub proof fn law_decimal_text_parses(n: nat, max: nat)
    requires
        n <= max,
    ensures
        parse_unsigned(decimal_text(n), 10, max) == Some(n),
{
    lemma_decimal_text(n);
}

} // verus!
