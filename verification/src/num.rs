//! Parsing and printing of integers in the textual forms the system reports use.
use vstd::prelude::*;
use crate::text::push_char;

verus! {

/// The value of `c` as a digit in base `radix` (10 or 16), or -1 when it is none.
pub open spec fn digit_val(c: char, radix: nat) -> int {
    if '0' <= c && c <= '9' {
        c as int - '0' as int
    } else if radix == 16 && 'a' <= c && c <= 'f' {
        c as int - 'a' as int + 10
    } else if radix == 16 && 'A' <= c && c <= 'F' {
        c as int - 'A' as int + 10
    } else {
        -1
    }
}

/// Every character of `s` is a digit in base `radix`.
pub open spec fn all_digits(s: Seq<char>, radix: nat) -> bool {
    forall|i: int| 0 <= i < s.len() ==> digit_val(#[trigger] s[i], radix) >= 0
}

/// The number that the digits `s` spell in base `radix`.
pub open spec fn digits_value(s: Seq<char>, radix: nat) -> nat
    decreases s.len(),
{
    if s.len() == 0 {
        0
    } else {
        let d = digit_val(s.last(), radix);
        (digits_value(s.drop_last(), radix) * radix + (if d >= 0 { d } else { 0 })) as nat
    }
}

/// What `from_str_radix` (and `str::parse` for radix 10) gives for an unsigned
/// type whose largest value is `max`: an optional `+`, then at least one digit,
/// and a value that fits.
pub open spec fn parse_unsigned(s: Seq<char>, radix: nat, max: nat) -> Option<nat> {
    let d = if s.len() > 0 && s[0] == '+' { s.drop_first() } else { s };
    if d.len() == 0 || !all_digits(d, radix) || digits_value(d, radix) > max {
        None
    } else {
        Some(digits_value(d, radix))
    }
}

proof fn lemma_digits_value_prefix_le(s: Seq<char>, i: int, radix: nat)
    requires
        0 <= i <= s.len(),
        radix >= 1,
        all_digits(s, radix),
    ensures
        digits_value(s.take(i), radix) <= digits_value(s, radix),
    decreases s.len(),
{
    if i == s.len() {
        assert(s.take(i) == s);
    } else {
        let t = s.drop_last();
        assert(all_digits(t, radix)) by {
            assert forall|j: int| 0 <= j < t.len() implies digit_val(#[trigger] t[j], radix) >= 0 by {
                assert(t[j] == s[j]);
            }
        }
        lemma_digits_value_prefix_le(t, i, radix);
        assert(t.take(i) == s.take(i));
        let v = digits_value(t, radix);
        assert(v * radix >= v) by (nonlinear_arith)
            requires
                radix >= 1,
        ;
    }
}

proof fn lemma_digits_value_step(s: Seq<char>, i: int, radix: nat)
    requires
        0 <= i < s.len(),
    ensures
        digits_value(s.take(i + 1), radix) == digits_value(s.take(i), radix) * radix + (if digit_val(
            s[i],
            radix,
        ) >= 0 {
            digit_val(s[i], radix)
        } else {
            0
        }),
{
    assert(s.take(i + 1).drop_last() == s.take(i));
    assert(s.take(i + 1).last() == s[i]);
}

/// The digit value of `c` in base `radix`, if it is a digit.
pub fn digit_of(c: char, radix: u32) -> (r: Option<u32>)
    requires
        radix == 10 || radix == 16,
    ensures
        match r {
            Some(d) => d as int == digit_val(c, radix as nat) && d < radix,
            None => digit_val(c, radix as nat) < 0,
        },
{
    if '0' <= c && c <= '9' {
        Some((c as u32) - ('0' as u32))
    } else if radix == 16 && 'a' <= c && c <= 'f' {
        Some((c as u32) - ('a' as u32) + 10)
    } else if radix == 16 && 'A' <= c && c <= 'F' {
        Some((c as u32) - ('A' as u32) + 10)
    } else {
        None
    }
}

/// Parses `v` as an unsigned integer in base `radix` no larger than `max`
/// (as `from_str_radix` or `str::parse` for the unsigned type whose largest value is `max`).
pub fn parse_uint(v: &[char], radix: u32, max: u64) -> (r: Option<u64>)
    requires
        radix == 10 || radix == 16,
    ensures
        match parse_unsigned(v@, radix as nat, max as nat) {
            Some(x) => r == Some(x as u64),
            None => r is None,
        },
{
    let start: usize = if v.len() > 0 && v[0] == '+' { 1 } else { 0 };
    let ghost d = if v@.len() > 0 && v@[0] == '+' { v@.drop_first() } else { v@ };
    assert(d == v@.skip(start as int));
    if start >= v.len() {
        return None;
    }
    let mut acc: u64 = 0;
    let mut i: usize = start;
    while i < v.len()
        invariant
            start <= i <= v@.len(),
            d == v@.skip(start as int),
            d == (if v@.len() > 0 && v@[0] == '+' { v@.drop_first() } else { v@ }),
            d.len() > 0,
            radix == 10 || radix == 16,
            all_digits(d.take(i - start), radix as nat),
            acc as nat == digits_value(d.take(i - start), radix as nat),
            acc <= max,
        decreases v.len() - i,
    {
        let k = i - start;
        assert(d[k as int] == v@[i as int]);
        match digit_of(v[i], radix) {
            None => {
                assert(digit_val(d[k as int], radix as nat) < 0);
                assert(!all_digits(d, radix as nat));
                assert(parse_unsigned(v@, radix as nat, max as nat) is None);
                return None;
            },
            Some(dv) => {
                proof {
                    lemma_digits_value_step(d, k as int, radix as nat);
                    assert(all_digits(d.take(k + 1), radix as nat)) by {
                        assert forall|j: int| 0 <= j < k + 1 implies digit_val(
                            #[trigger] d.take(k + 1)[j],
                            radix as nat,
                        ) >= 0 by {
                            if j < k {
                                assert(d.take(k + 1)[j] == d.take(k as int)[j]);
                            }
                        }
                    }
                }
                let next = match acc.checked_mul(radix as u64) {
                    Some(m) => m.checked_add(dv as u64),
                    None => None,
                };
                match next {
                    Some(n) if n <= max => {
                        acc = n;
                    },
                    _ => {
                        proof {
                            assert(digits_value(d.take(k + 1), radix as nat) > max) by (nonlinear_arith)
                                requires
                                    digits_value(d.take(k + 1), radix as nat) == acc * radix + dv,
                                    next is None || next->0 > max,
                                    next is Some ==> next->0 == acc * radix + dv,
                                    next is None ==> acc * radix + dv > u64::MAX,
                                    max <= u64::MAX,
                            ;
                            if all_digits(d, radix as nat) {
                                lemma_digits_value_prefix_le(d, k + 1, radix as nat);
                                assert(digits_value(d, radix as nat) > max);
                            }
                            assert(parse_unsigned(v@, radix as nat, max as nat) is None);
                        }
                        return None;
                    },
                }
            },
        }
        i = i + 1;
    }
    assert(d.take(i - start) == d);
    Some(acc)
}

/// Decimal digits of `n`, most significant first, without leading zeros.
pub open spec fn dec_digits(n: nat) -> Seq<char>
    decreases n,
{
    if n < 10 {
        seq![(n + '0' as nat) as char]
    } else {
        dec_digits(n / 10) + seq![((n % 10) + '0' as nat) as char]
    }
}

/// The lower-case hexadecimal digit for `d < 16`.
pub open spec fn hex_char(d: nat) -> char {
    if d < 10 {
        (d + '0' as nat) as char
    } else {
        (d - 10 + 'a' as nat) as char
    }
}

/// Lower-case hexadecimal digits of `n`, without leading zeros (as `{:x}`).
pub open spec fn hex_digits(n: nat) -> Seq<char>
    decreases n,
{
    if n < 16 {
        seq![hex_char(n)]
    } else {
        hex_digits(n / 16) + seq![hex_char(n % 16)]
    }
}

/// The hexadecimal digits of `n` are digits, do not begin with `+` or `x`, and spell `n`.
pub proof fn lemma_hex_digits_value(n: nat)
    ensures
        hex_digits(n).len() > 0,
        all_digits(hex_digits(n), 16),
        digits_value(hex_digits(n), 16) == n,
        hex_digits(n)[0] != '+',
        hex_digits(n).len() > 1 ==> hex_digits(n)[1] != 'x',
    decreases n,
{
    let c = hex_char(n % 16);
    assert(digit_val(c, 16) == n % 16);
    if n < 16 {
        let h = hex_digits(n);
        assert(h == seq![hex_char(n)]);
        assert(h.drop_last() =~= Seq::<char>::empty());
        assert(digits_value(h.drop_last(), 16) == 0);
    } else {
        lemma_hex_digits_value(n / 16);
        let p = hex_digits(n / 16);
        let h = hex_digits(n);
        assert(h == p + seq![c]);
        assert(h.drop_last() == p);
        assert(h.last() == c);
        assert forall|i: int| 0 <= i < h.len() implies digit_val(#[trigger] h[i], 16) >= 0 by {
            if i < p.len() {
                assert(h[i] == p[i]);
            }
        }
        assert(h[0] == p[0]);
        if p.len() > 1 {
            assert(h[1] == p[1]);
        } else {
            assert(h[1] == c);
        }
        assert(digits_value(h, 16) == digits_value(p, 16) * 16 + n % 16);
    }
}

/// Reading the hexadecimal digits of `n` (no larger than `max`) gives `n` back.
pub proof fn lemma_parse_hex_digits(n: nat, max: nat)
    requires
        n <= max,
    ensures
        parse_unsigned(hex_digits(n), 16, max) == Some(n),
{
    lemma_hex_digits_value(n);
}

/// Appends the decimal form of `n` (as `{}` formats an unsigned integer).
pub fn push_dec(s: &mut String, n: u64)
    ensures
        final(s)@ == old(s)@ + dec_digits(n as nat),
    decreases n,
{
    if n >= 10 {
        push_dec(s, n / 10);
    }
    let d = (n % 10) as u8;
    let c = (d + 48u8) as char;
    push_char(s, c);
}

/// Appends the lower-case hexadecimal form of `n` (as `{:x}`).
pub fn push_hex(s: &mut String, n: u64)
    ensures
        final(s)@ == old(s)@ + hex_digits(n as nat),
    decreases n,
{
    if n >= 16 {
        push_hex(s, n / 16);
    }
    let d = (n % 16) as u8;
    let c = if d < 10 {
        (d + 48u8) as char
    } else {
        (d + 87u8) as char
    };
    push_char(s, c);
}

/// Octal digits of `n`, most significant first, without leading zeros (as `{:o}`).
pub open spec fn oct_digits(n: nat) -> Seq<char>
    decreases n,
{
    if n < 8 {
        seq![(n + '0' as nat) as char]
    } else {
        oct_digits(n / 8) + seq![((n % 8) + '0' as nat) as char]
    }
}

/// Appends the octal form of `n` (as `{:o}`).
pub fn push_oct(s: &mut String, n: u32)
    ensures
        final(s)@ == old(s)@ + oct_digits(n as nat),
    decreases n,
{
    if n >= 8 {
        push_oct(s, n / 8);
    }
    let d = (n % 8) as u8;
    let c = (d + 48u8) as char;
    push_char(s, c);
}

/// The decimal form of `n` (as `n.to_string()`).
pub fn dec_string(n: u64) -> (s: String)
    ensures
        s@ == dec_digits(n as nat),
{
    let mut s = String::new();
    push_dec(&mut s, n);
    s
}


/// What `str::parse::<i64>` gives: an optional sign, then at least one decimal digit,
/// and a value in range.
pub open spec fn parse_signed64(s: Seq<char>) -> Option<int> {
    let neg = s.len() > 0 && s[0] == '-';
    let d = if s.len() > 0 && (s[0] == '+' || s[0] == '-') { s.drop_first() } else { s };
    if d.len() == 0 || !all_digits(d, 10) {
        None
    } else if neg {
        if digits_value(d, 10) > 0x8000_0000_0000_0000 {
            None
        } else {
            Some(-(digits_value(d, 10) as int))
        }
    } else if digits_value(d, 10) > 0x7fff_ffff_ffff_ffff {
        None
    } else {
        Some(digits_value(d, 10) as int)
    }
}

/// Parses `v` as an `i64` (as `str::parse::<i64>`).
pub fn parse_i64(v: &[char]) -> (r: Option<i64>)
    ensures
        match parse_signed64(v@) {
            Some(x) => r == Some(x as i64),
            None => r is None,
        },
{
    if v.len() > 0 && v[0] == '-' {
        let rest = crate::text::slice_chars(v, 1, v.len());
        assert(rest@ == v@.drop_first());
        if rest.len() > 0 && rest[0] == '+' {
            assert(!all_digits(rest@, 10)) by {
                assert(digit_val(rest@[0], 10) < 0);
            }
            return None;
        }
        assert(parse_unsigned(rest@, 10, 0x8000_0000_0000_0000) == (if rest@.len() == 0 || !all_digits(rest@, 10) || digits_value(rest@, 10) > 0x8000_0000_0000_0000 { None::<nat> } else { Some(digits_value(rest@, 10)) }));
        match parse_uint(&rest, 10, 0x8000_0000_0000_0000) {
            Some(x) => {
                if x == 0x8000_0000_0000_0000 {
                    Some(i64::MIN)
                } else {
                    Some(-(x as i64))
                }
            },
            None => None,
        }
    } else {
        if v.len() > 0 && v[0] == '+' {
            let rest = crate::text::slice_chars(v, 1, v.len());
            assert(rest@ == v@.drop_first());
            if rest.len() > 0 && (rest[0] == '+' || rest[0] == '-') {
                assert(!all_digits(rest@, 10)) by {
                    assert(digit_val(rest@[0], 10) < 0);
                }
                return None;
            }
        }
        match parse_uint(v, 10, 0x7fff_ffff_ffff_ffff) {
            Some(x) => Some(x as i64),
            None => None,
        }
    }
}

} // verus!
