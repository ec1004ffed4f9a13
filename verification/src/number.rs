//! Numerals: what a field's or a parameter's text stands for.
//!
//! One set of coercions serves style fields, event fields and override
//! parameters. Each says of every text whether it is a numeral of its kind
//! and, if so, which value it has; none falls back to a default.

use vstd::prelude::*;
use crate::cursor::{first_byte, lemma_first_byte, Cursor};

verus! {

/// Whether `b` is one of `0` to `9`.
pub open spec fn is_digit(b: u8) -> bool {
    '0' as u8 <= b <= '9' as u8
}

/// Whether `s` is one decimal digit or more, and nothing else.
pub open spec fn is_numeral(s: Seq<u8>) -> bool {
    s.len() > 0 && forall|i: int| 0 <= i < s.len() ==> is_digit(#[trigger] s[i])
}

/// The number that the decimal digits `s` write.
pub open spec fn digits_value(s: Seq<u8>) -> nat
    decreases s.len(),
{
    if s.len() == 0 {
        0
    } else {
        digits_value(s.drop_last()) * 10 + (s.last() - '0' as u8) as nat
    }
}

/// The integer that `s` writes in base ten: digits, with `+` or `-` in
/// front if one likes. Nothing else is an integer.
pub open spec fn integer_value(s: Seq<u8>) -> Option<int> {
    if s.len() > 0 && s[0] == '-' as u8 {
        if is_numeral(s.skip(1)) {
            Some(-(digits_value(s.skip(1)) as int))
        } else {
            None
        }
    } else if s.len() > 0 && s[0] == '+' as u8 {
        if is_numeral(s.skip(1)) {
            Some(digits_value(s.skip(1)) as int)
        } else {
            None
        }
    } else if is_numeral(s) {
        Some(digits_value(s) as int)
    } else {
        None
    }
}

/// The integer that `s` writes, where it lies from `min` to `max`.
pub open spec fn integer_within(s: Seq<u8>, min: int, max: int) -> Option<int> {
    match integer_value(s) {
        Some(v) => if min <= v <= max {
            Some(v)
        } else {
            None
        },
        None => None,
    }
}

/// The truth value of a tri-state field: `-1` is on, `0` is off, and no
/// other text is accepted.
pub open spec fn tristate_value(s: Seq<u8>) -> Option<bool> {
    if s == seq!['-' as u8, '1' as u8] {
        Some(true)
    } else if s == seq!['0' as u8] {
        Some(false)
    } else {
        None
    }
}

/// `s` without the `+` or `-` in front of it, if it has one.
pub open spec fn unsigned_part(s: Seq<u8>) -> Seq<u8> {
    if s.len() > 0 && (s[0] == '-' as u8 || s[0] == '+' as u8) {
        s.skip(1)
    } else {
        s
    }
}

/// Whether `s` writes a number in decimal notation: a sign if one likes,
/// then digits with at most one point among them, before them or after
/// them. There is at least one digit, and nothing else.
pub open spec fn is_decimal(s: Seq<u8>) -> bool {
    let body = unsigned_part(s);
    &&& forall|i: int| 0 <= i < body.len() ==> is_digit(#[trigger] body[i]) || body[i] == '.' as u8
    &&& exists|i: int| 0 <= i < body.len() && is_digit(#[trigger] body[i])
    &&& forall|i: int, j: int|
        0 <= i < body.len() && 0 <= j < body.len() && #[trigger] body[i] == '.' as u8
            && #[trigger] body[j] == '.' as u8 ==> i == j
}

/// The number that the two digits at index `i` of `s` write, if two
/// digits stand there.
pub open spec fn two_digits(s: Seq<u8>, i: int) -> Option<nat> {
    if 0 <= i && i + 1 < s.len() && is_digit(s[i]) && is_digit(s[i + 1]) {
        Some(((s[i] - '0' as u8) * 10 + (s[i + 1] - '0' as u8)) as nat)
    } else {
        None
    }
}

/// The time that `s` writes, in hundredths of a second: hours, `:`, two
/// digits of minutes, `:`, two digits of seconds, `.`, two digits of
/// hundredths. Minutes and seconds stay below 60, and 32 bits hold the
/// whole.
pub open spec fn time_value(s: Seq<u8>) -> Option<u32> {
    match first_byte(s, ':' as u8, 0) {
        None => None,
        Some(colon) => match (
            two_digits(s, colon + 1),
            two_digits(s, colon + 4),
            two_digits(s, colon + 7),
        ) {
            (Some(minutes), Some(seconds), Some(hundredths)) => {
                let total = ((digits_value(s.take(colon)) * 60 + minutes) * 60 + seconds) * 100
                    + hundredths;
                if s.len() == colon + 9 && is_numeral(s.take(colon)) && s[colon + 3] == ':' as u8
                    && s[colon + 6] == '.' as u8 && minutes < 60 && seconds < 60 && total
                    <= u32::MAX {
                    Some(total as u32)
                } else {
                    None
                }
            },
            _ => None,
        },
    }
}

/// Whether `b` is a hexadecimal digit, in either case.
pub open spec fn is_hex_digit(b: u8) -> bool {
    is_digit(b) || 'a' as u8 <= b <= 'f' as u8 || 'A' as u8 <= b <= 'F' as u8
}

/// What the hexadecimal digit `b` counts.
pub open spec fn hex_digit_value(b: u8) -> nat {
    if is_digit(b) {
        (b - '0' as u8) as nat
    } else if 'a' as u8 <= b <= 'f' as u8 {
        (b - 'a' as u8 + 10) as nat
    } else {
        (b - 'A' as u8 + 10) as nat
    }
}

/// Whether `s` is one hexadecimal digit or more, and nothing else.
pub open spec fn is_hex_numeral(s: Seq<u8>) -> bool {
    s.len() > 0 && forall|i: int| 0 <= i < s.len() ==> is_hex_digit(#[trigger] s[i])
}

/// The number that the hexadecimal digits `s` write.
pub open spec fn hex_value(s: Seq<u8>) -> nat
    decreases s.len(),
{
    if s.len() == 0 {
        0
    } else {
        hex_value(s.drop_last()) * 16 + hex_digit_value(s.last())
    }
}

/// The number that the hexadecimal digits `s` write, where 32 bits hold it.
pub open spec fn hex_within(s: Seq<u8>) -> Option<u32> {
    if is_hex_numeral(s) && hex_value(s) <= u32::MAX {
        Some(hex_value(s) as u32)
    } else {
        None
    }
}

/// A longer row of digits writes no smaller number.
pub proof fn lemma_digits_grow(s: Seq<u8>, k: int)
    requires
        0 <= k <= s.len(),
    ensures
        digits_value(s.take(k)) <= digits_value(s),
    decreases s.len() - k,
{
    if k < s.len() {
        lemma_digits_grow(s.drop_last(), k);
        assert(s.drop_last().take(k) =~= s.take(k));
    } else {
        assert(s.take(k) =~= s);
    }
}

/// A longer row of hexadecimal digits writes no smaller number.
pub proof fn lemma_hex_grow(s: Seq<u8>, k: int)
    requires
        0 <= k <= s.len(),
    ensures
        hex_value(s.take(k)) <= hex_value(s),
    decreases s.len() - k,
{
    if k < s.len() {
        lemma_hex_grow(s.drop_last(), k);
        assert(s.drop_last().take(k) =~= s.take(k));
    } else {
        assert(s.take(k) =~= s);
    }
}

/// Reads the digits of `s` from index `from` to its end as a number of at
/// most `limit`.
fn parse_digits(s: &[u8], from: usize, limit: u64) -> (r: Option<u64>)
    requires
        from <= s@.len(),
    ensures
        r == if is_numeral(s@.skip(from as int)) && digits_value(s@.skip(from as int)) <= limit {
            Some(digits_value(s@.skip(from as int)) as u64)
        } else {
            None::<u64>
        },
{
    let ghost tail = s@.skip(from as int);
    let mut c = Cursor::new(s);
    c.seek(from);
    let mut acc: u64 = 0;
    if c.is_at_end() {
        return None;
    }
    loop
        invariant
            c.input() == s@,
            from <= c.pos() <= s@.len(),
            tail == s@.skip(from as int),
            forall|i: int| 0 <= i < c.pos() - from ==> is_digit(#[trigger] tail[i]),
            acc == digits_value(tail.take(c.pos() - from)),
            acc <= limit,
            tail.len() > 0,
        ensures
            c.pos() == s@.len(),
        decreases s@.len() - c.pos(),
    {
        match c.peek() {
            Err(_) => {
                break ;
            },
            Ok(b) => {
                let ghost k = c.pos() - from;
                if b < '0' as u8 || b > '9' as u8 {
                    assert(!is_digit(tail[k]));
                    return None;
                }
                proof {
                    assert(tail.take(k + 1).drop_last() =~= tail.take(k));
                    assert(tail.take(k + 1).last() == b);
                }
                let d: u64 = (b - '0' as u8) as u64;
                if limit < d || acc > (limit - d) / 10 {
                    proof {
                        assert(digits_value(tail.take(k + 1)) > limit) by (nonlinear_arith)
                            requires
                                digits_value(tail.take(k + 1)) == acc * 10 + d,
                                limit < d || acc > (limit - d) / 10,
                                acc >= 0,
                                d >= 0,
                                limit >= 0,
                        ;
                        lemma_digits_grow(tail, k + 1);
                    }
                    return None;
                }
                assert(acc * 10 + d <= limit) by (nonlinear_arith)
                    requires
                        acc <= (limit - d) / 10,
                        limit >= d,
                ;
                acc = acc * 10 + d;
                c.advance();
            },
        }
    }
    proof {
        assert(tail.take(tail.len() as int) =~= tail);
    }
    Some(acc)
}

/// Reads `s` as an integer from `min` to `max`.
pub fn parse_integer(s: &[u8], min: i64, max: i64) -> (r: Option<i64>)
    ensures
        r == match integer_within(s@, min as int, max as int) {
            Some(v) => Some(v as i64),
            None => None::<i64>,
        },
{
    let c = Cursor::new(s);
    let first = c.peek();
    let negative = match first {
        Ok(b) => b == '-' as u8,
        Err(_) => false,
    };
    let signed = match first {
        Ok(b) => b == '-' as u8 || b == '+' as u8,
        Err(_) => false,
    };
    let from: usize = if signed {
        1
    } else {
        0
    };
    proof {
        if !signed {
            assert(s@.skip(0) =~= s@);
        }
    }
    if negative {
        match parse_digits(s, from, 0x8000_0000_0000_0000) {
            None => None,
            Some(m) => {
                let v: i64 = if m == 0x8000_0000_0000_0000 {
                    i64::MIN
                } else {
                    -(m as i64)
                };
                if min <= v && v <= max {
                    Some(v)
                } else {
                    None
                }
            },
        }
    } else {
        match parse_digits(s, from, 0x7fff_ffff_ffff_ffff) {
            None => None,
            Some(m) => {
                let v: i64 = m as i64;
                if min <= v && v <= max {
                    Some(v)
                } else {
                    None
                }
            },
        }
    }
}

/// Reads a tri-state field: `-1` is on, `0` is off.
pub fn parse_tristate(s: &[u8]) -> (r: Option<bool>)
    ensures
        r == tristate_value(s@),
{
    let mut c = Cursor::new(s);
    let n = c.len();
    match c.peek() {
        Err(_) => None,
        Ok(a) => {
            if n == 1 && a == '0' as u8 {
                assert(s@ =~= seq!['0' as u8]);
                Some(false)
            } else if n == 2 && a == '-' as u8 {
                c.advance();
                match c.peek() {
                    Ok(b) => {
                        if b == '1' as u8 {
                            assert(s@ =~= seq!['-' as u8, '1' as u8]);
                            Some(true)
                        } else {
                            assert(s@[1] != '1' as u8);
                            assert(seq!['-' as u8, '1' as u8][1] == '1' as u8);
                            None
                        }
                    },
                    Err(_) => None,
                }
            } else {
                proof {
                    if s@ == seq!['-' as u8, '1' as u8] {
                        assert(seq!['-' as u8, '1' as u8].len() == 2);
                        assert(seq!['-' as u8, '1' as u8][0] == '-' as u8);
                    }
                    if s@ == seq!['0' as u8] {
                        assert(seq!['0' as u8].len() == 1);
                        assert(seq!['0' as u8][0] == '0' as u8);
                    }
                }
                None
            }
        },
    }
}

/// Reads `s` as digits that write a number of at most `limit`.
pub fn parse_numeral(s: &[u8], limit: u64) -> (r: Option<u64>)
    ensures
        r == if is_numeral(s@) && digits_value(s@) <= limit {
            Some(digits_value(s@) as u64)
        } else {
            None::<u64>
        },
{
    assert(s@.skip(0) =~= s@);
    parse_digits(s, 0, limit)
}

/// Reads the two digits at index `i` of the cursor's buffer.
fn read_two_digits(c: &mut Cursor, i: usize) -> (r: Option<u64>)
    ensures
        final(c).input() == old(c).input(),
        r == match two_digits(old(c).input(), i as int) {
            Some(v) => Some(v as u64),
            None => None::<u64>,
        },
        r matches Some(v) ==> v < 100,
{
    c.seek(i);
    let first = c.peek();
    c.advance();
    let second = c.peek();
    match (first, second) {
        (Ok(a), Ok(b)) => {
            if '0' as u8 <= a && a <= '9' as u8 && '0' as u8 <= b && b <= '9' as u8 {
                Some(((a - '0' as u8) * 10 + (b - '0' as u8)) as u64)
            } else {
                None
            }
        },
        _ => None,
    }
}

/// Reads a time, `0:00:00.00`, in hundredths of a second.
pub fn parse_time(s: &[u8]) -> (r: Option<u32>)
    ensures
        r == time_value(s@),
{
    let mut c = Cursor::new(s);
    let len = c.len();
    proof {
        lemma_first_byte(s@, ':' as u8, 0);
    }
    let colon = match c.find(':' as u8) {
        Some(colon) => colon,
        None => {
            return None;
        },
    };
    if len - colon != 9 {
        return None;
    }
    let minutes = read_two_digits(&mut c, colon + 1);
    let seconds = read_two_digits(&mut c, colon + 4);
    let hundredths = read_two_digits(&mut c, colon + 7);
    let (m, sec, h) = match (minutes, seconds, hundredths) {
        (Some(m), Some(sec), Some(h)) => (m, sec, h),
        _ => {
            return None;
        },
    };
    if m >= 60 || sec >= 60 {
        return None;
    }
    c.seek(colon + 3);
    let second_colon = c.peek();
    c.seek(colon + 6);
    let point = c.peek();
    match (second_colon, point) {
        (Ok(a), Ok(b)) => {
            if a != ':' as u8 || b != '.' as u8 {
                return None;
            }
        },
        _ => {
            return None;
        },
    }
    let hours = match c.slice(0, colon) {
        Some(text) => {
            assert(text@ =~= s@.take(colon as int));
            match parse_numeral(text, 11930) {
                Some(hours) => hours,
                None => {
                    return None;
                },
            }
        },
        None => {
            return None;
        },
    };
    let total: u64 = ((hours * 60 + m) * 60 + sec) * 100 + h;
    if total <= 0xffff_ffff {
        Some(total as u32)
    } else {
        None
    }
}

/// Whether `s` writes a number in decimal notation.
pub fn check_decimal(s: &[u8]) -> (r: bool)
    ensures
        r == is_decimal(s@),
{
    let mut c = Cursor::new(s);
    let len = c.len();
    let signed = match c.peek() {
        Ok(b) => b == '-' as u8 || b == '+' as u8,
        Err(_) => false,
    };
    if signed {
        c.advance();
    }
    let from = c.position();
    let ghost body = unsigned_part(s@);
    let mut digit_seen = false;
    let mut point_seen = false;
    let ghost mut digit_at: int = 0;
    let ghost mut point_at: int = 0;
    loop
        invariant
            c.input() == s@,
            len == s@.len(),
            from <= c.pos() <= len,
            body == s@.skip(from as int),
            body == unsigned_part(s@),
            forall|i: int|
                0 <= i < c.pos() - from ==> is_digit(#[trigger] body[i]) || body[i] == '.' as u8,
            digit_seen ==> 0 <= digit_at < c.pos() - from && is_digit(body[digit_at]),
            !digit_seen ==> forall|i: int| 0 <= i < c.pos() - from ==> !is_digit(#[trigger] body[i]),
            point_seen ==> 0 <= point_at < c.pos() - from && body[point_at] == '.' as u8,
            forall|i: int|
                0 <= i < c.pos() - from && #[trigger] body[i] == '.' as u8 ==> point_seen && i
                    == point_at,
        ensures
            c.pos() == len,
        decreases len - c.pos(),
    {
        match c.peek() {
            Err(_) => {
                break ;
            },
            Ok(b) => {
                let ghost k = c.pos() - from;
                assert(body[k] == b);
                if '0' as u8 <= b && b <= '9' as u8 {
                    digit_seen = true;
                    proof {
                        digit_at = k;
                    }
                } else if b == '.' as u8 {
                    if point_seen {
                        assert(body[point_at] == '.' as u8 && body[k] == '.' as u8);
                        return false;
                    }
                    point_seen = true;
                    proof {
                        point_at = k;
                    }
                } else {
                    assert(!(is_digit(body[k]) || body[k] == '.' as u8));
                    return false;
                }
                c.advance();
            },
        }
    }
    digit_seen
}

/// Reads `s` as hexadecimal digits that write a number of 32 bits.
pub fn parse_hex(s: &[u8]) -> (r: Option<u32>)
    ensures
        r == hex_within(s@),
{
    let mut c = Cursor::new(s);
    let mut acc: u32 = 0;
    if c.is_at_end() {
        return None;
    }
    loop
        invariant
            c.input() == s@,
            0 <= c.pos() <= s@.len(),
            forall|i: int| 0 <= i < c.pos() ==> is_hex_digit(#[trigger] s@[i]),
            acc == hex_value(s@.take(c.pos())),
            s@.len() > 0,
        ensures
            c.pos() == s@.len(),
        decreases s@.len() - c.pos(),
    {
        match c.peek() {
            Err(_) => {
                break ;
            },
            Ok(b) => {
                let ghost k = c.pos();
                let d: u32 = if '0' as u8 <= b && b <= '9' as u8 {
                    (b - '0' as u8) as u32
                } else if 'a' as u8 <= b && b <= 'f' as u8 {
                    (b - 'a' as u8 + 10) as u32
                } else if 'A' as u8 <= b && b <= 'F' as u8 {
                    (b - 'A' as u8 + 10) as u32
                } else {
                    assert(!is_hex_digit(s@[k]));
                    return None;
                };
                proof {
                    assert(s@.take(k + 1).drop_last() =~= s@.take(k));
                    assert(s@.take(k + 1).last() == b);
                    assert(d == hex_digit_value(b));
                }
                if acc > 0x0fff_ffff {
                    proof {
                        lemma_hex_grow(s@, k + 1);
                    }
                    return None;
                }
                acc = acc * 16 + d;
                c.advance();
            },
        }
    }
    proof {
        assert(s@.take(s@.len() as int) =~= s@);
    }
    Some(acc)
}

} // verus!
