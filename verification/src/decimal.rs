//! Decimal numerals: how integers are written on the wire and read back.

use crate::text::{bytes_of, lemma_bytes_of_ascii, lemma_bytes_of_concat};
use vstd::prelude::*;
use vstd::string::*;
use vstd::utf8::is_ascii_chars;

verus! {

/// The ASCII digit for `d`, for `0 <= d <= 9`.
pub open spec fn digit_char(d: int) -> char {
    ((48 + d) as u8) as char
}

/// The decimal numeral of `n`, without leading zeros.
pub open spec fn decimal_text(n: nat) -> Seq<char>
    decreases n,
{
    if n < 10 {
        seq![digit_char(n as int)]
    } else {
        decimal_text(n / 10).push(digit_char((n % 10) as int))
    }
}

/// The decimal numeral of `i`, with a minus sign when negative.
pub open spec fn signed_text(i: int) -> Seq<char> {
    if i < 0 {
        seq!['-'] + decimal_text((-i) as nat)
    } else {
        decimal_text(i as nat)
    }
}

/// Whether `b` is an ASCII digit.
pub open spec fn is_digit(b: u8) -> bool {
    48 <= b && b <= 57
}

/// Whether `s` is a non-empty run of ASCII digits.
pub open spec fn is_numeral(s: Seq<u8>) -> bool {
    s.len() > 0 && forall|i: int| 0 <= i < s.len() ==> is_digit(#[trigger] s[i])
}

/// The number that a run of digits denotes; leading zeros count for nothing.
pub open spec fn numeral_value(s: Seq<u8>) -> nat
    decreases s.len(),
{
    if s.len() == 0 {
        0
    } else {
        numeral_value(s.drop_last()) * 10 + (s.last() - 48) as nat
    }
}

/// The digits of `s` once an optional leading plus sign is taken off.
pub open spec fn unsigned_body(s: Seq<u8>) -> Seq<u8> {
    if s.len() > 0 && s[0] == 43 {
        s.skip(1)
    } else {
        s
    }
}

/// What `s` denotes as an unsigned decimal: an optional `+`, then digits.
pub open spec fn unsigned_value(s: Seq<u8>) -> Option<nat> {
    if is_numeral(unsigned_body(s)) {
        Some(numeral_value(unsigned_body(s)))
    } else {
        None
    }
}

/// What `s` denotes as a signed decimal: an optional `+` or `-`, then digits.
pub open spec fn signed_value(s: Seq<u8>) -> Option<int> {
    if s.len() > 0 && s[0] == 45 {
        if is_numeral(s.skip(1)) {
            Some(-(numeral_value(s.skip(1)) as int))
        } else {
            None
        }
    } else {
        match unsigned_value(s) {
            Some(v) => Some(v as int),
            None => None,
        }
    }
}

/// A longer run of digits never denotes less than one of its prefixes.
pub proof fn lemma_numeral_prefix(s: Seq<u8>, k: int)
    requires
        0 <= k <= s.len(),
    ensures
        numeral_value(s.take(k)) <= numeral_value(s),
    decreases s.len(),
{
    if k == s.len() {
        assert(s.take(k) =~= s);
    } else {
        assert(s.drop_last().take(k) =~= s.take(k));
        lemma_numeral_prefix(s.drop_last(), k);
    }
}

/// Appends the decimal numeral of `n` to `out`.
pub fn push_decimal(out: &mut String, n: u64)
    ensures
        final(out)@ == old(out)@ + decimal_text(n as nat),
    decreases n,
{
    if n >= 10 {
        push_decimal(out, n / 10);
    }
    let d: u8 = (n % 10) as u8;
    out.push((48 + d) as char);
    assert(final(out)@ =~= old(out)@ + decimal_text(n as nat));
}

/// Appends the decimal numeral of `i` to `out`, with its sign when negative.
pub fn push_signed(out: &mut String, i: i64)
    ensures
        final(out)@ == old(out)@ + signed_text(i as int),
{
    if i < 0 {
        out.push('-');
        let magnitude: u64 = if i == i64::MIN {
            9223372036854775808u64
        } else {
            (-i) as u64
        };
        push_decimal(out, magnitude);
        assert(final(out)@ =~= old(out)@ + signed_text(i as int));
    } else {
        push_decimal(out, i as u64);
    }
}

/// The decimal numeral of `n`.
pub fn decimal_string(n: u64) -> (r: String)
    ensures
        r@ == decimal_text(n as nat),
{
    let mut out = String::new();
    push_decimal(&mut out, n);
    assert(out@ =~= decimal_text(n as nat));
    out
}

/// The decimal numeral of `i`, with its sign when negative.
pub fn signed_string(i: i64) -> (r: String)
    ensures
        r@ == signed_text(i as int),
{
    let mut out = String::new();
    push_signed(&mut out, i);
    assert(out@ =~= signed_text(i as int));
    out
}

/// Reads `s[from..]` as a run of digits denoting at most `limit`.
pub fn parse_numeral(s: &[u8], from: usize, limit: u64) -> (r: Option<u64>)
    requires
        from <= s.len(),
    ensures
        r == (if is_numeral(s@.skip(from as int)) && numeral_value(s@.skip(from as int))
            <= limit {
            Some(numeral_value(s@.skip(from as int)) as u64)
        } else {
            None
        }),
{
    let ghost body = s@.skip(from as int);
    if from == s.len() {
        return None;
    }
    let mut acc: u64 = 0;
    let mut i: usize = from;
    while i < s.len()
        invariant
            from <= i <= s.len(),
            body == s@.skip(from as int),
            acc == numeral_value(body.take(i - from)),
            acc <= limit,
            forall|k: int| 0 <= k < i - from ==> is_digit(#[trigger] body[k]),
        decreases s.len() - i,
    {
        let b = s[i];
        assert(body[i - from] == b);
        if b < 48 || b > 57 {
            return None;
        }
        let d: u64 = (b - 48) as u64;
        proof {
            assert(body.take(i - from + 1).drop_last() =~= body.take(i - from));
            assert(body.take(i - from + 1).last() == b);
            lemma_numeral_prefix(body, i - from + 1);
        }
        if d > limit || acc > (limit - d) / 10 {
            proof {
                let next = numeral_value(body.take(i - from + 1));
                assert(next == acc * 10 + d);
                assert(next > limit) by (nonlinear_arith)
                    requires
                        next == acc * 10 + d,
                        acc > (limit - d) / 10 || d > limit,
                        d <= 9,
                ;
            }
            return None;
        }
        assert(acc * 10 + d <= limit) by (nonlinear_arith)
            requires
                acc <= (limit - d) / 10,
                d <= limit,
        ;
        acc = acc * 10 + d;
        i += 1;
    }
    assert(body.take(i - from) =~= body);
    Some(acc)
}

/// Reads `s` as an unsigned decimal that fits a `usize`.
pub fn parse_usize(s: &[u8]) -> (r: Option<usize>)
    ensures
        r == match unsigned_value(s@) {
            Some(v) => if v <= usize::MAX {
                Some(v as usize)
            } else {
                None
            },
            None => None,
        },
{
    let from: usize = if s.len() > 0 && s[0] == 43 {
        1
    } else {
        0
    };
    assert(s@.skip(0) =~= s@);
    match parse_numeral(s, from, usize::MAX as u64) {
        Some(v) => Some(v as usize),
        None => None,
    }
}

/// Reads `s` as a signed decimal that fits an `i32`.
pub fn parse_i32(s: &[u8]) -> (r: Option<i32>)
    ensures
        r == match signed_value(s@) {
            Some(v) => if i32::MIN <= v <= i32::MAX {
                Some(v as i32)
            } else {
                None
            },
            None => None,
        },
{
    assert(s@.skip(0) =~= s@);
    if s.len() > 0 && s[0] == 45 {
        match parse_numeral(s, 1, 2147483648) {
            Some(v) => Some((0 - (v as i64)) as i32),
            None => None,
        }
    } else {
        let from: usize = if s.len() > 0 && s[0] == 43 {
            1
        } else {
            0
        };
        match parse_numeral(s, from, 2147483647) {
            Some(v) => Some(v as i32),
            None => None,
        }
    }
}

/// A run of digits with one more digit behind it denotes ten times as much,
/// and the digit.
pub proof fn lemma_numeral_push(s: Seq<u8>, b: u8)
    ensures
        numeral_value(s.push(b)) == numeral_value(s) * 10 + (b - 48) as nat,
{
    assert(s.push(b).drop_last() =~= s);
}

/// The bytes of a decimal numeral are digits, and read back give the number.
pub proof fn lemma_decimal_round_trip(n: nat)
    ensures
        is_ascii_chars(decimal_text(n)),
        bytes_of(decimal_text(n)).len() == decimal_text(n).len(),
        is_numeral(bytes_of(decimal_text(n))),
        numeral_value(bytes_of(decimal_text(n))) == n,
    decreases n,
{
    let last = seq![digit_char((n % 10) as int)];
    assert(is_ascii_chars(last));
    lemma_bytes_of_ascii(last);
    assert(bytes_of(last) =~= seq![(48 + n % 10) as u8]);
    if n < 10 {
        assert(decimal_text(n) =~= last);
        assert(seq![(48 + n % 10) as u8] =~= Seq::<u8>::empty().push((48 + n % 10) as u8));
        lemma_numeral_push(Seq::<u8>::empty(), (48 + n % 10) as u8);
    } else {
        let head = decimal_text(n / 10);
        lemma_decimal_round_trip(n / 10);
        assert(decimal_text(n) =~= head + last);
        lemma_bytes_of_concat(head, last);
        lemma_bytes_of_ascii(head);
        assert(bytes_of(decimal_text(n)) =~= bytes_of(head).push((48 + n % 10) as u8));
        lemma_numeral_push(bytes_of(head), (48 + n % 10) as u8);
        assert(is_ascii_chars(decimal_text(n)));
        lemma_bytes_of_ascii(decimal_text(n));
    }
}

/// A number written as a decimal numeral is read back as the same number.
pub proof fn lemma_unsigned_round_trip(n: nat)
    ensures
        unsigned_value(bytes_of(decimal_text(n))) == Some(n),
{
    lemma_decimal_round_trip(n);
    let s = bytes_of(decimal_text(n));
    assert(is_digit(s[0]));
}

/// The bytes of a signed numeral hold no blank.
pub proof fn lemma_signed_text_bytes(i: int)
    ensures
        is_ascii_chars(signed_text(i)),
        bytes_of(signed_text(i)).len() == signed_text(i).len(),
        bytes_of(signed_text(i)).len() > 0,
        forall|k: int|
            0 <= k < bytes_of(signed_text(i)).len() ==> {
                let b = #[trigger] bytes_of(signed_text(i))[k];
                is_digit(b) || b == 45
            },
{
    let magnitude: nat = if i < 0 {
        (-i) as nat
    } else {
        i as nat
    };
    lemma_decimal_round_trip(magnitude);
    let digits = bytes_of(decimal_text(magnitude));
    if i < 0 {
        let sign = seq!['-'];
        assert(is_ascii_chars(sign));
        lemma_bytes_of_ascii(sign);
        lemma_bytes_of_concat(sign, decimal_text(magnitude));
        assert(bytes_of(sign) =~= seq![45u8]);
        assert(bytes_of(signed_text(i)) =~= seq![45u8] + digits);
        assert forall|k: int| 0 <= k < bytes_of(signed_text(i)).len() implies {
            let b = #[trigger] bytes_of(signed_text(i))[k];
            is_digit(b) || b == 45
        } by {
            if k > 0 {
                assert(bytes_of(signed_text(i))[k] == digits[k - 1]);
            }
        }
        assert(is_ascii_chars(signed_text(i)));
    }
}

/// A number written as a signed numeral is read back as the same number.
pub proof fn lemma_signed_round_trip(i: int)
    ensures
        signed_value(bytes_of(signed_text(i))) == Some(i),
{
    if i < 0 {
        let magnitude = (-i) as nat;
        let sign = seq!['-'];
        assert(is_ascii_chars(sign));
        lemma_bytes_of_ascii(sign);
        lemma_bytes_of_concat(sign, decimal_text(magnitude));
        lemma_decimal_round_trip(magnitude);
        let s = bytes_of(signed_text(i));
        assert(bytes_of(sign) =~= seq![45u8]);
        assert(s =~= seq![45u8] + bytes_of(decimal_text(magnitude)));
        assert(s.skip(1) =~= bytes_of(decimal_text(magnitude)));
    } else {
        lemma_unsigned_round_trip(i as nat);
        lemma_decimal_round_trip(i as nat);
        let s = bytes_of(decimal_text(i as nat));
        assert(is_digit(s[0]));
    }
}

} // verus!
