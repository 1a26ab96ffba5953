//! Decimal numbers as text: the sizes and times of the size cache, the user
//! id in a directory name, the counter in a disambiguated name.

use vstd::prelude::*;

verus! {

/// The digit `0`.
pub const ZERO: u8 = 48;

/// The sign `+`.
pub const PLUS: u8 = 43;

/// The sign `-`.
pub const MINUS: u8 = 45;

/// Whether a byte is a decimal digit.
pub open spec fn is_digit(byte: u8) -> bool {
    48 <= byte <= 57
}

/// Whether a text holds decimal digits only.
pub open spec fn all_digits(text: Seq<u8>) -> bool {
    forall|i: int| 0 <= i < text.len() ==> is_digit(#[trigger] text[i])
}

/// The decimal digits of `n`, without leading zeros.
pub open spec fn digits(n: nat) -> Seq<u8>
    decreases n,
{
    if n < 10 {
        seq![(48 + n) as u8]
    } else {
        digits(n / 10).push((48 + n % 10) as u8)
    }
}

/// How `n` is written: a `-` where it is negative, then the digits of its
/// magnitude.
pub open spec fn signed_digits(n: int) -> Seq<u8> {
    if n < 0 {
        seq![MINUS] + digits((-n) as nat)
    } else {
        digits(n as nat)
    }
}

/// The number that a text of digits writes; leading zeros count for nothing.
pub open spec fn value(text: Seq<u8>) -> nat
    decreases text.len(),
{
    if text.len() == 0 {
        0
    } else {
        value(text.drop_last()) * 10 + (text.last() - 48) as nat
    }
}

/// The number that a non-empty text of digits writes.
pub open spec fn magnitude(text: Seq<u8>) -> Option<nat> {
    if text.len() > 0 && all_digits(text) {
        Some(value(text))
    } else {
        None
    }
}

/// The number that `text` writes as an unsigned number: digits, after one `+`
/// or none.
pub open spec fn unsigned_value(text: Seq<u8>) -> Option<nat> {
    if text.len() > 0 && text[0] == PLUS {
        magnitude(text.skip(1))
    } else {
        magnitude(text)
    }
}

/// The number that `text` writes as a signed number: digits, after one `+`
/// or `-` or none.
pub open spec fn signed_value(text: Seq<u8>) -> Option<int> {
    if text.len() > 0 && text[0] == MINUS {
        match magnitude(text.skip(1)) {
            Some(m) => Some(-(m as int)),
            None => None,
        }
    } else {
        match unsigned_value(text) {
            Some(m) => Some(m as int),
            None => None,
        }
    }
}

/// Appends the decimal digits of `n` to `out`.
pub fn push_u128(out: &mut Vec<u8>, n: u128)
    ensures
        final(out)@ == old(out)@ + digits(n as nat),
    decreases n,
{
    if n >= 10 {
        push_u128(out, n / 10);
    }
    out.push(ZERO + (n % 10) as u8);
}

/// Appends the decimal digits of `n` to `out`.
pub fn push_u64(out: &mut Vec<u8>, n: u64)
    ensures
        final(out)@ == old(out)@ + digits(n as nat),
{
    push_u128(out, n as u128);
}

/// The decimal digits of `n`.
pub fn format_u64(n: u64) -> (out: Vec<u8>)
    ensures
        out@ == digits(n as nat),
{
    let mut out: Vec<u8> = Vec::new();
    push_u64(&mut out, n);
    out
}

/// Appends `n` as `signed_digits` writes it to `out`.
pub fn push_i64(out: &mut Vec<u8>, n: i64)
    ensures
        final(out)@ == old(out)@ + signed_digits(n as int),
{
    if n < 0 {
        out.push(MINUS);
        let magnitude: u64 = if n == i64::MIN {
            9223372036854775808u64
        } else {
            (-n) as u64
        };
        push_u64(out, magnitude);
        assert(out@ == old(out)@ + (seq![MINUS] + digits((-n) as nat)));
    } else {
        push_u64(out, n as u64);
    }
}

/// The number that a non-empty text of digits writes, where it fits.
pub fn parse_magnitude(text: &[u8]) -> (number: Option<u64>)
    ensures
        number == match magnitude(text@) {
            Some(m) => if m <= u64::MAX {
                Some(m as u64)
            } else {
                None
            },
            None => None,
        },
{
    if text.len() == 0 {
        return None;
    }
    let mut total: u64 = 0;
    let mut i: usize = 0;
    while i < text.len()
        invariant
            i <= text@.len(),
            all_digits(text@.take(i as int)),
            total == value(text@.take(i as int)),
        decreases text@.len() - i,
    {
        let byte = text[i];
        if byte < 48 || byte > 57 {
            assert(!is_digit(text@[i as int]));
            return None;
        }
        let ghost next = text@.take(i + 1);
        assert(next.drop_last() == text@.take(i as int));
        assert(next.last() == byte);
        assert(all_digits(next)) by {
            assert forall|k: int| 0 <= k < next.len() implies is_digit(#[trigger] next[k]) by {
                if k < i {
                    assert(next[k] == text@.take(i as int)[k]);
                }
            }
        }
        let digit: u64 = (byte - 48) as u64;
        if total > (u64::MAX - digit) / 10 {
            proof {
                if all_digits(text@) {
                    lemma_value_grows(text@, i + 1);
                }
            }
            return None;
        }
        total = total * 10 + digit;
        i += 1;
    }
    assert(text@.take(text@.len() as int) == text@);
    Some(total)
}

/// The unsigned number that `text` writes, where it writes one that fits.
pub fn parse_u64(text: &[u8]) -> (number: Option<u64>)
    ensures
        number == match unsigned_value(text@) {
            Some(m) => if m <= u64::MAX {
                Some(m as u64)
            } else {
                None
            },
            None => None,
        },
{
    if text.len() > 0 && text[0] == PLUS {
        parse_magnitude(vstd::slice::slice_subrange(text, 1, text.len()))
    } else {
        parse_magnitude(text)
    }
}

/// The signed number that `text` writes, where it writes one that fits.
pub fn parse_i64(text: &[u8]) -> (number: Option<i64>)
    ensures
        number == match signed_value(text@) {
            Some(n) => if i64::MIN <= n <= i64::MAX {
                Some(n as i64)
            } else {
                None
            },
            None => None,
        },
{
    if text.len() > 0 && text[0] == MINUS {
        match parse_magnitude(vstd::slice::slice_subrange(text, 1, text.len())) {
            Some(m) => {
                if m < 9223372036854775808u64 {
                    Some(-(m as i64))
                } else if m == 9223372036854775808u64 {
                    Some(i64::MIN)
                } else {
                    None
                }
            },
            None => None,
        }
    } else {
        match parse_u64(text) {
            Some(m) => {
                if m <= 9223372036854775807u64 {
                    Some(m as i64)
                } else {
                    None
                }
            },
            None => None,
        }
    }
}

/// A text of digits writes no less than any of its beginnings.
pub proof fn lemma_value_grows(text: Seq<u8>, k: int)
    requires
        all_digits(text),
        0 <= k <= text.len(),
    ensures
        value(text.take(k)) <= value(text),
    decreases text.len() - k,
{
    if k < text.len() {
        lemma_value_grows(text, k + 1);
        let longer = text.take(k + 1);
        assert(longer.drop_last() == text.take(k));
        assert(is_digit(text[k]));
        assert(longer.last() == text[k]);
    } else {
        assert(text.take(k) == text);
    }
}

/// The digits of a number are digits, at least one, and write that number.
pub proof fn lemma_digits(n: nat)
    ensures
        digits(n).len() > 0,
        all_digits(digits(n)),
        value(digits(n)) == n,
        magnitude(digits(n)) == Some(n),
        unsigned_value(digits(n)) == Some(n),
    decreases n,
{
    if n < 10 {
        let text = digits(n);
        assert(text.len() == 1);
        assert(text.drop_last().len() == 0);
        assert(value(text.drop_last()) == 0);
    } else {
        lemma_digits(n / 10);
        let front = digits(n / 10);
        let text = digits(n);
        assert(text.drop_last() == front);
        assert forall|i: int| 0 <= i < text.len() implies is_digit(#[trigger] text[i]) by {
            if i < front.len() {
                assert(text[i] == front[i]);
            }
        }
    }
    assert(is_digit(digits(n)[0]));
}

/// Reading what was written gives the number back, signed or not.
pub proof fn lemma_signed_digits(n: int)
    ensures
        signed_value(signed_digits(n)) == Some(n),
{
    if n < 0 {
        lemma_digits((-n) as nat);
        let text = signed_digits(n);
        assert(text.skip(1) == digits((-n) as nat));
    } else {
        lemma_digits(n as nat);
    }
}

/// Two numbers with the same digits are the same number.
pub proof fn lemma_digits_injective(a: nat, b: nat)
    requires
        digits(a) == digits(b),
    ensures
        a == b,
{
    lemma_digits(a);
    lemma_digits(b);
}

} // verus!
