//! Decimal numerals: rendering integers as text and reading them back.
//!
//! The spec-level grammar here is the reference for both directions. A
//! numeral is an optional sign (`+` or `-`) followed by one or more ASCII
//! digits; its value must fit the target integer type.

use vstd::prelude::*;

verus! {

/// The decimal digit character for `d`, which must be below ten.
pub open spec fn dig_char(d: int) -> char {
    if d == 0 {
        '0'
    } else if d == 1 {
        '1'
    } else if d == 2 {
        '2'
    } else if d == 3 {
        '3'
    } else if d == 4 {
        '4'
    } else if d == 5 {
        '5'
    } else if d == 6 {
        '6'
    } else if d == 7 {
        '7'
    } else if d == 8 {
        '8'
    } else {
        '9'
    }
}

/// The decimal numeral of `n`, most significant digit first, no sign.
pub open spec fn dec_str_nat(n: nat) -> Seq<char>
    decreases n,
{
    if n < 10 {
        seq![dig_char(n as int)]
    } else {
        dec_str_nat(n / 10).push(dig_char((n % 10) as int))
    }
}

/// The decimal numeral of `v`, with a leading `-` when `v` is negative.
pub open spec fn dec_str_int(v: int) -> Seq<char> {
    if v >= 0 {
        dec_str_nat(v as nat)
    } else {
        seq!['-'] + dec_str_nat((-v) as nat)
    }
}

fn digit_str(d: u64) -> (r: &'static str)
    requires
        d < 10,
    ensures
        r@ == seq![dig_char(d as int)],
{
    let r: &'static str = if d == 0 {
        "0"
    } else if d == 1 {
        "1"
    } else if d == 2 {
        "2"
    } else if d == 3 {
        "3"
    } else if d == 4 {
        "4"
    } else if d == 5 {
        "5"
    } else if d == 6 {
        "6"
    } else if d == 7 {
        "7"
    } else if d == 8 {
        "8"
    } else {
        "9"
    };
    proof {
        reveal_strlit("0");
        reveal_strlit("1");
        reveal_strlit("2");
        reveal_strlit("3");
        reveal_strlit("4");
        reveal_strlit("5");
        reveal_strlit("6");
        reveal_strlit("7");
        reveal_strlit("8");
        reveal_strlit("9");
        assert(r@ =~= seq![dig_char(d as int)]);
    }
    r
}

/// Renders `n` in decimal.
pub fn u64_dec_string(n: u64) -> (r: String)
    ensures
        r@ == dec_str_nat(n as nat),
    decreases n,
{
    if n < 10 {
        String::from_str(digit_str(n))
    } else {
        let mut s = u64_dec_string(n / 10);
        s.append(digit_str(n % 10));
        proof {
            assert(s@ =~= dec_str_nat((n / 10) as nat).push(dig_char((n % 10) as int)));
        }
        s
    }
}

/// Renders `v` in decimal, with a leading `-` when `v` is negative.
pub fn i64_dec_string(v: i64) -> (r: String)
    ensures
        r@ == dec_str_int(v as int),
{
    if v >= 0 {
        u64_dec_string(v as u64)
    } else {
        let mag: u64 = (-(v as i128)) as u64;
        let mut s = String::from_str("-");
        let digits = u64_dec_string(mag);
        s.append(digits.as_str());
        proof {
            reveal_strlit("-");
            assert(s@ =~= seq!['-'] + dec_str_nat((-(v as int)) as nat));
        }
        s
    }
}

/// Whether `b` is an ASCII decimal digit.
pub open spec fn is_digit(b: u8) -> bool {
    48 <= b <= 57
}

/// Whether `t` consists of ASCII decimal digits only.
pub open spec fn all_digits(t: Seq<u8>) -> bool {
    forall|i: int| 0 <= i < t.len() ==> is_digit(t[i])
}

/// The value of a digit string, most significant digit first.
pub open spec fn digits_val(t: Seq<u8>) -> int
    decreases t.len(),
{
    if t.len() == 0 {
        0
    } else {
        digits_val(t.drop_last()) * 10 + (t.last() - 48)
    }
}

/// How many leading sign characters `t` has: one when it starts with `+` or
/// `-`, none otherwise.
pub open spec fn sign_len(t: Seq<u8>) -> int {
    if t.len() > 0 && (t[0] == 43 || t[0] == 45) {
        1
    } else {
        0
    }
}

/// The digit part of `t`: everything after the optional sign.
pub open spec fn mag_of(t: Seq<u8>) -> Seq<u8> {
    t.skip(sign_len(t))
}

/// The value a numeral token denotes, before any range check: an optional
/// sign followed by at least one digit. `None` when the token does not have
/// that shape.
pub open spec fn token_val(t: Seq<u8>) -> Option<int> {
    if t.len() == 0 {
        None
    } else {
        let mag = mag_of(t);
        if mag.len() >= 1 && all_digits(mag) {
            Some(
                if t[0] == 45 {
                    -digits_val(mag)
                } else {
                    digits_val(mag)
                },
            )
        } else {
            None
        }
    }
}

/// The value of `t` read as an `i64` numeral: the token value when it has
/// numeral shape and fits the type, `None` otherwise.
pub open spec fn i64_of(t: Seq<u8>) -> Option<int> {
    match token_val(t) {
        Option::None => Option::None,
        Option::Some(v) => if i64::MIN <= v <= i64::MAX {
            Option::Some(v)
        } else {
            Option::None
        },
    }
}

proof fn lemma_digits_val_nonneg(t: Seq<u8>)
    requires
        all_digits(t),
    ensures
        digits_val(t) >= 0,
    decreases t.len(),
{
    if t.len() > 0 {
        assert(all_digits(t.drop_last()));
        lemma_digits_val_nonneg(t.drop_last());
    }
}

proof fn lemma_digits_val_prefix_le(t: Seq<u8>, k: int)
    requires
        all_digits(t),
        0 <= k <= t.len(),
    ensures
        digits_val(t.take(k)) <= digits_val(t),
    decreases t.len() - k,
{
    if k < t.len() {
        lemma_digits_val_prefix_le(t, k + 1);
        let p = t.take(k + 1);
        assert(p.drop_last() =~= t.take(k));
        assert(all_digits(p.drop_last()));
        lemma_digits_val_nonneg(t.take(k));
        assert(digits_val(p) == digits_val(t.take(k)) * 10 + (p.last() - 48));
        assert(is_digit(t[k]));
        assert(digits_val(t.take(k)) <= digits_val(p));
    } else {
        assert(t.take(k) =~= t);
    }
}

/// Reads `t` as an `i64` numeral, exactly as [`i64_of`] describes.
pub fn parse_i64(t: &Vec<u8>) -> (r: Option<i64>)
    ensures
        match r {
            Option::Some(x) => i64_of(t@) == Option::Some(x as int),
            Option::None => i64_of(t@) is None,
        },
{
    let n = t.len();
    if n == 0 {
        return Option::None;
    }
    let b0 = t[0];
    let neg = b0 == 45;
    let start: usize = if b0 == 43 || b0 == 45 {
        1
    } else {
        0
    };
    let ghost mag = mag_of(t@);
    proof {
        assert(mag =~= t@.subrange(start as int, n as int));
    }
    if start >= n {
        // a bare sign with no digits
        assert(mag.len() == 0);
        return Option::None;
    }
    // `acc` holds the negated value of the digits read so far.
    let mut acc: i64 = 0;
    let mut i = start;
    while i < n
        invariant
            start <= i <= n,
            start < n,
            n == t@.len(),
            mag == mag_of(t@),
            mag =~= t@.subrange(start as int, n as int),
            neg == (t@[0] == 45),
            all_digits(mag.take(i - start)),
            acc == -digits_val(mag.take(i - start)),
        decreases n - i,
    {
        let b = t[i];
        if !(48 <= b && b <= 57) {
            proof {
                assert(mag[i - start] == t@[i as int]);
                assert(!all_digits(mag));
                assert(token_val(t@) is None);
            }
            return Option::None;
        }
        let d = (b - 48) as i64;
        let ghost pre = mag.take(i - start);
        let ghost cur = mag.take(i + 1 - start);
        proof {
            assert(cur.drop_last() =~= pre);
            assert(cur.last() == t@[i as int]);
            assert(digits_val(cur) == digits_val(pre) * 10 + (t@[i as int] - 48));
        }
        let next = match acc.checked_mul(10) {
            Option::Some(m) => m.checked_sub(d),
            Option::None => Option::None,
        };
        match next {
            Option::Some(a) => {
                acc = a;
            },
            Option::None => {
                // the magnitude already exceeds what an i64 can carry
                proof {
                    lemma_digits_val_nonneg(pre);
                    assert(digits_val(cur) > 0x8000_0000_0000_0000);
                    if all_digits(mag) {
                        lemma_digits_val_prefix_le(mag, i + 1 - start);
                        assert(digits_val(mag) > 0x8000_0000_0000_0000);
                    }
                    assert(i64_of(t@) is None);
                }
                return Option::None;
            },
        }
        i += 1;
    }
    proof {
        assert(mag.take(n - start) =~= mag);
        lemma_digits_val_nonneg(mag);
    }
    if neg {
        assert(i64_of(t@) == Option::Some(acc as int));
        Option::Some(acc)
    } else {
        if acc == i64::MIN {
            // the magnitude is exactly 2^63, one past i64::MAX
            assert(digits_val(mag) == 0x8000_0000_0000_0000);
            assert(i64_of(t@) is None);
            Option::None
        } else {
            let v = -acc;
            assert(i64_of(t@) == Option::Some(v as int));
            Option::Some(v)
        }
    }
}

} // verus!
