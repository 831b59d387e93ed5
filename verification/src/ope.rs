//! The order-preserving encoding: a deterministic encoding of integers
//! of the key space into large integers, the partial sum of a
//! hypergeometric mass scaled by `10^12` and floored.
//!
//! The arithmetic is exact: the sum is carried as a rational with
//! arbitrary-precision integer numerator and denominator, which more
//! than meets the 200-bit precision the encoding asks for, and makes
//! the result a pure function of the input. Order preservation holds on
//! the central band of the domain and is exercised by tests; the round
//! cap and the shrinking head product break it at the far ends, so no
//! monotonicity law is stated here.

use vstd::prelude::*;

verus! {

/// The key-space length of the encoding.
pub const KEY_SPACE_LENGTH: i64 = 16_777_216;

/// The mean of the hypergeometric mass at probability one half.
pub const OPE_MEAN: i64 = 8_388_608;

/// The scale applied before flooring.
pub const OPE_SCALE: i64 = 1_000_000_000_000;

/// How many partial-sum terms are accumulated at most.
pub const OPE_ROUNDS: u64 = 10_000;

/// An arbitrary-precision signed integer of the arithmetic backend.
#[verifier::external_type_specification]
#[verifier::external_body]
pub struct ExBigInt(num_bigint::BigInt);

/// The integer a backend value stands for.
pub uninterp spec fn big_value(x: &num_bigint::BigInt) -> int;

/// Relies on `BigInt::from(i64)`: exact conversion.
#[verifier::external_body]
fn big_from_i64(x: i64) -> (r: num_bigint::BigInt)
    ensures
        big_value(&r) == x as int,
{
    num_bigint::BigInt::from(x)
}

/// Relies on `Add for &BigInt`: exact addition.
#[verifier::external_body]
fn big_add(a: &num_bigint::BigInt, b: &num_bigint::BigInt) -> (r: num_bigint::BigInt)
    ensures
        big_value(&r) == big_value(a) + big_value(b),
{
    a + b
}

/// Relies on `Sub for &BigInt`: exact subtraction.
#[verifier::external_body]
fn big_sub(a: &num_bigint::BigInt, b: &num_bigint::BigInt) -> (r: num_bigint::BigInt)
    ensures
        big_value(&r) == big_value(a) - big_value(b),
{
    a - b
}

/// Relies on `Mul for &BigInt`: exact multiplication.
#[verifier::external_body]
fn big_mul(a: &num_bigint::BigInt, b: &num_bigint::BigInt) -> (r: num_bigint::BigInt)
    ensures
        big_value(&r) == big_value(a) * big_value(b),
{
    a * b
}

/// Relies on `Div for &BigInt`: division truncated toward zero. For a
/// positive divisor, truncation exceeds the flooring division by one
/// exactly on inexact negative dividends.
#[verifier::external_body]
fn big_div_trunc(a: &num_bigint::BigInt, b: &num_bigint::BigInt) -> (r: num_bigint::BigInt)
    requires
        big_value(b) > 0,
    ensures
        big_value(&r) == big_value(a) / big_value(b) + (
        if big_value(a) % big_value(b) != 0 && big_value(a) < 0 {
            1int
        } else {
            0int
        }),
{
    a / b
}

/// Relies on `Rem for &BigInt`: the remainder of truncated division,
/// zero exactly when the division is exact.
#[verifier::external_body]
fn big_rem_is_zero(a: &num_bigint::BigInt, b: &num_bigint::BigInt) -> (r: bool)
    requires
        big_value(b) > 0,
    ensures
        r == (big_value(a) % big_value(b) == 0),
{
    (a % b).sign() == num_bigint::Sign::NoSign
}

/// Relies on `BigInt::sign`: whether the value is negative.
#[verifier::external_body]
fn big_is_negative(a: &num_bigint::BigInt) -> (r: bool)
    ensures
        r == (big_value(a) < 0),
{
    a.sign() == num_bigint::Sign::Minus
}

/// Relies on `PartialEq for BigInt`: exact equality of values.
#[verifier::external_body]
fn big_eq(a: &num_bigint::BigInt, b: &num_bigint::BigInt) -> (r: bool)
    ensures
        r == (big_value(a) == big_value(b)),
{
    a == b
}

/// The character of one decimal digit.
pub open spec fn spec_digit(d: int) -> char {
    if d == 0 {
        '0'
    } else if d == 1 {
        '1'
    } else if d == 2 {
        '2'
    } else if d == 3 {
        '3'
    } else if d == 4 {
        '4'
    } else if d == 5 {
        '5'
    } else if d == 6 {
        '6'
    } else if d == 7 {
        '7'
    } else if d == 8 {
        '8'
    } else {
        '9'
    }
}

/// The base-ten digits of a nonnegative integer, most significant
/// first, without leading zeros.
pub open spec fn spec_digits(n: int) -> Seq<char>
    decreases (if n <= 0 {
        0int
    } else {
        n
    }),
{
    if n < 10 {
        seq![spec_digit(n)]
    } else {
        spec_digits(n / 10).push(spec_digit(n % 10))
    }
}

/// The decimal rendering of an integer: a minus sign for negatives,
/// then the digits.
pub open spec fn spec_decimal(n: int) -> Seq<char> {
    if n < 0 {
        seq!['-'] + spec_digits(-n)
    } else {
        spec_digits(n)
    }
}

/// Relies on `Display for BigInt` through `to_string`: the base-ten
/// rendering with a minus sign for negatives.
#[verifier::external_body]
pub fn big_to_string(x: &num_bigint::BigInt) -> (r: String)
    ensures
        r@ == spec_decimal(big_value(x)),
{
    x.to_string()
}

/// Floor division on backend integers, from truncated division and the
/// remainder test.
fn big_div_floor(a: &num_bigint::BigInt, b: &num_bigint::BigInt) -> (r: num_bigint::BigInt)
    requires
        big_value(b) > 0,
    ensures
        big_value(&r) == big_value(a) / big_value(b),
{
    let q = big_div_trunc(a, b);
    if big_is_negative(a) && !big_rem_is_zero(a, b) {
        let one = big_from_i64(1);
        big_sub(&q, &one)
    } else {
        proof {
            if big_value(a) >= 0 {
            } else {
                assert(big_value(a) % big_value(b) == 0);
            }
        }
        q
    }
}

// ---------------------------------------------------------------------
// the encoding as a mathematical recurrence
// ---------------------------------------------------------------------

/// The running numerator of the initial hypergeometric term:
/// the product of `(mean + 1 - j)^2` for `j` from 1 to `x`.
pub open spec fn ope_c_num(x: int) -> int
    decreases (if x <= 0 {
        0int
    } else {
        x
    }),
{
    if x <= 0 {
        1
    } else {
        ope_c_num(x - 1) * (OPE_MEAN + 1 - x) * (OPE_MEAN + 1 - x)
    }
}

/// The factorial of `x`, and one for nonpositive `x`.
pub open spec fn ope_fact(x: int) -> int
    decreases (if x <= 0 {
        0int
    } else {
        x
    }),
{
    if x <= 0 {
        1
    } else {
        ope_fact(x - 1) * x
    }
}

/// The accumulator of the partial sum: the sum and the current term as
/// exact rationals, the iteration index, and whether the sum stopped on
/// a vanishing denominator.
pub struct OpeState {
    pub sn: int,
    pub sd: int,
    pub tn: int,
    pub td: int,
    pub num: int,
    pub stopped: bool,
}

/// The accumulator after `k` rounds for input `x`.
pub open spec fn ope_state(x: int, k: nat) -> OpeState
    decreases k,
{
    if k == 0 {
        OpeState {
            sn: 0,
            sd: 1,
            tn: ope_c_num(x),
            td: ope_fact(x),
            num: x,
            stopped: false,
        }
    } else {
        let s = ope_state(x, (k - 1) as nat);
        if s.stopped {
            s
        } else {
            let sn2 = s.sn * s.td + s.tn * s.sd;
            let sd2 = s.sd * s.td;
            let denom = (s.num + 1) * (2 * OPE_MEAN - s.num - 2);
            if denom == 0 {
                OpeState { sn: sn2, sd: sd2, tn: s.tn, td: s.td, num: s.num, stopped: true }
            } else {
                OpeState {
                    sn: sn2,
                    sd: sd2,
                    tn: (OPE_MEAN - s.num) * (OPE_MEAN - s.num),
                    td: denom,
                    num: s.num + 1,
                    stopped: false,
                }
            }
        }
    }
}

/// The encoding of `x`: the partial sum after the full round count,
/// scaled and floored. The sign of the denominator is normalised before
/// flooring.
pub open spec fn ope_encode(x: int) -> int {
    let s = ope_state(x, OPE_ROUNDS as nat);
    let a = if s.sd < 0 {
        -s.sn
    } else {
        s.sn
    };
    let b = if s.sd < 0 {
        -s.sd
    } else {
        s.sd
    };
    if b == 0 {
        0
    } else {
        (OPE_SCALE * a) / b
    }
}

/// The running denominators of the sum never vanish.
pub proof fn lemma_ope_state_wf(x: int, k: nat)
    ensures
        ope_state(x, k).sd != 0,
        ope_state(x, k).td != 0,
    decreases k,
{
    if k == 0 {
        lemma_c_num_fact_nonzero(x);
    } else {
        lemma_ope_state_wf(x, (k - 1) as nat);
        let s = ope_state(x, (k - 1) as nat);
        if !s.stopped {
            assert(s.sd * s.td != 0) by (nonlinear_arith)
                requires
                    s.sd != 0,
                    s.td != 0,
            ;
        }
    }
}

/// The initial numerator and factorial are nonzero for inputs in the
/// supported domain, and beyond it up to the mean.
pub proof fn lemma_c_num_fact_nonzero(x: int)
    ensures
        x <= OPE_MEAN ==> ope_c_num(x) != 0,
        ope_fact(x) > 0,
    decreases (if x <= 0 {
        0int
    } else {
        x
    }),
{
    if x > 0 {
        lemma_c_num_fact_nonzero(x - 1);
        if x <= OPE_MEAN {
            assert(ope_c_num(x - 1) * (OPE_MEAN + 1 - x) * (OPE_MEAN + 1 - x) != 0)
                by (nonlinear_arith)
                requires
                    ope_c_num(x - 1) != 0,
                    OPE_MEAN + 1 - x != 0,
            ;
        }
        assert(ope_fact(x - 1) * x > 0) by (nonlinear_arith)
            requires
                ope_fact(x - 1) > 0,
                x > 0,
        ;
    }
}

/// The same input always yields the same ciphertext: the encoding is a
/// function of its input and of nothing else.
pub proof fn lemma_ope_deterministic(x: int, y: int)
    requires
        x == y,
    ensures
        ope_encode(x) == ope_encode(y),
{
}

/// Encodes one value of the supported domain: the signed half-width
/// band of the key space, and up to its full length so that the
/// reference inverse can sweep it.
pub fn encrypt_ope(input: i64) -> (r: num_bigint::BigInt)
    requires
        -(KEY_SPACE_LENGTH / 2) <= input <= KEY_SPACE_LENGTH,
    ensures
        big_value(&r) == ope_encode(input as int),
{
    // the initial term of the sum
    let mut tn = big_from_i64(1);
    let mut td = big_from_i64(1);
    let mut j: i64 = 0;
    while j < input
        invariant
            0 <= j,
            j <= (if input > 0 {
                input as int
            } else {
                0int
            }),
            input <= KEY_SPACE_LENGTH,
            big_value(&tn) == ope_c_num(j as int),
            big_value(&td) == ope_fact(j as int),
        decreases input - j,
    {
        j = j + 1;
        let f = big_from_i64(OPE_MEAN + 1 - j);
        let t2 = big_mul(&tn, &f);
        tn = big_mul(&t2, &f);
        td = big_mul(&td, &big_from_i64(j));
    }
    proof {
        if input > 0 {
            assert(j == input);
        } else {
            assert(big_value(&tn) == ope_c_num(input as int));
            assert(big_value(&td) == ope_fact(input as int));
        }
    }
    let mut sn = big_from_i64(0);
    let mut sd = big_from_i64(1);
    let mut num: i64 = input;
    let mut stopped = false;
    let mut k: u64 = 0;
    while k < OPE_ROUNDS
        invariant
            k <= OPE_ROUNDS,
            -(KEY_SPACE_LENGTH / 2) <= input <= KEY_SPACE_LENGTH,
            input <= num <= input + k,
            big_value(&sn) == ope_state(input as int, k as nat).sn,
            big_value(&sd) == ope_state(input as int, k as nat).sd,
            big_value(&tn) == ope_state(input as int, k as nat).tn,
            big_value(&td) == ope_state(input as int, k as nat).td,
            num as int == ope_state(input as int, k as nat).num,
            stopped == ope_state(input as int, k as nat).stopped,
        decreases OPE_ROUNDS - k,
    {
        if !stopped {
            let a = big_mul(&sn, &td);
            let b = big_mul(&tn, &sd);
            sn = big_add(&a, &b);
            sd = big_mul(&sd, &td);
            proof {
                assert((num + 1) * (2 * OPE_MEAN - num - 2) <= 0x7fff_ffff_ffff_ffff && (num + 1)
                    * (2 * OPE_MEAN - num - 2) >= -0x8000_0000_0000_0000) by (nonlinear_arith)
                    requires
                        -8388608 <= num <= 16787216,
                        OPE_MEAN == 8388608,
                ;
            }
            let denom: i64 = (num + 1) * (2 * OPE_MEAN - num - 2);
            if denom == 0 {
                stopped = true;
            } else {
                let f = big_from_i64(OPE_MEAN - num);
                tn = big_mul(&f, &f);
                td = big_from_i64(denom);
                num = num + 1;
            }
        }
        k = k + 1;
    }
    let scale = big_from_i64(OPE_SCALE);
    let a0 = big_mul(&scale, &sn);
    proof {
        lemma_ope_state_wf(input as int, OPE_ROUNDS as nat);
    }
    if big_is_negative(&sd) {
        let zero = big_from_i64(0);
        let na = big_sub(&zero, &a0);
        let nb = big_sub(&zero, &sd);
        let r = big_div_floor(&na, &nb);
        proof {
            assert(big_value(&r) == ope_encode(input as int));
        }
        r
    } else {
        let r = big_div_floor(&a0, &sd);
        proof {
            assert(big_value(&r) == ope_encode(input as int));
        }
        r
    }
}

/// Searches the key space for the plaintext of a ciphertext: the
/// reference inverse of the encoding, not on any serving path. Returns
/// the smallest matching plaintext of `[0, key_space_length)`.
pub fn decrypt_ope(encrypted_number: &num_bigint::BigInt, key_space_length: i64) -> (r: Option<
    i64,
>)
    requires
        0 <= key_space_length <= KEY_SPACE_LENGTH,
    ensures
        match r {
            Some(x) => 0 <= x < key_space_length && ope_encode(x as int) == big_value(
                encrypted_number,
            ) && forall|y: int|
                0 <= y < x ==> ope_encode(y) != big_value(encrypted_number),
            None => forall|y: int|
                0 <= y < key_space_length ==> ope_encode(y) != big_value(encrypted_number),
        },
{
    let mut i: i64 = 0;
    while i < key_space_length
        invariant
            0 <= i <= key_space_length <= KEY_SPACE_LENGTH,
            forall|y: int| 0 <= y < i ==> ope_encode(y) != big_value(encrypted_number),
        decreases key_space_length - i,
    {
        let c = encrypt_ope(i);
        if big_eq(&c, encrypted_number) {
            return Some(i);
        }
        i = i + 1;
    }
    None
}

// ---------------------------------------------------------------------
// ranges and samplers of the recursive encoding
// ---------------------------------------------------------------------

/// What can go wrong in the range arithmetic and the samplers.
#[derive(Debug, Clone, Copy, PartialEq, Eq, Structural)]
pub enum OpeError {
    InvalidRangeLimitsError,
    InvalidCiphertextError,
    OutOfRangeError,
    InvalidCoinError,
    NotEnoughCoinsError,
}

/// An inclusive range of plaintext or ciphertext values.
#[derive(Debug, Clone, Copy, PartialEq, Eq, Structural)]
pub struct ValueRange {
    pub start: i32,
    pub end: i32,
}

impl ValueRange {
    /// A range from `start` to `end` inclusive; backwards limits are
    /// refused.
    pub fn new(start: i32, end: i32) -> (r: Result<Self, OpeError>)
        ensures
            start <= end ==> r == Ok::<ValueRange, OpeError>(ValueRange { start, end }),
            start > end ==> r == Err::<ValueRange, OpeError>(OpeError::InvalidRangeLimitsError),
    {
        if start > end {
            return Err(OpeError::InvalidRangeLimitsError);
        }
        Ok(ValueRange { start, end })
    }

    /// How many values the range holds.
    pub fn size(&self) -> (r: i32)
        requires
            self.start <= self.end,
            self.end - self.start < 0x7fff_ffff,
        ensures
            r == self.end - self.start + 1,
    {
        self.end - self.start + 1
    }

    /// Whether the range holds `number`.
    pub fn contains(&self, number: i32) -> (r: bool)
        ensures
            r == (self.start <= number && number <= self.end),
    {
        self.start <= number && number <= self.end
    }
}

/// One step list of fair-coin draws narrowing a range to one value:
/// the value drawn and the index after the last coin used, or nothing
/// when a coin is missing or is neither zero nor one. The midpoint of a
/// step is the low end plus half the width.
pub open spec fn spec_sample_uniform(start: int, end: int, coins: Seq<i32>, idx: int) -> Option<
    (int, int),
>
    decreases end - start,
{
    if start >= end {
        Some((start, idx))
    } else if !(0 <= idx < coins.len()) {
        None
    } else {
        let mid = start + (end - start) / 2;
        if coins[idx] == 0 {
            spec_sample_uniform(start, mid, coins, idx + 1)
        } else if coins[idx] == 1 {
            spec_sample_uniform(mid + 1, end, coins, idx + 1)
        } else {
            None
        }
    }
}

/// Draws one value of the range uniformly, narrowing it by halves with
/// one coin per step: zero keeps the lower half, one the upper half.
pub fn sample_uniform(in_range: ValueRange, coins: &Vec<i32>) -> (r: Result<i32, OpeError>)
    requires
        in_range.start <= in_range.end,
        in_range.end - in_range.start < 0x4000_0000,
    ensures
        match spec_sample_uniform(in_range.start as int, in_range.end as int, coins@, 0) {
            Some((v, _)) => r matches Ok(x) && x == v && in_range.start <= v <= in_range.end,
            None => r is Err,
        },
{
    let mut lo: i32 = in_range.start;
    let mut hi: i32 = in_range.end;
    let mut i: usize = 0;
    while lo < hi
        invariant
            in_range.start <= lo <= hi <= in_range.end,
            in_range.end - in_range.start < 0x4000_0000,
            0 <= i <= coins@.len(),
            spec_sample_uniform(in_range.start as int, in_range.end as int, coins@, 0)
                == spec_sample_uniform(lo as int, hi as int, coins@, i as int),
        decreases hi - lo,
    {
        if i >= coins.len() {
            return Err(OpeError::NotEnoughCoinsError);
        }
        let mid = lo + (hi - lo) / 2;
        let c = coins[i];
        if c == 0 {
            hi = mid;
        } else if c == 1 {
            lo = mid + 1;
        } else {
            return Err(OpeError::InvalidCoinError);
        }
        i = i + 1;
    }
    Ok(lo)
}

/// Maps a ciphertext draw back into the plaintext range: the direct
/// correspondence when both ranges have one size, and otherwise the
/// hypergeometric draw `in_sample_num`, handed in by the caller, offset
/// into the plaintext range.
pub fn sample_hgd(
    in_range: ValueRange,
    out_range: ValueRange,
    nsample: i32,
    in_sample_num: i32,
) -> (r: i32)
    requires
        in_range.start <= in_range.end,
        out_range.start <= out_range.end,
        in_range.end - in_range.start <= out_range.end - out_range.start,
        out_range.end - out_range.start < 0x4000_0000,
        out_range.start <= nsample <= out_range.end,
        0 <= in_sample_num,
        in_sample_num == 0 || in_range.start + in_sample_num - 1 <= in_range.end,
    ensures
        in_range.end - in_range.start == out_range.end - out_range.start ==> r == in_range.start
            + (nsample - out_range.start),
        in_range.end - in_range.start != out_range.end - out_range.start ==> r == (
        if in_sample_num == 0 {
            in_range.start as int
        } else {
            in_range.start + in_sample_num - 1
        }),
        in_range.start <= r <= in_range.end,
{
    let in_size = in_range.size();
    let out_size = out_range.size();
    let nsample_index = nsample - out_range.start + 1;
    if in_size == out_size {
        return in_range.start + (nsample_index - 1);
    }
    if in_sample_num == 0 {
        in_range.start
    } else {
        let in_sample = in_range.start + (in_sample_num - 1);
        in_sample
    }
}

} // verus!
