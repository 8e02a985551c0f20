//! Signed 64-bit nanosecond durations and instants. The extreme values act
//! as infinity sentinels: `-i64::MAX` normalizes to `i64::MIN`, and all
//! arithmetic saturates at the sentinels instead of wrapping.

use vstd::prelude::*;

use crate::bigend::{be_bytes, be_val, lemma_be_bytes_len, lemma_be_roundtrip, lemma_be_val_bound,
    lemma_pow256_table, read_be, write_be};
use crate::buffer::{Reader, Writer};
use crate::error::Error;
use crate::serial::Serializable;
use crate::util;
use vstd::arithmetic::div_mod::{lemma_div_nonincreasing, lemma_div_pos_is_pos,
    lemma_fundamental_div_mod, lemma_mod_bound};

verus! {

pub const MINUTES_PER_HOUR: i64 = 60;

pub const HOURS_PER_DAY: i64 = 24;

pub const SECONDS_PER_MINUTE: i64 = 60;

pub const SECONDS_PER_HOUR: i64 = SECONDS_PER_MINUTE * MINUTES_PER_HOUR;

pub const SECONDS_PER_DAY: i64 = SECONDS_PER_HOUR * HOURS_PER_DAY;

pub const NANOS_PER_MICRO: i64 = 1_000;

pub const NANOS_PER_MILLI: i64 = 1_000_000;

pub const NANOS_PER_SECOND: i64 = 1_000_000_000;

pub const NANOS_PER_MINUTE: i64 = NANOS_PER_SECOND * SECONDS_PER_MINUTE;

pub const NANOS_PER_HOUR: i64 = NANOS_PER_SECOND * SECONDS_PER_HOUR;

pub const NANOS_PER_DAY: i64 = NANOS_PER_SECOND * SECONDS_PER_DAY;

/// Saturation to the `i64` range.
pub open spec fn clamp64(v: int) -> int {
    if v > i64::MAX as int {
        i64::MAX as int
    } else if v < i64::MIN as int {
        i64::MIN as int
    } else {
        v
    }
}

/// The sentinel normalization: `-i64::MAX` means negative infinity, which is
/// stored as `i64::MIN`.
pub open spec fn norm64(v: int) -> int {
    if v == -(i64::MAX as int) {
        i64::MIN as int
    } else {
        v
    }
}

/// Saturate, then normalize: the value every arithmetic result is put
/// through.
pub open spec fn sat64(v: int) -> int {
    norm64(clamp64(v))
}

/// Division truncating toward zero by a positive divisor, as the plain `/`
/// of the host language behaves.
pub open spec fn trunc_div(a: int, s: int) -> int {
    if a >= 0 {
        a / s
    } else {
        -((-a) / s)
    }
}

/// Euclidean quotient: the remainder is always non-negative.
pub open spec fn euclid_div(a: int, b: int) -> int {
    if b > 0 {
        a / b
    } else {
        -(a / (-b))
    }
}

/// Euclidean remainder: always in `[0, |b|)`.
pub open spec fn euclid_rem(a: int, b: int) -> int {
    if b > 0 {
        a % b
    } else {
        a % (-b)
    }
}

/// Truncating division by a positive divisor.
fn trunc_div_i64(a: i64, s: i64) -> (r: i64)
    requires
        s > 0,
    ensures
        r as int == trunc_div(a as int, s as int),
{
    if a >= 0 {
        let q = (a as u64) / (s as u64);
        proof {
            lemma_div_nonincreasing(a as int, s as int);
            lemma_div_pos_is_pos(a as int, s as int);
        }
        q as i64
    } else {
        let m = (-(a as i128)) as u64;
        let q = m / (s as u64);
        proof {
            lemma_div_nonincreasing(m as int, s as int);
            lemma_div_pos_is_pos(m as int, s as int);
        }
        (-(q as i128)) as i64
    }
}

/// Euclidean division and remainder, with the quotient saturated to the
/// `i64` range: the one overflowing case, `i64::MIN` divided by `-1`,
/// saturates to `i64::MAX` with remainder zero.
fn divmod_i64(lhs: i64, rhs: i64) -> (r: (i64, i64))
    requires
        rhs != 0,
    ensures
        r.0 as int == clamp64(euclid_div(lhs as int, rhs as int)),
        r.1 as int == euclid_rem(lhs as int, rhs as int),
{
    let l: i128 = lhs as i128;
    let b: i128 = if rhs < 0 {
        -(rhs as i128)
    } else {
        rhs as i128
    };
    proof {
        lemma_fundamental_div_mod(l as int, b as int);
        lemma_mod_bound(l as int, b as int);
        let q = (l as int) / (b as int);
        let rr = (l as int) % (b as int);
        assert(-(0x20000000000000000int) <= q <= 0x20000000000000000int) by (nonlinear_arith)
            requires
                l as int == (b as int) * q + rr,
                0 <= rr < b as int,
                1 <= b as int <= 0x8000000000000000int,
                -(0x8000000000000000int) <= l as int <= 0x8000000000000000int,
        ;
    }
    let q128 = match l.checked_div_euclid(b) {
        Some(q) => q,
        None => {
            proof {
                assert(false);
            }
            0
        },
    };
    let r128 = match l.checked_rem_euclid(b) {
        Some(r) => r,
        None => {
            proof {
                assert(false);
            }
            0
        },
    };
    let qs: i128 = if rhs < 0 {
        -q128
    } else {
        q128
    };
    let q64: i64 = if qs > i64::MAX as i128 {
        i64::MAX
    } else if qs < i64::MIN as i128 {
        i64::MIN
    } else {
        qs as i64
    };
    (q64, r128 as i64)
}

/// A span of time in nanoseconds. `i64::MAX` is the positive-infinity
/// sentinel and `i64::MIN` (equivalently, any value at or below `-i64::MAX`)
/// the negative-infinity sentinel.
#[derive(Clone, Copy, Debug, PartialEq, Eq, Structural, Hash, PartialOrd, Ord)]
pub struct Duration {
    pub nanoseconds: i64,
}

/// A point in time: a duration since an unspecified epoch, with the same
/// sentinel and saturation rules.
#[derive(Clone, Copy, Debug, PartialEq, Eq, Structural, Hash, PartialOrd, Ord)]
pub struct Instant {
    pub since_epoch: Duration,
}

impl DeepView for Duration {
    type V = Duration;

    open spec fn deep_view(&self) -> Duration {
        *self
    }
}

impl DeepView for Instant {
    type V = Instant;

    open spec fn deep_view(&self) -> Instant {
        *self
    }
}

impl Duration {
    /// The zero duration.
    pub fn zero() -> (r: Self)
        ensures
            r.nanoseconds == 0,
    {
        Duration { nanoseconds: 0 }
    }

    /// The positive-infinity sentinel.
    pub fn max_value() -> (r: Self)
        ensures
            r.nanoseconds == i64::MAX,
    {
        Duration { nanoseconds: i64::MAX }
    }

    /// The negative-infinity sentinel.
    pub fn min_value() -> (r: Self)
        ensures
            r.nanoseconds == i64::MIN,
    {
        Duration { nanoseconds: i64::MIN }
    }

    /// Wraps a nanosecond count, normalizing `-i64::MAX` to the
    /// negative-infinity sentinel.
    pub fn from_nanoseconds(nanoseconds: i64) -> (r: Self)
        ensures
            r.nanoseconds as int == norm64(nanoseconds as int),
    {
        if nanoseconds == -i64::MAX {
            Duration { nanoseconds: i64::MIN }
        } else {
            Duration { nanoseconds }
        }
    }

    /// Saturating conversion from microseconds.
    pub fn from_microseconds(microseconds: i64) -> (r: Self)
        ensures
            r.nanoseconds as int == sat64(microseconds as int * NANOS_PER_MICRO as int),
    {
        scale_saturating(microseconds, NANOS_PER_MICRO)
    }

    /// Saturating conversion from milliseconds.
    pub fn from_milliseconds(milliseconds: i64) -> (r: Self)
        ensures
            r.nanoseconds as int == sat64(milliseconds as int * NANOS_PER_MILLI as int),
    {
        scale_saturating(milliseconds, NANOS_PER_MILLI)
    }

    /// Saturating conversion from seconds.
    pub fn from_seconds(seconds: i64) -> (r: Self)
        ensures
            r.nanoseconds as int == sat64(seconds as int * NANOS_PER_SECOND as int),
    {
        scale_saturating(seconds, NANOS_PER_SECOND)
    }

    /// Saturating conversion from minutes.
    pub fn from_minutes(minutes: i64) -> (r: Self)
        ensures
            r.nanoseconds as int == sat64(minutes as int * NANOS_PER_MINUTE as int),
    {
        scale_saturating(minutes, NANOS_PER_MINUTE)
    }

    /// Saturating conversion from hours.
    pub fn from_hours(hours: i64) -> (r: Self)
        ensures
            r.nanoseconds as int == sat64(hours as int * NANOS_PER_HOUR as int),
    {
        scale_saturating(hours, NANOS_PER_HOUR)
    }

    /// Saturating conversion from days.
    pub fn from_days(days: i64) -> (r: Self)
        ensures
            r.nanoseconds as int == sat64(days as int * NANOS_PER_DAY as int),
    {
        scale_saturating(days, NANOS_PER_DAY)
    }

    /// Exactly zero.
    pub fn is_zero(self) -> (r: bool)
        ensures
            r == (self.nanoseconds == 0),
    {
        self.nanoseconds == 0
    }

    /// Strictly positive.
    pub fn is_positive(self) -> (r: bool)
        ensures
            r == (self.nanoseconds > 0),
    {
        self.nanoseconds > 0
    }

    /// Strictly negative.
    pub fn is_negative(self) -> (r: bool)
        ensures
            r == (self.nanoseconds < 0),
    {
        self.nanoseconds < 0
    }

    /// Anything but zero.
    pub fn is_non_zero(self) -> (r: bool)
        ensures
            r == (self.nanoseconds != 0),
    {
        self.nanoseconds != 0
    }

    /// Zero or positive.
    pub fn is_non_negative(self) -> (r: bool)
        ensures
            r == (self.nanoseconds >= 0),
    {
        self.nanoseconds >= 0
    }

    /// The positive-infinity sentinel.
    pub fn is_pos_infinity(self) -> (r: bool)
        ensures
            r == (self.nanoseconds == i64::MAX),
    {
        self.nanoseconds >= i64::MAX
    }

    /// The negative-infinity sentinel, in either representation.
    pub fn is_neg_infinity(self) -> (r: bool)
        ensures
            r == (self.nanoseconds <= -i64::MAX),
    {
        self.nanoseconds <= -i64::MAX
    }

    /// Either infinity sentinel.
    pub fn is_infinity(self) -> (r: bool)
        ensures
            r == (self.nanoseconds == i64::MAX || self.nanoseconds <= -i64::MAX),
    {
        self.is_pos_infinity() || self.is_neg_infinity()
    }

    /// Neither infinity sentinel.
    pub fn is_finite(self) -> (r: bool)
        ensures
            r == (self.nanoseconds != i64::MAX && self.nanoseconds > -i64::MAX),
    {
        !self.is_infinity()
    }

    /// The raw nanosecond count.
    pub fn as_nanoseconds(self) -> (r: i64)
        ensures
            r == self.nanoseconds,
    {
        self.nanoseconds
    }

    /// Whole microseconds, truncated toward zero; infinities pin to the
    /// extremes.
    pub fn as_microseconds(self) -> (r: i64)
        ensures
            r as int == as_scaled_spec(self, NANOS_PER_MICRO as int),
    {
        self.div_accessor(NANOS_PER_MICRO)
    }

    /// Whole milliseconds, truncated toward zero; infinities pin to the
    /// extremes.
    pub fn as_milliseconds(self) -> (r: i64)
        ensures
            r as int == as_scaled_spec(self, NANOS_PER_MILLI as int),
    {
        self.div_accessor(NANOS_PER_MILLI)
    }

    /// Whole seconds, truncated toward zero; infinities pin to the extremes.
    pub fn as_seconds(self) -> (r: i64)
        ensures
            r as int == as_scaled_spec(self, NANOS_PER_SECOND as int),
    {
        self.div_accessor(NANOS_PER_SECOND)
    }

    /// Whole minutes, truncated toward zero; infinities pin to the extremes.
    pub fn as_minutes(self) -> (r: i64)
        ensures
            r as int == as_scaled_spec(self, NANOS_PER_MINUTE as int),
    {
        self.div_accessor(NANOS_PER_MINUTE)
    }

    /// Whole hours, truncated toward zero; infinities pin to the extremes.
    pub fn as_hours(self) -> (r: i64)
        ensures
            r as int == as_scaled_spec(self, NANOS_PER_HOUR as int),
    {
        self.div_accessor(NANOS_PER_HOUR)
    }

    /// Whole days, truncated toward zero; infinities pin to the extremes.
    pub fn as_days(self) -> (r: i64)
        ensures
            r as int == as_scaled_spec(self, NANOS_PER_DAY as int),
    {
        self.div_accessor(NANOS_PER_DAY)
    }

    fn div_accessor(self, scale: i64) -> (r: i64)
        requires
            scale > 0,
        ensures
            r as int == as_scaled_spec(self, scale as int),
    {
        if self.nanoseconds >= i64::MAX {
            i64::MAX
        } else if self.nanoseconds <= -i64::MAX {
            i64::MIN
        } else {
            trunc_div_i64(self.nanoseconds, scale)
        }
    }

    /// Saturating absolute value.
    pub fn abs(self) -> (r: Self)
        ensures
            r.nanoseconds as int == sat64(
                if self.nanoseconds < 0 {
                    -(self.nanoseconds as int)
                } else {
                    self.nanoseconds as int
                },
            ),
    {
        if self.nanoseconds < 0 {
            self.neg()
        } else {
            Duration { nanoseconds: self.nanoseconds }
        }
    }

    /// Saturating negation; the infinities swap.
    pub fn neg(self) -> (r: Self)
        ensures
            r.nanoseconds as int == sat64(-(self.nanoseconds as int)),
    {
        let v: i128 = -(self.nanoseconds as i128);
        sat_duration(v)
    }

    /// Saturating addition.
    pub fn add(self, rhs: Self) -> (r: Self)
        ensures
            r.nanoseconds as int == sat64(self.nanoseconds as int + rhs.nanoseconds as int),
    {
        let v: i128 = self.nanoseconds as i128 + rhs.nanoseconds as i128;
        sat_duration(v)
    }

    /// Saturating subtraction.
    pub fn sub(self, rhs: Self) -> (r: Self)
        ensures
            r.nanoseconds as int == sat64(self.nanoseconds as int - rhs.nanoseconds as int),
    {
        let v: i128 = self.nanoseconds as i128 - rhs.nanoseconds as i128;
        sat_duration(v)
    }

    /// Euclidean quotient of two durations, saturated.
    pub fn div(self, rhs: Self) -> (r: i64)
        requires
            rhs.nanoseconds != 0,
        ensures
            r as int == clamp64(euclid_div(self.nanoseconds as int, rhs.nanoseconds as int)),
    {
        let (quo, _) = self.divmod(rhs);
        quo
    }

    /// Euclidean remainder of two durations.
    pub fn rem(self, rhs: Self) -> (r: Self)
        requires
            rhs.nanoseconds != 0,
        ensures
            r.nanoseconds as int == norm64(
                euclid_rem(self.nanoseconds as int, rhs.nanoseconds as int),
            ),
    {
        let (_, rem) = self.divmod(rhs);
        rem
    }

    /// Euclidean quotient and remainder of two durations; the one
    /// overflowing case saturates to the positive-infinity sentinel.
    pub fn divmod(self, rhs: Self) -> (r: (i64, Self))
        requires
            rhs.nanoseconds != 0,
        ensures
            r.0 as int == clamp64(euclid_div(self.nanoseconds as int, rhs.nanoseconds as int)),
            r.1.nanoseconds as int == norm64(
                euclid_rem(self.nanoseconds as int, rhs.nanoseconds as int),
            ),
    {
        let (quo, rem) = divmod_i64(self.nanoseconds, rhs.nanoseconds);
        (quo, Duration::from_nanoseconds(rem))
    }

    /// Saturating multiplication by a scalar.
    pub fn scalar_mul(self, scalar: i64) -> (r: Self)
        ensures
            r.nanoseconds as int == sat64(self.nanoseconds as int * scalar as int),
    {
        proof {
            let a = self.nanoseconds as int;
            let b = scalar as int;
            assert(-(0x40000000000000000000000000000000int) <= a * b
                <= 0x40000000000000000000000000000000int) by (nonlinear_arith)
                requires
                    -(0x8000000000000000int) <= a <= 0x8000000000000000int,
                    -(0x8000000000000000int) <= b <= 0x8000000000000000int,
            ;
        }
        let v: i128 = (self.nanoseconds as i128) * (scalar as i128);
        sat_duration(v)
    }

    /// Euclidean division by a scalar, saturated.
    pub fn scalar_div(self, scalar: i64) -> (r: Self)
        requires
            scalar != 0,
        ensures
            r.nanoseconds as int == norm64(
                clamp64(euclid_div(self.nanoseconds as int, scalar as int)),
            ),
    {
        let (quo, _) = self.scalar_divmod(scalar);
        quo
    }

    /// Euclidean remainder under a scalar.
    pub fn scalar_rem(self, scalar: i64) -> (r: Self)
        requires
            scalar != 0,
        ensures
            r.nanoseconds as int == norm64(euclid_rem(self.nanoseconds as int, scalar as int)),
    {
        let (_, rem) = self.scalar_divmod(scalar);
        rem
    }

    /// Euclidean quotient and remainder under a scalar, both as durations.
    pub fn scalar_divmod(self, scalar: i64) -> (r: (Self, Self))
        requires
            scalar != 0,
        ensures
            r.0.nanoseconds as int == norm64(
                clamp64(euclid_div(self.nanoseconds as int, scalar as int)),
            ),
            r.1.nanoseconds as int == norm64(euclid_rem(self.nanoseconds as int, scalar as int)),
    {
        let (quo, rem) = divmod_i64(self.nanoseconds, scalar);
        (Duration::from_nanoseconds(quo), Duration::from_nanoseconds(rem))
    }
}

/// The value of a finite duration in a coarser unit, truncated toward zero;
/// the infinities pin to the extreme values.
pub open spec fn as_scaled_spec(d: Duration, scale: int) -> int {
    if d.nanoseconds == i64::MAX {
        i64::MAX as int
    } else if d.nanoseconds <= -(i64::MAX as int) {
        i64::MIN as int
    } else {
        trunc_div(d.nanoseconds as int, scale)
    }
}

/// Clamps a wide intermediate to the `i64` range and normalizes the
/// negative-infinity sentinel.
fn sat_duration(v: i128) -> (r: Duration)
    ensures
        r.nanoseconds as int == sat64(v as int),
{
    let clamped: i64 = if v > i64::MAX as i128 {
        i64::MAX
    } else if v < i64::MIN as i128 {
        i64::MIN
    } else {
        v as i64
    };
    Duration::from_nanoseconds(clamped)
}

/// Saturating multiplication of a count by a positive unit scale.
fn scale_saturating(count: i64, scale: i64) -> (r: Duration)
    requires
        scale > 0,
    ensures
        r.nanoseconds as int == sat64(count as int * scale as int),
{
    proof {
        let a = count as int;
        let b = scale as int;
        assert(-(0x40000000000000000000000000000000int) <= a * b
            <= 0x40000000000000000000000000000000int) by (nonlinear_arith)
            requires
                -(0x8000000000000000int) <= a <= 0x8000000000000000int,
                -(0x8000000000000000int) <= b <= 0x8000000000000000int,
        ;
    }
    let v: i128 = (count as i128) * (scale as i128);
    sat_duration(v)
}

impl Instant {
    /// The epoch itself.
    pub fn zero() -> (r: Self)
        ensures
            r.since_epoch.nanoseconds == 0,
    {
        Instant { since_epoch: Duration::zero() }
    }

    /// The earliest representable instant.
    pub fn min_value() -> (r: Self)
        ensures
            r.since_epoch.nanoseconds == i64::MIN,
    {
        Instant { since_epoch: Duration::min_value() }
    }

    /// The latest representable instant.
    pub fn max_value() -> (r: Self)
        ensures
            r.since_epoch.nanoseconds == i64::MAX,
    {
        Instant { since_epoch: Duration::max_value() }
    }

    /// Saturating displacement forward.
    pub fn add(self, rhs: Duration) -> (r: Self)
        ensures
            r.since_epoch.nanoseconds as int == sat64(
                self.since_epoch.nanoseconds as int + rhs.nanoseconds as int,
            ),
    {
        Instant { since_epoch: self.since_epoch.add(rhs) }
    }

    /// Saturating displacement backward.
    pub fn sub(self, rhs: Duration) -> (r: Self)
        ensures
            r.since_epoch.nanoseconds as int == sat64(
                self.since_epoch.nanoseconds as int - rhs.nanoseconds as int,
            ),
    {
        Instant { since_epoch: self.since_epoch.sub(rhs) }
    }

    /// The saturating difference of two instants.
    pub fn diff(self, rhs: Self) -> (r: Duration)
        ensures
            r.nanoseconds as int == sat64(
                self.since_epoch.nanoseconds as int - rhs.since_epoch.nanoseconds as int,
            ),
    {
        self.since_epoch.sub(rhs.since_epoch)
    }
}

impl Serializable for Duration {
    open spec fn encodable(m: Duration) -> bool {
        true
    }

    open spec fn encode(m: Duration) -> Seq<u8> {
        be_bytes((m.nanoseconds as u64) as nat, 8)
    }

    open spec fn decode(input: Seq<u8>) -> Option<(Duration, int)> {
        if input.len() >= 8 {
            Some((Duration { nanoseconds: (be_val(input.take(8)) as u64) as i64 }, 8))
        } else {
            None
        }
    }

    open spec fn scan(input: Seq<u8>) -> Option<int> {
        if input.len() >= 8 {
            Some(8)
        } else {
            None
        }
    }

    proof fn lemma_encode_decode(m: Duration, rest: Seq<u8>) {
        lemma_pow256_table();
        lemma_be_bytes_len((m.nanoseconds as u64) as nat, 8);
        lemma_be_roundtrip((m.nanoseconds as u64) as nat, 8);
        assert((Self::encode(m) + rest).take(8) =~= Self::encode(m));
        let v = m.nanoseconds;
        assert((v as u64) as i64 == v) by (bit_vector);
    }

    proof fn lemma_decode_sound(input: Seq<u8>) {
        if input.len() >= 8 {
            let u = be_val(input.take(8)) as u64;
            lemma_be_bytes_len(((u as i64) as u64) as nat, 8);
            assert((u as i64) as u64 == u) by (bit_vector);
        }
    }

    proof fn lemma_scan_sound(input: Seq<u8>) {
    }

    fn wire_size(&self) -> (n: usize) {
        proof {
            lemma_be_bytes_len((self.nanoseconds as u64) as nat, 8);
        }
        8
    }

    fn wire_write(&self, out: &mut Writer) {
        write_be(out, (self.nanoseconds as u64) as u128, 8);
    }

    fn wire_read(input: &mut Reader) -> (r: Result<Self, Error>) {
        let n = input.remaining_len();
        if n < 8 {
            return Err(Error);
        }
        let ghost rem0 = input.remaining_spec();
        let v = read_be(input, 8);
        proof {
            lemma_be_val_bound(rem0.take(8));
            lemma_pow256_table();
        }
        Ok(Duration { nanoseconds: (v as u64) as i64 })
    }

    fn wire_skip(input: &mut Reader) -> (r: Result<(), Error>) {
        util::fixed_skip(input, 8)
    }
}

impl Serializable for Instant {
    open spec fn encodable(m: Instant) -> bool {
        true
    }

    open spec fn encode(m: Instant) -> Seq<u8> {
        Duration::encode(m.since_epoch)
    }

    open spec fn decode(input: Seq<u8>) -> Option<(Instant, int)> {
        match Duration::decode(input) {
            Some((d, n)) => Some((Instant { since_epoch: d }, n)),
            None => None,
        }
    }

    open spec fn scan(input: Seq<u8>) -> Option<int> {
        Duration::scan(input)
    }

    proof fn lemma_encode_decode(m: Instant, rest: Seq<u8>) {
        Duration::lemma_encode_decode(m.since_epoch, rest);
    }

    proof fn lemma_decode_sound(input: Seq<u8>) {
        Duration::lemma_decode_sound(input);
    }

    proof fn lemma_scan_sound(input: Seq<u8>) {
        Duration::lemma_scan_sound(input);
    }

    fn wire_size(&self) -> (n: usize) {
        self.since_epoch.wire_size()
    }

    fn wire_write(&self, out: &mut Writer) {
        self.since_epoch.wire_write(out);
    }

    fn wire_read(input: &mut Reader) -> (r: Result<Self, Error>) {
        match Duration::wire_read(input) {
            Ok(d) => Ok(Instant { since_epoch: d }),
            Err(e) => Err(e),
        }
    }

    fn wire_skip(input: &mut Reader) -> (r: Result<(), Error>) {
        Duration::wire_skip(input)
    }
}

} // verus!
