//! Types of the C# base class library as protobuf-net and the game's bit
//! stream carry them: date-times, time spans, GUIDs and decimals.
use crate::bits::{
    bits_of_bytes, bits_of_uint, bytes_of_bits, lemma_bits_bytes_padded, lemma_bits_of_bytes_len,
    lemma_bits_of_uint_len, lemma_bits_roundtrip, lemma_bytes_bits_roundtrip, lemma_two_pow_values,
    lemma_uint_of_bits_bound, lemma_uint_roundtrip, uint_at, BitReader, BitWriter, DecodeError, Decoded,
};
use crate::wire::{decoded_as, lemma_split_at, BitCodec};
use vstd::prelude::*;

verus! {

/// Ticks (100-nanosecond units) per second.
pub const TICKS_PER_SECOND: i64 = 10_000_000;

/// The unit of a time value (protobuf-net `TimeSpanScale`).
#[derive(Clone, Copy, Debug, PartialEq, Eq, Hash, Structural, Default)]
pub enum TimeSpanScale {
    #[default]
    Days,
    Hours,
    Minutes,
    Seconds,
    Milliseconds,
    Ticks,
    MinMax,
}

impl TimeSpanScale {
    /// The protobuf enum value.
    pub open spec fn spec_id(self) -> nat {
        match self {
            TimeSpanScale::Days => 0,
            TimeSpanScale::Hours => 1,
            TimeSpanScale::Minutes => 2,
            TimeSpanScale::Seconds => 3,
            TimeSpanScale::Milliseconds => 4,
            TimeSpanScale::Ticks => 5,
            TimeSpanScale::MinMax => 15,
        }
    }

    /// The variant a protobuf enum value names.
    pub open spec fn spec_from_id(id: nat) -> Option<TimeSpanScale> {
        if id == 0 {
            Some(TimeSpanScale::Days)
        } else if id == 1 {
            Some(TimeSpanScale::Hours)
        } else if id == 2 {
            Some(TimeSpanScale::Minutes)
        } else if id == 3 {
            Some(TimeSpanScale::Seconds)
        } else if id == 4 {
            Some(TimeSpanScale::Milliseconds)
        } else if id == 5 {
            Some(TimeSpanScale::Ticks)
        } else if id == 15 {
            Some(TimeSpanScale::MinMax)
        } else {
            None
        }
    }

    /// The protobuf enum value.
    pub fn id(&self) -> (r: u64)
        ensures
            r == self.spec_id(),
    {
        match self {
            TimeSpanScale::Days => 0,
            TimeSpanScale::Hours => 1,
            TimeSpanScale::Minutes => 2,
            TimeSpanScale::Seconds => 3,
            TimeSpanScale::Milliseconds => 4,
            TimeSpanScale::Ticks => 5,
            TimeSpanScale::MinMax => 15,
        }
    }

    /// The variant a protobuf enum value names.
    pub fn from_id(id: u64) -> (r: Option<TimeSpanScale>)
        ensures
            r == TimeSpanScale::spec_from_id(id as nat),
    {
        if id == 0 {
            Some(TimeSpanScale::Days)
        } else if id == 1 {
            Some(TimeSpanScale::Hours)
        } else if id == 2 {
            Some(TimeSpanScale::Minutes)
        } else if id == 3 {
            Some(TimeSpanScale::Seconds)
        } else if id == 4 {
            Some(TimeSpanScale::Milliseconds)
        } else if id == 5 {
            Some(TimeSpanScale::Ticks)
        } else if id == 15 {
            Some(TimeSpanScale::MinMax)
        } else {
            None
        }
    }
}


/// The kind of a date-time (protobuf-net `DateTimeKind`).
#[derive(Clone, Copy, Debug, PartialEq, Eq, Hash, Structural, Default)]
pub enum DateTimeKind {
    #[default]
    Unspecified,
    Utc,
    Local,
}

impl DateTimeKind {
    /// The protobuf enum value.
    pub open spec fn spec_id(self) -> nat {
        match self {
            DateTimeKind::Unspecified => 0,
            DateTimeKind::Utc => 1,
            DateTimeKind::Local => 2,
        }
    }

    /// The variant a protobuf enum value names.
    pub open spec fn spec_from_id(id: nat) -> Option<DateTimeKind> {
        if id == 0 {
            Some(DateTimeKind::Unspecified)
        } else if id == 1 {
            Some(DateTimeKind::Utc)
        } else if id == 2 {
            Some(DateTimeKind::Local)
        } else {
            None
        }
    }

    /// The protobuf enum value.
    pub fn id(&self) -> (r: u64)
        ensures
            r == self.spec_id(),
    {
        match self {
            DateTimeKind::Unspecified => 0,
            DateTimeKind::Utc => 1,
            DateTimeKind::Local => 2,
        }
    }

    /// The variant a protobuf enum value names.
    pub fn from_id(id: u64) -> (r: Option<DateTimeKind>)
        ensures
            r == DateTimeKind::spec_from_id(id as nat),
    {
        if id == 0 {
            Some(DateTimeKind::Unspecified)
        } else if id == 1 {
            Some(DateTimeKind::Utc)
        } else if id == 2 {
            Some(DateTimeKind::Local)
        } else {
            None
        }
    }
}



/// Truncating division, as Rust divides signed integers.
pub open spec fn div_trunc(a: int, b: int) -> int {
    if a >= 0 {
        a / b
    } else {
        -((-a) / b)
    }
}

/// A date-time: a value, the unit it counts, and its kind.
#[derive(Clone, Copy, PartialEq, Eq, Debug, Structural)]
pub struct DateTime(pub i64, pub TimeSpanScale, pub DateTimeKind);

/// The UTC date-time of a Unix timestamp, in the largest unit that divides
/// it: days, hours, minutes, else seconds.
pub open spec fn spec_datetime_of_timestamp(timestamp: i64) -> DateTime {
    if timestamp % 86400 == 0 {
        DateTime((timestamp / 86400) as i64, TimeSpanScale::Days, DateTimeKind::Utc)
    } else if timestamp % 3600 == 0 {
        DateTime((timestamp / 3600) as i64, TimeSpanScale::Hours, DateTimeKind::Utc)
    } else if timestamp % 60 == 0 {
        DateTime((timestamp / 60) as i64, TimeSpanScale::Minutes, DateTimeKind::Utc)
    } else {
        DateTime(timestamp, TimeSpanScale::Seconds, DateTimeKind::Utc)
    }
}

/// The whole seconds that a value of a unit counts; fractions are cut
/// toward zero, and the min/max marker counts none.
pub open spec fn scale_seconds(value: i64, scale: TimeSpanScale) -> int {
    match scale {
        TimeSpanScale::Days => value * 86400,
        TimeSpanScale::Hours => value * 3600,
        TimeSpanScale::Minutes => value * 60,
        TimeSpanScale::Seconds => value as int,
        TimeSpanScale::Milliseconds => div_trunc(value as int, 1000),
        TimeSpanScale::Ticks => div_trunc(value as int, 10_000_000),
        TimeSpanScale::MinMax => 0,
    }
}

/// The ticks that a value of a unit counts; the min/max marker keeps its
/// value.
pub open spec fn scale_ticks(value: i64, scale: TimeSpanScale) -> int {
    match scale {
        TimeSpanScale::Days => value * 86400 * 10_000_000,
        TimeSpanScale::Hours => value * 3600 * 10_000_000,
        TimeSpanScale::Minutes => value * 60 * 10_000_000,
        TimeSpanScale::Seconds => value * 10_000_000,
        TimeSpanScale::Milliseconds => value * 10_000,
        TimeSpanScale::Ticks => value as int,
        TimeSpanScale::MinMax => value as int,
    }
}

/// Whether a number fits in an `i64`.
pub open spec fn fits_i64(x: int) -> bool {
    i64::MIN <= x <= i64::MAX
}

/// The ticks of a value of a unit, where they fit in an `i64`.
fn ticks_of(value: i64, scale: TimeSpanScale) -> (t: i64)
    requires
        fits_i64(scale_ticks(value, scale)),
    ensures
        t == scale_ticks(value, scale),
{
    match scale {
        TimeSpanScale::Days => {
            assert(fits_i64(value * 86400)) by (nonlinear_arith)
                requires fits_i64(value * 86400 * 10_000_000);
            value * 86400 * TICKS_PER_SECOND
        },
        TimeSpanScale::Hours => {
            assert(fits_i64(value * 3600)) by (nonlinear_arith)
                requires fits_i64(value * 3600 * 10_000_000);
            value * 3600 * TICKS_PER_SECOND
        },
        TimeSpanScale::Minutes => {
            assert(fits_i64(value * 60)) by (nonlinear_arith)
                requires fits_i64(value * 60 * 10_000_000);
            value * 60 * TICKS_PER_SECOND
        },
        TimeSpanScale::Seconds => value * TICKS_PER_SECOND,
        TimeSpanScale::Milliseconds => value * (TICKS_PER_SECOND / 1000),
        TimeSpanScale::Ticks => value,
        TimeSpanScale::MinMax => value,
    }
}

impl DateTime {
    /// The UTC date-time of a Unix timestamp, in the largest unit that
    /// divides it: days, hours, minutes, else seconds.
    #[verifier::spinoff_prover]
    #[verifier::rlimit(40)]
    pub fn from_timestamp(timestamp: i64) -> (d: DateTime)
        ensures
            d == spec_datetime_of_timestamp(timestamp),
    {
        if timestamp % 86400 == 0 {
            DateTime(timestamp / 86400, TimeSpanScale::Days, DateTimeKind::Utc)
        } else if timestamp % 3600 == 0 {
            DateTime(timestamp / 3600, TimeSpanScale::Hours, DateTimeKind::Utc)
        } else if timestamp % 60 == 0 {
            DateTime(timestamp / 60, TimeSpanScale::Minutes, DateTimeKind::Utc)
        } else {
            DateTime(timestamp, TimeSpanScale::Seconds, DateTimeKind::Utc)
        }
    }

    /// The Unix timestamp in whole seconds; milliseconds and ticks are cut
    /// toward zero, and the min/max marker gives 0.
    pub fn to_timestamp(&self) -> (s: i64)
        requires
            fits_i64(scale_seconds(self.0, self.1)),
        ensures
            s == scale_seconds(self.0, self.1),
    {
        match self.1 {
            TimeSpanScale::Days => self.0 * 86400,
            TimeSpanScale::Hours => self.0 * 3600,
            TimeSpanScale::Minutes => self.0 * 60,
            TimeSpanScale::Seconds => self.0,
            TimeSpanScale::Milliseconds => self.0 / 1000,
            TimeSpanScale::Ticks => self.0 / TICKS_PER_SECOND,
            TimeSpanScale::MinMax => 0,
        }
    }

    /// Whether the Unix timestamp in whole seconds fits in an `i64`, that
    /// is, whether [`DateTime::to_timestamp`] is defined.
    pub fn timestamp_fits(&self) -> (b: bool)
        ensures
            b == fits_i64(scale_seconds(self.0, self.1)),
    {
        let v = self.0 as i128;
        let secs: i128 = match self.1 {
            TimeSpanScale::Days => v * 86400,
            TimeSpanScale::Hours => v * 3600,
            TimeSpanScale::Minutes => v * 60,
            _ => 0,
        };
        i64::MIN as i128 <= secs && secs <= i64::MAX as i128
    }

    /// The value in ticks, as the game's bit stream carries it.
    pub fn ticks(&self) -> (t: i64)
        requires
            fits_i64(scale_ticks(self.0, self.1)),
        ensures
            t == scale_ticks(self.0, self.1),
    {
        ticks_of(self.0, self.1)
    }

    /// Read a date-time as the game writes it: 64-bit ticks, UTC.
    pub fn decode(r: &mut BitReader) -> (res: Result<DateTime, DecodeError>)
        requires
            old(r).wf(),
        ensures
            decoded_as(
                *old(r),
                *final(r),
                res,
                i64::spec_decode(old(r).bits@, old(r).pos as int).map(
                    |t: i64| DateTime(t, TimeSpanScale::Ticks, DateTimeKind::Utc),
                ),
            ),
    {
        match i64::decode(r) {
            Ok(t) => Ok(DateTime(t, TimeSpanScale::Ticks, DateTimeKind::Utc)),
            Err(e) => Err(e),
        }
    }

    /// Write a date-time as the game does: its value in 64-bit ticks.
    pub fn encode(&self, w: &mut BitWriter)
        requires
            fits_i64(scale_ticks(self.0, self.1)),
        ensures
            final(w).bits@ == old(w).bits@ + i64::spec_encode(scale_ticks(self.0, self.1) as i64),
    {
        let t = self.ticks();
        t.encode(w);
    }
}

impl View for DateTime {
    type V = DateTime;

    open spec fn view(&self) -> DateTime {
        *self
    }
}

/// The default date-time: day 0 of the Unix epoch, UTC.
impl Default for DateTime {
    fn default() -> (d: DateTime)
        ensures
            d == DateTime(0, TimeSpanScale::Days, DateTimeKind::Utc),
    {
        DateTime(0, TimeSpanScale::Days, DateTimeKind::Utc)
    }
}

/// A date-time made from a Unix timestamp gives that timestamp back.
pub proof fn lemma_timestamp_roundtrip(timestamp: i64)
    ensures
        scale_seconds(spec_datetime_of_timestamp(timestamp).0, spec_datetime_of_timestamp(timestamp).1)
            == timestamp,
{
}


/// A time span: a value and the unit it counts.
#[derive(Clone, Copy, PartialEq, Eq, Hash, Debug, Structural)]
pub struct TimeSpan(pub i64, pub TimeSpanScale);

impl View for TimeSpan {
    type V = TimeSpan;

    open spec fn view(&self) -> TimeSpan {
        *self
    }
}

/// The time span of a duration of `secs` seconds and `nanos` nanoseconds:
/// the maximum and zero durations get the min/max marker; whole days,
/// hours and minutes count in that unit (the fraction of a second is
/// dropped); a fraction under a millisecond is dropped in seconds; any
/// other fraction counts in ticks. Casts to `i64` keep the low 64 bits.
pub open spec fn spec_timespan_of(secs: u64, nanos: u32) -> TimeSpan {
    if secs == u64::MAX && nanos == 999_999_999 {
        TimeSpan(i64::MAX, TimeSpanScale::MinMax)
    } else if secs == 0 && nanos == 0 {
        TimeSpan(0, TimeSpanScale::MinMax)
    } else if secs % 86400 == 0 {
        TimeSpan((secs / 86400) as i64, TimeSpanScale::Days)
    } else if secs % 3600 == 0 {
        TimeSpan((secs / 3600) as i64, TimeSpanScale::Hours)
    } else if secs % 60 == 0 {
        TimeSpan((secs / 60) as i64, TimeSpanScale::Minutes)
    } else if nanos / 1_000_000 == 0 {
        TimeSpan(secs as i64, TimeSpanScale::Seconds)
    } else if nanos == 0 {
        TimeSpan((secs * 1000 + nanos / 1_000_000) as i64, TimeSpanScale::Milliseconds)
    } else if nanos > 0 {
        TimeSpan(((secs * 1_000_000_000 + nanos) / 100) as i64, TimeSpanScale::Ticks)
    } else {
        TimeSpan(secs as i64, TimeSpanScale::Seconds)
    }
}

/// Whether a time span converts to a duration without overflow: its value,
/// read as unsigned, times the unit's seconds, milliseconds or 100
/// nanoseconds fits in 64 bits.
pub open spec fn duration_defined(t: TimeSpan) -> bool {
    let v = t.0 as u64;
    match t.1 {
        TimeSpanScale::Days => v * 86400 <= u64::MAX,
        TimeSpanScale::Hours => v * 3600 <= u64::MAX,
        TimeSpanScale::Minutes => v * 60 <= u64::MAX,
        TimeSpanScale::Ticks => v * 100 <= u64::MAX,
        _ => true,
    }
}

/// The seconds and nanoseconds of the duration a time span stands for;
/// the min/max marker stands for the maximum duration when its value is
/// `i64::MAX`, else for zero.
pub open spec fn spec_duration_of(t: TimeSpan) -> (u64, u32) {
    let v = t.0 as u64;
    match t.1 {
        TimeSpanScale::Days => ((v * 86400) as u64, 0),
        TimeSpanScale::Hours => ((v * 3600) as u64, 0),
        TimeSpanScale::Minutes => ((v * 60) as u64, 0),
        TimeSpanScale::Seconds => (v, 0),
        TimeSpanScale::Milliseconds => (v / 1000, ((v % 1000) * 1_000_000) as u32),
        TimeSpanScale::Ticks => (((v * 100) / 1_000_000_000) as u64, (((v * 100) % 1_000_000_000) as u32)),
        TimeSpanScale::MinMax => if t.0 == i64::MAX {
            (u64::MAX, 999_999_999)
        } else {
            (0, 0)
        },
    }
}

impl TimeSpan {
    /// The time span of a duration given as seconds and nanoseconds.
    pub fn from_secs_nanos(secs: u64, nanos: u32) -> (t: TimeSpan)
        requires
            nanos < 1_000_000_000,
        ensures
            t == spec_timespan_of(secs, nanos),
    {
        if secs == u64::MAX && nanos == 999_999_999 {
            TimeSpan(i64::MAX, TimeSpanScale::MinMax)
        } else if secs == 0 && nanos == 0 {
            TimeSpan(0, TimeSpanScale::MinMax)
        } else if secs % 86400 == 0 {
            TimeSpan((secs / 86400) as i64, TimeSpanScale::Days)
        } else if secs % 3600 == 0 {
            TimeSpan((secs / 3600) as i64, TimeSpanScale::Hours)
        } else if secs % 60 == 0 {
            TimeSpan((secs / 60) as i64, TimeSpanScale::Minutes)
        } else if nanos / 1_000_000 == 0 {
            TimeSpan(secs as i64, TimeSpanScale::Seconds)
        } else if nanos == 0 {
            let millis: u128 = secs as u128 * 1000 + (nanos / 1_000_000) as u128;
            TimeSpan(millis as i64, TimeSpanScale::Milliseconds)
        } else if nanos > 0 {
            let total: u128 = secs as u128 * 1_000_000_000 + nanos as u128;
            TimeSpan((total / 100) as i64, TimeSpanScale::Ticks)
        } else {
            TimeSpan(secs as i64, TimeSpanScale::Seconds)
        }
    }

    /// Whether the time span converts to a duration without overflow,
    /// that is, whether [`TimeSpan::to_duration`] is defined.
    pub fn duration_fits(&self) -> (b: bool)
        ensures
            b == duration_defined(*self),
    {
        let v = self.0 as u64 as u128;
        let limit = u64::MAX as u128;
        match self.1 {
            TimeSpanScale::Days => v * 86400 <= limit,
            TimeSpanScale::Hours => v * 3600 <= limit,
            TimeSpanScale::Minutes => v * 60 <= limit,
            TimeSpanScale::Ticks => v * 100 <= limit,
            _ => true,
        }
    }

    /// The seconds and nanoseconds of the duration this time span stands for.
    pub fn to_secs_nanos(&self) -> (r: (u64, u32))
        requires
            duration_defined(*self),
        ensures
            r == spec_duration_of(*self),
            r.1 < 1_000_000_000,
    {
        let v = self.0 as u64;
        match self.1 {
            TimeSpanScale::Days => (v * 86400, 0),
            TimeSpanScale::Hours => (v * 3600, 0),
            TimeSpanScale::Minutes => (v * 60, 0),
            TimeSpanScale::Seconds => (v, 0),
            TimeSpanScale::Milliseconds => (v / 1000, ((v % 1000) * 1_000_000) as u32),
            TimeSpanScale::Ticks => {
                let n = v * 100;
                (n / 1_000_000_000, (n % 1_000_000_000) as u32)
            },
            TimeSpanScale::MinMax => if self.0 == i64::MAX {
                (u64::MAX, 999_999_999)
            } else {
                (0, 0)
            },
        }
    }

    /// The value in ticks, as the game's bit stream carries it.
    pub fn ticks(&self) -> (t: i64)
        requires
            fits_i64(scale_ticks(self.0, self.1)),
        ensures
            t == scale_ticks(self.0, self.1),
    {
        ticks_of(self.0, self.1)
    }

    /// Read a time span as the game writes it: 64-bit ticks.
    pub fn decode(r: &mut BitReader) -> (res: Result<TimeSpan, DecodeError>)
        requires
            old(r).wf(),
        ensures
            decoded_as(
                *old(r),
                *final(r),
                res,
                i64::spec_decode(old(r).bits@, old(r).pos as int).map(|t: i64| TimeSpan(t, TimeSpanScale::Ticks)),
            ),
    {
        match i64::decode(r) {
            Ok(t) => Ok(TimeSpan(t, TimeSpanScale::Ticks)),
            Err(e) => Err(e),
        }
    }

    /// Write a time span as the game does: its value in 64-bit ticks.
    pub fn encode(&self, w: &mut BitWriter)
        requires
            fits_i64(scale_ticks(self.0, self.1)),
        ensures
            final(w).bits@ == old(w).bits@ + i64::spec_encode(scale_ticks(self.0, self.1) as i64),
    {
        let t = self.ticks();
        t.encode(w);
    }
}

/// The default time span: zero seconds.
impl Default for TimeSpan {
    fn default() -> (t: TimeSpan)
        ensures
            t == TimeSpan(0, TimeSpanScale::Seconds),
    {
        TimeSpan(0, TimeSpanScale::Seconds)
    }
}

/// A duration made into a time span and back is the same duration when it
/// is the maximum, or counts whole seconds, or has a fraction of at least a
/// millisecond in whole 100 ns units on a second count that is no whole
/// minute and a nanosecond total that fits in 64 bits. (A fraction of a
/// second is dropped on whole minutes and under a millisecond.)
pub proof fn lemma_duration_roundtrip(secs: u64, nanos: u32)
    requires
        nanos < 1_000_000_000,
        nanos == 0 || (secs == u64::MAX && nanos == 999_999_999) || (secs % 60 != 0 && nanos
            >= 1_000_000 && nanos % 100 == 0 && secs * 1_000_000_000 + nanos <= u64::MAX),
    ensures
        duration_defined(spec_timespan_of(secs, nanos)),
        spec_duration_of(spec_timespan_of(secs, nanos)) == (secs, nanos),
{
    let t = spec_timespan_of(secs, nanos);
    if secs == u64::MAX && nanos == 999_999_999 {
    } else if secs == 0 && nanos == 0 {
    } else if secs % 86400 == 0 {
        let q = secs / 86400;
        assert(((q as i64) as u64) == q) by (bit_vector)
            requires q <= 0xffff_ffff_ffff_ffffu64 / 86400;
    } else if secs % 3600 == 0 {
        let q = secs / 3600;
        assert(((q as i64) as u64) == q) by (bit_vector)
            requires q <= 0xffff_ffff_ffff_ffffu64 / 3600;
    } else if secs % 60 == 0 {
        let q = secs / 60;
        assert(((q as i64) as u64) == q) by (bit_vector)
            requires q <= 0xffff_ffff_ffff_ffffu64 / 60;
    } else if nanos / 1_000_000 == 0 {
        assert(((secs as i64) as u64) == secs) by (bit_vector);
    } else {
        let total: int = secs * 1_000_000_000 + nanos;
        let q: int = total / 100;
        assert(q * 100 == total);
        assert(0 <= q < 0x8000_0000_0000_0000);
        let qi: u64 = q as u64;
        assert(((qi as i64) as u64) == qi) by (bit_vector)
            requires qi < 0x8000_0000_0000_0000u64;
        assert((q * 100) / 1_000_000_000 == secs) by (nonlinear_arith)
            requires q * 100 == secs * 1_000_000_000 + nanos, nanos < 1_000_000_000, secs >= 0, nanos >= 0;
        assert((q * 100) % 1_000_000_000 == nanos) by (nonlinear_arith)
            requires q * 100 == secs * 1_000_000_000 + nanos, nanos < 1_000_000_000, secs >= 0, nanos >= 0;
    }
}


/// A GUID as two 64-bit halves: the first eight bytes little-endian, then
/// the last eight.
#[derive(Clone, Copy, PartialEq, Eq, Debug, Structural)]
pub struct Guid(pub u64, pub u64);

impl View for Guid {
    type V = Guid;

    open spec fn view(&self) -> Guid {
        *self
    }
}

/// The GUID of 16 bytes: the first 64 bits and the next 64 bits of their
/// little-endian bit string.
pub open spec fn spec_guid_of_bytes(bytes: Seq<u8>) -> Guid {
    Guid(uint_at(bits_of_bytes(bytes), 0, 64) as u64, uint_at(bits_of_bytes(bytes), 64, 64) as u64)
}

/// The 16 bytes of a GUID: each half little-endian.
pub open spec fn spec_guid_bytes(g: Guid) -> Seq<u8> {
    bytes_of_bits(bits_of_uint(g.0 as nat, 64) + bits_of_uint(g.1 as nat, 64))
}

impl Guid {
    /// The GUID of 16 bytes in the order `Uuid` keeps them.
    pub fn from_le_bytes(bytes: [u8; 16]) -> (g: Guid)
        ensures
            g == spec_guid_of_bytes(bytes@),
    {
        let mut r = BitReader::from_bytes(bytes.as_slice());
        proof {
            lemma_bits_of_bytes_len(bytes@);
        }
        let lo = r.read_uint(64);
        let hi = r.read_uint(64);
        match (lo, hi) {
            (Ok(lo), Ok(hi)) => Guid(lo, hi),
            _ => Guid(0, 0),
        }
    }

    /// The 16 bytes of this GUID in the order `Uuid` keeps them.
    pub fn to_le_bytes(&self) -> (bytes: [u8; 16])
        ensures
            bytes@ == spec_guid_bytes(*self),
    {
        let mut w = BitWriter::new();
        w.write_uint(self.0, 64);
        w.write_uint(self.1, 64);
        let v = w.to_bytes();
        proof {
            lemma_bits_of_uint_len(self.0 as nat, 64);
            lemma_bits_of_uint_len(self.1 as nat, 64);
            lemma_bits_bytes_padded(w.bits@);
        }
        let mut out = [0u8; 16];
        let mut i: usize = 0;
        while i < 16
            invariant
                v@.len() == 16,
                i <= 16,
                forall|j: int| 0 <= j < i ==> out@[j] == v@[j],
            decreases 16 - i,
        {
            out[i] = v[i];
            i = i + 1;
        }
        assert(out@ =~= v@);
        out
    }
}

/// The nil GUID: all zero.
impl Default for Guid {
    fn default() -> (g: Guid)
        ensures
            g == Guid(0, 0),
    {
        Guid(0, 0)
    }
}

impl BitCodec for Guid {
    /// Two 64-bit halves, low first.
    open spec fn spec_decode(s: Seq<bool>, pos: int) -> Decoded<Guid> {
        u64::spec_decode(s, pos).and_then(
            |lo: u64, p: int| u64::spec_decode(s, p).map(|hi: u64| Guid(lo, hi)),
        )
    }

    open spec fn spec_encode(v: Guid) -> Seq<bool> {
        u64::spec_encode(v.0) + u64::spec_encode(v.1)
    }

    open spec fn spec_encodable(v: Guid) -> bool {
        true
    }

    proof fn lemma_decode_encode(v: Guid, s: Seq<bool>, pos: int) {
        lemma_split_at(s, pos, u64::spec_encode(v.0), u64::spec_encode(v.1));
        u64::lemma_decode_encode(v.0, s, pos);
        u64::lemma_decode_encode(v.1, s, pos + u64::spec_encode(v.0).len());
    }

    fn decode(r: &mut BitReader) -> (res: Result<Guid, DecodeError>) {
        let lo = match u64::decode(r) {
            Ok(v) => v,
            Err(e) => {
                return Err(e);
            },
        };
        match u64::decode(r) {
            Ok(hi) => Ok(Guid(lo, hi)),
            Err(e) => Err(e),
        }
    }

    fn encode(&self, w: &mut BitWriter) {
        self.0.encode(w);
        self.1.encode(w);
        assert(w.bits@ =~= old(w).bits@ + Guid::spec_encode(*self));
    }
}

/// A GUID's bytes give the GUID back.
pub proof fn lemma_guid_bytes_roundtrip(g: Guid)
    ensures
        spec_guid_bytes(g).len() == 16,
        spec_guid_of_bytes(spec_guid_bytes(g)) == g,
{
    let e = bits_of_uint(g.0 as nat, 64) + bits_of_uint(g.1 as nat, 64);
    lemma_bits_of_uint_len(g.0 as nat, 64);
    lemma_bits_of_uint_len(g.1 as nat, 64);
    lemma_bits_bytes_padded(e);
    lemma_two_pow_values();
    assert(bits_of_bytes(spec_guid_bytes(g)) =~= e);
    assert(e.subrange(0, 64) =~= bits_of_uint(g.0 as nat, 64));
    assert(e.subrange(64, 128) =~= bits_of_uint(g.1 as nat, 64));
    lemma_uint_roundtrip(g.0 as nat, 64);
    lemma_uint_roundtrip(g.1 as nat, 64);
}

/// The GUID of 16 bytes gives the bytes back.
pub proof fn lemma_guid_of_bytes_roundtrip(bytes: Seq<u8>)
    requires
        bytes.len() == 16,
    ensures
        spec_guid_bytes(spec_guid_of_bytes(bytes)) == bytes,
{
    let s = bits_of_bytes(bytes);
    lemma_bits_of_bytes_len(bytes);
    lemma_two_pow_values();
    let lo = uint_at(s, 0, 64);
    let hi = uint_at(s, 64, 64);
    lemma_uint_of_bits_bound(s.subrange(0, 64));
    lemma_uint_of_bits_bound(s.subrange(64, 128));
    lemma_bits_roundtrip(s.subrange(0, 64));
    lemma_bits_roundtrip(s.subrange(64, 128));
    assert(bits_of_uint(lo as u64 as nat, 64) + bits_of_uint(hi as u64 as nat, 64) =~= s);
    lemma_bytes_bits_roundtrip(bytes);
}

/// A .NET decimal as protobuf-net stores it: 96-bit magnitude in `lo` and
/// `hi`, sign in bit 0 and scale in bits 1..8 of `sign_scale`.
#[derive(Clone, Copy, PartialEq, Eq, Debug, Default, Structural)]
pub struct Decimal {
    pub lo: u64,
    pub hi: u32,
    pub sign_scale: u32,
}

impl View for Decimal {
    type V = Decimal;

    open spec fn view(&self) -> Decimal {
        *self
    }
}

impl BitCodec for Decimal {
    /// `lo` (64 bits), `hi` (32 bits), `sign_scale` (32 bits).
    open spec fn spec_decode(s: Seq<bool>, pos: int) -> Decoded<Decimal> {
        u64::spec_decode(s, pos).and_then(
            |lo: u64, p1: int|
                u32::spec_decode(s, p1).and_then(
                    |hi: u32, p2: int|
                        u32::spec_decode(s, p2).map(|sign_scale: u32| Decimal { lo, hi, sign_scale }),
                ),
        )
    }

    open spec fn spec_encode(v: Decimal) -> Seq<bool> {
        u64::spec_encode(v.lo) + u32::spec_encode(v.hi) + u32::spec_encode(v.sign_scale)
    }

    open spec fn spec_encodable(v: Decimal) -> bool {
        true
    }

    proof fn lemma_decode_encode(v: Decimal, s: Seq<bool>, pos: int) {
        let e0 = u64::spec_encode(v.lo);
        let e1 = u32::spec_encode(v.hi);
        let e2 = u32::spec_encode(v.sign_scale);
        lemma_split_at(s, pos, e0 + e1, e2);
        lemma_split_at(s, pos, e0, e1);
        u64::lemma_decode_encode(v.lo, s, pos);
        u32::lemma_decode_encode(v.hi, s, pos + e0.len());
        u32::lemma_decode_encode(v.sign_scale, s, pos + (e0 + e1).len());
    }

    fn decode(r: &mut BitReader) -> (res: Result<Decimal, DecodeError>) {
        let lo = match u64::decode(r) {
            Ok(v) => v,
            Err(e) => {
                return Err(e);
            },
        };
        let hi = match u32::decode(r) {
            Ok(v) => v,
            Err(e) => {
                return Err(e);
            },
        };
        match u32::decode(r) {
            Ok(sign_scale) => Ok(Decimal { lo, hi, sign_scale }),
            Err(e) => Err(e),
        }
    }

    fn encode(&self, w: &mut BitWriter) {
        self.lo.encode(w);
        self.hi.encode(w);
        self.sign_scale.encode(w);
        assert(w.bits@ =~= old(w).bits@ + Decimal::spec_encode(*self));
    }
}


/// Declares `uuid::Uuid` to the verifier, as an opaque type.
#[verifier::external_type_specification]
#[verifier::external_body]
pub struct ExUuid(uuid::Uuid);

/// The Unix timestamp of an RFC 3339 date-time string, as
/// `chrono::DateTime::parse_from_rfc3339` reads it; `None` where it fails.
pub uninterp spec fn rfc3339_timestamp(s: Seq<char>) -> Option<i64>;

/// The Unix timestamp of a string read as a UTC date-time in a `strftime`
/// format, as `chrono::NaiveDateTime::parse_from_str` reads it; `None`
/// where it fails.
pub uninterp spec fn naive_datetime_timestamp(s: Seq<char>, fmt: Seq<char>) -> Option<i64>;

/// Calls `chrono::DateTime::parse_from_rfc3339` and takes the timestamp of
/// what it reads. The result is a function of the string, named
/// `rfc3339_timestamp`; the grammar is not restated here.
#[verifier::external_body]
fn parse_rfc3339_timestamp(s: &str) -> (r: Option<i64>)
    ensures
        r == rfc3339_timestamp(s@),
{
    match chrono::DateTime::parse_from_rfc3339(s) {
        Ok(dt) => Some(dt.timestamp()),
        Err(_) => None,
    }
}

/// Calls `chrono::NaiveDateTime::parse_from_str` and takes the timestamp
/// of what it reads, taken as UTC. The result is a function of the string
/// and the format, named `naive_datetime_timestamp`.
#[verifier::external_body]
fn parse_naive_timestamp(s: &str, fmt: &str) -> (r: Option<i64>)
    ensures
        r == naive_datetime_timestamp(s@, fmt@),
{
    match chrono::NaiveDateTime::parse_from_str(s, fmt) {
        Ok(n) => Some(n.and_utc().timestamp()),
        Err(_) => None,
    }
}

/// What a date-time string stands for: the default date-time for an empty
/// string, else the first of an RFC 3339 date-time, a `%Y-%m-%dT%H:%M:%S`
/// UTC date-time, and one with fractional seconds that reads.
pub open spec fn spec_parse_datetime(s: Seq<char>) -> Option<DateTime> {
    if s.len() == 0 {
        Some(DateTime(0, TimeSpanScale::Days, DateTimeKind::Utc))
    } else if let Some(ts) = rfc3339_timestamp(s) {
        Some(spec_datetime_of_timestamp(ts))
    } else if let Some(ts) = naive_datetime_timestamp(s, "%Y-%m-%dT%H:%M:%S"@) {
        Some(spec_datetime_of_timestamp(ts))
    } else if let Some(ts) = naive_datetime_timestamp(s, "%Y-%m-%dT%H:%M:%S%.f"@) {
        Some(spec_datetime_of_timestamp(ts))
    } else {
        None
    }
}

impl DateTime {
    /// Read a date-time from its text form: empty for the default, else
    /// RFC 3339 or `%Y-%m-%dT%H:%M:%S` with optional fractional seconds,
    /// taken as UTC. `None` where no form reads.
    pub fn parse_str(s: &str) -> (d: Option<DateTime>)
        ensures
            d == spec_parse_datetime(s@),
    {
        if s.is_empty() {
            return Some(DateTime::default());
        }
        match parse_rfc3339_timestamp(s) {
            Some(ts) => {
                return Some(DateTime::from_timestamp(ts));
            },
            None => {},
        }
        match parse_naive_timestamp(s, "%Y-%m-%dT%H:%M:%S") {
            Some(ts) => {
                return Some(DateTime::from_timestamp(ts));
            },
            None => {},
        }
        match parse_naive_timestamp(s, "%Y-%m-%dT%H:%M:%S%.f") {
            Some(ts) => Some(DateTime::from_timestamp(ts)),
            None => None,
        }
    }
}

/// The whole seconds of a duration, as `Duration::as_secs` returns them.
pub uninterp spec fn duration_secs(d: std::time::Duration) -> u64;

/// The fractional part of a duration in nanoseconds, as
/// `Duration::subsec_nanos` returns it.
pub uninterp spec fn duration_nanos(d: std::time::Duration) -> u32;

/// Calls `Duration::as_secs`: the whole seconds of a duration, named
/// `duration_secs`.
#[verifier::external_body]
fn duration_as_secs(d: &std::time::Duration) -> (s: u64)
    ensures
        s == duration_secs(*d),
{
    d.as_secs()
}

/// Calls `Duration::subsec_nanos`: the fractional part of a duration in
/// nanoseconds, named `duration_nanos`, which its documentation states is
/// under one billion.
#[verifier::external_body]
fn duration_subsec_nanos(d: &std::time::Duration) -> (n: u32)
    ensures
        n == duration_nanos(*d),
        n < 1_000_000_000,
{
    d.subsec_nanos()
}

/// Calls `Duration::new`. With fewer than a billion nanoseconds nothing
/// carries into the seconds, so, as its documentation states, the duration
/// has exactly those whole seconds and that fractional part; and it is the
/// one duration that has them, a duration being nothing but its seconds and
/// its fraction.
#[verifier::external_body]
fn duration_new(secs: u64, nanos: u32) -> (d: std::time::Duration)
    requires
        nanos < 1_000_000_000,
    ensures
        duration_secs(d) == secs,
        duration_nanos(d) == nanos,
        forall|e: std::time::Duration|
            #![trigger duration_secs(e), duration_nanos(e)]
            duration_secs(e) == secs && duration_nanos(e) == nanos ==> e == d,
{
    std::time::Duration::new(secs, nanos)
}

impl TimeSpan {
    /// The time span of a duration (see [`TimeSpan::from_secs_nanos`]).
    pub fn from_duration(duration: std::time::Duration) -> (t: TimeSpan)
        ensures
            t == spec_timespan_of(duration_secs(duration), duration_nanos(duration)),
    {
        let secs = duration_as_secs(&duration);
        let nanos = duration_subsec_nanos(&duration);
        TimeSpan::from_secs_nanos(secs, nanos)
    }

    /// The duration this time span stands for (see [`TimeSpan::to_secs_nanos`]).
    pub fn to_duration(&self) -> (d: std::time::Duration)
        requires
            duration_defined(*self),
        ensures
            (duration_secs(d), duration_nanos(d)) == spec_duration_of(*self),
            forall|e: std::time::Duration|
                #![trigger duration_secs(e), duration_nanos(e)]
                (duration_secs(e), duration_nanos(e)) == spec_duration_of(*self) ==> e == d,
    {
        let (secs, nanos) = self.to_secs_nanos();
        duration_new(secs, nanos)
    }
}

/// The 16 bytes of a UUID, as `Uuid::as_bytes` returns them.
pub uninterp spec fn uuid_as_bytes(uuid: uuid::Uuid) -> Seq<u8>;

/// Calls `Uuid::as_bytes`: the 16 bytes of a UUID, named `uuid_as_bytes`.
#[verifier::external_body]
fn uuid_bytes(uuid: &uuid::Uuid) -> (b: [u8; 16])
    ensures
        b@ == uuid_as_bytes(*uuid),
{
    *uuid.as_bytes()
}

/// Calls `Uuid::from_bytes`, which makes the UUID of the given bytes: its
/// `as_bytes` gives them back, and it is the one UUID with those bytes, as
/// the source shows (a UUID is nothing but its array of bytes).
#[verifier::external_body]
fn uuid_of_bytes(bytes: [u8; 16]) -> (u: uuid::Uuid)
    ensures
        uuid_as_bytes(u) == bytes@,
        forall|v: uuid::Uuid| #[trigger] uuid_as_bytes(v) == bytes@ ==> v == u,
{
    uuid::Uuid::from_bytes(bytes)
}

impl Guid {
    /// The GUID of a UUID's bytes.
    pub fn from_uuid(uuid: &uuid::Uuid) -> (g: Guid)
        ensures
            uuid_as_bytes(*uuid).len() == 16,
            g == spec_guid_of_bytes(uuid_as_bytes(*uuid)),
    {
        let bytes = uuid_bytes(uuid);
        Guid::from_le_bytes(bytes)
    }

    /// The UUID of this GUID's bytes.
    pub fn to_uuid(&self) -> (u: uuid::Uuid)
        ensures
            uuid_as_bytes(u) == spec_guid_bytes(*self),
            forall|v: uuid::Uuid| #[trigger] uuid_as_bytes(v) == spec_guid_bytes(*self) ==> v == u,
    {
        uuid_of_bytes(self.to_le_bytes())
    }
}

/// A UUID taken to a GUID and back is the same UUID: `u` has the 16
/// bytes that [`Guid::from_uuid`] states it has, and `w` is the one UUID
/// with the bytes of that GUID, as [`Guid::to_uuid`] states of its result.
pub proof fn lemma_uuid_guid_roundtrip(u: uuid::Uuid, w: uuid::Uuid)
    requires
        uuid_as_bytes(u).len() == 16,
        forall|v: uuid::Uuid|
            #[trigger] uuid_as_bytes(v) == spec_guid_bytes(spec_guid_of_bytes(uuid_as_bytes(u))) ==> v == w,
    ensures
        w == u,
{
    lemma_guid_of_bytes_roundtrip(uuid_as_bytes(u));
}

/// A duration made into a time span and back is the same duration, on the
/// durations [`lemma_duration_roundtrip`] names: `d` has the seconds and
/// fraction that [`TimeSpan::from_duration`] reads, and `w` is the one
/// duration with those of the time span, as [`TimeSpan::to_duration`]
/// states of its result.
pub proof fn lemma_duration_value_roundtrip(d: std::time::Duration, w: std::time::Duration)
    requires
        duration_nanos(d) < 1_000_000_000,
        duration_nanos(d) == 0 || (duration_secs(d) == u64::MAX && duration_nanos(d) == 999_999_999) || (
        duration_secs(d) % 60 != 0 && duration_nanos(d) >= 1_000_000 && duration_nanos(d) % 100 == 0
            && duration_secs(d) * 1_000_000_000 + duration_nanos(d) <= u64::MAX),
        forall|e: std::time::Duration|
            #![trigger duration_secs(e), duration_nanos(e)]
            (duration_secs(e), duration_nanos(e)) == spec_duration_of(
                spec_timespan_of(duration_secs(d), duration_nanos(d)),
            ) ==> e == w,
    ensures
        w == d,
{
    lemma_duration_roundtrip(duration_secs(d), duration_nanos(d));
}


/// The protobuf value of each time unit: days 0, hours 1, minutes 2,
/// seconds 3, milliseconds 4, ticks 5, and the min/max marker 15.
///
/// An identifier names exactly the variant whose identifier it is, and
/// nothing else.
pub proof fn lemma_time_span_scale_table()
    ensures
        TimeSpanScale::Days.spec_id() == 0,
        TimeSpanScale::Hours.spec_id() == 1,
        TimeSpanScale::Minutes.spec_id() == 2,
        TimeSpanScale::Seconds.spec_id() == 3,
        TimeSpanScale::Milliseconds.spec_id() == 4,
        TimeSpanScale::Ticks.spec_id() == 5,
        TimeSpanScale::MinMax.spec_id() == 15,
        forall|id: nat, v: TimeSpanScale| #![trigger TimeSpanScale::spec_from_id(id), v.spec_id()] TimeSpanScale::spec_from_id(id) == Some(v) <==> v.spec_id() == id,
        forall|id: nat| #[trigger] TimeSpanScale::spec_from_id(id) is None <==> (forall|v: TimeSpanScale| v.spec_id() != id),
{
    assert forall|id: nat, v: TimeSpanScale| #![trigger TimeSpanScale::spec_from_id(id), v.spec_id()] TimeSpanScale::spec_from_id(id) == Some(v) <==> v.spec_id() == id by {
        match v {
            TimeSpanScale::Days => {},
            TimeSpanScale::Hours => {},
            TimeSpanScale::Minutes => {},
            TimeSpanScale::Seconds => {},
            TimeSpanScale::Milliseconds => {},
            TimeSpanScale::Ticks => {},
            TimeSpanScale::MinMax => {},
        }
    }
    assert forall|id: nat| #[trigger] TimeSpanScale::spec_from_id(id) is None <==> (forall|v: TimeSpanScale| v.spec_id() != id) by {
        if TimeSpanScale::spec_from_id(id) is None {
            assert forall|v: TimeSpanScale| v.spec_id() != id by {
                match v {
                    TimeSpanScale::Days => {},
                    TimeSpanScale::Hours => {},
                    TimeSpanScale::Minutes => {},
                    TimeSpanScale::Seconds => {},
                    TimeSpanScale::Milliseconds => {},
                    TimeSpanScale::Ticks => {},
                    TimeSpanScale::MinMax => {},
                }
            }
        } else {
            let v = TimeSpanScale::spec_from_id(id).unwrap();
            assert(v.spec_id() == id);
        }
    }
}

/// The protobuf value of each date-time kind: unspecified 0, UTC 1, local 2.
///
/// An identifier names exactly the variant whose identifier it is, and
/// nothing else.
pub proof fn lemma_date_time_kind_table()
    ensures
        DateTimeKind::Unspecified.spec_id() == 0,
        DateTimeKind::Utc.spec_id() == 1,
        DateTimeKind::Local.spec_id() == 2,
        forall|id: nat, v: DateTimeKind| #![trigger DateTimeKind::spec_from_id(id), v.spec_id()] DateTimeKind::spec_from_id(id) == Some(v) <==> v.spec_id() == id,
        forall|id: nat| #[trigger] DateTimeKind::spec_from_id(id) is None <==> (forall|v: DateTimeKind| v.spec_id() != id),
{
    assert forall|id: nat, v: DateTimeKind| #![trigger DateTimeKind::spec_from_id(id), v.spec_id()] DateTimeKind::spec_from_id(id) == Some(v) <==> v.spec_id() == id by {
        match v {
            DateTimeKind::Unspecified => {},
            DateTimeKind::Utc => {},
            DateTimeKind::Local => {},
        }
    }
    assert forall|id: nat| #[trigger] DateTimeKind::spec_from_id(id) is None <==> (forall|v: DateTimeKind| v.spec_id() != id) by {
        if DateTimeKind::spec_from_id(id) is None {
            assert forall|v: DateTimeKind| v.spec_id() != id by {
                match v {
                    DateTimeKind::Unspecified => {},
                    DateTimeKind::Utc => {},
                    DateTimeKind::Local => {},
                }
            }
        } else {
            let v = DateTimeKind::spec_from_id(id).unwrap();
            assert(v.spec_id() == id);
        }
    }
}


/// Ticks are 100 nanoseconds: a second is ten million ticks, a millisecond
/// ten thousand, and each larger unit is the right multiple of the next
/// smaller one (a minute is 60 seconds, an hour 60 minutes, a day 24
/// hours), in ticks and in whole seconds alike; for the units of whole
/// seconds the ticks are the seconds times ten million.
pub proof fn lemma_tick_units(v: i64)
    ensures
        scale_ticks(v, TimeSpanScale::Ticks) == v,
        scale_ticks(v, TimeSpanScale::Milliseconds) == 10_000 * v,
        scale_ticks(v, TimeSpanScale::Seconds) == 10_000_000 * v,
        scale_ticks(v, TimeSpanScale::Minutes) == 60 * scale_ticks(v, TimeSpanScale::Seconds),
        scale_ticks(v, TimeSpanScale::Hours) == 60 * scale_ticks(v, TimeSpanScale::Minutes),
        scale_ticks(v, TimeSpanScale::Days) == 24 * scale_ticks(v, TimeSpanScale::Hours),
        scale_seconds(v, TimeSpanScale::Seconds) == v,
        scale_seconds(v, TimeSpanScale::Minutes) == 60 * scale_seconds(v, TimeSpanScale::Seconds),
        scale_seconds(v, TimeSpanScale::Hours) == 60 * scale_seconds(v, TimeSpanScale::Minutes),
        scale_seconds(v, TimeSpanScale::Days) == 24 * scale_seconds(v, TimeSpanScale::Hours),
        forall|s: TimeSpanScale|
            (s == TimeSpanScale::Days || s == TimeSpanScale::Hours || s == TimeSpanScale::Minutes || s
                == TimeSpanScale::Seconds) ==> #[trigger] scale_ticks(v, s) == scale_seconds(v, s) * 10_000_000,
{
    let x = v as int;
    assert(x * 60 * 10_000_000 == 60 * (x * 10_000_000)) by (nonlinear_arith);
    assert(x * 3600 * 10_000_000 == 60 * (x * 60 * 10_000_000)) by (nonlinear_arith);
    assert(x * 86400 * 10_000_000 == 24 * (x * 3600 * 10_000_000)) by (nonlinear_arith);
    assert(x * 3600 == 60 * (x * 60)) by (nonlinear_arith);
    assert(x * 86400 == 24 * (x * 3600)) by (nonlinear_arith);
    assert(x * 86400 * 10_000_000 == (x * 86400) * 10_000_000) by (nonlinear_arith);
    assert(x * 3600 * 10_000_000 == (x * 3600) * 10_000_000) by (nonlinear_arith);
    assert(x * 60 * 10_000_000 == (x * 60) * 10_000_000) by (nonlinear_arith);
}


/// The number that bytes make read little-endian: the first byte least
/// significant, each next one worth 256 times more.
pub open spec fn le_value(bs: Seq<u8>) -> nat
    decreases bs.len(),
{
    if bs.len() == 0 {
        0
    } else {
        bs[0] as nat + 256 * le_value(bs.drop_first())
    }
}

/// The value of the bits of bytes is their little-endian value.
proof fn lemma_bits_of_bytes_value(bs: Seq<u8>)
    ensures
        crate::bits::uint_of_bits(bits_of_bytes(bs)) == le_value(bs),
    decreases bs.len(),
{
    if bs.len() > 0 {
        lemma_bits_of_bytes_value(bs.drop_first());
        crate::bits::lemma_bits_of_bytes_append(seq![bs[0]], bs.drop_first());
        assert(seq![bs[0]] + bs.drop_first() =~= bs);
        crate::bits::lemma_bits_of_one_byte(bs[0]);
        lemma_bits_of_uint_len(bs[0] as nat, 8);
        crate::bits::lemma_uint_of_bits_append(bits_of_uint(bs[0] as nat, 8), bits_of_bytes(bs.drop_first()));
        lemma_two_pow_values();
        lemma_uint_roundtrip(bs[0] as nat, 8);
    } else {
        assert(bits_of_bytes(bs) =~= Seq::<bool>::empty());
    }
}

/// A GUID is its 16 bytes read as two little-endian 64-bit halves: the
/// first eight bytes make the first half and the last eight the second, as
/// `u64::from_le_bytes` reads them.
pub proof fn lemma_guid_byte_layout(bytes: Seq<u8>)
    requires
        bytes.len() == 16,
    ensures
        spec_guid_of_bytes(bytes) == Guid(
            le_value(bytes.subrange(0, 8)) as u64,
            le_value(bytes.subrange(8, 16)) as u64,
        ),
{
    let a = bytes.subrange(0, 8);
    let b = bytes.subrange(8, 16);
    assert(a + b =~= bytes);
    crate::bits::lemma_bits_of_bytes_append(a, b);
    lemma_bits_of_bytes_len(a);
    lemma_bits_of_bytes_len(b);
    let s = bits_of_bytes(bytes);
    assert(s.subrange(0, 64) =~= bits_of_bytes(a));
    assert(s.subrange(64, 128) =~= bits_of_bytes(b));
    lemma_bits_of_bytes_value(a);
    lemma_bits_of_bytes_value(b);
}

} // verus!
