//! The moment a note was written: a calendar date and a time of day without a
//! time zone, to the nanosecond.
//!
//! A moment is modelled by the tuple of its six fields, in the order in which
//! they are compared: year, day of the year, hour, minute, second, nanosecond.
//! Tuples of integers are ordered field by field, which is the order of time.
use crate::wire::get_le;
use crate::wire::le_bytes;
use crate::wire::le_value;
use crate::wire::lemma_le_bytes_len;
use crate::wire::lemma_le_value_of_le_bytes;
use crate::wire::lemma_pow256_values;
use crate::wire::put_le;
use crate::wire::DecodeError;
use crate::wire::Parsed;
use vstd::prelude::*;

verus! {

/// The fields of a moment: year, day of the year, hour, minute, second and
/// nanosecond.
pub type TimeKey = (i32, u16, u8, u8, u8, u32);

/// The number of bytes a moment takes on the wire.
pub const TIME_FIELD_LEN: usize = 13;

/// Whether `year` of the proleptic Gregorian calendar has 366 days.
pub open spec fn is_leap_year(year: int) -> bool {
    year % 4 == 0 && (year % 100 != 0 || year % 400 == 0)
}

/// The number of days of `year`.
pub open spec fn days_in_year(year: int) -> int {
    if is_leap_year(year) {
        366
    } else {
        365
    }
}

/// Whether the six fields name a moment: a year from -9999 to 9999, a day that
/// the year has, and a time of day.
pub open spec fn valid_time_key(key: TimeKey) -> bool {
    &&& -9999 <= key.0 <= 9999
    &&& 1 <= key.1 <= days_in_year(key.0 as int)
    &&& key.2 < 24
    &&& key.3 < 60
    &&& key.4 < 60
    &&& key.5 < 1_000_000_000
}

/// Whether `a` is a moment before `b`.
pub open spec fn earlier(a: TimeKey, b: TimeKey) -> bool {
    a.0 < b.0 || (a.0 == b.0 && (a.1 < b.1 || (a.1 == b.1 && (a.2 < b.2 || (a.2 == b.2 && (a.3
        < b.3 || (a.3 == b.3 && (a.4 < b.4 || (a.4 == b.4 && a.5 < b.5)))))))))
}

/// A signed year as the unsigned number with the same 32 bits.
pub open spec fn year_bits(year: i32) -> nat {
    if year >= 0 {
        year as nat
    } else {
        (0x1_0000_0000 + year) as nat
    }
}

/// The signed year with the 32 bits of `bits`.
pub open spec fn year_of_bits(bits: nat) -> int {
    if bits < 0x8000_0000 {
        bits as int
    } else {
        bits - 0x1_0000_0000
    }
}

/// A moment on the wire: the year in four bytes, the day in two, one byte each
/// for hour, minute and second, and the nanosecond in four; thirteen in all.
pub open spec fn time_field(key: TimeKey) -> Seq<u8> {
    le_bytes(year_bits(key.0), 4) + le_bytes(key.1 as nat, 2) + seq![key.2, key.3, key.4]
        + le_bytes(key.5 as nat, 4)
}

/// The fields that the first thirteen bytes spell, whether or not they name a
/// moment.
pub open spec fn time_key_at_front(bytes: Seq<u8>) -> TimeKey {
    (
        year_of_bits(le_value(bytes.subrange(0, 4))) as i32,
        le_value(bytes.subrange(4, 6)) as u16,
        bytes[6],
        bytes[7],
        bytes[8],
        le_value(bytes.subrange(9, 13)) as u32,
    )
}

/// The moment at the front of `bytes`.
pub open spec fn parse_time_field(bytes: Seq<u8>) -> Parsed<TimeKey> {
    if bytes.len() < 13 {
        Err(DecodeError::Truncated)
    } else if valid_time_key(time_key_at_front(bytes)) {
        Ok((time_key_at_front(bytes), bytes.skip(13)))
    } else {
        Err(DecodeError::InvalidTimestamp)
    }
}

/// The order of moments is strict and total: no moment is before itself, what
/// is before something that is before a third is before the third, and of two
/// different moments exactly one is before the other.
pub proof fn lemma_earlier_is_a_strict_total_order(a: TimeKey, b: TimeKey, c: TimeKey)
    ensures
        !earlier(a, a),
        earlier(a, b) && earlier(b, c) ==> earlier(a, c),
        earlier(a, b) || earlier(b, a) || a == b,
        !(earlier(a, b) && earlier(b, a)),
{
}

/// The fields of a moment are read back from the front of whatever they were
/// written before.
pub proof fn lemma_time_key_round_trip(key: TimeKey, tail: Seq<u8>)
    ensures
        time_key_at_front(time_field(key) + tail) == key,
        (time_field(key) + tail).len() >= 13,
        (time_field(key) + tail).skip(13) == tail,
{
    let bytes = time_field(key) + tail;
    lemma_pow256_values();
    lemma_le_bytes_len(year_bits(key.0), 4);
    lemma_le_bytes_len(key.1 as nat, 2);
    lemma_le_bytes_len(key.5 as nat, 4);
    lemma_le_value_of_le_bytes(year_bits(key.0), 4);
    lemma_le_value_of_le_bytes(key.1 as nat, 2);
    lemma_le_value_of_le_bytes(key.5 as nat, 4);
    assert(bytes.subrange(0, 4) =~= le_bytes(year_bits(key.0), 4));
    assert(bytes.subrange(4, 6) =~= le_bytes(key.1 as nat, 2));
    assert(bytes.subrange(9, 13) =~= le_bytes(key.5 as nat, 4));
    assert(bytes[6] == key.2);
    assert(bytes[7] == key.3);
    assert(bytes[8] == key.4);
    assert(bytes.skip(13) =~= tail);
}

/// A moment is read back from the front of whatever it was written before.
pub proof fn lemma_time_field_round_trip(key: TimeKey, tail: Seq<u8>)
    requires
        valid_time_key(key),
    ensures
        parse_time_field(time_field(key) + tail) == Ok::<(TimeKey, Seq<u8>), DecodeError>(
            (key, tail),
        ),
{
    lemma_time_key_round_trip(key, tail);
}

/// A moment of the calendar. Every value of this type names one: the fields
/// are private and each constructor checks them.
#[derive(Clone, Copy, Debug, PartialEq, Eq, Structural, PartialOrd, Ord, Hash)]
pub struct Timestamp {
    year: i32,
    ordinal: u16,
    hour: u8,
    minute: u8,
    second: u8,
    nanosecond: u32,
}

impl View for Timestamp {
    type V = TimeKey;

    closed spec fn view(&self) -> TimeKey {
        (self.year, self.ordinal, self.hour, self.minute, self.second, self.nanosecond)
    }
}

/// Whether `year`, which lies between -9999 and 9999, has 366 days.
fn leap_year(year: i32) -> (leap: bool)
    requires
        -9999 <= year <= 9999,
    ensures
        leap == is_leap_year(year as int),
{
    let shifted: u32 = (year + 10000) as u32;
    shifted % 4 == 0 && (shifted % 100 != 0 || shifted % 400 == 0)
}

/// Whether the six fields name a moment.
pub fn is_valid_time_key(key: TimeKey) -> (valid: bool)
    ensures
        valid == valid_time_key(key),
{
    if key.0 < -9999 || key.0 > 9999 {
        return false;
    }
    let days: u16 = if leap_year(key.0) {
        366
    } else {
        365
    };
    1 <= key.1 && key.1 <= days && key.2 < 24 && key.3 < 60 && key.4 < 60 && key.5 < 1_000_000_000
}

impl Timestamp {
    #[verifier::type_invariant]
    spec fn names_a_moment(self) -> bool {
        valid_time_key(self@)
    }

    /// The moment with these fields, where they name one.
    pub fn new(year: i32, ordinal: u16, hour: u8, minute: u8, second: u8, nanosecond: u32) -> (r:
        Option<Timestamp>)
        ensures
            r is Some <==> valid_time_key((year, ordinal, hour, minute, second, nanosecond)),
            r matches Some(t) ==> t@ == (year, ordinal, hour, minute, second, nanosecond),
    {
        Timestamp::from_key((year, ordinal, hour, minute, second, nanosecond))
    }

    /// The moment whose fields are `key`, where they name one.
    pub fn from_key(key: TimeKey) -> (r: Option<Timestamp>)
        ensures
            r is Some <==> valid_time_key(key),
            r matches Some(t) ==> t@ == key,
    {
        if is_valid_time_key(key) {
            Some(
                Timestamp {
                    year: key.0,
                    ordinal: key.1,
                    hour: key.2,
                    minute: key.3,
                    second: key.4,
                    nanosecond: key.5,
                },
            )
        } else {
            None
        }
    }

    /// The six fields, which name a moment.
    pub fn key(&self) -> (key: TimeKey)
        ensures
            key == self@,
            valid_time_key(key),
    {
        proof {
            use_type_invariant(self);
        }
        (self.year, self.ordinal, self.hour, self.minute, self.second, self.nanosecond)
    }

    pub fn year(&self) -> (year: i32)
        ensures
            year == self@.0,
    {
        self.year
    }

    /// The day of the year, from 1.
    pub fn ordinal(&self) -> (ordinal: u16)
        ensures
            ordinal == self@.1,
    {
        self.ordinal
    }

    pub fn hour(&self) -> (hour: u8)
        ensures
            hour == self@.2,
    {
        self.hour
    }

    pub fn minute(&self) -> (minute: u8)
        ensures
            minute == self@.3,
    {
        self.minute
    }

    pub fn second(&self) -> (second: u8)
        ensures
            second == self@.4,
    {
        self.second
    }

    pub fn nanosecond(&self) -> (nanosecond: u32)
        ensures
            nanosecond == self@.5,
    {
        self.nanosecond
    }

    /// Whether this is the moment `other`.
    pub fn same_as(&self, other: &Timestamp) -> (same: bool)
        ensures
            same == (self@ == other@),
    {
        self.year == other.year && self.ordinal == other.ordinal && self.hour == other.hour
            && self.minute == other.minute && self.second == other.second && self.nanosecond
            == other.nanosecond
    }

    /// Whether this moment is before `other`.
    pub fn is_before(&self, other: &Timestamp) -> (before: bool)
        ensures
            before == earlier(self@, other@),
    {
        let a = self.key();
        let b = other.key();
        a.0 < b.0 || (a.0 == b.0 && (a.1 < b.1 || (a.1 == b.1 && (a.2 < b.2 || (a.2 == b.2 && (a.3
            < b.3 || (a.3 == b.3 && (a.4 < b.4 || (a.4 == b.4 && a.5 < b.5)))))))))
    }
}

/// Appends the thirteen bytes of `moment` to `out`.
pub(crate) fn put_time_field(out: &mut Vec<u8>, moment: &Timestamp)
    ensures
        final(out)@ == old(out)@ + time_field(moment@),
{
    let key = moment.key();
    let bits: u32 = if key.0 >= 0 {
        key.0 as u32
    } else {
        u32::MAX - ((-(key.0 + 1)) as u32)
    };
    put_le(out, bits as u64, 4);
    put_le(out, key.1 as u64, 2);
    out.push(key.2);
    out.push(key.3);
    out.push(key.4);
    put_le(out, key.5 as u64, 4);
    assert(out@ =~= old(out)@ + time_field(key));
}

/// Reads the moment that starts at `at`, and where the next field starts.
pub(crate) fn get_time_field(bytes: &[u8], at: usize) -> (r: Result<(Timestamp, usize), DecodeError>)
    requires
        at <= bytes@.len(),
    ensures
        match r {
            Ok((moment, next)) => at <= next <= bytes@.len() && parse_time_field(
                bytes@.skip(at as int),
            ) == Ok::<(TimeKey, Seq<u8>), DecodeError>((moment@, bytes@.skip(next as int))),
            Err(e) => parse_time_field(bytes@.skip(at as int)) == Err::<
                (TimeKey, Seq<u8>),
                DecodeError,
            >(e),
        },
{
    let ghost input = bytes@.skip(at as int);
    if bytes.len() - at < TIME_FIELD_LEN {
        return Err(DecodeError::Truncated);
    }
    let bits: u64 = get_le(bytes, at, 4);
    let ordinal: u64 = get_le(bytes, at + 4, 2);
    let nanosecond: u64 = get_le(bytes, at + 9, 4);
    proof {
        lemma_pow256_values();
        crate::wire::lemma_le_value_bound(bytes@.subrange(at as int, at + 4));
        crate::wire::lemma_le_value_bound(bytes@.subrange(at + 4, at + 6));
        crate::wire::lemma_le_value_bound(bytes@.subrange(at + 9, at + 13));
        assert(bytes@.subrange(at as int, at + 4) =~= input.subrange(0, 4));
        assert(bytes@.subrange(at + 4, at + 6) =~= input.subrange(4, 6));
        assert(bytes@.subrange(at + 9, at + 13) =~= input.subrange(9, 13));
    }
    let year: i32 = if bits < 0x8000_0000 {
        bits as i32
    } else {
        -((0xFFFF_FFFF - bits) as i32) - 1
    };
    let key: TimeKey = (
        year,
        ordinal as u16,
        bytes[at + 6],
        bytes[at + 7],
        bytes[at + 8],
        nanosecond as u32,
    );
    assert(key == time_key_at_front(input));
    match Timestamp::from_key(key) {
        Some(moment) => {
            assert(bytes@.skip(at + 13) =~= input.skip(13));
            Ok((moment, at + TIME_FIELD_LEN))
        },
        None => Err(DecodeError::InvalidTimestamp),
    }
}

} // verus!
