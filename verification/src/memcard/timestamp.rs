use vstd::prelude::*;
use vstd::std_specs::cmp::PartialOrdSpecImpl;

use core::cmp::Ordering;

use crate::memcard::MemcardError;
use crate::reader::ByteReader;
use crate::util::{consumed, decimal, digit_char, le_u16, push_zero_padded, read_u16, read_u8, zero_padded};

verus! {

/// A date and time as the card stores it, in Japanese time.
///
/// Serialized bytes: an unused byte, then second, minute, hour, day, month
/// (one byte each) and the year (little-endian `u16`).
#[derive(Debug, Clone, Copy, PartialEq, Eq, Structural)]
pub struct Timestamp {
    pub sec: u8,
    pub min: u8,
    pub hour: u8,
    pub day: u8,
    pub mon: u8,
    pub year: u16,
}

/// The timestamp stored in the first eight bytes of `b`.
pub open spec fn parse_timestamp(b: Seq<u8>) -> Timestamp {
    Timestamp {
        sec: b[1],
        min: b[2],
        hour: b[3],
        day: b[4],
        mon: b[5],
        year: le_u16(b.subrange(6, 8)),
    }
}

/// Three-way comparison of two bytes.
pub open spec fn order_of(a: u8, b: u8) -> Ordering {
    if a < b {
        Ordering::Less
    } else if a == b {
        Ordering::Equal
    } else {
        Ordering::Greater
    }
}

/// Three-way comparison of two years.
pub open spec fn order_of_u16(a: u16, b: u16) -> Ordering {
    if a < b {
        Ordering::Less
    } else if a == b {
        Ordering::Equal
    } else {
        Ordering::Greater
    }
}

/// `first`, unless it is `Equal`, in which case `rest` decides.
pub open spec fn then_order(first: Ordering, rest: Ordering) -> Ordering {
    match first {
        Ordering::Equal => rest,
        _ => first,
    }
}

/// Chronological order: year, then month, day, hour, minute, second.
pub open spec fn chrono_cmp(a: Timestamp, b: Timestamp) -> Ordering {
    then_order(order_of_u16(a.year, b.year),
    then_order(order_of(a.mon, b.mon),
    then_order(order_of(a.day, b.day),
    then_order(order_of(a.hour, b.hour),
    then_order(order_of(a.min, b.min),
    order_of(a.sec, b.sec))))))
}

/// Field order, as a derived `PartialOrd` compares: second, then minute,
/// hour, day, month, year.
pub open spec fn field_cmp(a: Timestamp, b: Timestamp) -> Ordering {
    then_order(order_of(a.sec, b.sec),
    then_order(order_of(a.min, b.min),
    then_order(order_of(a.hour, b.hour),
    then_order(order_of(a.day, b.day),
    then_order(order_of(a.mon, b.mon),
    order_of_u16(a.year, b.year))))))
}

/// `a.max(b)` in chronological order: `b` unless `b` is earlier.
pub open spec fn later_of(a: Timestamp, b: Timestamp) -> Timestamp {
    if chrono_cmp(b, a) == Ordering::Less {
        a
    } else {
        b
    }
}

/// The reverse of an ordering.
pub open spec fn reversed(o: Ordering) -> Ordering {
    match o {
        Ordering::Less => Ordering::Greater,
        Ordering::Equal => Ordering::Equal,
        Ordering::Greater => Ordering::Less,
    }
}

/// The text `YYYY-MM-DD hh:mm:ss` for `t`.
pub open spec fn timestamp_text(t: Timestamp) -> Seq<char> {
    zero_padded(t.year as nat, 4) + seq!['-'] + zero_padded(t.mon as nat, 2) + seq!['-']
        + zero_padded(t.day as nat, 2) + seq![' '] + zero_padded(t.hour as nat, 2) + seq![':']
        + zero_padded(t.min as nat, 2) + seq![':'] + zero_padded(t.sec as nat, 2)
}

fn order_u16(a: u16, b: u16) -> (o: Ordering)
    ensures
        o == order_of_u16(a, b),
{
    if a < b {
        Ordering::Less
    } else if a == b {
        Ordering::Equal
    } else {
        Ordering::Greater
    }
}

fn order_u8(a: u8, b: u8) -> (o: Ordering)
    ensures
        o == order_of(a, b),
{
    if a < b {
        Ordering::Less
    } else if a == b {
        Ordering::Equal
    } else {
        Ordering::Greater
    }
}

fn is_equal(o: &Ordering) -> (b: bool)
    ensures
        b <==> *o == Ordering::Equal,
{
    match o {
        Ordering::Equal => true,
        _ => false,
    }
}

impl Timestamp {
    /// The all-zero timestamp.
    pub open spec fn default_value() -> Timestamp {
        Timestamp { sec: 0, min: 0, hour: 0, day: 0, mon: 0, year: 0 }
    }
}

impl Default for Timestamp {
    fn default() -> (t: Self)
        ensures
            t == Timestamp::default_value(),
    {
        Timestamp { sec: 0, min: 0, hour: 0, day: 0, mon: 0, year: 0 }
    }
}

impl Timestamp {
    /// Reads the eight bytes of a timestamp.
    pub fn read(reader: &mut ByteReader) -> (res: Result<Self, MemcardError>)
        ensures
            res is Ok <==> old(reader)@.len() >= 8,
            res matches Ok(t) ==> t == parse_timestamp(old(reader)@) && consumed(
                old(reader)@,
                final(reader)@,
                8,
            ),
            res is Err ==> res->Err_0 is Io,
    {
        let ghost b = reader@;
        let mut pad = [0u8; 1];
        reader.read_exact(&mut pad)?;
        let sec = read_u8(reader)?;
        let min = read_u8(reader)?;
        let hour = read_u8(reader)?;
        let day = read_u8(reader)?;
        let mon = read_u8(reader)?;
        let year = read_u16(reader)?;
        proof {
            assert(reader@ =~= b.skip(8));
            assert(b.subrange(6, 8)[0] == b.skip(6)[0]);
            assert(b.subrange(6, 8)[1] == b.skip(6)[1]);
        }
        Ok(Timestamp { sec, min, hour, day, mon, year })
    }

    /// Chronological comparison: year, then month, day, hour, minute, second.
    pub fn cmp(&self, other: &Self) -> (o: Ordering)
        ensures
            o == chrono_cmp(*self, *other),
    {
        let o = order_u16(self.year, other.year);
        if !is_equal(&o) {
            return o;
        }
        let o = order_u8(self.mon, other.mon);
        if !is_equal(&o) {
            return o;
        }
        let o = order_u8(self.day, other.day);
        if !is_equal(&o) {
            return o;
        }
        let o = order_u8(self.hour, other.hour);
        if !is_equal(&o) {
            return o;
        }
        let o = order_u8(self.min, other.min);
        if !is_equal(&o) {
            return o;
        }
        order_u8(self.sec, other.sec)
    }

    /// The later of two timestamps in chronological order; `other` when they
    /// are equal.
    pub fn max(self, other: Self) -> (r: Self)
        ensures
            r == later_of(self, other),
    {
        match other.cmp(&self) {
            Ordering::Less => self,
            _ => other,
        }
    }
}

impl Timestamp {
    /// The timestamp as `YYYY-MM-DD hh:mm:ss`, each field zero-padded.
    pub fn to_string(&self) -> (s: String)
        ensures
            s@ == timestamp_text(*self),
    {
        let mut s = String::new();
        push_zero_padded(&mut s, self.year as u32, 4);
        proof {
            reveal_strlit("-");
            reveal_strlit(" ");
            reveal_strlit(":");
        }
        s.append("-");
        push_zero_padded(&mut s, self.mon as u32, 2);
        s.append("-");
        push_zero_padded(&mut s, self.day as u32, 2);
        s.append(" ");
        push_zero_padded(&mut s, self.hour as u32, 2);
        s.append(":");
        push_zero_padded(&mut s, self.min as u32, 2);
        s.append(":");
        push_zero_padded(&mut s, self.sec as u32, 2);
        assert(s@ =~= timestamp_text(*self));
        s
    }
}

impl PartialOrd for Timestamp {
    fn partial_cmp(&self, other: &Self) -> (r: Option<Ordering>) {
        let o = order_u8(self.sec, other.sec);
        if !is_equal(&o) {
            return Some(o);
        }
        let o = order_u8(self.min, other.min);
        if !is_equal(&o) {
            return Some(o);
        }
        let o = order_u8(self.hour, other.hour);
        if !is_equal(&o) {
            return Some(o);
        }
        let o = order_u8(self.day, other.day);
        if !is_equal(&o) {
            return Some(o);
        }
        let o = order_u8(self.mon, other.mon);
        if !is_equal(&o) {
            return Some(o);
        }
        Some(order_u16(self.year, other.year))
    }
}

impl PartialOrdSpecImpl for Timestamp {
    open spec fn obeys_partial_cmp_spec() -> bool {
        true
    }

    open spec fn partial_cmp_spec(&self, other: &Self) -> Option<Ordering> {
        Some(field_cmp(*self, *other))
    }
}


/// Chronological order says `Equal` exactly for equal timestamps.
pub proof fn lemma_chrono_cmp_equal(a: Timestamp, b: Timestamp)
    ensures
        (chrono_cmp(a, b) == Ordering::Equal) <==> a == b,
{
}

/// Swapping the arguments reverses the chronological order.
pub proof fn lemma_chrono_cmp_antisymmetric(a: Timestamp, b: Timestamp)
    ensures
        chrono_cmp(b, a) == reversed(chrono_cmp(a, b)),
{
}

/// Chronological order is transitive.
pub proof fn lemma_chrono_cmp_transitive(a: Timestamp, b: Timestamp, c: Timestamp)
    requires
        chrono_cmp(a, b) == Ordering::Less,
        chrono_cmp(b, c) == Ordering::Less,
    ensures
        chrono_cmp(a, c) == Ordering::Less,
{
}

/// Field order (the `PartialOrd` of timestamps) is a total order too: it
/// says `Equal` exactly for equal timestamps, reverses under swapping, and is
/// transitive.
pub proof fn lemma_field_cmp_total_order(a: Timestamp, b: Timestamp, c: Timestamp)
    ensures
        (field_cmp(a, b) == Ordering::Equal) <==> a == b,
        field_cmp(b, a) == reversed(field_cmp(a, b)),
        field_cmp(a, b) == Ordering::Less && field_cmp(b, c) == Ordering::Less ==> field_cmp(a, c)
            == Ordering::Less,
{
}

/// `max` returns one of its arguments, and neither argument is
/// chronologically later than it.
pub proof fn lemma_max_is_latest(a: Timestamp, b: Timestamp)
    ensures
        ({
            let m = later_of(a, b);
            &&& (m == a || m == b)
            &&& chrono_cmp(a, m) != Ordering::Greater
            &&& chrono_cmp(b, m) != Ordering::Greater
        }),
{
}

/// `a` comes before `b` in time: the first of year, month, day, hour,
/// minute and second in which they differ is smaller in `a`.
pub open spec fn is_before(a: Timestamp, b: Timestamp) -> bool {
    ||| a.year < b.year
    ||| a.year == b.year && a.mon < b.mon
    ||| a.year == b.year && a.mon == b.mon && a.day < b.day
    ||| a.year == b.year && a.mon == b.mon && a.day == b.day && a.hour < b.hour
    ||| a.year == b.year && a.mon == b.mon && a.day == b.day && a.hour == b.hour && a.min < b.min
    ||| a.year == b.year && a.mon == b.mon && a.day == b.day && a.hour == b.hour && a.min == b.min
        && a.sec < b.sec
}

/// [`Timestamp::cmp`] orders by time: `Less` exactly when the first
/// timestamp comes before the second, `Greater` exactly when it comes
/// after, `Equal` exactly for equal timestamps; in particular, of two
/// timestamps in the same year the one in the smaller month is `Less`,
/// whatever their days and times. [`Timestamp::max`] gives the later one,
/// the second on a tie.
pub proof fn lemma_cmp_is_time_order(a: Timestamp, b: Timestamp)
    ensures
        (chrono_cmp(a, b) == Ordering::Less) <==> is_before(a, b),
        (chrono_cmp(a, b) == Ordering::Greater) <==> is_before(b, a),
        (chrono_cmp(a, b) == Ordering::Equal) <==> a == b,
        a.year == b.year && a.mon < b.mon ==> chrono_cmp(a, b) == Ordering::Less,
        later_of(a, b) == (if is_before(b, a) {
            a
        } else {
            b
        }),
{
}

/// A number below 100, zero-padded to two digits: tens, then units.
proof fn lemma_two_digits(n: nat)
    requires
        n < 100,
    ensures
        zero_padded(n, 2) == seq![digit_char(n as int / 10), digit_char(n as int % 10)],
{
    reveal_with_fuel(decimal, 3);
    if n < 10 {
        assert(zero_padded(n, 2) =~= seq![digit_char(0), digit_char(n as int)]);
    } else {
        assert(decimal(n) =~= seq![digit_char(n as int / 10), digit_char(n as int % 10)]);
    }
}

/// A number below 10000, zero-padded to four digits, most significant
/// first.
proof fn lemma_four_digits(n: nat)
    requires
        n < 10000,
    ensures
        zero_padded(n, 4) == seq![
            digit_char(n as int / 1000),
            digit_char(n as int / 100 % 10),
            digit_char(n as int / 10 % 10),
            digit_char(n as int % 10),
        ],
{
    reveal_with_fuel(decimal, 5);
    let want = seq![
        digit_char(n as int / 1000),
        digit_char(n as int / 100 % 10),
        digit_char(n as int / 10 % 10),
        digit_char(n as int % 10),
    ];
    if n < 10 {
        assert(zero_padded(n, 4) =~= want);
    } else if n < 100 {
        assert(decimal(n) =~= seq![digit_char(n as int / 10), digit_char(n as int % 10)]);
        assert(zero_padded(n, 4) =~= want);
    } else if n < 1000 {
        assert(decimal(n / 10) =~= seq![digit_char(n as int / 100), digit_char(n as int / 10 % 10)]);
        assert(decimal(n) =~= seq![
            digit_char(n as int / 100),
            digit_char(n as int / 10 % 10),
            digit_char(n as int % 10),
        ]);
        assert(zero_padded(n, 4) =~= want);
    } else {
        assert(decimal(n / 100) =~= seq![digit_char(n as int / 1000), digit_char(n as int / 100 % 10)]);
        assert(decimal(n / 10) =~= seq![
            digit_char(n as int / 1000),
            digit_char(n as int / 100 % 10),
            digit_char(n as int / 10 % 10),
        ]);
        assert(zero_padded(n, 4) =~= want);
    }
}

/// [`Timestamp::to_string`] writes year, month, day, hour, minute and
/// second, in that order, as `YYYY-MM-DD hh:mm:ss`: for a timestamp whose
/// year has at most four digits and whose other fields at most two, the
/// text is these nineteen characters.
pub proof fn lemma_timestamp_text_layout(t: Timestamp)
    requires
        t.year < 10000,
        t.mon < 100,
        t.day < 100,
        t.hour < 100,
        t.min < 100,
        t.sec < 100,
    ensures
        timestamp_text(t) == seq![
            digit_char(t.year as int / 1000),
            digit_char(t.year as int / 100 % 10),
            digit_char(t.year as int / 10 % 10),
            digit_char(t.year as int % 10),
            '-',
            digit_char(t.mon as int / 10),
            digit_char(t.mon as int % 10),
            '-',
            digit_char(t.day as int / 10),
            digit_char(t.day as int % 10),
            ' ',
            digit_char(t.hour as int / 10),
            digit_char(t.hour as int % 10),
            ':',
            digit_char(t.min as int / 10),
            digit_char(t.min as int % 10),
            ':',
            digit_char(t.sec as int / 10),
            digit_char(t.sec as int % 10),
        ],
{
    lemma_four_digits(t.year as nat);
    lemma_two_digits(t.mon as nat);
    lemma_two_digits(t.day as nat);
    lemma_two_digits(t.hour as nat);
    lemma_two_digits(t.min as nat);
    lemma_two_digits(t.sec as nat);
    assert(timestamp_text(t) =~= seq![
        digit_char(t.year as int / 1000),
        digit_char(t.year as int / 100 % 10),
        digit_char(t.year as int / 10 % 10),
        digit_char(t.year as int % 10),
        '-',
        digit_char(t.mon as int / 10),
        digit_char(t.mon as int % 10),
        '-',
        digit_char(t.day as int / 10),
        digit_char(t.day as int % 10),
        ' ',
        digit_char(t.hour as int / 10),
        digit_char(t.hour as int % 10),
        ':',
        digit_char(t.min as int / 10),
        digit_char(t.min as int % 10),
        ':',
        digit_char(t.sec as int / 10),
        digit_char(t.sec as int % 10),
    ]);
}

} // verus!
