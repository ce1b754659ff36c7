//! Frozen UTC timestamps of decomposition runs: `YYYY-MM-DDThh:mm:ss[.fraction]Z` with a real
//! calendar date, hours to 23, minutes to 59 and seconds to 60 (a leap second).
use vstd::prelude::*;
use crate::archive_policy::DecompositionError;

verus! {

/// An ASCII decimal digit.
pub open spec fn digit_byte(c: u8) -> bool {
    48 <= c <= 57
}

/// The decimal value of a digit string.
pub open spec fn digits_value(s: Seq<u8>) -> int
    decreases s.len(),
{
    if s.len() == 0 {
        0
    } else {
        digits_value(s.drop_last()) * 10 + (s.last() - 48)
    }
}

/// The value of a non-empty all-digit field, if it is one.
pub open spec fn decimal_field(s: Seq<u8>) -> Option<int> {
    if s.len() > 0 && forall|i: int| 0 <= i < s.len() ==> digit_byte(#[trigger] s[i]) {
        Some(digits_value(s))
    } else {
        None
    }
}

/// Days in a month of the proleptic Gregorian calendar; zero for a month outside 1..=12.
pub open spec fn days_in_month_spec(year: int, month: int) -> int {
    if month == 1 || month == 3 || month == 5 || month == 7 || month == 8 || month == 10 || month == 12 {
        31
    } else if month == 4 || month == 6 || month == 9 || month == 11 {
        30
    } else if month == 2 && year % 4 == 0 && (year % 100 != 0 || year % 400 == 0) {
        29
    } else if month == 2 {
        28
    } else {
        0
    }
}

/// Days in a month of the proleptic Gregorian calendar; zero for a month outside 1..=12.
pub fn days_in_month(year: u32, month: u32) -> (r: u32)
    ensures
        r == days_in_month_spec(year as int, month as int),
{
    match month {
        1 | 3 | 5 | 7 | 8 | 10 | 12 => 31,
        4 | 6 | 9 | 11 => 30,
        2 => if year % 4 == 0 && (year % 100 != 0 || year % 400 == 0) {
            29
        } else {
            28
        },
        _ => 0,
    }
}

/// Index of the first `T` or `t` in `s`.
pub open spec fn first_separator(s: Seq<u8>) -> Option<int>
    decreases s.len(),
{
    if s.len() == 0 {
        None
    } else if s[0] == 84 || s[0] == 116 {
        Some(0)
    } else {
        match first_separator(s.drop_first()) {
            Some(i) => Some(i + 1),
            None => None,
        }
    }
}

/// The part of `s` before its first `.`.
pub open spec fn before_dot(s: Seq<u8>) -> Seq<u8>
    decreases s.len(),
{
    if s.len() == 0 {
        s
    } else if s[0] == 46 {
        Seq::empty()
    } else {
        seq![s[0]] + before_dot(s.drop_first())
    }
}

/// The calendar and clock fields of a date and a whole-second clock are in range.
pub open spec fn fields_ok(date: Seq<u8>, clock: Seq<u8>) -> bool {
    match (
        decimal_field(date.subrange(0, 4)),
        decimal_field(date.subrange(5, 7)),
        decimal_field(date.subrange(8, 10)),
        decimal_field(clock.subrange(0, 2)),
        decimal_field(clock.subrange(3, 5)),
        decimal_field(clock.subrange(6, 8)),
    ) {
        (Some(y), Some(mo), Some(d), Some(h), Some(mi), Some(se)) => 1 <= mo <= 12 && 1 <= d <= days_in_month_spec(
            y,
            mo,
        ) && h <= 23 && mi <= 59 && se <= 60,
        _ => false,
    }
}

/// Whether the UTF-8 bytes of a text form a frozen UTC timestamp: a `Z` suffix; a date and a
/// time split at the first `T` or `t`; the date `YYYY-MM-DD`; the time at least `hh:mm:ss`
/// long, whose part before any `.` is exactly `hh:mm:ss`; and every field a valid calendar or
/// clock value.
pub open spec fn utc_timestamp_ok(b: Seq<u8>) -> bool {
    b.len() > 0 && b.last() == 90 && match first_separator(b.drop_last()) {
        None => false,
        Some(sep) => {
            let w = b.drop_last();
            let date = w.subrange(0, sep);
            let time = w.subrange(sep + 1, w.len() as int);
            let clock = before_dot(time);
            &&& date.len() == 10
            &&& date[4] == 45
            &&& date[7] == 45
            &&& time.len() >= 8
            &&& time[2] == 58
            &&& time[5] == 58
            &&& clock.len() == 8
            &&& fields_ok(date, clock)
        },
    }
}

/// Ten to the power `n`.
pub open spec fn pow10(n: nat) -> int
    decreases n,
{
    if n == 0 {
        1
    } else {
        10 * pow10((n - 1) as nat)
    }
}

proof fn lemma_digits_bound(s: Seq<u8>)
    requires
        forall|i: int| 0 <= i < s.len() ==> digit_byte(#[trigger] s[i]),
    ensures
        0 <= digits_value(s) < pow10(s.len()),
    decreases s.len(),
{
    if s.len() > 0 {
        assert forall|i: int| 0 <= i < s.drop_last().len() implies digit_byte(#[trigger] s.drop_last()[i]) by {
            assert(s.drop_last()[i] == s[i]);
        }
        lemma_digits_bound(s.drop_last());
        assert(digit_byte(s[s.len() - 1]));
    }
}

/// Parse a non-empty all-digit field of at most four digits.
fn parse_field(b: &[u8], start: usize, end: usize) -> (r: Option<u32>)
    requires
        start <= end <= b@.len(),
        end - start <= 4,
    ensures
        match decimal_field(b@.subrange(start as int, end as int)) {
            Some(v) => 0 <= v < 10000 && r == Some(v as u32),
            None => r is None,
        },
{
    let ghost s = b@.subrange(start as int, end as int);
    if start == end {
        return None;
    }
    let mut value: u32 = 0;
    let mut i: usize = start;
    while i < end
        invariant
            start <= i <= end <= b@.len(),
            end - start <= 4,
            s == b@.subrange(start as int, end as int),
            forall|k: int| 0 <= k < i - start ==> digit_byte(#[trigger] s[k]),
            value == digits_value(s.take(i - start)),
            value < 10000,
        decreases end - i,
    {
        let c = b[i];
        assert(s[i - start] == c);
        if c < 48 || c > 57 {
            assert(!digit_byte(s[i - start]));
            return None;
        }
        proof {
            assert(s.take(i - start + 1).drop_last() =~= s.take(i - start));
            assert forall|k: int| 0 <= k < s.take(i - start + 1).len() implies digit_byte(
                #[trigger] s.take(i - start + 1)[k],
            ) by {
                assert(s.take(i - start + 1)[k] == s[k]);
            }
            lemma_digits_bound(s.take(i - start + 1));
            assert(pow10(0) == 1 && pow10(1) == 10 && pow10(2) == 100 && pow10(3) == 1000 && pow10(4) == 10000);
        }
        value = value * 10 + (c - 48) as u32;
        i = i + 1;
    }
    assert(s.take(end - start) =~= s);
    Some(value)
}

fn first_separator_index(b: &[u8], n: usize) -> (r: Option<usize>)
    requires
        n <= b@.len(),
    ensures
        match first_separator(b@.take(n as int)) {
            Some(i) => 0 <= i < n && r == Some(i as usize),
            None => r is None,
        },
{
    let ghost w = b@.take(n as int);
    let mut i: usize = 0;
    assert(w.skip(0) =~= w);
    while i < n
        invariant
            i <= n <= b@.len(),
            w == b@.take(n as int),
            forall|k: int| 0 <= k < i ==> w[k] != 84 && w[k] != 116,
            first_separator(w) == match first_separator(w.skip(i as int)) {
                Some(j) => Some(j + i),
                None => None::<int>,
            },
        decreases n - i,
    {
        assert(w.skip(i as int)[0] == b@[i as int]);
        if b[i] == 84 || b[i] == 116 {
            return Some(i);
        }
        assert(w.skip(i as int).drop_first() =~= w.skip(i as int + 1));
        i = i + 1;
    }
    assert(w.skip(n as int) =~= Seq::<u8>::empty());
    None
}

fn dot_index(b: &[u8], start: usize, end: usize) -> (r: usize)
    requires
        start <= end <= b@.len(),
    ensures
        start <= r <= end,
        before_dot(b@.subrange(start as int, end as int)) == b@.subrange(start as int, r as int),
{
    let ghost t = b@.subrange(start as int, end as int);
    let mut i: usize = start;
    assert(t.skip(0) =~= t);
    assert(b@.subrange(start as int, start as int) =~= Seq::<u8>::empty());
    while i < end
        invariant
            start <= i <= end <= b@.len(),
            t == b@.subrange(start as int, end as int),
            before_dot(t) == b@.subrange(start as int, i as int) + before_dot(t.skip(i - start)),
        decreases end - i,
    {
        assert(t.skip(i - start)[0] == b@[i as int]);
        if b[i] == 46 {
            assert(b@.subrange(start as int, i as int) + Seq::<u8>::empty() =~= b@.subrange(start as int, i as int));
            return i;
        }
        assert(t.skip(i - start).drop_first() =~= t.skip(i - start + 1));
        assert(b@.subrange(start as int, i as int + 1) =~= b@.subrange(start as int, i as int) + seq![b@[i as int]]);
        i = i + 1;
    }
    assert(t.skip(end - start) =~= Seq::<u8>::empty());
    assert(b@.subrange(start as int, end as int) + Seq::<u8>::empty() =~= b@.subrange(start as int, end as int));
    end
}

/// Require a frozen UTC timestamp.
pub fn require_utc_datetime(value: &str) -> (r: Result<(), DecompositionError>)
    ensures
        r is Ok <==> utc_timestamp_ok(vstd::utf8::encode_utf8(value@)),
        r matches Err(e) ==> e is InvalidTimestamp,
{
    let b = value.as_bytes();
    let ghost bs = b@;
    assert(bs == vstd::utf8::encode_utf8(value@));
    let n = b.len();
    if n == 0 || b[n - 1] != 90 {
        return Err(DecompositionError::InvalidTimestamp);
    }
    let wn = n - 1;
    let ghost w = bs.drop_last();
    assert(w =~= bs.take(wn as int));
    let sep = match first_separator_index(b, wn) {
        None => {
            return Err(DecompositionError::InvalidTimestamp);
        },
        Some(s) => s,
    };
    assert(sep < wn && w.len() == wn);
    let ghost date = w.subrange(0, sep as int);
    let ghost time = w.subrange(sep + 1, w.len() as int);
    assert forall|i: int| 0 <= i < wn implies w[i] == bs[i] by {
        assert(w[i] == bs.take(wn as int)[i]);
    }
    assert(date =~= bs.subrange(0, sep as int));
    assert(time =~= bs.subrange(sep + 1, wn as int));
    if sep != 10 || b[4] != 45 || b[7] != 45 || wn - (sep + 1) < 8 || b[sep + 3] != 58 || b[sep + 6] != 58 {
        return Err(DecompositionError::InvalidTimestamp);
    }
    let ts = sep + 1;
    let dot = dot_index(b, ts, wn);
    if dot - ts != 8 {
        return Err(DecompositionError::InvalidTimestamp);
    }
    let ghost clock = bs.subrange(ts as int, dot as int);
    assert(date.subrange(0, 4) =~= bs.subrange(0, 4));
    assert(date.subrange(5, 7) =~= bs.subrange(5, 7));
    assert(date.subrange(8, 10) =~= bs.subrange(8, 10));
    assert(clock.subrange(0, 2) =~= bs.subrange(ts as int, ts + 2));
    assert(clock.subrange(3, 5) =~= bs.subrange(ts + 3, ts + 5));
    assert(clock.subrange(6, 8) =~= bs.subrange(ts + 6, ts + 8));
    assert(before_dot(time) == clock);
    let year = parse_field(b, 0, 4);
    let month = parse_field(b, 5, 7);
    let day = parse_field(b, 8, 10);
    let hour = parse_field(b, ts, ts + 2);
    let minute = parse_field(b, ts + 3, ts + 5);
    let second = parse_field(b, ts + 6, ts + 8);
    match (year, month, day, hour, minute, second) {
        (Some(y), Some(mo), Some(d), Some(h), Some(mi), Some(se)) => {
            assert(decimal_field(date.subrange(0, 4)) == Some(y as int));
            assert(decimal_field(date.subrange(5, 7)) == Some(mo as int));
            assert(decimal_field(date.subrange(8, 10)) == Some(d as int));
            assert(decimal_field(clock.subrange(0, 2)) == Some(h as int));
            assert(decimal_field(clock.subrange(3, 5)) == Some(mi as int));
            assert(decimal_field(clock.subrange(6, 8)) == Some(se as int));
            if mo < 1 || mo > 12 || d == 0 || d > days_in_month(y, mo) || h > 23 || mi > 59 || se > 60 {
                return Err(DecompositionError::InvalidTimestamp);
            }
            Ok(())
        },
        _ => Err(DecompositionError::InvalidTimestamp),
    }
}

/// Accept a clock reading only when it is a frozen UTC timestamp, and hand it back unchanged.
pub fn checked_timestamp(value: String) -> (r: Result<String, DecompositionError>)
    ensures
        utc_timestamp_ok(vstd::utf8::encode_utf8(value@)) ==> (r matches Ok(s) && s@ == value@),
        !utc_timestamp_ok(vstd::utf8::encode_utf8(value@)) ==> (r matches Err(e) && e is InvalidTimestamp),
{
    require_utc_datetime(value.as_str())?;
    Ok(value)
}

} // verus!
