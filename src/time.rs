//! Normalization of the three time notations to canonical minute counts.
use vstd::prelude::*;
use crate::document::DocValue;

verus! {

/// Minutes in one day.
pub const DAY_MINUTES: u32 = 1440;

/// Largest value of a single number in a time notation.
pub const MAX_FIELD: u32 = 65535;

/// A canonical minute count: from midnight for a time of day, a length for a duration.
#[derive(Clone, Copy, Debug, PartialEq, Eq, Structural)]
pub struct Time(pub u32);

/// Why a time value was rejected.
#[derive(Clone, Copy, Debug, PartialEq, Eq, Structural)]
pub enum TimeError {
    /// Neither `H:MM`, a minute count, nor a time of day.
    Unparsable,
    /// A bare minute count below zero or above the largest field value.
    OutOfRange,
    HasDate,
    HasOffset,
    NoTime,
    NotWholeMinutes,
    /// A time of day at or after 24:00.
    PastMidnight,
}

impl TimeError {
    /// The diagnostic text of the error.
    pub fn message(&self) -> (r: &'static str)
        ensures
            r@ == match *self {
                TimeError::Unparsable => "Time must be H:MM, a number of minutes or a time of day"@,
                TimeError::OutOfRange => "Number of minutes is out of range"@,
                TimeError::HasDate => "Time should not have a date"@,
                TimeError::HasOffset => "Time should not have an offset"@,
                TimeError::NoTime => "Time must contain a time"@,
                TimeError::NotWholeMinutes => "Time must contain whole minutes"@,
                TimeError::PastMidnight => "Time must be less than 24:00"@,
            },
    {
        match self {
            TimeError::Unparsable => "Time must be H:MM, a number of minutes or a time of day",
            TimeError::OutOfRange => "Number of minutes is out of range",
            TimeError::HasDate => "Time should not have a date",
            TimeError::HasOffset => "Time should not have an offset",
            TimeError::NoTime => "Time must contain a time",
            TimeError::NotWholeMinutes => "Time must contain whole minutes",
            TimeError::PastMidnight => "Time must be less than 24:00",
        }
    }
}

pub open spec fn is_digit(c: char) -> bool {
    '0' <= c <= '9'
}

/// The value of a run of decimal digits.
pub open spec fn digits_value(s: Seq<char>) -> int
    decreases s.len(),
{
    if s.len() == 0 {
        0
    } else {
        digits_value(s.drop_last()) * 10 + (s.last() as int - '0' as int)
    }
}

pub open spec fn all_digits(s: Seq<char>) -> bool {
    forall|i: int| 0 <= i < s.len() ==> is_digit(#[trigger] s[i])
}

/// An unsigned decimal number with an optional leading `+`, no larger than the largest field
/// value.
pub open spec fn number_value(s: Seq<char>) -> Option<int> {
    let d = if s.len() > 0 && s[0] == '+' { s.drop_first() } else { s };
    if d.len() > 0 && all_digits(d) && digits_value(d) <= MAX_FIELD {
        Some(digits_value(d))
    } else {
        None
    }
}

/// `k` is the position of the first `:` of `s`.
pub open spec fn first_colon(s: Seq<char>, k: int) -> bool {
    &&& 0 <= k < s.len()
    &&& s[k] == ':'
    &&& forall|j: int| 0 <= j < k ==> s[j] != ':'
}

/// The minute count that a textual notation stands for: `H:MM` or a bare number.
pub open spec fn text_minutes(s: Seq<char>) -> Result<int, TimeError> {
    if exists|k: int| first_colon(s, k) {
        let k = choose|k: int| first_colon(s, k);
        match (number_value(s.subrange(0, k)), number_value(s.subrange(k + 1, s.len() as int))) {
            (Some(h), Some(m)) => Ok(h * 60 + m),
            _ => Err(TimeError::Unparsable),
        }
    } else {
        match number_value(s) {
            Some(v) => Ok(v),
            None => Err(TimeError::Unparsable),
        }
    }
}

/// The minute count that a value stands for as a duration.
pub open spec fn duration_value(v: DocValue) -> Result<int, TimeError> {
    match v {
        DocValue::Str(s) => text_minutes(s@),
        DocValue::Int(i) => if 0 <= i <= MAX_FIELD {
            Ok(i as int)
        } else {
            Err(TimeError::OutOfRange)
        },
        DocValue::Datetime(dt) => if dt.date is Some {
            Err(TimeError::HasDate)
        } else if dt.has_offset {
            Err(TimeError::HasOffset)
        } else {
            match dt.time {
                None => Err(TimeError::NoTime),
                Some(t) => if t.second != 0 || t.nanosecond != 0 {
                    Err(TimeError::NotWholeMinutes)
                } else {
                    Ok(t.hour * 60 + t.minute)
                },
            }
        },
        _ => Err(TimeError::Unparsable),
    }
}

/// The minute count that a value stands for as a time of day: a duration from midnight that
/// stays within the day.
pub open spec fn time_of_day_value(v: DocValue) -> Result<int, TimeError> {
    match duration_value(v) {
        Ok(m) => if m < DAY_MINUTES {
            Ok(m)
        } else {
            Err(TimeError::PastMidnight)
        },
        Err(e) => Err(e),
    }
}

proof fn lemma_digits_grow(s: Seq<char>, i: int, j: int)
    requires
        0 <= i <= j <= s.len(),
        all_digits(s),
    ensures
        digits_value(s.subrange(0, j)) >= digits_value(s.subrange(0, i)),
        j > i ==> digits_value(s.subrange(0, j)) >= digits_value(s.subrange(0, i + 1)),
        digits_value(s.subrange(0, i)) >= 0,
    decreases j,
{
    if i > 0 {
        lemma_digits_grow(s, i - 1, i - 1);
        assert(s.subrange(0, i).drop_last() =~= s.subrange(0, i - 1));
    }
    if j > i {
        lemma_digits_grow(s, i, j - 1);
        assert(s.subrange(0, j).drop_last() =~= s.subrange(0, j - 1));
        assert(is_digit(s[j - 1]));
    }
}

/// Reads the number written in `s` between positions `lo` and `hi`.
fn read_number(s: &str, lo: usize, hi: usize) -> (r: Option<u32>)
    requires
        lo <= hi <= s@.len(),
    ensures
        r matches Some(v) ==> number_value(s@.subrange(lo as int, hi as int)) == Some(v as int),
        r is None ==> number_value(s@.subrange(lo as int, hi as int)) is None,
{
    let ghost t = s@.subrange(lo as int, hi as int);
    let mut start: usize = lo;
    if lo < hi && s.get_char(lo) == '+' {
        start = lo + 1;
    }
    let ghost d = s@.subrange(start as int, hi as int);
    assert(d =~= (if t.len() > 0 && t[0] == '+' { t.drop_first() } else { t }));
    if start >= hi {
        return None;
    }
    let mut acc: u32 = 0;
    let mut i: usize = start;
    while i < hi
        invariant
            start <= i <= hi <= s@.len(),
            t == s@.subrange(lo as int, hi as int),
            d == s@.subrange(start as int, hi as int),
            d == (if t.len() > 0 && t[0] == '+' { t.drop_first() } else { t }),
            d.len() > 0,
            forall|j: int| 0 <= j < i - start ==> is_digit(#[trigger] d[j]),
            acc as int == digits_value(d.subrange(0, i - start)),
            acc <= MAX_FIELD,
        decreases hi - i,
    {
        let c = s.get_char(i);
        if !('0' <= c && c <= '9') {
            assert(!is_digit(d[i - start]));
            return None;
        }
        let ghost k = i - start;
        assert(d.subrange(0, k + 1).drop_last() =~= d.subrange(0, k));
        assert(d[k] == c);
        let next: u32 = acc * 10 + (c as u32 - '0' as u32);
        if next > MAX_FIELD {
            proof {
                if all_digits(d) {
                    lemma_digits_grow(d, k + 1, d.len() as int);
                    assert(d.subrange(0, d.len() as int) =~= d);
                }
            }
            return None;
        }
        acc = next;
        i = i + 1;
    }
    assert(d.subrange(0, d.len() as int) =~= d);
    Some(acc)
}

/// Normalizes a value to a duration in minutes.
pub fn duration_minutes(v: &DocValue) -> (r: Result<Time, TimeError>)
    ensures
        match duration_value(*v) {
            Ok(m) => r == Ok::<Time, TimeError>(Time(m as u32)),
            Err(e) => r == Err::<Time, TimeError>(e),
        },
        r matches Ok(t) ==> duration_value(*v) == Ok::<int, TimeError>(t.0 as int),
{
    match v {
        DocValue::Str(st) => {
            let s = st.as_str();
            let n = s.unicode_len();
            let mut k: usize = 0;
            while k < n && s.get_char(k) != ':'
                invariant
                    n == s@.len(),
                    k <= n,
                    forall|j: int| 0 <= j < k ==> s@[j] != ':',
                decreases n - k,
            {
                k = k + 1;
            }
            if k < n {
                assert(first_colon(s@, k as int));
                assert forall|k2: int| first_colon(s@, k2) implies k2 == k by {
                    if k2 < k {
                        assert(s@[k2] != ':');
                    } else if k2 > k {
                        assert(s@[k as int] != ':');
                    }
                }
                let h = read_number(s, 0, k);
                let m = read_number(s, k + 1, n);
                match (h, m) {
                    (Some(h), Some(m)) => Ok(Time(h * 60 + m)),
                    _ => Err(TimeError::Unparsable),
                }
            } else {
                assert(s@.subrange(0, n as int) =~= s@);
                match read_number(s, 0, n) {
                    Some(v) => Ok(Time(v)),
                    None => Err(TimeError::Unparsable),
                }
            }
        },
        DocValue::Int(i) => {
            if 0 <= *i && *i <= MAX_FIELD as i64 {
                Ok(Time(*i as u32))
            } else {
                Err(TimeError::OutOfRange)
            }
        },
        DocValue::Datetime(dt) => {
            if dt.date.is_some() {
                Err(TimeError::HasDate)
            } else if dt.has_offset {
                Err(TimeError::HasOffset)
            } else {
                match dt.time {
                    None => Err(TimeError::NoTime),
                    Some(t) => {
                        if t.second != 0 || t.nanosecond != 0 {
                            Err(TimeError::NotWholeMinutes)
                        } else {
                            Ok(Time(t.hour as u32 * 60 + t.minute as u32))
                        }
                    },
                }
            }
        },
        _ => Err(TimeError::Unparsable),
    }
}

/// Normalizes a value to a time of day in minutes from midnight.
pub fn time_of_day_minutes(v: &DocValue) -> (r: Result<Time, TimeError>)
    ensures
        match time_of_day_value(*v) {
            Ok(m) => r == Ok::<Time, TimeError>(Time(m as u32)),
            Err(e) => r == Err::<Time, TimeError>(e),
        },
        r matches Ok(t) ==> t.0 < DAY_MINUTES,
        r matches Ok(t) ==> time_of_day_value(*v) == Ok::<int, TimeError>(t.0 as int),
{
    match duration_minutes(v) {
        Ok(t) => {
            if t.0 < DAY_MINUTES {
                Ok(t)
            } else {
                Err(TimeError::PastMidnight)
            }
        },
        Err(e) => Err(e),
    }
}

} // verus!
