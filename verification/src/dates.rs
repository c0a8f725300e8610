//! Calendar timestamps held as plain values.
//!
//! Upstream date fields arrive as `YYYY-MM-DD` text.  The library parses
//! and validates them itself and stores the result as integer fields; a
//! blank field falls back to the epoch sentinel, as the record-mapping
//! policy documents.

use vstd::prelude::*;
use crate::errors::LoadError;
use crate::numbers::{all_digits, dec_val, is_digit};

verus! {

/// A calendar date and time of day.
#[derive(PartialEq, Eq, Structural, Clone, Copy, Debug)]
pub struct Timestamp {
    pub year: u32,
    pub month: u32,
    pub day: u32,
    pub hour: u32,
    pub minute: u32,
    pub second: u32,
}

pub open spec fn leap_year(y: int) -> bool {
    (y % 4 == 0 && y % 100 != 0) || y % 400 == 0
}

pub open spec fn days_in_month(y: int, m: int) -> int {
    if m == 2 {
        if leap_year(y) {
            29
        } else {
            28
        }
    } else if m == 4 || m == 6 || m == 9 || m == 11 {
        30
    } else {
        31
    }
}

impl Timestamp {
    /// The fields name a real calendar date and time of day.
    pub open spec fn valid(self) -> bool {
        &&& 1 <= self.month <= 12
        &&& 1 <= self.day <= days_in_month(self.year as int, self.month as int)
        &&& self.hour < 24
        &&& self.minute < 60
        &&& self.second < 60
    }

    /// Midnight at the start of the epoch.
    pub fn epoch() -> (t: Timestamp)
        ensures
            t == (Timestamp { year: 1970, month: 1, day: 1, hour: 0, minute: 0, second: 0 }),
            t.valid(),
    {
        Timestamp { year: 1970, month: 1, day: 1, hour: 0, minute: 0, second: 0 }
    }

    /// The sentinel a blank date field falls back to.
    pub fn epoch_sentinel() -> (t: Timestamp)
        ensures
            t == (Timestamp { year: 1970, month: 1, day: 1, hour: 19, minute: 0, second: 0 }),
            t.valid(),
    {
        Timestamp { year: 1970, month: 1, day: 1, hour: 19, minute: 0, second: 0 }
    }
}

/// The text has the shape `YYYY-MM-DD`.
pub open spec fn date_text_shaped(s: Seq<char>) -> bool {
    &&& s.len() == 10
    &&& all_digits(s.take(4))
    &&& s[4] == '-'
    &&& all_digits(s.subrange(5, 7))
    &&& s[7] == '-'
    &&& all_digits(s.subrange(8, 10))
}

pub open spec fn date_text_year(s: Seq<char>) -> int {
    dec_val(s.take(4)) as int
}

pub open spec fn date_text_month(s: Seq<char>) -> int {
    dec_val(s.subrange(5, 7)) as int
}

pub open spec fn date_text_day(s: Seq<char>) -> int {
    dec_val(s.subrange(8, 10)) as int
}

/// The shaped text names a real calendar date.
pub open spec fn date_text_valid(s: Seq<char>) -> bool {
    &&& date_text_shaped(s)
    &&& 1 <= date_text_month(s) <= 12
    &&& 1 <= date_text_day(s) <= days_in_month(date_text_year(s), date_text_month(s))
}

/// Reads one four- or two-digit group of the date text.
fn parse_digit_group(s: &str, from: usize, to: usize) -> (r: Option<u32>)
    requires
        from < to <= s@.len(),
        to - from <= 4,
    ensures
        r is Some <==> all_digits(s@.subrange(from as int, to as int)),
        r matches Some(v) ==> v == dec_val(s@.subrange(from as int, to as int)),
{
    let ghost g = s@.subrange(from as int, to as int);
    let mut acc: u32 = 0;
    let mut i = from;
    assert(g.take(0) =~= Seq::<char>::empty());
    while i < to
        invariant
            from <= i <= to,
            to <= s@.len(),
            to - from <= 4,
            g == s@.subrange(from as int, to as int),
            all_digits(g.take(i - from)),
            acc == dec_val(g.take(i - from)),
            acc <= 9999,
        decreases to - i,
    {
        let c = s.get_char(i);
        let cv = c as u32;
        assert(g[i - from] == s@[i as int]);
        if cv < 48 || cv > 57 {
            assert(!is_digit(g[i - from]));
            return None;
        }
        proof {
            assert(g.take(i - from + 1).drop_last() =~= g.take(i - from));
            assert(g.take(i - from + 1).last() == g[i - from]);
            crate::numbers::lemma_dec_val_bound(g.take(i - from));
            crate::numbers::lemma_pow10_le(g.take(i - from).len() as nat, 3);
            reveal_with_fuel(crate::numbers::pow10, 5);
        }
        acc = acc * 10 + (cv - 48);
        i = i + 1;
    }
    assert(g.take(to - from) =~= g);
    Some(acc)
}

/// Parses a `YYYY-MM-DD` date field into a timestamp at 19:00:00, the
/// hour of day every loaded date carries.  A blank field falls
/// back to the epoch sentinel rather than failing; malformed non-blank
/// text is a fatal field error.
pub fn parse_date_field(s: &str) -> (r: Result<Timestamp, LoadError>)
    ensures
        s@.len() == 0 ==> r == Ok::<Timestamp, LoadError>(
            Timestamp { year: 1970, month: 1, day: 1, hour: 19, minute: 0, second: 0 },
        ),
        s@.len() > 0 ==> ((r is Ok) <==> date_text_valid(s@)),
        r matches Ok(t) ==> (s@.len() > 0 ==> t == (Timestamp {
            year: date_text_year(s@) as u32,
            month: date_text_month(s@) as u32,
            day: date_text_day(s@) as u32,
            hour: 19,
            minute: 0,
            second: 0,
        })),
        r matches Ok(t) ==> t.valid(),
        r is Err ==> r == Err::<Timestamp, LoadError>(LoadError::FieldParse),
{
    let n = s.unicode_len();
    if n == 0 {
        return Ok(Timestamp::epoch_sentinel());
    }
    if n != 10 {
        return Err(LoadError::FieldParse);
    }
    if s.get_char(4) as u32 != 45 || s.get_char(7) as u32 != 45 {
        proof {
            if s@[4] == '-' && s@[7] == '-' {
                assert(s@[4] as u32 == 45 && s@[7] as u32 == 45);
            }
        }
        return Err(LoadError::FieldParse);
    }
    proof {
        vstd::utf8::char_u32_cast(s@[4], 45);
        vstd::utf8::char_u32_cast(s@[7], 45);
        assert(s@[4] == '-' && s@[7] == '-');
    }
    let y = match parse_digit_group(s, 0, 4) {
        Some(v) => v,
        None => {
            proof {
                assert(s@.subrange(0, 4) =~= s@.take(4));
            }
            return Err(LoadError::FieldParse);
        },
    };
    assert(s@.subrange(0, 4) =~= s@.take(4));
    let m = match parse_digit_group(s, 5, 7) {
        Some(v) => v,
        None => {
            return Err(LoadError::FieldParse);
        },
    };
    let d = match parse_digit_group(s, 8, 10) {
        Some(v) => v,
        None => {
            return Err(LoadError::FieldParse);
        },
    };
    if m < 1 || m > 12 {
        return Err(LoadError::FieldParse);
    }
    let dmax: u32 = if m == 2 {
        if (y % 4 == 0 && y % 100 != 0) || y % 400 == 0 {
            29
        } else {
            28
        }
    } else if m == 4 || m == 6 || m == 9 || m == 11 {
        30
    } else {
        31
    };
    assert(dmax == days_in_month(y as int, m as int));
    if d < 1 || d > dmax {
        return Err(LoadError::FieldParse);
    }
    Ok(Timestamp { year: y, month: m, day: d, hour: 19, minute: 0, second: 0 })
}

} // verus!
