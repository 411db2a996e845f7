//! Dates of nights: parsing `yyyy-mm-dd`, range tests and the month filter.
use vstd::prelude::*;
use vstd::utf8::encode_utf8;

verus! {

broadcast use vstd::seq_lib::group_seq_properties;

/// The byte `-`.
pub const DASH: u8 = 45;

/// The byte `0`.
pub const ZERO: u8 = 48;

pub open spec fn is_digit(b: u8) -> bool {
    ZERO <= b <= 57
}

/// The value of a run of decimal digits.
pub open spec fn digits_value(s: Seq<u8>) -> nat
    decreases s.len(),
{
    if s.len() == 0 {
        0
    } else {
        digits_value(s.drop_last()) * 10 + (s.last() - ZERO) as nat
    }
}

/// Where the run of digits that starts at `i` ends.
pub open spec fn digit_run_end(b: Seq<u8>, i: int) -> int
    decreases b.len() - i,
{
    if 0 <= i < b.len() && is_digit(b[i]) {
        digit_run_end(b, i + 1)
    } else {
        i
    }
}

/// Year, month and day of text made of exactly three non-empty runs of digits
/// joined by dashes; `None` for any other text.
pub open spec fn night_fields(b: Seq<u8>) -> Option<(nat, nat, nat)> {
    let e0 = digit_run_end(b, 0);
    let e1 = digit_run_end(b, e0 + 1);
    let e2 = digit_run_end(b, e1 + 1);
    if 0 < e0 < b.len() && b[e0] == DASH && e0 + 1 < e1 < b.len() && b[e1] == DASH && e1 + 1 < e2
        && e2 == b.len() {
        Some(
            (
                digits_value(b.subrange(0, e0)),
                digits_value(b.subrange(e0 + 1, e1)),
                digits_value(b.subrange(e1 + 1, e2)),
            ),
        )
    } else {
        None
    }
}

/// Whether the fields fit a year of 16 bits and a month and a day of 8 bits.
pub open spec fn fields_fit(f: (nat, nat, nat)) -> bool {
    f.0 <= u16::MAX && f.1 <= u8::MAX && f.2 <= u8::MAX
}

/// Decimal digits of `n`, without leading zeros.
pub open spec fn decimal(n: nat) -> Seq<u8>
    decreases n,
{
    if n < 10 {
        seq![(ZERO + n) as u8]
    } else {
        decimal(n / 10).push((ZERO + n % 10) as u8)
    }
}

/// The text `<year>-<mm>` that starts every night of a month: the year in
/// decimal, the month padded to two digits.
pub open spec fn month_prefix(month: u8, year: u16) -> Seq<u8> {
    decimal(year as nat) + seq![DASH] + (if month < 10 {
        seq![ZERO]
    } else {
        Seq::<u8>::empty()
    }) + decimal(month as nat)
}

/// Whether the UTF-8 text of a night starts with the month's prefix.
pub open spec fn in_month(night: Seq<char>, month: u8, year: u16) -> bool {
    let b = encode_utf8(night);
    let p = month_prefix(month, year);
    p.len() <= b.len() && b.subrange(0, p.len() as int) == p
}

/// The date of a night, split into its parts.
pub struct Night {
    /// Day of the month.
    pub day: u8,
    /// Month of the year.
    pub month: u8,
    /// Year.
    pub year: u16,
    /// The text the parts were read from, `yyyy-mm-dd`.
    pub date: String,
}

/// One end of an inclusive date range.
#[derive(Clone, Copy, Debug, PartialEq, Eq, Structural)]
pub struct SleepsInRangeInput {
    /// Month at this end of the range.
    pub month: u8,
    /// Year at this end of the range.
    pub year: u16,
    /// A day at this end of the range; a range whose two ends do not both give
    /// one matches any day.
    pub day: Option<u8>,
}

/// A month of a year.
#[derive(Clone, Copy, Debug, PartialEq, Eq, Structural)]
pub struct SleepsByMonthInput {
    /// Month to query.
    pub month: u8,
    /// Year the month is in.
    pub year: u16,
}

/// Reads the run of digits that starts at `start`, and its value where it is
/// at most `limit`.
fn scan_digits(b: &[u8], start: usize, limit: u32) -> (r: (usize, u32, bool))
    requires
        start <= b@.len(),
        limit <= u16::MAX,
    ensures
        r.0 == digit_run_end(b@, start as int),
        start <= r.0 <= b@.len(),
        r.2 == (digits_value(b@.subrange(start as int, r.0 as int)) <= limit),
        r.2 ==> r.1 == digits_value(b@.subrange(start as int, r.0 as int)),
{
    let mut i: usize = start;
    let mut v: u32 = 0;
    let mut fits = true;
    proof {
        assert(b@.subrange(start as int, start as int) =~= Seq::<u8>::empty());
    }
    while i < b.len() && ZERO <= b[i] && b[i] <= 57
        invariant
            start <= i <= b@.len(),
            limit <= u16::MAX,
            digit_run_end(b@, start as int) == digit_run_end(b@, i as int),
            fits ==> v == digits_value(b@.subrange(start as int, i as int)) && v <= limit,
            !fits ==> digits_value(b@.subrange(start as int, i as int)) > limit,
        decreases b@.len() - i,
    {
        let d = (b[i] - ZERO) as u32;
        proof {
            assert(b@.subrange(start as int, i + 1).drop_last() =~= b@.subrange(
                start as int,
                i as int,
            ));
        }
        if fits {
            let nv = v * 10 + d;
            if nv <= limit {
                v = nv;
            } else {
                fits = false;
            }
        }
        i = i + 1;
    }
    (i, v, fits)
}

impl Night {
    /// Reads a night written `yyyy-mm-dd`: three runs of decimal digits joined by
    /// dashes, for year, month and day. Returns `None` for any other text or where
    /// a part does not fit its field.
    pub fn from_string(night: String) -> (r: Option<Night>)
        ensures
            match night_fields(encode_utf8(night@)) {
                Some(f) => if fields_fit(f) {
                    r == Some(
                        (Night { day: f.2 as u8, month: f.1 as u8, year: f.0 as u16, date: night }),
                    )
                } else {
                    r is None
                },
                None => r is None,
            },
    {
        let b = night.as_str().as_bytes();
        let n = b.len();
        let (e0, year, year_fits) = scan_digits(b, 0, 65535);
        if e0 == 0 || e0 >= n || b[e0] != DASH {
            return None;
        }
        let (e1, month, month_fits) = scan_digits(b, e0 + 1, 255);
        if e1 == e0 + 1 || e1 >= n || b[e1] != DASH {
            return None;
        }
        let (e2, day, day_fits) = scan_digits(b, e1 + 1, 255);
        if e2 == e1 + 1 || e2 != n {
            return None;
        }
        if !(year_fits && month_fits && day_fits) {
            return None;
        }
        Some(Night { day: day as u8, month: month as u8, year: year as u16, date: night })
    }

    /// Whether the night lies in the inclusive range from `start_date` to
    /// `end_date`. Dates compare by year, then month, then day; the day counts
    /// only where both ends give one, and an end without a day takes in its
    /// whole month.
    pub fn in_date_range(&self, start_date: &SleepsInRangeInput, end_date: &SleepsInRangeInput) -> (r:
        bool)
        ensures
            r == date_in_range(self.year, self.month, self.day, *start_date, *end_date),
    {
        match (start_date.day, end_date.day) {
            (Some(s), Some(e)) => on_or_before(start_date.year, start_date.month, s, self.year, self.month, self.day)
                && on_or_before(self.year, self.month, self.day, end_date.year, end_date.month, e),
            (_, _) => month_on_or_before(start_date.year, start_date.month, self.year, self.month)
                && month_on_or_before(self.year, self.month, end_date.year, end_date.month),
        }
    }
}

/// Whether the first date comes no later than the second: by year, then
/// month, then day.
pub open spec fn date_le(y1: u16, m1: u8, d1: u8, y2: u16, m2: u8, d2: u8) -> bool {
    y1 < y2 || (y1 == y2 && (m1 < m2 || (m1 == m2 && d1 <= d2)))
}

/// Whether the first month comes no later than the second: by year, then month.
pub open spec fn month_le(y1: u16, m1: u8, y2: u16, m2: u8) -> bool {
    y1 < y2 || (y1 == y2 && m1 <= m2)
}

/// Whether a date lies in the inclusive range: compared with both ends as
/// whole dates where both give a day, and by month alone otherwise.
pub open spec fn date_in_range(
    year: u16,
    month: u8,
    day: u8,
    start: SleepsInRangeInput,
    end: SleepsInRangeInput,
) -> bool {
    match (start.day, end.day) {
        (Some(sd), Some(ed)) => date_le(start.year, start.month, sd, year, month, day) && date_le(
            year,
            month,
            day,
            end.year,
            end.month,
            ed,
        ),
        _ => month_le(start.year, start.month, year, month) && month_le(year, month, end.year, end.month),
    }
}

fn on_or_before(y1: u16, m1: u8, d1: u8, y2: u16, m2: u8, d2: u8) -> (r: bool)
    ensures
        r == date_le(y1, m1, d1, y2, m2, d2),
{
    y1 < y2 || (y1 == y2 && (m1 < m2 || (m1 == m2 && d1 <= d2)))
}

fn month_on_or_before(y1: u16, m1: u8, y2: u16, m2: u8) -> (r: bool)
    ensures
        r == month_le(y1, m1, y2, m2),
{
    y1 < y2 || (y1 == y2 && m1 <= m2)
}

/// Appends the decimal digits of `n`.
fn push_decimal(n: u16, out: &mut Vec<u8>)
    ensures
        final(out)@ == old(out)@ + decimal(n as nat),
    decreases n,
{
    if n >= 10 {
        push_decimal(n / 10, out);
    }
    out.push(ZERO + (n % 10) as u8);
    proof {
        if n >= 10 {
            assert(decimal(n as nat) == decimal((n / 10) as nat).push((ZERO + n % 10) as u8));
        }
    }
}

/// The prefix `<year>-<mm>` shared by the nights of a month.
pub fn month_prefix_bytes(month: u8, year: u16) -> (r: Vec<u8>)
    ensures
        r@ == month_prefix(month, year),
{
    let mut r: Vec<u8> = Vec::new();
    push_decimal(year, &mut r);
    r.push(DASH);
    if month < 10 {
        r.push(ZERO);
    }
    push_decimal(month as u16, &mut r);
    proof {
        let y = decimal(year as nat);
        let pad = if month < 10 {
            seq![ZERO]
        } else {
            Seq::<u8>::empty()
        };
        assert(r@ =~= y + seq![DASH] + pad + decimal(month as nat));
    }
    r
}

/// Whether the night falls in the given month: its text starts with the year,
/// a dash and the month padded to two digits, so that month 1 does not also
/// match months 10 to 12.
pub fn night_in_month(night: &str, month: u8, year: u16) -> (r: bool)
    ensures
        r == in_month(night@, month, year),
{
    let p = month_prefix_bytes(month, year);
    let b = night.as_bytes();
    if p.len() > b.len() {
        return false;
    }
    let mut i: usize = 0;
    while i < p.len()
        invariant
            p@ == month_prefix(month, year),
            b@ == encode_utf8(night@),
            p@.len() <= b@.len(),
            0 <= i <= p@.len(),
            forall|k: int| 0 <= k < i ==> b@[k] == p@[k],
        decreases p@.len() - i,
    {
        if b[i] != p[i] {
            assert(b@.subrange(0, p@.len() as int)[i as int] != p@[i as int]);
            return false;
        }
        i = i + 1;
    }
    assert(b@.subrange(0, p@.len() as int) =~= p@);
    true
}

} // verus!
