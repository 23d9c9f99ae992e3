//! Pieces of the JSONL diagnostics log that decide rather than write: the
//! UTC wall-clock timestamp format, the rotation order of numbered backups,
//! and when a write rotates, flushes and syncs the active file.
use vstd::prelude::*;
use vstd::string::StringExecFns;
use crate::text::{push_decimal, push_padded_decimal};

verus! {

/// Active file size at which the next write rotates first.
pub const MAX_FILE_BYTES: u64 = 10485760;
/// Numbered backups kept (`.1` to `.4`), five files in all.
pub const MAX_ROTATIONS: u32 = 4;
/// Buffered records are flushed at least this often.
pub const FLUSH_EVERY: u32 = 32;

// ---------------------------------------------------------------------------
// Calendar
// ---------------------------------------------------------------------------

/// Proleptic Gregorian leap year.
pub open spec fn is_leap(y: int) -> bool {
    (y % 4 == 0 && y % 100 != 0) || y % 400 == 0
}

/// Days in month `m` (1 to 12) of year `y`.
pub open spec fn month_len(y: int, m: int) -> int {
    if m == 2 {
        if is_leap(y) { 29 } else { 28 }
    } else if m == 4 || m == 6 || m == 9 || m == 11 {
        30
    } else {
        31
    }
}

/// Civil date `(year, month, day)` of the day `z` days after 1970-01-01,
/// computed over eras of 400 years (146097 days) counted from 0000-03-01,
/// with years running March to February inside each era.
pub open spec fn civil_of(z: int) -> (int, int, int) {
    let zz = z + 719468;
    let era = zz / 146097;
    let doe = zz - era * 146097;
    let yoe = (doe - doe / 1460 + doe / 36524 - doe / 146096) / 365;
    let doy = doe - (365 * yoe + yoe / 4 - yoe / 100);
    let mp = (5 * doy + 2) / 153;
    let d = doy - (153 * mp + 2) / 5 + 1;
    let m = if mp < 10 { mp + 3 } else { mp - 9 };
    let y = yoe + era * 400 + if m <= 2 { 1int } else { 0int };
    (y, m, d)
}

/// Day index within the era and year-of-era ranges used by [`civil_of`].
proof fn lemma_civil_ranges(z: int)
    ensures
        1 <= civil_of(z).1 <= 12,
        1 <= civil_of(z).2 <= 31,
{
    let zz = z + 719468;
    let era = zz / 146097;
    let doe = zz - era * 146097;
    assert(0 <= doe < 146097);
    let a = doe / 1460;
    let b = doe / 36524;
    let c = doe / 146096;
    assert(0 <= a <= 100) by (nonlinear_arith) requires 0 <= doe < 146097, a == doe / 1460;
    assert(0 <= b <= 4) by (nonlinear_arith) requires 0 <= doe < 146097, b == doe / 36524;
    assert(0 <= c <= 1) by (nonlinear_arith) requires 0 <= doe < 146097, c == doe / 146096;
    let yoe = (doe - a + b - c) / 365;
    let doy = doe - (365 * yoe + yoe / 4 - yoe / 100);
    lemma_doy_range(doe);
    let mp = (5 * doy + 2) / 153;
    assert(0 <= mp <= 11) by (nonlinear_arith) requires 0 <= doy <= 365, mp == (5 * doy + 2) / 153;
    let d = doy - (153 * mp + 2) / 5 + 1;
    assert(1 <= d <= 31) by (nonlinear_arith)
        requires 0 <= doy <= 365, mp == (5 * doy + 2) / 153, d == doy - (153 * mp + 2) / 5 + 1;
}

/// The day of the (March-based) year lies in `0..=365`.
proof fn lemma_doy_range(doe: int)
    requires
        0 <= doe < 146097,
    ensures
        ({
            let yoe = (doe - doe / 1460 + doe / 36524 - doe / 146096) / 365;
            let doy = doe - (365 * yoe + yoe / 4 - yoe / 100);
            0 <= yoe <= 399 && 0 <= doy <= 365
        }),
{
    let a = doe / 1460;
    let b = doe / 36524;
    let c = doe / 146096;
    let n = doe - a + b - c;
    let yoe = n / 365;
    // Within each 4-year block of 1461 days the count of removed leap days
    // keeps every year at 365 days, except that the last day of a leap
    // year lands on day 365.
    assert(0 <= yoe <= 399) by (nonlinear_arith)
        requires 0 <= doe < 146097, a == doe / 1460, b == doe / 36524, c == doe / 146096,
            n == doe - a + b - c, yoe == n / 365;
    let doy = doe - (365 * yoe + yoe / 4 - yoe / 100);
    assert(0 <= doy <= 365) by (nonlinear_arith)
        requires 0 <= doe < 146097, a == doe / 1460, b == doe / 36524, c == doe / 146096,
            n == doe - a + b - c, yoe == n / 365, doy == doe - (365 * yoe + yoe / 4 - yoe / 100);
}

/// Year of the era (March-based) of day-of-era `doe`.
pub open spec fn yoe_of(doe: int) -> int {
    (doe - doe / 1460 + doe / 36524 - doe / 146096) / 365
}

/// First day-of-era of year-of-era `y`.
pub open spec fn year_start(y: int) -> int {
    365 * y + y / 4 - y / 100
}

/// Length of the March-based year `y` of an era: it holds the February of
/// civil year `y + 1`.
pub open spec fn era_year_len(y: int) -> int {
    if (y + 1) % 4 == 0 && ((y + 1) % 100 != 0 || (y + 1) % 400 == 0) { 366 } else { 365 }
}

#[verifier::rlimit(50)]
proof fn lemma_year_step(doe: int)
    requires
        0 <= doe < 146096,
    ensures
        ({
            let y0 = yoe_of(doe);
            let y1 = yoe_of(doe + 1);
            let d0 = doe - year_start(y0);
            let d1 = doe + 1 - year_start(y1);
            ||| (y1 == y0 && d1 == d0 + 1 && d1 < era_year_len(y0))
            ||| (y1 == y0 + 1 && d1 == 0 && d0 == era_year_len(y0) - 1)
        }),
{
}

/// Month and day of day-of-year `doy` of a March-based year.
pub open spec fn month_day_of(doy: int) -> (int, int) {
    let mp = (5 * doy + 2) / 153;
    let d = doy - (153 * mp + 2) / 5 + 1;
    let m = if mp < 10 { mp + 3 } else { mp - 9 };
    (m, d)
}

/// Days in month `m` of a March-based year, `long` when its February has
/// 29 days.
pub open spec fn era_month_len(m: int, long: bool) -> int {
    if m == 2 {
        if long { 29 } else { 28 }
    } else if m == 4 || m == 6 || m == 9 || m == 11 {
        30
    } else {
        31
    }
}

#[verifier::rlimit(50)]
proof fn lemma_year_bounds(doe: int)
    requires
        0 <= doe < 146097,
    ensures
        0 <= yoe_of(doe) <= 399,
        0 <= doe - year_start(yoe_of(doe)) < era_year_len(yoe_of(doe)),
{
}

#[verifier::rlimit(50)]
proof fn lemma_month_step(doy: int, long: bool)
    requires
        0 <= doy,
        doy + 1 < (if long { 366int } else { 365int }),
    ensures
        ({
            let (m, d) = month_day_of(doy);
            let (m1, d1) = month_day_of(doy + 1);
            &&& 1 <= d <= era_month_len(m, long)
            &&& d < era_month_len(m, long) ==> m1 == m && d1 == d + 1
            &&& d == era_month_len(m, long) ==> d1 == 1 && m1 == (if m == 12 { 1int } else { m + 1 })
        }),
{
}

proof fn lemma_month_ends()
    ensures
        month_day_of(0) == (3int, 1int),
        month_day_of(364) == (2int, 28int),
        month_day_of(365) == (2int, 29int),
{
}

/// The day after civil date `c = (year, month, day)` in the proleptic
/// Gregorian calendar.
pub open spec fn next_day(c: (int, int, int)) -> (int, int, int) {
    if c.2 < month_len(c.0, c.1) {
        (c.0, c.1, c.2 + 1)
    } else if c.1 < 12 {
        (c.0, c.1 + 1, 1)
    } else {
        (c.0 + 1, 1, 1)
    }
}

/// [`civil_of`] through its parts: era, year of era, day of year.
proof fn lemma_civil_parts(z: int)
    ensures
        ({
            let zz = z + 719468;
            let era = zz / 146097;
            let doe = zz - era * 146097;
            let y0 = yoe_of(doe);
            let md = month_day_of(doe - year_start(y0));
            &&& 0 <= doe < 146097
            &&& civil_of(z) == (y0 + era * 400 + if md.0 <= 2 { 1int } else { 0int }, md.0, md.1)
        }),
{
}

/// A civil year is leap exactly when the March-based year of its era that
/// holds its February is long.
proof fn lemma_leap_in_era(y0: int, era: int)
    ensures
        is_leap(y0 + era * 400 + 1) <==> era_year_len(y0) == 366,
{
    let y = y0 + era * 400 + 1;
    assert(y % 4 == (y0 + 1) % 4);
    assert(y % 100 == (y0 + 1) % 100);
    assert(y % 400 == (y0 + 1) % 400);
}

/// `civil_of` counts days in the proleptic Gregorian calendar: day 0 is
/// 1970-01-01, every day is a valid date, and each next day is the
/// calendar's next date.
#[verifier::spinoff_prover]
#[verifier::rlimit(60)]
pub proof fn lemma_civil_of_counts_days(z: int)
    ensures
        civil_of(0) == (1970int, 1int, 1int),
        1 <= civil_of(z).1 <= 12,
        1 <= civil_of(z).2 <= month_len(civil_of(z).0, civil_of(z).1),
        civil_of(z + 1) == next_day(civil_of(z)),
{
    lemma_civil_parts(0);
    lemma_civil_parts(z);
    lemma_civil_parts(z + 1);
    let zz = z + 719468;
    let era = zz / 146097;
    let doe = zz - era * 146097;
    lemma_year_bounds(doe);
    let y0 = yoe_of(doe);
    let d0 = doe - year_start(y0);
    let long0 = era_year_len(y0) == 366;
    lemma_leap_in_era(y0, era);
    let (m, d) = month_day_of(d0);
    if d0 + 1 < era_year_len(y0) {
        lemma_month_step(d0, long0);
    } else {
        lemma_month_ends();
    }
    assert(month_len(civil_of(z).0, civil_of(z).1) == era_month_len(m, long0));
    if doe < 146096 {
        assert((zz + 1) / 146097 == era);
        lemma_year_step(doe);
        if yoe_of(doe + 1) == y0 {
            lemma_month_step(d0, long0);
        } else {
            lemma_month_ends();
        }
    } else {
        assert((zz + 1) / 146097 == era + 1);
        assert(yoe_of(0) == 0);
        assert(y0 == 399 && d0 == 365);
        lemma_month_ends();
    }
}

/// Civil date from a day count since the Unix epoch, over the whole `i64`
/// range.
#[verifier::spinoff_prover]
#[verifier::rlimit(40)]
pub fn civil_from_days(z_days: i64) -> (r: (i64, u32, u32))
    ensures
        (r.0 as int, r.1 as int, r.2 as int) == civil_of(z_days as int),
        1 <= r.1 <= 12,
        1 <= r.2 <= 31,
{
    proof {
        lemma_civil_ranges(z_days as int);
    }
    let z: i128 = z_days as i128 + 719_468;
    let era: i128 = if z >= 0 { z / 146_097 } else { -((146_096 - z) / 146_097) };
    assert(era == (z_days as int + 719468) / 146097) by (nonlinear_arith)
        requires z == z_days as int + 719468,
            era == if z >= 0 { z / 146_097 } else { -((146_096 - z) / 146_097) };
    let doe: i128 = z - era * 146_097;
    let yoe: i128 = (doe - doe / 1460 + doe / 36524 - doe / 146096) / 365;
    let y: i128 = yoe + era * 400;
    let doy: i128 = doe - (365 * yoe + yoe / 4 - yoe / 100);
    let mp: i128 = (5 * doy + 2) / 153;
    let d: i128 = doy - (153 * mp + 2) / 5 + 1;
    let m: i128 = if mp < 10 { mp + 3 } else { mp - 9 };
    let y: i128 = if m <= 2 { y + 1 } else { y };
    (y as i64, m as u32, d as u32)
}

// ---------------------------------------------------------------------------
// Timestamp text
// ---------------------------------------------------------------------------

/// `n` zero-padded to `width` characters, a leading `-` counting toward the
/// width for negatives.
pub open spec fn signed_padded(n: int, width: nat) -> Seq<char> {
    if n < 0 {
        seq!['-'] + crate::text::padded_decimal((-n) as nat, (width - 1) as nat)
    } else {
        crate::text::padded_decimal(n as nat, width)
    }
}

/// `YYYY-MM-DDTHH:MM:SS.mmmZ` for `unix_secs` seconds and `millis`
/// milliseconds past the epoch, in UTC.
pub open spec fn iso8601(unix_secs: int, millis: nat) -> Seq<char> {
    let days = unix_secs / 86400;
    let sod = unix_secs % 86400;
    let (y, mo, d) = civil_of(days);
    signed_padded(y, 4) + seq!['-'] + crate::text::padded_decimal(mo as nat, 2) + seq!['-']
        + crate::text::padded_decimal(d as nat, 2) + seq!['T']
        + crate::text::padded_decimal((sod / 3600) as nat, 2) + seq![':']
        + crate::text::padded_decimal(((sod % 3600) / 60) as nat, 2) + seq![':']
        + crate::text::padded_decimal((sod % 60) as nat, 2) + seq!['.']
        + crate::text::padded_decimal(millis, 3) + seq!['Z']
}

fn push_char_str(out: &mut String, s: &str)
    ensures
        final(out)@ == old(out)@ + s@,
{
    out.append(s);
}

/// Day number and second of the day of a Unix timestamp (floor division).
fn day_and_second(unix_secs: i64) -> (r: (i64, i64))
    ensures
        r.0 == unix_secs as int / 86400,
        r.1 == unix_secs as int % 86400,
        0 <= r.1 < 86400,
{
    if unix_secs >= 0 {
        (unix_secs / 86_400, unix_secs % 86_400)
    } else {
        let m: i128 = -(unix_secs as i128);
        let q: i128 = m / 86_400;
        let r: i128 = m % 86_400;
        assert(m == q * 86400 + r && 0 <= r < 86400) by (nonlinear_arith)
            requires m > 0, q == m / 86_400, r == m % 86_400;
        if r == 0 {
            assert(unix_secs as int / 86400 == -q && unix_secs as int % 86400 == 0) by (nonlinear_arith)
                requires unix_secs as int == -m, m == q * 86400;
            (-q as i64, 0)
        } else {
            assert(unix_secs as int / 86400 == -q - 1 && unix_secs as int % 86400 == 86400 - r)
                by (nonlinear_arith)
                requires unix_secs as int == -m, m == q * 86400 + r, 0 < r < 86400;
            ((-q - 1) as i64, (86_400 - r) as i64)
        }
    }
}

/// Format a UTC wall-clock instant with millisecond precision.
pub fn format_iso8601(unix_secs: i64, millis: u32) -> (s: String)
    ensures
        s@ == iso8601(unix_secs as int, millis as nat),
{
    let (days, secs_of_day) = day_and_second(unix_secs);
    let (y, mo, d) = civil_from_days(days);
    let h = secs_of_day / 3600;
    let mi = (secs_of_day % 3600) / 60;
    let sec = secs_of_day % 60;
    proof {
        reveal_strlit("-");
        reveal_strlit("T");
        reveal_strlit(":");
        reveal_strlit(".");
        reveal_strlit("Z");
    }
    let mut out = String::new();
    if y < 0 {
        push_char_str(&mut out, "-");
        let mag: u64 = if y == i64::MIN { 9_223_372_036_854_775_808u64 } else { (-y) as u64 };
        push_padded_decimal(&mut out, mag, 3);
    } else {
        push_padded_decimal(&mut out, y as u64, 4);
    }
    push_char_str(&mut out, "-");
    push_padded_decimal(&mut out, mo as u64, 2);
    push_char_str(&mut out, "-");
    push_padded_decimal(&mut out, d as u64, 2);
    push_char_str(&mut out, "T");
    push_padded_decimal(&mut out, h as u64, 2);
    push_char_str(&mut out, ":");
    push_padded_decimal(&mut out, mi as u64, 2);
    push_char_str(&mut out, ":");
    push_padded_decimal(&mut out, sec as u64, 2);
    push_char_str(&mut out, ".");
    push_padded_decimal(&mut out, millis as u64, 3);
    push_char_str(&mut out, "Z");
    assert(out@ =~= iso8601(unix_secs as int, millis as nat));
    out
}

/// Whole seconds and sub-second milliseconds since the Unix epoch (zero when
/// the clock reads before the epoch), the seconds truncated to `i64`.
fn unix_now() -> (r: (i64, u32))
    ensures
        r.1 < 1000,
{
    let now = crate::clock::system_now();
    match crate::clock::since_unix_epoch(&now) {
        Some(d) => {
            let secs = crate::clock::duration_secs(&d);
            let millis = crate::clock::duration_subsec_millis(&d);
            (secs as i64, millis)
        },
        None => (0, 0),
    }
}

/// The current UTC wall-clock time as `YYYY-MM-DDTHH:MM:SS.mmmZ`: the
/// clock's whole seconds since the epoch and its millisecond fraction,
/// below one thousand, formatted by [`format_iso8601`].
pub fn ts_wall() -> (s: String)
    ensures
        exists|secs: i64, millis: u32| millis < 1000 && s@ == #[trigger] iso8601(secs as int, millis as nat),
{
    let (secs, millis) = unix_now();
    let s = format_iso8601(secs, millis);
    assert(s@ == iso8601(secs as int, millis as nat));
    s
}

// ---------------------------------------------------------------------------
// Rotation
// ---------------------------------------------------------------------------

/// Renames performed when rotating `max` numbered backups, highest index
/// first so nothing is overwritten before it is moved: `(i, i + 1)` for `i`
/// from `max - 1` down to `1`.
pub open spec fn shift_pairs_spec(max: u32) -> Seq<(u32, u32)> {
    if max <= 1 {
        Seq::empty()
    } else {
        Seq::new((max - 1) as nat, |k: int| ((max - 1 - k) as u32, (max - k) as u32))
    }
}

pub fn shift_pairs(max: u32) -> (r: Vec<(u32, u32)>)
    ensures
        r@ == shift_pairs_spec(max),
{
    let mut out: Vec<(u32, u32)> = Vec::new();
    if max <= 1 {
        assert(out@ =~= shift_pairs_spec(max));
        return out;
    }
    let mut i: u32 = max - 1;
    while i >= 1
        invariant
            max > 1,
            0 <= i <= max - 1,
            out@.len() == max - 1 - i,
            forall|k: int| 0 <= k < out@.len() ==> #[trigger] out@[k] == ((max - 1 - k) as u32, (max - k) as u32),
        decreases i,
    {
        out.push((i, i + 1));
        i -= 1;
    }
    assert(out@ =~= shift_pairs_spec(max));
    out
}

/// Path of numbered backup `n` of `base`: `base` followed by `.n`.
pub fn numbered_path(base: &str, n: u32) -> (p: String)
    ensures
        p@ == base@ + seq!['.'] + crate::text::decimal(n as nat),
{
    proof {
        reveal_strlit(".");
    }
    let mut s = String::from_str(base);
    s.append(".");
    push_decimal(&mut s, n as u64);
    s
}

/// What one record write does around appending its line.
#[derive(Debug, Clone, Copy, PartialEq, Eq)]
pub struct WritePlan {
    /// Rotate before writing: the active file has reached its size limit.
    pub rotate_first: bool,
    /// Flush buffered records after writing.
    pub flush_after: bool,
    /// Also sync the file to disk after flushing.
    pub sync_after: bool,
}

/// Byte and record counters of the active log file.
#[derive(Debug, Clone, Copy, PartialEq, Eq)]
pub struct LogCounters {
    pub bytes_written: u64,
    pub records_since_flush: u32,
}

/// The plan for writing a line of `line_len` bytes with counters `c`, and
/// the counters after a successful write: the file rotates first once it
/// holds `MAX_FILE_BYTES` bytes (resetting the byte count), the line and
/// its newline are counted, and buffered records are flushed every
/// `FLUSH_EVERY` records or on a fatal record, which is also synced.
pub open spec fn write_step(c: LogCounters, line_len: u64, is_fatal: bool) -> (WritePlan, LogCounters) {
    let rotate = c.bytes_written >= MAX_FILE_BYTES;
    let base: int = if rotate { 0 } else { c.bytes_written as int };
    let records = c.records_since_flush + 1;
    let flush = is_fatal || records >= FLUSH_EVERY;
    (
        WritePlan { rotate_first: rotate, flush_after: flush, sync_after: is_fatal },
        LogCounters {
            bytes_written: (base + line_len + 1) as u64,
            records_since_flush: if flush { 0 } else { records as u32 },
        },
    )
}

impl LogCounters {
    /// Plan one write of a `line_len`-byte line and advance the counters.
    pub fn plan_write(&mut self, line_len: u64, is_fatal: bool) -> (plan: WritePlan)
        requires
            old(self).records_since_flush < FLUSH_EVERY,
            line_len < u64::MAX - MAX_FILE_BYTES,
        ensures
            (plan, *final(self)) == write_step(*old(self), line_len, is_fatal),
            final(self).records_since_flush < FLUSH_EVERY,
    {
        let rotate_first = self.bytes_written >= MAX_FILE_BYTES;
        if rotate_first {
            self.bytes_written = 0;
        }
        self.bytes_written = self.bytes_written + line_len + 1;
        self.records_since_flush = self.records_since_flush + 1;
        let flush_after = is_fatal || self.records_since_flush >= FLUSH_EVERY;
        if flush_after {
            self.records_since_flush = 0;
        }
        WritePlan { rotate_first, flush_after, sync_after: is_fatal }
    }
}

} // verus!
