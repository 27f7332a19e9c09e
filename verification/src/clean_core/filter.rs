//! Interactive result filtering (extension, size, date range, name) and the
//! parser for the human-entered dates.

use vstd::prelude::*;

use crate::clean_core::model::{FileEntry, TimeBasis, ext_view, time_of};
use crate::text::{
    contains_chars, contains_seq, file_name_of, first_alphabetic, first_alphabetic_from, lowercase,
    lowercase_of, str_eq, string_of_range, to_chars, trim, trim_chars, trim_str,
};

verus! {

/// A composable predicate applied to scan results in the review screen.
///
/// Every field is optional; an empty filter matches everything.
#[derive(Debug)]
pub struct Filter {
    /// Lower-cased extensions (without dot). Empty means "any".
    pub extensions: Vec<String>,
    /// Case-insensitive substring the file name must contain.
    pub name_contains: Option<String>,
    pub min_size: Option<u64>,
    pub max_size: Option<u64>,
    /// Which timestamp the date bounds apply to.
    pub time_basis: TimeBasis,
    pub after: Option<i128>,
    pub before: Option<i128>,
}

/// `e` is one of the listed extensions.
pub open spec fn ext_listed(exts: Seq<String>, e: Seq<char>) -> bool {
    exists|i: int| 0 <= i < exts.len() && #[trigger] exts[i]@ == e
}

/// The date bounds of `f` accept a timestamp `t`.
pub open spec fn within_dates(f: Filter, t: i128) -> bool {
    &&& match f.after {
        Some(a) => t >= a,
        None => true,
    }
    &&& match f.before {
        Some(b) => t <= b,
        None => true,
    }
}

/// What `Filter::matches` decides for an entry.
pub open spec fn filter_accepts(f: Filter, e: FileEntry) -> bool {
    &&& (f.extensions@.len() > 0 ==> ext_listed(f.extensions@, ext_view(e)))
    &&& match f.name_contains {
        Some(n) => contains_seq(lowercase_of(file_name_of(e.path@)), lowercase_of(n@)),
        None => true,
    }
    &&& match f.min_size {
        Some(m) => e.size >= m,
        None => true,
    }
    &&& match f.max_size {
        Some(m) => e.size <= m,
        None => true,
    }
    &&& ((f.after is Some || f.before is Some) ==> match time_of(e, f.time_basis) {
        Some(t) => within_dates(f, t),
        None => false,
    })
}

/// Is any criterion of `f` set?
pub open spec fn filter_active(f: Filter) -> bool {
    f.extensions@.len() > 0 || f.name_contains is Some || f.min_size is Some || f.max_size
        is Some || f.after is Some || f.before is Some
}

pub open spec fn empty_filter(f: Filter, basis: TimeBasis) -> bool {
    &&& f.extensions@.len() == 0
    &&& f.name_contains is None
    &&& f.min_size is None
    &&& f.max_size is None
    &&& f.time_basis == basis
    &&& f.after is None
    &&& f.before is None
}

/// A filter with no criterion set accepts every entry: an empty filter
/// matches everything.
pub proof fn law_inactive_filter_accepts_all(f: Filter, e: FileEntry)
    requires
        !filter_active(f),
    ensures
        filter_accepts(f, e),
{
}

/// Adding criteria only narrows: an entry that a filter accepts is accepted by
/// the filter with any one criterion removed.
pub proof fn law_fewer_criteria_accept_more(f: Filter, e: FileEntry)
    requires
        filter_accepts(f, e),
    ensures
        filter_accepts(Filter { min_size: None, ..f }, e),
        filter_accepts(Filter { max_size: None, ..f }, e),
        filter_accepts(Filter { name_contains: None, ..f }, e),
{
}

/// A date bound rejects an entry whose timestamp, for the filter's time basis,
/// lies after the `before` bound.
pub proof fn law_filter_before_bound(f: Filter, e: FileEntry, b: i128, t: i128)
    requires
        f.before == Some(b),
        match f.time_basis {
            TimeBasis::Modified => e.modified,
            TimeBasis::Accessed => e.accessed,
            TimeBasis::Created => e.created,
        } == Some(t),
        t > b,
    ensures
        !filter_accepts(f, e),
{
}

/// A date bound rejects an entry whose timestamp, for the filter's time basis,
/// lies before the `after` bound.
pub proof fn law_filter_after_bound(f: Filter, e: FileEntry, a: i128, t: i128)
    requires
        f.after == Some(a),
        match f.time_basis {
            TimeBasis::Modified => e.modified,
            TimeBasis::Accessed => e.accessed,
            TimeBasis::Created => e.created,
        } == Some(t),
        t < a,
    ensures
        !filter_accepts(f, e),
{
}

/// With a date bound set, an entry without a timestamp for the filter's time
/// basis is rejected.
pub proof fn law_filter_dates_need_a_timestamp(f: Filter, e: FileEntry)
    requires
        f.after is Some || f.before is Some,
        match f.time_basis {
            TimeBasis::Modified => e.modified,
            TimeBasis::Accessed => e.accessed,
            TimeBasis::Created => e.created,
        } is None,
    ensures
        !filter_accepts(f, e),
{
}

/// The size bounds reject an entry smaller than the minimum or larger than the
/// maximum.
pub proof fn law_filter_size_bounds(f: Filter, e: FileEntry)
    ensures
        f.min_size matches Some(m) && e.size < m ==> !filter_accepts(f, e),
        f.max_size matches Some(m) && e.size > m ==> !filter_accepts(f, e),
{
}

/// A non-empty extension list rejects an entry whose extension is not in it.
pub proof fn law_filter_extension_list(f: Filter, e: FileEntry)
    requires
        f.extensions@.len() > 0,
        forall|i: int|
            0 <= i < f.extensions@.len() ==> #[trigger] f.extensions@[i]@ != match e.extension {
                Some(x) => x@,
                None => Seq::<char>::empty(),
            },
    ensures
        !filter_accepts(f, e),
{
}

/// The name criterion looks at the file name, not the directories: an entry
/// whose lower-cased file name does not contain the lower-cased text is
/// rejected.
pub proof fn law_filter_name_criterion(f: Filter, e: FileEntry, n: String)
    requires
        f.name_contains == Some(n),
        !contains_seq(lowercase_of(file_name_of(e.path@)), lowercase_of(n@)),
    ensures
        !filter_accepts(f, e),
{
}

/// An entry that meets every criterion that is set is accepted: its extension
/// is listed (or no list is given), its lower-cased file name contains the
/// lower-cased text, its size lies within the bounds, and its timestamp for the
/// time basis exists and lies within the date bounds (when one is set).
pub proof fn law_filter_accepts_what_meets_every_criterion(f: Filter, e: FileEntry)
    requires
        f.extensions@.len() == 0 || exists|i: int|
            0 <= i < f.extensions@.len() && #[trigger] f.extensions@[i]@ == match e.extension {
                Some(x) => x@,
                None => Seq::<char>::empty(),
            },
        f.name_contains matches Some(n) ==> contains_seq(lowercase_of(file_name_of(e.path@)), lowercase_of(n@)),
        f.min_size matches Some(m) ==> e.size >= m,
        f.max_size matches Some(m) ==> e.size <= m,
        f.after is Some || f.before is Some ==> (match f.time_basis {
            TimeBasis::Modified => e.modified,
            TimeBasis::Accessed => e.accessed,
            TimeBasis::Created => e.created,
        } matches Some(t) && (f.after matches Some(a) ==> t >= a) && (f.before matches Some(b) ==> t <= b)),
    ensures
        filter_accepts(f, e),
{
}

impl Default for Filter {
    fn default() -> (r: Filter)
        ensures
            empty_filter(r, TimeBasis::Modified),
    {
        Filter {
            extensions: Vec::new(),
            name_contains: None,
            min_size: None,
            max_size: None,
            time_basis: TimeBasis::Modified,
            after: None,
            before: None,
        }
    }
}

impl Filter {
    /// The empty filter whose date bounds (when later set) apply to `basis`.
    pub fn with_basis(basis: TimeBasis) -> (r: Filter)
        ensures
            empty_filter(r, basis),
    {
        Filter {
            extensions: Vec::new(),
            name_contains: None,
            min_size: None,
            max_size: None,
            time_basis: basis,
            after: None,
            before: None,
        }
    }

    /// Does this entry pass all active criteria?
    pub fn matches(&self, entry: &FileEntry) -> (r: bool)
        ensures
            r == filter_accepts(*self, *entry),
    {
        if self.extensions.len() > 0 {
            let ext = entry.ext_str();
            let mut found = false;
            let mut i: usize = 0;
            while i < self.extensions.len()
                invariant
                    i <= self.extensions.len(),
                    ext@ == ext_view(*entry),
                    found == exists|j: int| 0 <= j < i && #[trigger] self.extensions@[j]@ == ext@,
                decreases self.extensions.len() - i,
            {
                if str_eq(self.extensions[i].as_str(), ext) {
                    found = true;
                }
                i += 1;
            }
            if !found {
                return false;
            }
        }
        match &self.name_contains {
            Some(needle) => {
                let name = entry.file_name();
                let lower = lowercase(name.as_str());
                let hay = to_chars(lower.as_str());
                let needle_lower = lowercase(needle.as_str());
                let pat = to_chars(needle_lower.as_str());
                if !contains_chars(&hay, &pat) {
                    return false;
                }
            },
            None => {},
        }
        match self.min_size {
            Some(min) => {
                if entry.size < min {
                    return false;
                }
            },
            None => {},
        }
        match self.max_size {
            Some(max) => {
                if entry.size > max {
                    return false;
                }
            },
            None => {},
        }
        if self.after.is_some() || self.before.is_some() {
            match entry.time(self.time_basis) {
                Some(t) => {
                    match self.after {
                        Some(after) => {
                            if t < after {
                                return false;
                            }
                        },
                        None => {},
                    }
                    match self.before {
                        Some(before) => {
                            if t > before {
                                return false;
                            }
                        },
                        None => {},
                    }
                },
                None => {
                    return false;
                },
            }
        }
        true
    }

    /// Is any criterion set?
    pub fn is_active(&self) -> (r: bool)
        ensures
            r == filter_active(*self),
    {
        self.extensions.len() > 0 || self.name_contains.is_some() || self.min_size.is_some()
            || self.max_size.is_some() || self.after.is_some() || self.before.is_some()
    }
}

// ------------------------------------------------------------------ sizes

/// The number of bytes that a size unit stands for (already lower-cased):
/// none or `b` for bytes, `k`/`kb`, `m`/`mb`, `g`/`gb`, `t`/`tb` for powers of
/// a thousand, `kib`, `mib`, `gib` for powers of 1024; `None` for anything else.
pub open spec fn unit_multiplier(u: Seq<char>) -> Option<u64> {
    if u == Seq::<char>::empty() || u == seq!['b'] {
        Some(1)
    } else if u == seq!['k'] || u == seq!['k', 'b'] {
        Some(1_000)
    } else if u == seq!['k', 'i', 'b'] {
        Some(1_024)
    } else if u == seq!['m'] || u == seq!['m', 'b'] {
        Some(1_000_000)
    } else if u == seq!['m', 'i', 'b'] {
        Some(1_048_576)
    } else if u == seq!['g'] || u == seq!['g', 'b'] {
        Some(1_000_000_000)
    } else if u == seq!['g', 'i', 'b'] {
        Some(1_073_741_824)
    } else if u == seq!['t'] || u == seq!['t', 'b'] {
        Some(1_000_000_000_000)
    } else {
        None
    }
}

/// The size units: no unit and `b` are bytes; a letter other than `b` means
/// the same with or without a trailing `b`; `k` is a thousand bytes and each of
/// `m`, `g`, `t` a thousand times the one before; `kib` is 1024 bytes and
/// `mib`, `gib` each 1024 times the one before; nothing longer than three
/// characters is a unit.
pub proof fn law_size_units()
    ensures
        unit_multiplier(Seq::<char>::empty()) == Some(1u64),
        unit_multiplier(seq!['b']) == Some(1u64),
        forall|c: char|
            c != 'b' ==> #[trigger] unit_multiplier(Seq::<char>::empty().push(c).push('b')) == unit_multiplier(
                Seq::<char>::empty().push(c),
            ),
        unit_multiplier(seq!['k']) == Some(1_000u64),
        unit_multiplier(seq!['m']) is Some,
        unit_multiplier(seq!['m'])->0 == 1_000 * unit_multiplier(seq!['k'])->0,
        unit_multiplier(seq!['g']) is Some,
        unit_multiplier(seq!['g'])->0 == 1_000 * unit_multiplier(seq!['m'])->0,
        unit_multiplier(seq!['t']) is Some,
        unit_multiplier(seq!['t'])->0 == 1_000 * unit_multiplier(seq!['g'])->0,
        unit_multiplier(seq!['k', 'i', 'b']) == Some(1_024u64),
        unit_multiplier(seq!['m', 'i', 'b']) is Some,
        unit_multiplier(seq!['m', 'i', 'b'])->0 == 1_024 * unit_multiplier(seq!['k', 'i', 'b'])->0,
        unit_multiplier(seq!['g', 'i', 'b']) is Some,
        unit_multiplier(seq!['g', 'i', 'b'])->0 == 1_024 * unit_multiplier(seq!['m', 'i', 'b'])->0,
        forall|u: Seq<char>| #[trigger] unit_multiplier(u) is Some ==> u.len() <= 3,
{
    assert(seq!['b'].len() == 1 && seq!['b'][0] == 'b');
    assert(seq!['k'].len() == 1 && seq!['k'][0] == 'k');
    assert(seq!['m'].len() == 1 && seq!['m'][0] == 'm');
    assert(seq!['g'].len() == 1 && seq!['g'][0] == 'g');
    assert(seq!['t'].len() == 1 && seq!['t'][0] == 't');
    assert(seq!['k', 'b'].len() == 2 && seq!['k', 'b'][0] == 'k');
    assert(seq!['m', 'b'].len() == 2 && seq!['m', 'b'][0] == 'm');
    assert(seq!['g', 'b'].len() == 2 && seq!['g', 'b'][0] == 'g');
    assert(seq!['t', 'b'].len() == 2 && seq!['t', 'b'][0] == 't');
    assert(seq!['k', 'i', 'b'].len() == 3 && seq!['k', 'i', 'b'][0] == 'k');
    assert(seq!['m', 'i', 'b'].len() == 3 && seq!['m', 'i', 'b'][0] == 'm');
    assert(seq!['g', 'i', 'b'].len() == 3 && seq!['g', 'i', 'b'][0] == 'g');
    assert forall|c: char| c != 'b' implies #[trigger] unit_multiplier(
        Seq::<char>::empty().push(c).push('b'),
    ) == unit_multiplier(Seq::<char>::empty().push(c)) by {
        let u1 = Seq::<char>::empty().push(c);
        let u2 = u1.push('b');
        assert(u1.len() == 1 && u1[0] == c);
        assert(u2.len() == 2 && u2[0] == c && u2[1] == 'b');
        if c == 'k' {
            assert(u1 =~= seq!['k']);
            assert(u2 =~= seq!['k', 'b']);
        } else if c == 'm' {
            assert(u1 =~= seq!['m']);
            assert(u2 =~= seq!['m', 'b']);
        } else if c == 'g' {
            assert(u1 =~= seq!['g']);
            assert(u2 =~= seq!['g', 'b']);
        } else if c == 't' {
            assert(u1 =~= seq!['t']);
            assert(u2 =~= seq!['t', 'b']);
        } else {
            assert(u1 != seq!['b'] && u1 != seq!['k'] && u1 != seq!['m'] && u1 != seq!['g'] && u1 != seq!['t']) by {
                assert(seq!['b'][0] == 'b' && seq!['k'][0] == 'k' && seq!['m'][0] == 'm');
                assert(seq!['g'][0] == 'g' && seq!['t'][0] == 't');
            }
            assert(u2 != seq!['k', 'b'] && u2 != seq!['m', 'b'] && u2 != seq!['g', 'b'] && u2 != seq!['t', 'b']) by {
                assert(seq!['k', 'b'][0] == 'k' && seq!['m', 'b'][0] == 'm');
                assert(seq!['g', 'b'][0] == 'g' && seq!['t', 'b'][0] == 't');
            }
        }
    }
}

/// A size text split into its number and the multiplier of its unit: the text
/// is trimmed and lower-cased, the unit starts at its first alphabetic
/// character, and both parts are trimmed. `None` for a blank text or an
/// unknown unit.
pub open spec fn size_parts(input: Seq<char>) -> Option<(Seq<char>, u64)> {
    let s = lowercase_of(trim(input));
    let k = first_alphabetic_from(s, 0);
    if s.len() == 0 {
        None
    } else {
        match unit_multiplier(trim(s.subrange(k, s.len() as int))) {
            Some(m) => Some((trim(s.subrange(0, k)), m)),
            None => None,
        }
    }
}

/// The multiplier of a lower-cased unit.
pub fn unit_value(u: &[char]) -> (r: Option<u64>)
    ensures
        r == unit_multiplier(u@),
{
    let n = u.len();
    if n == 0 {
        assert(u@ =~= Seq::<char>::empty());
        return Some(1);
    }
    let c0 = u[0];
    if n == 1 {
        assert(u@ =~= seq![c0]);
        if c0 == 'b' {
            Some(1)
        } else if c0 == 'k' {
            Some(1_000)
        } else if c0 == 'm' {
            Some(1_000_000)
        } else if c0 == 'g' {
            Some(1_000_000_000)
        } else if c0 == 't' {
            Some(1_000_000_000_000)
        } else {
            None
        }
    } else if n == 2 {
        let c1 = u[1];
        assert(u@ =~= seq![c0, c1]);
        if c1 != 'b' {
            None
        } else if c0 == 'k' {
            Some(1_000)
        } else if c0 == 'm' {
            Some(1_000_000)
        } else if c0 == 'g' {
            Some(1_000_000_000)
        } else if c0 == 't' {
            Some(1_000_000_000_000)
        } else {
            None
        }
    } else if n == 3 {
        let c1 = u[1];
        let c2 = u[2];
        assert(u@ =~= seq![c0, c1, c2]);
        if c1 != 'i' || c2 != 'b' {
            None
        } else if c0 == 'k' {
            Some(1_024)
        } else if c0 == 'm' {
            Some(1_048_576)
        } else if c0 == 'g' {
            Some(1_073_741_824)
        } else {
            None
        }
    } else {
        None
    }
}

/// Splits a human size text such as `10`, `512KB` or `1.5 GB` into the text of
/// its number and the multiplier of its unit; reading the number is left to
/// the caller. `None` for a blank text or an unknown unit.
pub fn size_text_parts(input: &str) -> (r: Option<(String, u64)>)
    ensures
        trim(input@).len() == 0 ==> r is None,
        match r {
            Some((num, m)) => size_parts(input@) == Some((num@, m)),
            None => size_parts(input@) is None,
        },
{
    let trimmed = trim_str(input);
    let lower = lowercase(trimmed.as_str());
    let s = to_chars(lower.as_str());
    if s.len() == 0 {
        return None;
    }
    let k = first_alphabetic(&s);
    let mut unit: Vec<char> = Vec::new();
    let mut i: usize = k;
    while i < s.len()
        invariant
            k <= i <= s.len(),
            unit@ == s@.subrange(k as int, i as int),
        decreases s.len() - i,
    {
        unit.push(s[i]);
        assert(s@.subrange(k as int, i as int).push(s@[i as int]) =~= s@.subrange(k as int, i + 1));
        i += 1;
    }
    let unit_t = trim_chars(&unit);
    match unit_value(&unit_t) {
        Some(m) => {
            let num = trim_str(string_of_range(&s, 0, k).as_str());
            Some((num, m))
        },
        None => None,
    }
}

// ------------------------------------------------------------------ dates

/// What `chrono::NaiveDate::parse_from_str(s, "%Y-%m-%d")` yields, as year,
/// month and day (`None` when it returns an error).
pub uninterp spec fn ymd_parse(s: Seq<char>) -> Option<(i32, u32, u32)>;

/// Calls `chrono::NaiveDate::parse_from_str(s, "%Y-%m-%d")` and reads back the
/// date's year, month and day. Claimed: the result depends on `s` alone (it is
/// named `ymd_parse`); chrono's grammar for the format is not restated.
#[verifier::external_body]
fn parse_ymd(s: &str) -> (r: Option<(i32, u32, u32)>)
    ensures
        r == ymd_parse(s@),
{
    match chrono::NaiveDate::parse_from_str(s, "%Y-%m-%d") {
        Ok(d) => Some(
            (chrono::Datelike::year(&d), chrono::Datelike::month(&d), chrono::Datelike::day(&d)),
        ),
        Err(_) => None,
    }
}

/// Days from 1970-01-01 to the date `y-m-d` of the proleptic Gregorian
/// calendar (negative before it).
pub open spec fn days_from_civil(y: int, m: int, d: int) -> int {
    let yy = if m <= 2 {
        y - 1
    } else {
        y
    };
    let era = yy / 400;
    let yoe = yy - era * 400;
    let mp = if m > 2 {
        m - 3
    } else {
        m + 9
    };
    let doy = (153 * mp + 2) / 5 + d - 1;
    let doe = yoe * 365 + yoe / 4 - yoe / 100 + doy;
    era * 146097 + doe - 719468
}

/// Seconds from the epoch to midnight UTC starting the date `y-m-d`.
pub open spec fn utc_day_secs(y: i32, m: u32, d: u32) -> int {
    days_from_civil(y as int, m as int, d as int) * 86_400
}

/// The instants at which a wall-clock time occurs in the local time zone, in
/// seconds from the epoch, as chrono reports them.
pub enum LocalTimes {
    /// The date or the time of day does not exist.
    Invalid,
    /// The time does not occur (a gap in the local time zone), or chrono could
    /// not resolve it.
    Missing,
    /// The time occurs once.
    Single(i64),
    /// The time occurs twice (a fold), earlier instant first.
    Ambiguous(i64, i64),
}

/// `t` lies less than one day from the wall-clock time `secs_of_day` seconds
/// after midnight UTC of the date `y-m-d`.
pub open spec fn near_wall_clock(y: i32, m: u32, d: u32, secs_of_day: int, t: i64) -> bool {
    utc_day_secs(y, m, d) + secs_of_day - 86_400 < t < utc_day_secs(y, m, d) + secs_of_day + 86_400
}

/// `lt` is an answer the local time zone may give for the wall-clock time
/// `secs_of_day` seconds into the date `y-m-d`: each instant it reports lies
/// less than one day from that wall-clock time read as UTC.
pub open spec fn local_answer_fits(y: i32, m: u32, d: u32, secs_of_day: int, lt: LocalTimes) -> bool {
    match lt {
        LocalTimes::Single(t) => near_wall_clock(y, m, d, secs_of_day, t),
        LocalTimes::Ambiguous(a, b) => near_wall_clock(y, m, d, secs_of_day, a) && near_wall_clock(
            y,
            m,
            d,
            secs_of_day,
            b,
        ),
        _ => true,
    }
}

/// Calls `NaiveDate::from_ymd_opt(year, month, day)`, `and_hms_opt(hour,
/// minute, second)` and `Local.from_local_datetime`, and reports each variant
/// of chrono's answer with the Unix timestamps of its instants. Claimed: every
/// reported instant lies less than one day from the same wall-clock time read
/// as UTC, since chrono subtracts the local offset, which
/// `FixedOffset::east_opt` keeps strictly between -86 400 and 86 400 seconds.
/// Which variant comes back, and the exact instants, depend on the machine's
/// time zone and are not claimed.
#[verifier::external_body]
fn local_times(year: i32, month: u32, day: u32, hour: u32, minute: u32, second: u32) -> (r: LocalTimes)
    ensures
        local_answer_fits(year, month, day, hour * 3600 + minute * 60 + second, r),
{
    let Some(date) = chrono::NaiveDate::from_ymd_opt(year, month, day) else { return LocalTimes::Invalid };
    let Some(naive) = date.and_hms_opt(hour, minute, second) else { return LocalTimes::Invalid };
    match chrono::TimeZone::from_local_datetime(&chrono::Local, &naive) {
        chrono::LocalResult::None => LocalTimes::Missing,
        chrono::LocalResult::Single(t) => LocalTimes::Single(t.timestamp()),
        chrono::LocalResult::Ambiguous(a, b) => LocalTimes::Ambiguous(a.timestamp(), b.timestamp()),
    }
}

/// The instant of a wall-clock time that occurs exactly once; none where it is
/// invalid, skipped or repeated.
pub open spec fn single_instant(lt: LocalTimes) -> Option<i64> {
    match lt {
        LocalTimes::Single(t) => Some(t),
        _ => None,
    }
}

/// Keep the instant of a local-time answer only where the time occurs exactly
/// once.
pub fn single_instant_of(lt: LocalTimes) -> (r: Option<i64>)
    ensures
        r == single_instant(lt),
{
    match lt {
        LocalTimes::Single(t) => Some(t),
        _ => None,
    }
}

/// The instant of local midnight starting the date `y-m-d`, in seconds from the
/// epoch: `Some` only where that midnight occurs exactly once, `None` where the
/// date is invalid or the local midnight is skipped or repeated.
pub fn local_midnight_secs(year: i32, month: u32, day: u32) -> (r: Option<i64>)
    ensures
        exists|lt: LocalTimes|
            #![trigger local_answer_fits(year, month, day, 0, lt)]
            local_answer_fits(year, month, day, 0, lt) && r == single_instant(lt),
        r matches Some(s) ==> near_wall_clock(year, month, day, 0, s),
{
    let lt = local_times(year, month, day, 0, 0, 0);
    let r = single_instant_of(lt);
    assert(local_answer_fits(year, month, day, 0, lt) && r == single_instant(lt));
    r
}

/// `secs` seconds after the epoch in nanoseconds (`None` stays `None`).
pub open spec fn secs_to_nanos(secs: Option<i64>) -> Option<i128> {
    match secs {
        Some(s) => Some((s * 1_000_000_000) as i128),
        None => None,
    }
}

/// The instant `secs` seconds after the epoch, in nanoseconds (`None` stays
/// `None`).
pub fn midnight_nanos(secs: Option<i64>) -> (r: Option<i128>)
    ensures
        r == secs_to_nanos(secs),
{
    match secs {
        None => None,
        Some(s) => {
            assert(-9_223_372_036_854_775_808_000_000_000 <= s * 1_000_000_000 <= 9_223_372_036_854_775_807_000_000_000)
                by (nonlinear_arith)
                requires
                    i64::MIN <= s <= i64::MAX,
            ;
            Some((s as i128) * 1_000_000_000i128)
        },
    }
}

/// What a date parses to, given the local time zone's answer `lt` for its
/// midnight: the instant in nanoseconds where midnight occurs exactly once,
/// `None` otherwise.
pub open spec fn date_from_answer(lt: LocalTimes) -> Option<i128> {
    secs_to_nanos(single_instant(lt))
}

/// `t` is a whole number of seconds and lies less than one day from midnight
/// UTC of the date that `text` (trimmed) names: the local midnight of that
/// date, in some time zone.
pub open spec fn near_midnight_of(text: Seq<char>, t: i128) -> bool {
    &&& t % 1_000_000_000 == 0
    &&& ymd_parse(trim(text)) matches Some((y, m, d)) && (utc_day_secs(y, m, d) - 86_400) * 1_000_000_000 < t
        < (utc_day_secs(y, m, d) + 86_400) * 1_000_000_000
}

/// Parse a `YYYY-MM-DD` date (interpreted in local time, start of day) into
/// nanoseconds relative to the Unix epoch: the local time zone is asked for
/// midnight of the date read, and the instant is kept where that midnight
/// occurs exactly once.
pub fn parse_date(input: &str) -> (r: Option<i128>)
    ensures
        trim(input@).len() == 0 ==> r is None,
        ymd_parse(trim(input@)) is None ==> r is None,
        ymd_parse(trim(input@)) matches Some((y, m, d)) ==> (trim(input@).len() > 0 ==> exists|lt: LocalTimes|
            #![trigger local_answer_fits(y, m, d, 0, lt)]
            local_answer_fits(y, m, d, 0, lt) && r == date_from_answer(lt)),
        r matches Some(t) ==> near_midnight_of(input@, t),
{
    let s = crate::text::trim_str(input);
    let v = to_chars(s.as_str());
    if v.len() == 0 {
        return None;
    }
    match parse_ymd(s.as_str()) {
        None => None,
        Some((y, m, d)) => {
            let lt = local_times(y, m, d, 0, 0, 0);
            let secs = single_instant_of(lt);
            let r = midnight_nanos(secs);
            assert(local_answer_fits(y, m, d, 0, lt) && r == date_from_answer(lt));
            proof {
                if let Some(sv) = secs {
                    let t = sv * 1_000_000_000;
                    assert(t % 1_000_000_000 == 0) by (nonlinear_arith)
                        requires
                            t == sv * 1_000_000_000,
                    ;
                    let u = utc_day_secs(y, m, d);
                    assert(near_wall_clock(y, m, d, 0, sv));
                    assert((u - 86_400) * 1_000_000_000 < t < (u + 86_400) * 1_000_000_000) by (nonlinear_arith)
                        requires
                            t == sv * 1_000_000_000,
                            u - 86_400 < sv < u + 86_400,
                    ;
                }
            }
            r
        },
    }
}

} // verus!
