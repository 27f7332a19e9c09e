//! The filter form of the review screen: opening it from the current filter,
//! editing its fields, and turning them back into a filter.

use vstd::prelude::*;

use crate::clean_core::filter::{
    Filter, LocalTimes, date_from_answer, days_from_civil, local_answer_fits, near_midnight_of, parse_date,
    ymd_parse,
};
use crate::clean_core::model::TimeBasis;
use crate::numbers::{decimal, decimal_string};
use crate::text::{
    chars_views, lowercase, lowercase_of, split_chars, split_on, string_of_range, to_chars, trim,
    trim_str,
};
use crate::tui::app::{App, Effect, FilterDraft, Key, KeyCode, string_views};

verus! {

/// `items` joined with `sep` between them.
pub open spec fn joined(items: Seq<Seq<char>>, sep: Seq<char>) -> Seq<char>
    decreases items.len(),
{
    if items.len() == 0 {
        Seq::empty()
    } else if items.len() == 1 {
        items[0]
    } else {
        joined(items.drop_last(), sep) + sep + items.last()
    }
}

/// The text of an optional number: empty when absent.
pub open spec fn opt_decimal(v: Option<u64>) -> Seq<char> {
    match v {
        Some(n) => decimal(n as nat),
        None => Seq::empty(),
    }
}

/// `d` is the form opened on filter `f`: the extensions joined by commas, the
/// name, the sizes in bytes, and (when set) the local dates; focus on the first
/// field, no error.
pub open spec fn draft_of(f: Filter, d: FilterDraft) -> bool {
    &&& d.fields@.len() == 6
    &&& d.fields@[0]@ == joined(string_views(f.extensions@), ","@)
    &&& d.fields@[1]@ == match f.name_contains {
        Some(n) => n@,
        None => Seq::empty(),
    }
    &&& d.fields@[2]@ == opt_decimal(f.min_size)
    &&& d.fields@[3]@ == opt_decimal(f.max_size)
    &&& (f.after is None ==> d.fields@[4]@.len() == 0)
    &&& (f.before is None ==> d.fields@[5]@.len() == 0)
    &&& d.focus == 0
    &&& d.error is None
}

/// `items` joined with commas.
fn join_commas(items: &Vec<String>) -> (r: String)
    ensures
        r@ == joined(string_views(items@), ","@),
{
    let ghost v = string_views(items@);
    if items.len() == 0 {
        return String::new();
    }
    let mut r = items[0].clone();
    let mut i: usize = 1;
    assert(v.take(1).drop_last() =~= Seq::<Seq<char>>::empty());
    while i < items.len()
        invariant
            1 <= i <= items@.len(),
            v == string_views(items@),
            r@ == joined(v.take(i as int), ","@),
        decreases items@.len() - i,
    {
        assert(v.take(i + 1).drop_last() =~= v.take(i as int));
        r = r.concat(",").concat(items[i].as_str());
        i += 1;
    }
    assert(v.take(items@.len() as int) =~= v);
    r
}

/// The character of the decimal digit `n` (0 to 9).
pub open spec fn digit_char(n: int) -> char {
    (n + 48) as char
}

/// The date `y-m-d` written `YYYY-MM-DD` (for years 0 to 9999).
pub open spec fn ymd_text(y: int, m: int, d: int) -> Seq<char> {
    seq![
        digit_char(y / 1000),
        digit_char(y / 100 % 10),
        digit_char(y / 10 % 10),
        digit_char(y % 10),
        '-',
        digit_char(m / 10),
        digit_char(m % 10),
        '-',
        digit_char(d / 10),
        digit_char(d % 10),
    ]
}

/// Year `y` of the proleptic Gregorian calendar is a leap year.
pub open spec fn is_leap_year(y: int) -> bool {
    y % 4 == 0 && (y % 100 != 0 || y % 400 == 0)
}

/// The number of days of month `m` in year `y`.
pub open spec fn days_in_month(y: int, m: int) -> int {
    if m == 2 {
        if is_leap_year(y) {
            29
        } else {
            28
        }
    } else if m == 4 || m == 6 || m == 9 || m == 11 {
        30
    } else {
        31
    }
}

/// `text` is the local calendar date at the instant `secs` seconds after the
/// epoch, in some time zone whose offset is less than a day: a valid date whose
/// midnight (read as UTC) lies less than two days before `secs` and less than
/// one day after it, written `YYYY-MM-DD` when its year is 0 to 9999.
pub open spec fn local_date_of(secs: int, text: Seq<char>) -> bool {
    exists|y: int, m: int, d: int|
        #![trigger days_from_civil(y, m, d)]
        {
            &&& 1 <= m <= 12
            &&& 1 <= d <= days_in_month(y, m)
            &&& secs - 172_800 < days_from_civil(y, m, d) * 86_400 < secs + 86_400
            &&& (0 <= y <= 9999 ==> text == ymd_text(y, m, d))
        }
}

/// Calls chrono to format the instant `secs` seconds and `nanos` nanoseconds
/// after the Unix epoch as a local calendar date (`%Y-%m-%d`), `None` when
/// chrono cannot represent the instant. Claimed: a returned text is the
/// calendar date of the instant shifted by the local offset, which
/// `FixedOffset::east_opt` keeps strictly within a day, and `%Y-%m-%d` writes
/// a year from 0 to 9999 with four digits and the month and day with two.
/// Which date it is depends on the machine's time zone and is not claimed.
#[verifier::external_body]
fn local_date_text(secs: i64, nanos: u32) -> (r: Option<String>)
    requires
        nanos < 1_000_000_000,
    ensures
        r matches Some(t) ==> local_date_of(secs as int, t@),
{
    match chrono::DateTime::from_timestamp(secs, nanos) {
        Some(d) => Some(d.with_timezone(&chrono::Local).format("%Y-%m-%d").to_string()),
        None => None,
    }
}

/// `t` nanoseconds after the epoch, split into whole seconds (rounded down) and
/// the nanoseconds left over.
pub open spec fn split_nanos(t: int) -> (int, int) {
    (t / 1_000_000_000, t % 1_000_000_000)
}

/// Whole seconds (rounded down) and leftover nanoseconds of `t`, when the
/// seconds fit an `i64`.
pub fn nanos_to_secs(t: i128) -> (r: Option<(i64, u32)>)
    ensures
        match r {
            Some((s, n)) => s as int == split_nanos(t as int).0 && n as int == split_nanos(t as int).1,
            None => !(i64::MIN <= split_nanos(t as int).0 <= i64::MAX),
        },
{
    let (q, m): (i128, i128) = if t >= 0 {
        let u: u128 = t as u128;
        let q = (u / 1_000_000_000u128) as i128;
        let m = (u % 1_000_000_000u128) as i128;
        proof {
            vstd::arithmetic::div_mod::lemma_fundamental_div_mod(u as int, 1_000_000_000);
            vstd::arithmetic::div_mod::lemma_mod_bound(u as int, 1_000_000_000);
        }
        (q, m)
    } else {
        let a: u128 = (0 - (t + 1)) as u128;
        let q0 = (a / 1_000_000_000u128) as i128;
        let m0 = (a % 1_000_000_000u128) as i128;
        proof {
            vstd::arithmetic::div_mod::lemma_fundamental_div_mod(a as int, 1_000_000_000);
            vstd::arithmetic::div_mod::lemma_mod_bound(a as int, 1_000_000_000);
        }
        (0 - q0 - 1, 999_999_999 - m0)
    };
    proof {
        vstd::arithmetic::div_mod::lemma_fundamental_div_mod_converse(
            t as int,
            1_000_000_000,
            q as int,
            m as int,
        );
    }
    if q < -9_223_372_036_854_775_808i128 || q > 9_223_372_036_854_775_807i128 {
        None
    } else {
        Some((q as i64, m as u32))
    }
}

/// The local calendar date of instant `t` (nanoseconds after the epoch), as
/// `YYYY-MM-DD`; empty when it cannot be represented (in particular when its
/// whole seconds do not fit an `i64`).
fn date_text(t: i128) -> (r: String)
    ensures
        !(i64::MIN <= split_nanos(t as int).0 <= i64::MAX) ==> r@.len() == 0,
        r@.len() > 0 ==> local_date_of(split_nanos(t as int).0, r@),
{
    match nanos_to_secs(t) {
        Some((s, n)) => match local_date_text(s, n) {
            Some(text) => text,
            None => String::new(),
        },
        None => String::new(),
    }
}

fn opt_decimal_string(v: Option<u64>) -> (r: String)
    ensures
        r@ == opt_decimal(v),
{
    match v {
        Some(n) => decimal_string(n),
        None => String::new(),
    }
}

/// The text of an optional string: empty when absent.
pub open spec fn opt_text(t: Option<String>) -> Seq<char> {
    match t {
        Some(s) => s@,
        None => Seq::empty(),
    }
}

/// The form for filter `f`, with `after_text` / `before_text` the dates as
/// they are to be shown.
pub fn draft_from(f: &Filter, after_text: Option<String>, before_text: Option<String>) -> (d: FilterDraft)
    requires
        f.after is None ==> after_text is None,
        f.before is None ==> before_text is None,
    ensures
        draft_of(*f, d),
        d.fields@[4]@ == opt_text(after_text),
        d.fields@[5]@ == opt_text(before_text),
{
    let mut fields: Vec<String> = Vec::new();
    fields.push(join_commas(&f.extensions));
    fields.push(
        match &f.name_contains {
            Some(n) => n.clone(),
            None => String::new(),
        },
    );
    fields.push(opt_decimal_string(f.min_size));
    fields.push(opt_decimal_string(f.max_size));
    fields.push(
        match after_text {
            Some(t) => t,
            None => String::new(),
        },
    );
    fields.push(
        match before_text {
            Some(t) => t,
            None => String::new(),
        },
    );
    FilterDraft { fields, focus: 0, error: None }
}

/// `text` is how the form shows the optional date `t`: empty when unset;
/// otherwise empty (chrono cannot represent the instant) or its local calendar
/// date.
pub open spec fn shown_date(t: Option<i128>, text: Seq<char>) -> bool {
    match t {
        None => text.len() == 0,
        Some(t) => text.len() > 0 ==> local_date_of(split_nanos(t as int).0, text),
    }
}

/// `d` is the form opened on filter `f`, its dates shown as local calendar
/// dates.
pub open spec fn form_opened(f: Filter, d: FilterDraft) -> bool {
    &&& draft_of(f, d)
    &&& shown_date(f.after, d.fields@[4]@)
    &&& shown_date(f.before, d.fields@[5]@)
}

impl App {
    /// Open the filter form on the current filter; set dates are shown as
    /// local calendar dates.
    pub(crate) fn open_filter(&mut self)
        requires
            old(self).wf(),
        ensures
            final(self).wf(),
            *final(self) == (App { filter_draft: final(self).filter_draft, ..*old(self) }),
            final(self).filter_draft matches Some(d) && form_opened(old(self).filter, d),
    {
        let after_text = match self.filter.after {
            Some(t) => Some(date_text(t)),
            None => None,
        };
        let before_text = match self.filter.before {
            Some(t) => Some(date_text(t)),
            None => None,
        };
        let d = draft_from(&self.filter, after_text, before_text);
        self.filter_draft = Some(d);
    }
}


// ------------------------------------------------------------------ reading the form

/// Where the run of dots that starts at `i` ends.
pub open spec fn dots_end(s: Seq<char>, i: int) -> int
    decreases s.len() - i,
{
    if 0 <= i < s.len() && s[i] == '.' {
        dots_end(s, i + 1)
    } else {
        i
    }
}

/// `s` without its leading dots (`trim_start_matches('.')`).
pub open spec fn strip_dots(s: Seq<char>) -> Seq<char> {
    s.subrange(dots_end(s, 0), s.len() as int)
}

/// One extension of the form: trimmed, without leading dots, lower-cased.
pub open spec fn ext_item(p: Seq<char>) -> Seq<char> {
    lowercase_of(strip_dots(trim(p)))
}

/// The non-empty extensions among `pieces`.
pub open spec fn ext_items(pieces: Seq<Seq<char>>) -> Seq<Seq<char>>
    decreases pieces.len(),
{
    if pieces.len() == 0 {
        Seq::empty()
    } else {
        let r = ext_items(pieces.drop_last());
        if ext_item(pieces.last()).len() > 0 {
            r.push(ext_item(pieces.last()))
        } else {
            r
        }
    }
}

/// The extensions listed in the form field `field` (comma separated).
pub open spec fn extensions_of(field: Seq<char>) -> Seq<Seq<char>> {
    ext_items(split_on(field, ','))
}

proof fn lemma_dots_end(s: Seq<char>, i: int)
    requires
        0 <= i <= s.len(),
    ensures
        i <= dots_end(s, i) <= s.len(),
        forall|k: int| i <= k < dots_end(s, i) ==> s[k] == '.',
        dots_end(s, i) < s.len() ==> s[dots_end(s, i)] != '.',
    decreases s.len() - i,
{
    if i < s.len() && s[i] == '.' {
        lemma_dots_end(s, i + 1);
    }
}

/// Stripping the leading dots removes a run of dots from the front and keeps
/// the rest as it is: what is left does not start with a dot.
pub proof fn law_strip_dots_removes_leading_dots(s: Seq<char>)
    ensures
        strip_dots(s).len() <= s.len(),
        forall|k: int| 0 <= k < s.len() - strip_dots(s).len() ==> s[k] == '.',
        s.subrange(s.len() - strip_dots(s).len(), s.len() as int) == strip_dots(s),
        strip_dots(s).len() > 0 ==> strip_dots(s)[0] != '.',
{
    lemma_dots_end(s, 0);
}

/// The extensions read from the form are its comma-separated pieces, each
/// trimmed, stripped of leading dots and lower-cased, in order, with the
/// pieces that come out empty left out.
pub proof fn law_extension_items(pieces: Seq<Seq<char>>)
    ensures
        ext_items(pieces) == pieces.map_values(|p: Seq<char>| lowercase_of(strip_dots(trim(p)))).filter(
            |x: Seq<char>| x.len() > 0,
        ),
    decreases pieces.len(),
{
    reveal(Seq::filter);
    if pieces.len() > 0 {
        law_extension_items(pieces.drop_last());
        assert(pieces.map_values(|p: Seq<char>| lowercase_of(strip_dots(trim(p)))).drop_last()
            =~= pieces.drop_last().map_values(|p: Seq<char>| lowercase_of(strip_dots(trim(p)))));
    }
}

/// `v` without its leading dots.
fn strip_dots_chars(v: &Vec<char>) -> (r: String)
    ensures
        r@ == strip_dots(v@),
{
    let mut k: usize = 0;
    while k < v.len() && v[k] == '.'
        invariant
            k <= v@.len(),
            dots_end(v@, 0) == dots_end(v@, k as int),
        decreases v@.len() - k,
    {
        k += 1;
    }
    string_of_range(v, k, v.len())
}

/// The extensions listed in the form field `field`.
fn extensions_from(field: &str) -> (r: Vec<String>)
    ensures
        string_views(r@) == extensions_of(field@),
{
    let v = to_chars(field);
    let pieces = split_chars(&v, ',');
    let ghost pv = chars_views(pieces@);
    let mut out: Vec<String> = Vec::new();
    let mut i: usize = 0;
    while i < pieces.len()
        invariant
            i <= pieces@.len(),
            pv == chars_views(pieces@),
            string_views(out@) == ext_items(pv.take(i as int)),
        decreases pieces@.len() - i,
    {
        assert(pv.take(i + 1).drop_last() =~= pv.take(i as int));
        assert(pv.take(i + 1).last() == pieces@[i as int]@);
        let t = crate::text::trim_chars(&pieces[i]);
        let stripped = strip_dots_chars(&t);
        let lower = lowercase(stripped.as_str());
        let lv = to_chars(lower.as_str());
        if lv.len() > 0 {
            let ghost before = out@;
            out.push(lower);
            assert(string_views(out@) =~= string_views(before).push(ext_item(pieces@[i as int]@)));
        }
        i += 1;
    }
    assert(pv.take(pieces@.len() as int) =~= pv);
    out
}


/// What the size and date fields of the form read as: `None` for a blank
/// field, `Some(None)` for one that does not parse, `Some(Some(v))` for its
/// value.
#[derive(Debug, Clone, Copy, PartialEq, Eq, Structural)]
pub struct FormValues {
    pub min: Option<Option<u64>>,
    pub max: Option<Option<u64>>,
    pub after: Option<Option<i128>>,
    pub before: Option<Option<i128>>,
}

/// The value read from a field, when there is one.
pub open spec fn value_of<T>(r: Option<Option<T>>) -> Option<T> {
    match r {
        Some(Some(v)) => Some(v),
        _ => None,
    }
}

/// The filter the form fields `fields` describe, given what their size and
/// date fields read as, when every field is valid.
pub open spec fn form_filter(basis: TimeBasis, fields: Seq<String>, vals: FormValues, f: Filter) -> bool {
    let name = trim(fields[1]@);
    &&& string_views(f.extensions@) == extensions_of(fields[0]@)
    &&& f.name_contains == if name.len() == 0 {
        None::<String>
    } else {
        Some(f.name_contains->0)
    }
    &&& (name.len() > 0 ==> f.name_contains->0@ == lowercase_of(name))
    &&& f.min_size == value_of(vals.min)
    &&& f.max_size == value_of(vals.max)
    &&& f.time_basis == basis
    &&& f.after == value_of(vals.after)
    &&& f.before == value_of(vals.before)
}

/// `n` is `o` with the form kept open and showing the error `msg`.
pub open spec fn form_error(o: App, d: FilterDraft, n: App, msg: Seq<char>) -> bool {
    &&& n == (App { filter_draft: n.filter_draft, ..o })
    &&& n.filter_draft is Some
    &&& n.filter_draft->0.fields == d.fields
    &&& n.filter_draft->0.focus == d.focus
    &&& n.filter_draft->0.error is Some
    &&& n.filter_draft->0.error->0@ == msg
}

/// The first invalid field of the form, in the order min size, max size,
/// after, before.
pub open spec fn form_problem(vals: FormValues) -> Option<Seq<char>> {
    if vals.min == Some(None::<u64>) {
        Some("Invalid min size"@)
    } else if vals.max == Some(None::<u64>) {
        Some("Invalid max size"@)
    } else if vals.after == Some(None::<i128>) {
        Some("Invalid 'after' date (use YYYY-MM-DD)"@)
    } else if vals.before == Some(None::<i128>) {
        Some("Invalid 'before' date (use YYYY-MM-DD)"@)
    } else {
        None
    }
}

/// `n` is `o` with the filter `f` in place of the form, the rows recomputed,
/// and a status counting them.
pub open spec fn filter_installed(o: App, f: Filter, n: App) -> bool {
    &&& n == (App {
        filter: f,
        filter_draft: None,
        filtered: n.filtered,
        table_selected: n.table_selected,
        status: n.status,
        ..o
    })
    &&& crate::tui::review::sorted_indices(
        o.entries@,
        crate::tui::review::matching(o.entries@, f),
        o.sort_key,
        o.sort_desc,
        n.filtered@,
    )
    &&& n.table_selected == crate::tui::review::cursor_after(o.table_selected, n.filtered@.len() as int)
    &&& n.status@ == decimal(n.filtered@.len()) + " file(s) match filters"@
}

/// `n` is `o` after applying its filter form, its size and date fields having
/// read as `vals`. The first invalid field is reported in the form; otherwise
/// the form closes, the filter is replaced and the rows recomputed.
pub open spec fn form_applied(o: App, vals: FormValues, n: App) -> bool {
    match o.filter_draft {
        None => n == o,
        Some(d) => match form_problem(vals) {
            Some(msg) => form_error(o, d, n, msg),
            None => form_filter(o.config.time_basis, d.fields@, vals, n.filter) && filter_installed(
                o,
                n.filter,
                n,
            ),
        },
    }
}

/// What a date field parsed to may be: `None` exactly when blank; not a date
/// (`Some(None)`) whenever chrono rejects it; for a date that chrono reads, what
/// the local time zone's answer for its midnight gives (the instant where that
/// midnight occurs exactly once, not a date otherwise); a date is the local
/// midnight of the date typed (less than a day from its midnight UTC).
pub open spec fn date_result(field: Seq<char>, r: Option<Option<i128>>) -> bool {
    &&& (r is None <==> trim(field).len() == 0)
    &&& (trim(field).len() > 0 && ymd_parse(trim(field)) is None ==> r == Some(None::<i128>))
    &&& (ymd_parse(trim(field)) matches Some((y, m, d)) ==> (trim(field).len() > 0 ==> exists|lt: LocalTimes|
        #![trigger local_answer_fits(y, m, d, 0, lt)]
        local_answer_fits(y, m, d, 0, lt) && r == Some(date_from_answer(lt))))
    &&& (r matches Some(Some(t)) ==> near_midnight_of(field, t))
}

/// What a date field of the form reads as.
pub fn parse_optional_date(field: &String) -> (r: Option<Option<i128>>)
    ensures
        date_result(field@, r),
{
    let t = trim_str(field.as_str());
    if to_chars(t.as_str()).len() == 0 {
        None
    } else {
        Some(parse_date(field.as_str()))
    }
}

/// The filter the form fields describe, or the first invalid field's message.
fn read_form(fields: &Vec<String>, basis: TimeBasis, vals: FormValues) -> (r: Result<Filter, &'static str>)
    requires
        fields@.len() == 6,
    ensures
        match r {
            Ok(f) => form_problem(vals) is None && form_filter(basis, fields@, vals, f),
            Err(m) => form_problem(vals) == Some(m@),
        },
{
    if vals.min == Some(None::<u64>) {
        return Err("Invalid min size");
    }
    if vals.max == Some(None::<u64>) {
        return Err("Invalid max size");
    }
    if vals.after == Some(None::<i128>) {
        return Err("Invalid 'after' date (use YYYY-MM-DD)");
    }
    if vals.before == Some(None::<i128>) {
        return Err("Invalid 'before' date (use YYYY-MM-DD)");
    }
    let name_t = trim_str(fields[1].as_str());
    let name: Option<String> = if to_chars(name_t.as_str()).len() == 0 {
        None
    } else {
        Some(lowercase(name_t.as_str()))
    };
    Ok(
        Filter {
            extensions: extensions_from(fields[0].as_str()),
            name_contains: name,
            min_size: match vals.min {
                Some(v) => v,
                None => None,
            },
            max_size: match vals.max {
                Some(v) => v,
                None => None,
            },
            time_basis: basis,
            after: match vals.after {
                Some(v) => v,
                None => None,
            },
            before: match vals.before {
                Some(v) => v,
                None => None,
            },
        },
    )
}

impl App {
    fn show_form_error(&mut self, msg: &str)
        requires
            old(self).wf(),
            old(self).filter_draft is Some,
        ensures
            final(self).wf(),
            form_error(*old(self), old(self).filter_draft->0, *final(self), msg@),
    {
        let d = self.filter_draft.take();
        match d {
            Some(d) => {
                self.filter_draft = Some(FilterDraft { fields: d.fields, focus: d.focus, error: Some(String::from_str(msg)) });
            },
            None => {},
        }
    }

    fn install_filter(&mut self, f: Filter)
        requires
            old(self).wf(),
        ensures
            final(self).wf(),
            *final(self) == (App { filter: f, filter_draft: None, ..*old(self) }),
    {
        self.filter = f;
        self.filter_draft = None;
    }

    fn finish_filter(&mut self, f: Filter)
        requires
            old(self).wf(),
        ensures
            final(self).wf(),
            filter_installed(*old(self), f, *final(self)),
    {
        self.install_filter(f);
        self.rebuild_view();
        self.status = decimal_string(self.filtered.len() as u64).concat(" file(s) match filters");
    }

    /// Apply the filter form, its size and date fields having read as `vals`.
    pub fn apply_filter_fields(&mut self, vals: FormValues)
        requires
            old(self).wf(),
        ensures
            final(self).wf(),
            form_applied(*old(self), vals, *final(self)),
    {
        let r = match &self.filter_draft {
            None => {
                return;
            },
            Some(d) => read_form(&d.fields, self.config.time_basis, vals),
        };
        match r {
            Ok(f) => self.finish_filter(f),
            Err(msg) => self.show_form_error(msg),
        }
    }

    /// Apply the filter form: read its date fields, and with its size fields
    /// read as `min` / `max` (`None`: blank, `Some(None)`: not a size), either
    /// replace the filter or report the first invalid field.
    pub fn apply_filter_draft(&mut self, min: Option<Option<u64>>, max: Option<Option<u64>>)
        requires
            old(self).wf(),
        ensures
            final(self).wf(),
            old(self).filter_draft is None ==> *final(self) == *old(self),
            old(self).filter_draft matches Some(d) ==> exists|a: Option<Option<i128>>, b: Option<Option<i128>>|
                date_result(d.fields@[4]@, a) && date_result(d.fields@[5]@, b) && #[trigger] form_applied(
                    *old(self),
                    FormValues { min, max, after: a, before: b },
                    *final(self),
                ),
    {
        let (after, before) = match &self.filter_draft {
            None => {
                return;
            },
            Some(d) => (parse_optional_date(&d.fields[4]), parse_optional_date(&d.fields[5])),
        };
        self.apply_filter_fields(FormValues { min, max, after, before });
    }
}

/// `n` is `o` with its form's focus on field `focus` and the texts of its
/// fields `texts` (the error kept).
pub open spec fn form_now(o: App, n: App, focus: int, texts: Seq<Seq<char>>) -> bool {
    &&& n == (App { filter_draft: n.filter_draft, ..o })
    &&& n.filter_draft is Some
    &&& n.filter_draft->0.focus == focus
    &&& string_views(n.filter_draft->0.fields@) == texts
    &&& n.filter_draft->0.error == o.filter_draft->0.error
}

/// `n` is `o` after `key` reached its open filter form: Esc closes it, Enter
/// leaves it as it is (applying it is asked for as outside work, since its size
/// fields are read by the program), Tab/Down and BackTab/Up move the focus round the six fields,
/// Backspace and characters edit the focused field.
#[verifier::opaque]
pub open spec fn filter_key(o: App, key: Key, n: App) -> bool {
    let d = o.filter_draft->0;
    let texts = string_views(d.fields@);
    let cur = texts[d.focus as int];
    if key.code == KeyCode::Esc {
        n == (App { filter_draft: None, ..o })
    } else if key.code == KeyCode::Enter {
        n == o
    } else if key.code == KeyCode::Tab || key.code == KeyCode::Down {
        form_now(o, n, (d.focus + 1) % 6, texts)
    } else if key.code == KeyCode::BackTab || key.code == KeyCode::Up {
        form_now(o, n, (d.focus + 5) % 6, texts)
    } else if key.code == KeyCode::Backspace {
        form_now(
            o,
            n,
            d.focus as int,
            texts.update(
                d.focus as int,
                if cur.len() > 0 {
                    cur.drop_last()
                } else {
                    cur
                },
            ),
        )
    } else if key.code is Char {
        form_now(o, n, d.focus as int, texts.update(d.focus as int, cur.push(key.code->Char_0)))
    } else {
        n == o
    }
}

impl App {
    fn put_draft(&mut self, d: FilterDraft)
        requires
            old(self).wf(),
            d.fields@.len() == 6,
            d.focus < 6,
        ensures
            final(self).wf(),
            *final(self) == (App { filter_draft: Some(d), ..*old(self) }),
    {
        self.filter_draft = Some(d);
    }

    /// Take the open form out, to put it back changed.
    fn take_draft(&mut self) -> (d: FilterDraft)
        requires
            old(self).wf(),
            old(self).filter_draft is Some,
        ensures
            final(self).wf(),
            *final(self) == (App { filter_draft: None, ..*old(self) }),
            d == old(self).filter_draft->0,
            d.fields@.len() == 6,
            d.focus < 6,
    {
        match self.filter_draft.take() {
            Some(d) => d,
            None => {
                assert(false);
                FilterDraft { fields: Vec::new(), focus: 0, error: None }
            },
        }
    }

    fn form_focus_step(&mut self, key: Key, step: usize)
        requires
            old(self).wf(),
            old(self).filter_draft is Some,
            (step == 1 && (key.code == KeyCode::Tab || key.code == KeyCode::Down)) || (step == 5 && (key.code
                == KeyCode::BackTab || key.code == KeyCode::Up) && key.code != KeyCode::Tab && key.code != KeyCode::Down),
        ensures
            final(self).wf(),
            filter_key(*old(self), key, *final(self)),
    {
        reveal(filter_key);
        let d = self.take_draft();
        self.put_draft(FilterDraft { fields: d.fields, focus: (d.focus + step) % 6, error: d.error });
    }

    fn form_erase(&mut self, key: Key)
        requires
            old(self).wf(),
            old(self).filter_draft is Some,
            key.code == KeyCode::Backspace,
        ensures
            final(self).wf(),
            filter_key(*old(self), key, *final(self)),
    {
        reveal(filter_key);
        let d = self.take_draft();
        let mut fields = d.fields;
        let focus = d.focus;
        let ghost texts = string_views(fields@);
        let mut t = fields[focus].clone();
        crate::text::string_pop(&mut t);
        fields.set(focus, t);
        assert(string_views(fields@) =~= texts.update(focus as int, if texts[focus as int].len() > 0 {
            texts[focus as int].drop_last()
        } else {
            texts[focus as int]
        }));
        self.put_draft(FilterDraft { fields, focus, error: d.error });
    }

    fn form_type(&mut self, key: Key, c: char)
        requires
            old(self).wf(),
            old(self).filter_draft is Some,
            key.code == KeyCode::Char(c),
        ensures
            final(self).wf(),
            filter_key(*old(self), key, *final(self)),
    {
        reveal(filter_key);
        let d = self.take_draft();
        let mut fields = d.fields;
        let focus = d.focus;
        let ghost texts = string_views(fields@);
        let mut t = fields[focus].clone();
        crate::text::string_push(&mut t, c);
        fields.set(focus, t);
        assert(string_views(fields@) =~= texts.update(focus as int, texts[focus as int].push(c)));
        self.put_draft(FilterDraft { fields, focus, error: d.error });
    }

    fn form_close(&mut self, key: Key)
        requires
            old(self).wf(),
            old(self).filter_draft is Some,
            key.code == KeyCode::Esc,
        ensures
            final(self).wf(),
            filter_key(*old(self), key, *final(self)),
    {
        reveal(filter_key);
        self.filter_draft = None;
    }

    fn form_submit(&mut self, key: Key)
        requires
            old(self).wf(),
            old(self).filter_draft is Some,
            key.code == KeyCode::Enter,
        ensures
            final(self).wf(),
            filter_key(*old(self), key, *final(self)),
    {
        reveal(filter_key);
    }

    fn form_ignore(&mut self, key: Key)
        requires
            old(self).wf(),
            old(self).filter_draft is Some,
            !(key.code is Char),
            key.code != KeyCode::Esc && key.code != KeyCode::Enter && key.code != KeyCode::Tab && key.code
                != KeyCode::Down && key.code != KeyCode::BackTab && key.code != KeyCode::Up && key.code
                != KeyCode::Backspace,
        ensures
            final(self).wf(),
            filter_key(*old(self), key, *final(self)),
    {
        reveal(filter_key);
    }

    /// React to `key` while the filter form is open; Enter asks for the form
    /// to be applied.
    pub(crate) fn on_key_filter(&mut self, key: Key) -> (eff: Effect)
        requires
            old(self).wf(),
            old(self).filter_draft is Some,
        ensures
            final(self).wf(),
            filter_key(*old(self), key, *final(self)),
            if key.code == KeyCode::Enter {
                eff is ApplyFilter
            } else {
                eff is Nothing
            },
    {
        let code = key.code;
        if code == KeyCode::Enter {
            self.form_submit(key);
            return Effect::ApplyFilter;
        }
        if code == KeyCode::Esc {
            self.form_close(key);
        } else if code == KeyCode::Tab || code == KeyCode::Down {
            self.form_focus_step(key, 1);
        } else if code == KeyCode::BackTab || code == KeyCode::Up {
            self.form_focus_step(key, 5);
        } else if code == KeyCode::Backspace {
            self.form_erase(key);
        } else {
            match code {
                KeyCode::Char(c) => self.form_type(key, c),
                _ => self.form_ignore(key),
            }
        }
        Effect::Nothing
    }
}

} // verus!
