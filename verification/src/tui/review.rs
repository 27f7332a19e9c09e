//! The review screen: which entries are shown (filtered and sorted), the
//! cursor, and the set of entries marked for deletion.

use vstd::prelude::*;

use crate::clean_core::filter::{Filter, empty_filter, filter_accepts};
use crate::clean_core::model::{FileEntry, ext_view};
use crate::sorting::{SortVal, is_stable_order, key_less, key_view, keys_view, seq_less, stable_order};
use crate::numbers::{decimal, decimal_string};
use crate::text::{file_name_of, lowercase_of, to_chars};
use crate::tui::app::{App, Screen, SortKey, sort_key_label, sort_key_next};

verus! {

/// The sort key of entry `e` for `key`: the lower-cased file name, the size,
/// the modification time (absent times first) or the extension.
pub open spec fn entry_key(e: FileEntry, key: SortKey) -> (int, int, Seq<char>) {
    match key {
        SortKey::Name => (0, 0, lowercase_of(file_name_of(e.path@))),
        SortKey::Size => (e.size as int, 0, Seq::empty()),
        SortKey::Modified => match e.modified {
            Some(t) => (1, t as int, Seq::empty()),
            None => (0, 0, Seq::empty()),
        },
        SortKey::Extension => (0, 0, ext_view(e)),
    }
}

/// Sorting by name compares lower-cased file names alone, whatever the
/// directories: one entry comes before another exactly when its lower-cased
/// file name is lexicographically smaller, and two entries tie exactly when
/// their lower-cased file names are equal.
pub proof fn law_name_order_reads_file_names(a: FileEntry, b: FileEntry)
    ensures
        key_less(entry_key(a, SortKey::Name), entry_key(b, SortKey::Name)) <==> seq_less(
            lowercase_of(file_name_of(a.path@)),
            lowercase_of(file_name_of(b.path@)),
        ),
        entry_key(a, SortKey::Name) == entry_key(b, SortKey::Name) <==> lowercase_of(file_name_of(a.path@))
            == lowercase_of(file_name_of(b.path@)),
{
}

/// Sorting by size compares sizes: one entry comes before another exactly when
/// it is smaller, and they tie exactly when their sizes are equal.
pub proof fn law_size_order_reads_sizes(a: FileEntry, b: FileEntry)
    ensures
        key_less(entry_key(a, SortKey::Size), entry_key(b, SortKey::Size)) <==> a.size < b.size,
        entry_key(a, SortKey::Size) == entry_key(b, SortKey::Size) <==> a.size == b.size,
{
}

/// Sorting by modification time puts an unknown time first and otherwise
/// compares the times; entries tie exactly when their times are equal (or
/// both unknown).
pub proof fn law_modified_order_reads_times(a: FileEntry, b: FileEntry)
    ensures
        key_less(entry_key(a, SortKey::Modified), entry_key(b, SortKey::Modified)) <==> match (
            a.modified,
            b.modified,
        ) {
            (None, Some(_)) => true,
            (Some(x), Some(y)) => x < y,
            _ => false,
        },
        entry_key(a, SortKey::Modified) == entry_key(b, SortKey::Modified) <==> a.modified == b.modified,
{
}

/// Sorting by extension compares the extensions lexicographically (a missing
/// extension reads as empty); entries tie exactly when the extensions read the
/// same.
pub proof fn law_extension_order_reads_extensions(a: FileEntry, b: FileEntry)
    ensures
        key_less(entry_key(a, SortKey::Extension), entry_key(b, SortKey::Extension)) <==> seq_less(
            match a.extension {
                Some(x) => x@,
                None => Seq::<char>::empty(),
            },
            match b.extension {
                Some(x) => x@,
                None => Seq::<char>::empty(),
            },
        ),
        entry_key(a, SortKey::Extension) == entry_key(b, SortKey::Extension) <==> (match a.extension {
            Some(x) => x@,
            None => Seq::<char>::empty(),
        }) == (match b.extension {
            Some(x) => x@,
            None => Seq::<char>::empty(),
        }),
{
}

/// The sort key of `e` for `key`.
pub fn sort_val(e: &FileEntry, key: SortKey) -> (r: SortVal)
    ensures
        key_view(r) == entry_key(*e, key),
{
    match key {
        SortKey::Name => {
            let name = e.file_name();
            let lower = crate::text::lowercase(name.as_str());
            SortVal { major: 0, minor: 0, text: to_chars(lower.as_str()) }
        },
        SortKey::Size => SortVal { major: e.size as i128, minor: 0, text: Vec::new() },
        SortKey::Modified => match e.modified {
            Some(t) => SortVal { major: 1, minor: t, text: Vec::new() },
            None => SortVal { major: 0, minor: 0, text: Vec::new() },
        },
        SortKey::Extension => SortVal { major: 0, minor: 0, text: to_chars(e.ext_str()) },
    }
}

/// The positions of the entries that `f` accepts, in ascending order.
pub open spec fn matching(entries: Seq<FileEntry>, f: Filter) -> Seq<usize>
    decreases entries.len(),
{
    if entries.len() == 0 {
        Seq::empty()
    } else {
        let rest = matching(entries.drop_last(), f);
        if filter_accepts(f, entries.last()) {
            rest.push((entries.len() - 1) as usize)
        } else {
            rest
        }
    }
}

/// `out` is `idxs` stably sorted by the keys of the entries they point to.
pub open spec fn sorted_indices(
    entries: Seq<FileEntry>,
    idxs: Seq<usize>,
    key: SortKey,
    desc: bool,
    out: Seq<usize>,
) -> bool {
    exists|perm: Seq<usize>|
        is_stable_order(idxs.map_values(|i: usize| entry_key(entries[i as int], key)), desc, perm)
            && #[trigger] perm.len() == out.len() && forall|k: int|
            0 <= k < out.len() ==> out[k] == idxs[#[trigger] perm[k] as int]
}

/// Every position is a valid index of `n` entries.
pub open spec fn all_below(idxs: Seq<usize>, n: int) -> bool {
    forall|k: int| 0 <= k < idxs.len() ==> (#[trigger] idxs[k] as int) < n
}

proof fn lemma_matching_props(entries: Seq<FileEntry>, f: Filter)
    requires
        entries.len() <= usize::MAX,
    ensures
        all_below(matching(entries, f), entries.len() as int),
        matching(entries, f).no_duplicates(),
        forall|k: int, j: int|
            0 <= k < j < matching(entries, f).len() ==> matching(entries, f)[k]
                < matching(entries, f)[j],
    decreases entries.len(),
{
    if entries.len() > 0 {
        let rest = matching(entries.drop_last(), f);
        lemma_matching_props(entries.drop_last(), f);
        let m = matching(entries, f);
        assert forall|k: int, j: int| 0 <= k < j < m.len() implies m[k] < m[j] by {
            if filter_accepts(f, entries.last()) {
                assert(m == rest.push((entries.len() - 1) as usize));
                assert(m[k] == rest[k]);
                if j >= rest.len() {
                    assert((rest[k] as int) < entries.len() - 1);
                } else {
                    assert(m[j] == rest[j]);
                    assert(rest[k] < rest[j]);
                }
            } else {
                assert(m == rest);
                assert(rest[k] < rest[j]);
            }
        }
        assert forall|a: int, b: int| 0 <= a < m.len() && 0 <= b < m.len() && a != b implies m[a] != m[b] by {
            if a < b {
                assert(m[a] < m[b]);
            } else {
                assert(m[b] < m[a]);
            }
        }
    }
}

/// The positions of the entries that `f` accepts, in ascending order.
pub fn matching_positions(entries: &Vec<FileEntry>, f: &Filter) -> (r: Vec<usize>)
    ensures
        r@ == matching(entries@, *f),
{
    let mut out: Vec<usize> = Vec::new();
    let mut i: usize = 0;
    while i < entries.len()
        invariant
            i <= entries@.len(),
            out@ == matching(entries@.take(i as int), *f),
        decreases entries@.len() - i,
    {
        assert(entries@.take(i + 1).drop_last() =~= entries@.take(i as int));
        if f.matches(&entries[i]) {
            out.push(i);
        }
        i += 1;
    }
    assert(entries@.take(entries@.len() as int) =~= entries@);
    out
}

/// `idxs` stably sorted by the keys of the entries they point to (ascending,
/// or descending when `desc`).
pub fn ordered_indices(entries: &Vec<FileEntry>, idxs: &Vec<usize>, key: SortKey, desc: bool) -> (r: Vec<usize>)
    requires
        all_below(idxs@, entries@.len() as int),
    ensures
        sorted_indices(entries@, idxs@, key, desc, r@),
        r@.len() == idxs@.len(),
        all_below(r@, entries@.len() as int),
        idxs@.no_duplicates() ==> r@.no_duplicates(),
        r@.to_set() == idxs@.to_set(),
{
    let ghost kv = idxs@.map_values(|i: usize| entry_key(entries@[i as int], key));
    let mut keys: Vec<SortVal> = Vec::new();
    let mut k: usize = 0;
    while k < idxs.len()
        invariant
            k <= idxs@.len(),
            all_below(idxs@, entries@.len() as int),
            kv == idxs@.map_values(|i: usize| entry_key(entries@[i as int], key)),
            keys_view(keys@) == kv.take(k as int),
        decreases idxs@.len() - k,
    {
        let v = sort_val(&entries[idxs[k]], key);
        let ghost before = keys@;
        keys.push(v);
        assert(kv[k as int] == entry_key(entries@[idxs@[k as int] as int], key));
        assert(keys_view(keys@) =~= keys_view(before).push(key_view(v)));
        assert(kv.take(k + 1) =~= kv.take(k as int).push(kv[k as int]));
        k += 1;
    }
    assert(kv.take(idxs@.len() as int) =~= kv);
    let perm = stable_order(&keys, desc);
    let mut out: Vec<usize> = Vec::new();
    let mut j: usize = 0;
    while j < perm.len()
        invariant
            j <= perm@.len(),
            crate::sorting::is_permutation(perm@, idxs@.len() as int),
            out@.len() == j,
            forall|m: int| 0 <= m < j ==> out@[m] == idxs@[#[trigger] perm@[m] as int],
        decreases perm@.len() - j,
    {
        out.push(idxs[perm[j]]);
        j += 1;
    }
    proof {
        assert(all_below(out@, entries@.len() as int)) by {
            assert forall|m: int| 0 <= m < out@.len() implies (#[trigger] out@[m] as int) < entries@.len() by {
                assert(out@[m] == idxs@[perm@[m] as int]);
            }
        }
        if idxs@.no_duplicates() {
            assert forall|a: int, b: int| 0 <= a < out@.len() && 0 <= b < out@.len() && a != b implies out@[a] != out@[b] by {
                assert(out@[a] == idxs@[perm@[a] as int]);
                assert(out@[b] == idxs@[perm@[b] as int]);
                assert(perm@[a] != perm@[b]);
            }
        }
        crate::sorting::lemma_permutation_onto(perm@, idxs@.len() as int);
        assert forall|x: usize| out@.to_set().contains(x) == idxs@.to_set().contains(x) by {
            if out@.to_set().contains(x) {
                let m = choose|m: int| 0 <= m < out@.len() && out@[m] == x;
                assert(idxs@[perm@[m] as int] == x);
            }
            if idxs@.to_set().contains(x) {
                let p = choose|p: int| 0 <= p < idxs@.len() && idxs@[p] == x;
                assert(crate::sorting::occurs(perm@, p));
                let m = choose|m: int| 0 <= m < perm@.len() && perm@[m] as int == p;
                assert(out@[m] == x);
            }
        }
        assert(out@.to_set() =~= idxs@.to_set());
    }
    out
}

} // verus!

verus! {

/// `set` with `x` added when absent and removed when present.
pub open spec fn toggled(set: Set<usize>, x: usize) -> Set<usize> {
    if set.contains(x) {
        set.remove(x)
    } else {
        set.insert(x)
    }
}

/// The elements in exactly one of `a` and `b`.
pub open spec fn sym_diff(a: Set<usize>, b: Set<usize>) -> Set<usize> {
    a.difference(b).union(b.difference(a))
}

pub(crate) proof fn lemma_bound_from_set(s: Seq<usize>, t: Seq<usize>, x: usize, n: int)
    requires
        s.to_set().subset_of(t.to_set().insert(x)),
        all_below(t, n),
        (x as int) < n,
    ensures
        all_below(s, n),
{
    assert forall|k: int| 0 <= k < s.len() implies (#[trigger] s[k] as int) < n by {
        assert(s.to_set().contains(s[k]));
        if s[k] != x {
            assert(t.to_set().contains(s[k]));
            let j = choose|j: int| 0 <= j < t.len() && t[j] == s[k];
            assert(t[j] == s[k]);
        }
    }
}

/// Where `x` occurs in `v`, if it does.
pub(crate) fn position_of(v: &Vec<usize>, x: usize) -> (r: Option<usize>)
    ensures
        match r {
            Some(p) => p < v@.len() && v@[p as int] == x,
            None => !v@.contains(x),
        },
{
    let mut i: usize = 0;
    while i < v.len()
        invariant
            i <= v@.len(),
            forall|j: int| 0 <= j < i ==> v@[j] != x,
        decreases v@.len() - i,
    {
        if v[i] == x {
            return Some(i);
        }
        i += 1;
    }
    None
}

/// Adds `x` to the set held in `v` (no change when already there).
pub(crate) fn insert_into(v: &mut Vec<usize>, x: usize)
    requires
        old(v)@.no_duplicates(),
    ensures
        final(v)@.no_duplicates(),
        final(v)@.to_set() == old(v)@.to_set().insert(x),
{
    match position_of(v, x) {
        Some(_) => {
            assert(old(v)@.to_set().insert(x) =~= old(v)@.to_set());
        },
        None => {
            let ghost before = v@;
            v.push(x);
            assert(v@.to_set() =~= before.to_set().insert(x)) by {
                assert forall|y: usize| v@.to_set().contains(y) == before.to_set().insert(x).contains(y) by {
                    if v@.to_set().contains(y) && y != x {
                        let j = choose|j: int| 0 <= j < v@.len() && v@[j] == y;
                        assert(j < before.len());
                        assert(before[j] == y);
                    }
                    if before.to_set().contains(y) {
                        let j = choose|j: int| 0 <= j < before.len() && before[j] == y;
                        assert(v@[j] == y);
                    }
                    if y == x {
                        assert(v@[before.len() as int] == x);
                    }
                }
            }
        },
    }
}

/// Adds `x` to the set held in `v` when absent, removes it when present.
pub(crate) fn toggle_in(v: &mut Vec<usize>, x: usize)
    requires
        old(v)@.no_duplicates(),
    ensures
        final(v)@.no_duplicates(),
        final(v)@.to_set() == toggled(old(v)@.to_set(), x),
{
    match position_of(v, x) {
        Some(p) => {
            let ghost before = v@;
            v.remove(p);
            assert(v@ =~= before.take(p as int) + before.skip(p + 1));
            assert forall|a: int, b: int| 0 <= a < v@.len() && 0 <= b < v@.len() && a != b implies v@[a] != v@[b] by {
                let oa = if a < p { a } else { a + 1 };
                let ob = if b < p { b } else { b + 1 };
                assert(v@[a] == before[oa]);
                assert(v@[b] == before[ob]);
            }
            assert(before.to_set().contains(x));
            assert(v@.to_set() =~= before.to_set().remove(x)) by {
                assert forall|y: usize| v@.to_set().contains(y) == before.to_set().remove(x).contains(y) by {
                    if v@.to_set().contains(y) {
                        let j = choose|j: int| 0 <= j < v@.len() && v@[j] == y;
                        let oj = if j < p { j } else { j + 1 };
                        assert(before[oj] == y);
                        assert(oj != p);
                    }
                    if before.to_set().contains(y) && y != x {
                        let j = choose|j: int| 0 <= j < before.len() && before[j] == y;
                        assert(j != p);
                        let nj = if j < p { j } else { j - 1 };
                        assert(v@[nj] == y);
                    }
                }
            }
        },
        None => {
            insert_into(v, x);
        },
    }
}

/// The table cursor after the shown rows changed to `len` rows: kept when still
/// in range, else on the last row; on the first row when there was none.
pub open spec fn cursor_after(sel: Option<usize>, len: int) -> Option<usize> {
    match sel {
        Some(s) => if s >= len {
            if len == 0 {
                None
            } else {
                Some((len - 1) as usize)
            }
        } else {
            Some(s)
        },
        None => if len > 0 {
            Some(0usize)
        } else {
            None
        },
    }
}

/// `n` is `o` with the shown rows re-sorted by the current key and direction.
pub open spec fn resorted(o: App, n: App) -> bool {
    &&& n == (App { filtered: n.filtered, ..o })
    &&& sorted_indices(o.entries@, o.filtered@, o.sort_key, o.sort_desc, n.filtered@)
}

/// `n` is `o` with the shown rows recomputed from the filter, sorted, and the
/// cursor kept in range.
pub open spec fn rebuilt(o: App, n: App) -> bool {
    &&& n == (App { filtered: n.filtered, table_selected: n.table_selected, ..o })
    &&& sorted_indices(o.entries@, matching(o.entries@, o.filter), o.sort_key, o.sort_desc, n.filtered@)
    &&& n.table_selected == cursor_after(o.table_selected, n.filtered@.len() as int)
}

impl App {
    /// Re-sort the shown rows by the current key and direction.
    pub(crate) fn sort_filtered(&mut self)
        requires
            old(self).wf(),
        ensures
            final(self).wf(),
            resorted(*old(self), *final(self)),
    {
        let out = ordered_indices(&self.entries, &self.filtered, self.sort_key, self.sort_desc);
        self.filtered = out;
    }

    /// Replace the shown rows and the cursor.
    fn set_rows(&mut self, rows: Vec<usize>, sel: Option<usize>)
        requires
            old(self).wf(),
            all_below(rows@, old(self).entries@.len() as int),
            rows@.no_duplicates(),
            match sel {
                Some(s) => s < rows@.len(),
                None => true,
            },
        ensures
            final(self).wf(),
            *final(self) == (App { filtered: rows, table_selected: sel, ..*old(self) }),
    {
        self.filtered = rows;
        self.table_selected = sel;
    }

    /// Recompute the shown rows from the filter, sort them, and keep the cursor
    /// in range.
    pub(crate) fn rebuild_view(&mut self)
        requires
            old(self).wf(),
        ensures
            final(self).wf(),
            rebuilt(*old(self), *final(self)),
    {
        let (out, sel) = view_rows(&self.entries, &self.filter, self.sort_key, self.sort_desc, self.table_selected);
        self.set_rows(out, sel);
    }
}

/// The shown rows for `entries` under `filter`, sorted, and the cursor `sel`
/// kept in range.
fn view_rows(entries: &Vec<FileEntry>, filter: &Filter, key: SortKey, desc: bool, sel: Option<usize>) -> (r: (
    Vec<usize>,
    Option<usize>,
))
    ensures
        sorted_indices(entries@, matching(entries@, *filter), key, desc, r.0@),
        r.1 == cursor_after(sel, r.0@.len() as int),
        all_below(r.0@, entries@.len() as int),
        r.0@.no_duplicates(),
        match r.1 {
            Some(s) => s < r.0@.len(),
            None => true,
        },
{
    let m = matching_positions(entries, filter);
    let n = entries.len();
    proof {
        lemma_matching_props(entries@, *filter);
    }
    let out = ordered_indices(entries, &m, key, desc);
    let len = out.len();
    let sel: Option<usize> = match sel {
        Some(s) => if s >= len {
            if len == 0 {
                None
            } else {
                Some(len - 1)
            }
        } else {
            Some(s)
        },
        None => if len > 0 {
            Some(0)
        } else {
            None
        },
    };
    (out, sel)
}


/// `t` clamped to `lo..=hi`.
pub open spec fn clamped(t: int, lo: int, hi: int) -> int {
    if t < lo {
        lo
    } else if t > hi {
        hi
    } else {
        t
    }
}

/// `n` is `o` with the table cursor moved by `delta` rows, clamped to the rows
/// (nothing changes when no row is shown).
pub open spec fn cursor_moved(o: App, n: App, delta: int) -> bool {
    if o.filtered@.len() == 0 {
        n == o
    } else {
        let cur: int = match o.table_selected {
            Some(s) => s as int,
            None => 0,
        };
        n == (App {
            table_selected: Some(clamped(cur + delta, 0, o.filtered@.len() - 1) as usize),
            ..o
        })
    }
}

/// `n` is `o` with the table cursor put on row `pos` (or the last row).
pub open spec fn cursor_set(o: App, n: App, pos: int) -> bool {
    if o.filtered@.len() == 0 {
        n == o
    } else {
        n == (App {
            table_selected: Some(
                (if pos < o.filtered@.len() - 1 {
                    pos
                } else {
                    o.filtered@.len() - 1
                }) as usize,
            ),
            ..o
        })
    }
}

/// `n` is `o` with the marked entries replaced by `m`.
pub open spec fn marks_now(o: App, n: App, m: Set<usize>) -> bool {
    &&& n == (App { selected: n.selected, ..o })
    &&& n.marked() == m
}

/// `n` is `o` with the entry under the cursor marked or unmarked.
pub open spec fn current_toggled(o: App, n: App) -> bool {
    match o.table_selected {
        Some(s) if (s as int) < o.filtered@.len() => marks_now(o, n, toggled(o.marked(), o.filtered@[s as int])),
        _ => n == o,
    }
}

impl App {
    /// Replace the marked entries.
    fn set_selected(&mut self, v: Vec<usize>)
        requires
            old(self).wf(),
            all_below(v@, old(self).entries@.len() as int),
            v@.no_duplicates(),
        ensures
            final(self).wf(),
            *final(self) == (App { selected: v, ..*old(self) }),
    {
        self.selected = v;
    }

    /// Move the table cursor by `delta` rows.
    pub(crate) fn move_cursor(&mut self, delta: i64)
        requires
            old(self).wf(),
        ensures
            final(self).wf(),
            cursor_moved(*old(self), *final(self), delta as int),
    {
        if self.filtered.len() == 0 {
            return;
        }
        let cur: i128 = match self.table_selected {
            Some(s) => s as i128,
            None => 0,
        };
        let last: i128 = (self.filtered.len() - 1) as i128;
        let t: i128 = cur + delta as i128;
        let c: i128 = if t < 0 {
            0
        } else if t > last {
            last
        } else {
            t
        };
        self.table_selected = Some(c as usize);
    }

    /// Put the table cursor on row `pos` (or the last row).
    pub(crate) fn set_cursor(&mut self, pos: usize)
        requires
            old(self).wf(),
        ensures
            final(self).wf(),
            cursor_set(*old(self), *final(self), pos as int),
    {
        if self.filtered.len() == 0 {
            return;
        }
        let last = self.filtered.len() - 1;
        self.table_selected = Some(if pos < last { pos } else { last });
    }

    /// Mark or unmark the entry under the cursor.
    pub(crate) fn toggle_current(&mut self)
        requires
            old(self).wf(),
        ensures
            final(self).wf(),
            current_toggled(*old(self), *final(self)),
    {
        match self.table_selected {
            Some(s) => {
                if s < self.filtered.len() {
                    let idx = self.filtered[s];
                    let mut v = self.selected.clone();
                    assert(v@ == self.selected@);
                    toggle_in(&mut v, idx);
                    proof {
                        lemma_bound_from_set(v@, self.selected@, idx, self.entries@.len() as int);
                    }
                    self.set_selected(v);
                }
            },
            None => {},
        }
    }
}

pub(crate) proof fn lemma_take_to_set(s: Seq<usize>, i: int)
    requires
        0 <= i < s.len(),
    ensures
        s.take(i + 1).to_set() == s.take(i).to_set().insert(s[i]),
        s.no_duplicates() ==> !s.take(i).to_set().contains(s[i]),
{
    let t1 = s.take(i + 1);
    let t0 = s.take(i);
    assert(t1 =~= t0.push(s[i]));
    assert(t1.to_set() =~= t0.to_set().insert(s[i])) by {
        assert forall|y: usize| t1.to_set().contains(y) == t0.to_set().insert(s[i]).contains(y) by {
            if t1.to_set().contains(y) {
                let j = choose|j: int| 0 <= j < t1.len() && t1[j] == y;
                if j < i {
                    assert(t0[j] == y);
                }
            }
            if t0.to_set().contains(y) {
                let j = choose|j: int| 0 <= j < t0.len() && t0[j] == y;
                assert(t1[j] == y);
            }
            if y == s[i] {
                assert(t1[i] == y);
            }
        }
    }
    if s.no_duplicates() && t0.to_set().contains(s[i]) {
        let j = choose|j: int| 0 <= j < t0.len() && t0[j] == s[i];
        assert(s[j] == s[i]);
    }
}

proof fn lemma_sym_diff_step(a: Set<usize>, b: Set<usize>, x: usize)
    requires
        !b.contains(x),
    ensures
        sym_diff(a, b.insert(x)) == toggled(sym_diff(a, b), x),
{
    assert(sym_diff(a, b.insert(x)) =~= toggled(sym_diff(a, b), x));
}

proof fn lemma_take_all_to_set(s: Seq<usize>)
    ensures
        s.take(s.len() as int).to_set() == s.to_set(),
        s.take(0).to_set() == Set::<usize>::empty(),
{
    assert(s.take(s.len() as int) =~= s);
    assert(s.take(0).to_set() =~= Set::<usize>::empty());
}

/// `n` is `o` with the marked entries replaced by `m` and the status `msg`.
pub open spec fn marks_and_status(o: App, n: App, m: Set<usize>, msg: Seq<char>) -> bool {
    &&& n == (App { selected: n.selected, status: n.status, ..o })
    &&& n.marked() == m
    &&& n.status@ == msg
}

/// The rows shown, as a set of entry positions.
pub open spec fn shown(o: App) -> Set<usize> {
    o.filtered@.to_set()
}

impl App {
    /// Mark every shown entry; the status tells how many are marked now.
    pub(crate) fn select_all_filtered(&mut self)
        requires
            old(self).wf(),
        ensures
            final(self).wf(),
            marks_and_status(
                *old(self),
                *final(self),
                old(self).marked().union(shown(*old(self))),
                decimal(final(self).selected@.len()) + " file(s) selected"@,
            ),
            final(self).selected@.len() == final(self).marked().len(),
    {
        let mut v = self.selected.clone();
        assert(v@ == self.selected@);
        proof {
            lemma_take_all_to_set(self.filtered@);
        }
        let mut i: usize = 0;
        while i < self.filtered.len()
            invariant
                self.wf(),
                i <= self.filtered@.len(),
                v@.no_duplicates(),
                all_below(v@, self.entries@.len() as int),
                v@.to_set() == self.selected@.to_set().union(self.filtered@.take(i as int).to_set()),
            decreases self.filtered@.len() - i,
        {
            let x = self.filtered[i];
            let ghost before = v@;
            insert_into(&mut v, x);
            proof {
                lemma_take_to_set(self.filtered@, i as int);
                lemma_bound_from_set(v@, before, x, self.entries@.len() as int);
                assert(v@.to_set() =~= self.selected@.to_set().union(self.filtered@.take(i + 1).to_set()));
            }
            i += 1;
        }
        proof {
            lemma_take_all_to_set(self.filtered@);
            v@.unique_seq_to_set();
        }
        let n = v.len();
        self.set_selected(v);
        self.status = decimal_string(n as u64).concat(" file(s) selected");
    }

    /// Unmark everything.
    pub(crate) fn clear_selection(&mut self)
        requires
            old(self).wf(),
        ensures
            final(self).wf(),
            marks_and_status(*old(self), *final(self), Set::empty(), "Selection cleared"@),
    {
        self.set_selected(Vec::new());
        self.status = String::from_str("Selection cleared");
        assert(self.selected@.to_set() =~= Set::<usize>::empty());
    }

    /// Flip the mark of every shown entry.
    pub(crate) fn invert_filtered(&mut self)
        requires
            old(self).wf(),
        ensures
            final(self).wf(),
            marks_now(*old(self), *final(self), sym_diff(old(self).marked(), shown(*old(self)))),
    {
        let mut v = self.selected.clone();
        assert(v@ == self.selected@);
        proof {
            lemma_take_all_to_set(self.filtered@);
            assert(sym_diff(self.selected@.to_set(), Set::empty()) =~= self.selected@.to_set());
        }
        let mut i: usize = 0;
        while i < self.filtered.len()
            invariant
                self.wf(),
                i <= self.filtered@.len(),
                v@.no_duplicates(),
                all_below(v@, self.entries@.len() as int),
                v@.to_set() == sym_diff(self.selected@.to_set(), self.filtered@.take(i as int).to_set()),
            decreases self.filtered@.len() - i,
        {
            let x = self.filtered[i];
            let ghost before = v@;
            toggle_in(&mut v, x);
            proof {
                lemma_take_to_set(self.filtered@, i as int);
                lemma_sym_diff_step(self.selected@.to_set(), self.filtered@.take(i as int).to_set(), x);
                lemma_bound_from_set(v@, before, x, self.entries@.len() as int);
            }
            i += 1;
        }
        proof {
            lemma_take_all_to_set(self.filtered@);
        }
        self.set_selected(v);
    }
}

/// Inverting the marks of the shown rows twice gives back the marks there were.
pub proof fn law_invert_twice(o: App, m: App, n: App)
    requires
        marks_now(o, m, sym_diff(o.marked(), shown(o))),
        marks_now(m, n, sym_diff(m.marked(), shown(m))),
    ensures
        n.marked() == o.marked(),
        n == (App { selected: n.selected, ..o }),
{
    assert(sym_diff(sym_diff(o.marked(), shown(o)), shown(o)) =~= o.marked());
}

/// Toggling the entry under the cursor twice gives back the marks there were.
pub proof fn law_toggle_twice(o: App, m: App, n: App)
    requires
        current_toggled(o, m),
        current_toggled(m, n),
    ensures
        n.marked() == o.marked(),
        n == (App { selected: n.selected, ..o }),
{
    match o.table_selected {
        Some(s) if (s as int) < o.filtered@.len() => {
            let x = o.filtered@[s as int];
            assert(toggled(toggled(o.marked(), x), x) =~= o.marked());
        },
        _ => {},
    }
}

/// `n` is `o` after asking to delete the marked entries: the confirm screen,
/// or a hint when nothing is marked.
pub open spec fn confirm_opened(o: App, n: App) -> bool {
    if o.selected@.len() == 0 {
        &&& n == (App { status: n.status, ..o })
        &&& n.status@ == "Nothing selected \u{2014} press Space to mark files"@
    } else {
        n == (App { screen: Screen::Confirm, ..o })
    }
}

/// `n` is `o` sorted by the next key, with a status naming it.
pub open spec fn sort_key_cycled(o: App, n: App) -> bool {
    &&& n == (App { filtered: n.filtered, sort_key: sort_key_next(o.sort_key), status: n.status, ..o })
    &&& sorted_indices(o.entries@, o.filtered@, sort_key_next(o.sort_key), o.sort_desc, n.filtered@)
    &&& n.status@ == "Sorted by "@ + sort_key_label(sort_key_next(o.sort_key))
}

/// `n` is `o` sorted in the other direction.
pub open spec fn direction_flipped(o: App, n: App) -> bool {
    &&& n == (App { filtered: n.filtered, sort_desc: !o.sort_desc, ..o })
    &&& sorted_indices(o.entries@, o.filtered@, o.sort_key, !o.sort_desc, n.filtered@)
}

/// `n` is `o` with every filter criterion cleared and the rows recomputed.
pub open spec fn filters_reset(o: App, n: App) -> bool {
    &&& n == (App {
        filter: n.filter,
        filtered: n.filtered,
        table_selected: n.table_selected,
        status: n.status,
        ..o
    })
    &&& empty_filter(n.filter, o.config.time_basis)
    &&& sorted_indices(o.entries@, matching(o.entries@, n.filter), o.sort_key, o.sort_desc, n.filtered@)
    &&& n.table_selected == cursor_after(o.table_selected, n.filtered@.len() as int)
    &&& n.status@ == "Filters cleared"@
}

impl App {
    /// Ask to delete the marked entries.
    pub(crate) fn go_to_confirm(&mut self)
        requires
            old(self).wf(),
        ensures
            final(self).wf(),
            confirm_opened(*old(self), *final(self)),
    {
        if self.selected.len() == 0 {
            self.status = String::from_str("Nothing selected \u{2014} press Space to mark files");
        } else {
            self.screen = Screen::Confirm;
        }
    }

    /// Sort by the next key.
    pub(crate) fn cycle_sort_key(&mut self)
        requires
            old(self).wf(),
        ensures
            final(self).wf(),
            sort_key_cycled(*old(self), *final(self)),
    {
        self.sort_key = self.sort_key.next();
        self.sort_filtered();
        self.status = String::from_str("Sorted by ").concat(self.sort_key.label());
    }

    /// Sort in the other direction.
    pub(crate) fn flip_direction(&mut self)
        requires
            old(self).wf(),
        ensures
            final(self).wf(),
            direction_flipped(*old(self), *final(self)),
    {
        self.sort_desc = !self.sort_desc;
        self.sort_filtered();
    }

    /// Clear every filter criterion (keeping the configured time basis).
    pub(crate) fn reset_filters(&mut self)
        requires
            old(self).wf(),
        ensures
            final(self).wf(),
            filters_reset(*old(self), *final(self)),
    {
        self.filter = Filter::with_basis(self.config.time_basis);
        self.rebuild_view();
        self.status = String::from_str("Filters cleared");
    }
}

proof fn lemma_matching_member(entries: Seq<FileEntry>, f: Filter, i: int)
    requires
        entries.len() <= usize::MAX,
        0 <= i < entries.len(),
    ensures
        matching(entries, f).contains(i as usize) <==> filter_accepts(f, entries[i]),
    decreases entries.len(),
{
    let rest = entries.drop_last();
    lemma_matching_props(rest, f);
    let m = matching(entries, f);
    if i == entries.len() - 1 {
        if matching(rest, f).contains(i as usize) {
            let k = choose|k: int| 0 <= k < matching(rest, f).len() && matching(rest, f)[k] == i as usize;
            assert((matching(rest, f)[k] as int) < rest.len());
        }
        if filter_accepts(f, entries[i]) {
            assert(m[m.len() - 1] == i as usize);
        }
    } else {
        lemma_matching_member(rest, f, i);
        assert(rest[i] == entries[i]);
        if filter_accepts(f, entries.last()) {
            let r = matching(rest, f);
            assert(m == r.push((entries.len() - 1) as usize));
            if r.contains(i as usize) {
                let k = choose|k: int| 0 <= k < r.len() && r[k] == i as usize;
                assert(m[k] == i as usize);
            }
            if m.contains(i as usize) {
                let k = choose|k: int| 0 <= k < m.len() && m[k] == i as usize;
                assert(k < r.len());
                assert(r[k] == i as usize);
            }
        }
    }
}

/// What a stable sort of positions keeps: the same positions, each once, in
/// key order.
proof fn lemma_sorted_indices_facts(entries: Seq<FileEntry>, idxs: Seq<usize>, key: SortKey, desc: bool, out: Seq<usize>)
    requires
        sorted_indices(entries, idxs, key, desc, out),
    ensures
        out.len() == idxs.len(),
        forall|k: int| 0 <= k < out.len() ==> idxs.contains(#[trigger] out[k]),
        forall|p: int| 0 <= p < idxs.len() ==> out.contains(#[trigger] idxs[p]),
        idxs.no_duplicates() ==> out.no_duplicates(),
        forall|a: int, b: int|
            0 <= a < b < out.len() ==> !crate::sorting::key_before(
                entry_key(entries[#[trigger] out[b] as int], key),
                entry_key(entries[#[trigger] out[a] as int], key),
                desc,
            ),
        (forall|x: int, y: int| 0 <= x < y < idxs.len() ==> #[trigger] idxs[x] < #[trigger] idxs[y]) ==> forall|
            a: int,
            b: int,
        |
            0 <= a < b < out.len() && entry_key(entries[#[trigger] out[a] as int], key) == entry_key(
                entries[#[trigger] out[b] as int],
                key,
            ) ==> out[a] < out[b],
{
    let keys = idxs.map_values(|i: usize| entry_key(entries[i as int], key));
    let perm = choose|perm: Seq<usize>|
        is_stable_order(keys, desc, perm) && #[trigger] perm.len() == out.len() && forall|k: int|
            0 <= k < out.len() ==> out[k] == idxs[#[trigger] perm[k] as int];
    assert forall|k: int| 0 <= k < out.len() implies idxs.contains(#[trigger] out[k]) by {
        assert(out[k] == idxs[perm[k] as int]);
    }
    crate::sorting::lemma_permutation_onto(perm, idxs.len() as int);
    assert forall|p: int| 0 <= p < idxs.len() implies out.contains(#[trigger] idxs[p]) by {
        assert(crate::sorting::occurs(perm, p));
        let m = choose|m: int| 0 <= m < perm.len() && perm[m] as int == p;
        assert(out[m] == idxs[p]);
    }
    if idxs.no_duplicates() {
        assert forall|a: int, b: int| 0 <= a < out.len() && 0 <= b < out.len() && a != b implies out[a] != out[b] by {
            assert(out[a] == idxs[perm[a] as int]);
            assert(out[b] == idxs[perm[b] as int]);
            assert(perm[a] != perm[b]);
        }
    }
    assert forall|a: int, b: int| 0 <= a < b < out.len() implies !crate::sorting::key_before(
        entry_key(entries[#[trigger] out[b] as int], key),
        entry_key(entries[#[trigger] out[a] as int], key),
        desc,
    ) by {
        let pa = perm[a] as int;
        let pb = perm[b] as int;
        assert(crate::sorting::pos_before(keys, desc, pa, pb));
        assert(keys[pa] == entry_key(entries[out[a] as int], key));
        assert(keys[pb] == entry_key(entries[out[b] as int], key));
        crate::sorting::lemma_key_order(keys[pa], keys[pb], keys[pb]);
        crate::sorting::lemma_key_order(keys[pb], keys[pa], keys[pa]);
    }
    if forall|x: int, y: int| 0 <= x < y < idxs.len() ==> #[trigger] idxs[x] < #[trigger] idxs[y] {
        assert forall|a: int, b: int|
            0 <= a < b < out.len() && entry_key(entries[#[trigger] out[a] as int], key) == entry_key(
                entries[#[trigger] out[b] as int],
                key,
            ) implies out[a] < out[b] by {
            let pa = perm[a] as int;
            let pb = perm[b] as int;
            assert(crate::sorting::pos_before(keys, desc, pa, pb));
            assert(keys[pa] == entry_key(entries[out[a] as int], key));
            assert(keys[pb] == entry_key(entries[out[b] as int], key));
            crate::sorting::lemma_key_order(keys[pa], keys[pb], keys[pb]);
            assert(pa < pb);
            assert(out[a] == idxs[pa] && out[b] == idxs[pb]);
        }
    }
}

/// After the rows are recomputed, the shown rows are exactly the entries the
/// filter accepts, each once, in the order of the sort key, entries with equal
/// keys in the order of the list (the sort is stable).
pub proof fn law_rows_are_filtered_and_sorted(o: App, n: App)
    requires
        o.wf(),
        rebuilt(o, n),
    ensures
        forall|k: int| 0 <= k < n.filtered@.len() ==> filter_accepts(o.filter, o.entries@[#[trigger] n.filtered@[k] as int]),
        forall|i: int|
            0 <= i < o.entries@.len() && filter_accepts(o.filter, #[trigger] o.entries@[i]) ==> n.filtered@.contains(
                i as usize,
            ),
        n.filtered@.no_duplicates(),
        forall|a: int, b: int|
            0 <= a < b < n.filtered@.len() ==> !crate::sorting::key_before(
                entry_key(o.entries@[#[trigger] n.filtered@[b] as int], o.sort_key),
                entry_key(o.entries@[#[trigger] n.filtered@[a] as int], o.sort_key),
                o.sort_desc,
            ),
        forall|a: int, b: int|
            0 <= a < b < n.filtered@.len() && entry_key(o.entries@[#[trigger] n.filtered@[a] as int], o.sort_key)
                == entry_key(o.entries@[#[trigger] n.filtered@[b] as int], o.sort_key) ==> n.filtered@[a]
                < n.filtered@[b],
{
    let m = matching(o.entries@, o.filter);
    vstd::std_specs::vec::axiom_spec_len(&o.entries);
    lemma_matching_props(o.entries@, o.filter);
    lemma_sorted_indices_facts(o.entries@, m, o.sort_key, o.sort_desc, n.filtered@);
    assert forall|k: int| 0 <= k < n.filtered@.len() implies filter_accepts(o.filter, o.entries@[#[trigger] n.filtered@[k] as int]) by {
        assert(m.contains(n.filtered@[k]));
        let p = choose|p: int| 0 <= p < m.len() && m[p] == n.filtered@[k];
        lemma_matching_member(o.entries@, o.filter, n.filtered@[k] as int);
    }
    assert forall|i: int|
        0 <= i < o.entries@.len() && filter_accepts(o.filter, #[trigger] o.entries@[i]) implies n.filtered@.contains(
        i as usize,
    ) by {
        lemma_matching_member(o.entries@, o.filter, i);
        let p = choose|p: int| 0 <= p < m.len() && m[p] == i as usize;
        assert(n.filtered@.contains(m[p]));
    }
}

/// Total size of the entries at positions `sel`.
pub open spec fn size_sum(entries: Seq<FileEntry>, sel: Seq<usize>) -> nat
    decreases sel.len(),
{
    if sel.len() == 0 {
        0
    } else {
        size_sum(entries, sel.drop_last()) + entries[sel.last() as int].size as nat
    }
}

/// Total size of the marked entries.
pub open spec fn marked_size(a: App) -> nat {
    size_sum(a.entries@, a.selected@)
}

impl App {
    fn marked_size_wide(&self) -> (r: u128)
        requires
            self.wf(),
        ensures
            r == marked_size(*self),
    {
        let mut total: u128 = 0;
        let mut k: usize = 0;
        while k < self.selected.len()
            invariant
                self.wf(),
                k <= self.selected@.len(),
                total == size_sum(self.entries@, self.selected@.take(k as int)),
                total <= k * 18_446_744_073_709_551_615,
            decreases self.selected@.len() - k,
        {
            assert(self.selected@.take(k + 1).drop_last() =~= self.selected@.take(k as int));
            let i = self.selected[k];
            total = total + self.entries[i].size as u128;
            k += 1;
        }
        assert(self.selected@.take(self.selected@.len() as int) =~= self.selected@);
        total
    }

    /// The total size of the marked entries fits a `u64`.
    pub fn selected_size_fits(&self) -> (r: bool)
        requires
            self.wf(),
        ensures
            r == (marked_size(*self) <= u64::MAX),
    {
        self.marked_size_wide() <= 18_446_744_073_709_551_615u128
    }

    /// The total size of the marked entries.
    pub fn selected_total_size(&self) -> (r: u64)
        requires
            self.wf(),
            marked_size(*self) <= u64::MAX,
        ensures
            r == marked_size(*self),
    {
        self.marked_size_wide() as u64
    }
}

/// The key by which marked entries are listed: their path, as paths order.
pub open spec fn path_sort_key(e: FileEntry) -> (int, int, Seq<char>) {
    (0, 0, crate::text::path_key(e.path@))
}

/// `r` is the marked entries of `a` ordered by path (a stable sort of the
/// marks).
pub open spec fn marked_by_path(a: App, r: Seq<FileEntry>) -> bool {
    exists|perm: Seq<usize>|
        is_stable_order(a.selected@.map_values(|i: usize| path_sort_key(a.entries@[i as int])), false, perm)
            && #[trigger] perm.len() == r.len() && forall|k: int|
            0 <= k < r.len() ==> r[k] == a.entries@[a.selected@[#[trigger] perm[k] as int] as int]
}

impl App {
    /// Entries currently marked for deletion, ordered by path for a stable
    /// view.
    pub fn selected_entries(&self) -> (r: Vec<FileEntry>)
        requires
            self.wf(),
        ensures
            marked_by_path(*self, r@),
    {
        let ghost kv = self.selected@.map_values(|i: usize| path_sort_key(self.entries@[i as int]));
        let mut keys: Vec<SortVal> = Vec::new();
        let mut k: usize = 0;
        while k < self.selected.len()
            invariant
                self.wf(),
                k <= self.selected@.len(),
                kv == self.selected@.map_values(|i: usize| path_sort_key(self.entries@[i as int])),
                keys_view(keys@) == kv.take(k as int),
            decreases self.selected@.len() - k,
        {
            let i = self.selected[k];
            let text = crate::text::path_key_chars(self.entries[i].path.as_str());
            let ghost before = keys@;
            keys.push(SortVal { major: 0, minor: 0, text });
            assert(keys_view(keys@) =~= keys_view(before).push(path_sort_key(self.entries@[i as int])));
            assert(kv.take(k + 1) =~= kv.take(k as int).push(kv[k as int]));
            k += 1;
        }
        assert(kv.take(self.selected@.len() as int) =~= kv);
        let perm = stable_order(&keys, false);
        let mut out: Vec<FileEntry> = Vec::new();
        let mut j: usize = 0;
        while j < perm.len()
            invariant
                self.wf(),
                j <= perm@.len(),
                crate::sorting::is_permutation(perm@, self.selected@.len() as int),
                out@.len() == j,
                forall|m: int|
                    0 <= m < j ==> out@[m] == self.entries@[self.selected@[#[trigger] perm@[m] as int] as int],
            decreases perm@.len() - j,
        {
            let i = self.selected[perm[j]];
            out.push(self.entries[i].duplicate());
            j += 1;
        }
        out
    }
}
} // verus!
