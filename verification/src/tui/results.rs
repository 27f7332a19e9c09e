//! Taking in the result of a scan: which duplicate group each entry belongs
//! to, and the entries marked up front (every member of a duplicate group but
//! its newest).

use vstd::prelude::*;

use crate::clean_core::model::FileEntry;
use crate::numbers::{decimal, decimal_string};
use crate::tui::app::{App, Screen};
use crate::tui::review::{all_below, insert_into, lemma_bound_from_set, matching, sorted_indices};

verus! {

/// The modification time used to find the newest member of a group (an
/// unknown time counts as the epoch).
pub open spec fn mtime_of(e: FileEntry) -> int {
    match e.modified {
        Some(t) => t as int,
        None => 0,
    }
}

/// Position in `g` of its newest entry; of equally new ones, the last.
pub open spec fn newest_pos(entries: Seq<FileEntry>, g: Seq<usize>) -> int
    decreases g.len(),
{
    if g.len() <= 1 {
        0
    } else {
        let p = newest_pos(entries, g.drop_last());
        if mtime_of(entries[g.last() as int]) >= mtime_of(entries[g[p] as int]) {
            g.len() - 1
        } else {
            p
        }
    }
}

/// The entry of group `g` that is kept: its newest member.
pub open spec fn kept_of(entries: Seq<FileEntry>, g: Seq<usize>) -> usize {
    g[newest_pos(entries, g)]
}

/// The entries marked up front for `groups`: every member but the newest of
/// each group.
pub open spec fn preselected(entries: Seq<FileEntry>, groups: Seq<Seq<usize>>) -> Set<usize>
    decreases groups.len(),
{
    if groups.len() == 0 {
        Set::empty()
    } else {
        let g = groups.last();
        let rest = preselected(entries, groups.drop_last());
        if g.len() == 0 {
            rest
        } else {
            rest.union(g.to_set().remove(kept_of(entries, g)))
        }
    }
}

/// The last group that holds `i`.
pub open spec fn last_group_of(groups: Seq<Seq<usize>>, i: usize) -> Option<usize>
    decreases groups.len(),
{
    if groups.len() == 0 {
        None
    } else if groups.last().contains(i) {
        Some((groups.len() - 1) as usize)
    } else {
        last_group_of(groups.drop_last(), i)
    }
}

pub open spec fn groups_view(gs: Seq<Vec<usize>>) -> Seq<Seq<usize>> {
    gs.map_values(|g: Vec<usize>| g@)
}

/// Every member of every group is a position of `n` entries.
pub open spec fn groups_below(groups: Seq<Seq<usize>>, n: int) -> bool {
    forall|k: int| 0 <= k < groups.len() ==> all_below(#[trigger] groups[k], n)
}

proof fn lemma_newest_pos_bounds(entries: Seq<FileEntry>, g: Seq<usize>)
    requires
        g.len() >= 1,
    ensures
        0 <= newest_pos(entries, g) < g.len(),
    decreases g.len(),
{
    if g.len() > 1 {
        lemma_newest_pos_bounds(entries, g.drop_last());
    }
}

proof fn lemma_newest_pos_is_newest(entries: Seq<FileEntry>, g: Seq<usize>)
    requires
        g.len() >= 1,
    ensures
        0 <= newest_pos(entries, g) < g.len(),
        forall|q: int|
            0 <= q < g.len() ==> mtime_of(entries[#[trigger] g[q] as int]) <= mtime_of(
                entries[g[newest_pos(entries, g)] as int],
            ),
        forall|q: int|
            newest_pos(entries, g) < q < g.len() ==> mtime_of(entries[#[trigger] g[q] as int]) < mtime_of(
                entries[g[newest_pos(entries, g)] as int],
            ),
    decreases g.len(),
{
    if g.len() > 1 {
        let h = g.drop_last();
        lemma_newest_pos_is_newest(entries, h);
        let p = newest_pos(entries, h);
        assert forall|q: int| 0 <= q < h.len() implies #[trigger] g[q] == h[q] by {}
        assert(g[p] == h[p]);
    }
}

/// The member of a non-empty group that is kept is one of its newest: it
/// belongs to the group, no member was modified later (an unknown time counts
/// as the epoch), and every member listed after it was modified strictly
/// earlier (of equally new members, the last one listed is kept).
pub proof fn law_kept_member_is_newest(entries: Seq<FileEntry>, g: Seq<usize>)
    requires
        g.len() >= 1,
    ensures
        exists|p: int|
            #![trigger g[p]]
            {
                &&& 0 <= p < g.len()
                &&& g[p] == kept_of(entries, g)
                &&& forall|q: int|
                    0 <= q < g.len() ==> (match entries[#[trigger] g[q] as int].modified {
                        Some(t) => t as int,
                        None => 0,
                    }) <= (match entries[g[p] as int].modified {
                        Some(t) => t as int,
                        None => 0,
                    })
                &&& forall|q: int|
                    p < q < g.len() ==> (match entries[#[trigger] g[q] as int].modified {
                        Some(t) => t as int,
                        None => 0,
                    }) < (match entries[g[p] as int].modified {
                        Some(t) => t as int,
                        None => 0,
                    })
            },
{
    lemma_newest_pos_is_newest(entries, g);
    let p = newest_pos(entries, g);
    assert(g[p] == kept_of(entries, g));
}

fn mtime_exec(e: &FileEntry) -> (r: i128)
    ensures
        r == mtime_of(*e),
{
    match e.modified {
        Some(t) => t,
        None => 0,
    }
}

/// Position of the newest member of the non-empty group `g`.
fn newest_position(entries: &Vec<FileEntry>, g: &Vec<usize>) -> (r: usize)
    requires
        g@.len() >= 1,
        all_below(g@, entries@.len() as int),
    ensures
        r as int == newest_pos(entries@, g@),
        r < g@.len(),
{
    let mut p: usize = 0;
    let mut k: usize = 1;
    proof {
        assert(g@.take(1).len() == 1);
    }
    while k < g.len()
        invariant
            1 <= k <= g@.len(),
            all_below(g@, entries@.len() as int),
            p < k,
            p as int == newest_pos(entries@, g@.take(k as int)),
        decreases g@.len() - k,
    {
        let ghost t = g@.take(k + 1);
        assert(t.drop_last() =~= g@.take(k as int));
        assert(t[p as int] == g@[p as int]);
        proof {
            lemma_newest_pos_bounds(entries@, g@.take(k as int));
        }
        if mtime_exec(&entries[g[k]]) >= mtime_exec(&entries[g[p]]) {
            p = k;
        }
        k += 1;
    }
    assert(g@.take(g@.len() as int) =~= g@);
    p
}

/// For every position below `n`, the last group that holds it.
fn group_index(n: usize, groups: &Vec<Vec<usize>>) -> (r: Vec<Option<usize>>)
    requires
        groups_below(groups_view(groups@), n as int),
    ensures
        r@.len() == n,
        forall|i: int| 0 <= i < n ==> #[trigger] r@[i] == last_group_of(groups_view(groups@), i as usize),
{
    let ghost gv = groups_view(groups@);
    let mut r: Vec<Option<usize>> = Vec::new();
    let mut i: usize = 0;
    while i < n
        invariant
            i <= n,
            r@.len() == i,
            forall|j: int| 0 <= j < i ==> #[trigger] r@[j] == None::<usize>,
        decreases n - i,
    {
        r.push(None);
        i += 1;
    }
    let mut gi: usize = 0;
    while gi < groups.len()
        invariant
            gi <= groups@.len(),
            gv == groups_view(groups@),
            groups_below(gv, n as int),
            r@.len() == n,
            forall|j: int| 0 <= j < n ==> #[trigger] r@[j] == last_group_of(gv.take(gi as int), j as usize),
        decreases groups@.len() - gi,
    {
        let g = &groups[gi];
        assert(gv[gi as int] == g@);
        assert(all_below(gv[gi as int], n as int));
        let mut k: usize = 0;
        while k < g.len()
            invariant
                gi < groups@.len(),
                k <= g@.len(),
                gv == groups_view(groups@),
                g@ == gv[gi as int],
                all_below(g@, n as int),
                r@.len() == n,
                forall|j: int|
                    0 <= j < n ==> #[trigger] r@[j] == if g@.take(k as int).contains(j as usize) {
                        Some(gi)
                    } else {
                        last_group_of(gv.take(gi as int), j as usize)
                    },
            decreases g@.len() - k,
        {
            let x = g[k];
            r.set(x, Some(gi));
            proof {
                assert(g@.take(k + 1) =~= g@.take(k as int).push(x));
                assert forall|j: int| 0 <= j < n implies #[trigger] r@[j] == if g@.take(k + 1).contains(j as usize) {
                    Some(gi)
                } else {
                    last_group_of(gv.take(gi as int), j as usize)
                } by {
                    let t1 = g@.take(k + 1);
                    let t0 = g@.take(k as int);
                    if j == x as int {
                        assert(t1[k as int] == x);
                    } else {
                        if t1.contains(j as usize) {
                            let m = choose|m: int| 0 <= m < t1.len() && t1[m] == j as usize;
                            assert(m < k);
                            assert(t0[m] == j as usize);
                        }
                        if t0.contains(j as usize) {
                            let m = choose|m: int| 0 <= m < t0.len() && t0[m] == j as usize;
                            assert(t1[m] == j as usize);
                        }
                    }
                }
            }
            k += 1;
        }
        proof {
            assert(g@.take(g@.len() as int) =~= g@);
            assert(gv.take(gi + 1).drop_last() =~= gv.take(gi as int));
            assert(gv.take(gi + 1).last() == g@);
        }
        gi += 1;
    }
    proof {
        assert(gv.take(groups@.len() as int) =~= gv);
    }
    r
}

/// The entries marked up front for `groups` (every member but the newest of
/// each group), without repeats.
fn preselect(entries: &Vec<FileEntry>, groups: &Vec<Vec<usize>>) -> (r: Vec<usize>)
    requires
        groups_below(groups_view(groups@), entries@.len() as int),
    ensures
        r@.to_set() == preselected(entries@, groups_view(groups@)),
        r@.no_duplicates(),
        all_below(r@, entries@.len() as int),
{
    let ghost gv = groups_view(groups@);
    let ghost n = entries@.len() as int;
    let mut v: Vec<usize> = Vec::new();
    proof {
        assert(v@.to_set() =~= Set::<usize>::empty());
        assert(gv.take(0) =~= Seq::<Seq<usize>>::empty());
    }
    let mut gi: usize = 0;
    while gi < groups.len()
        invariant
            gi <= groups@.len(),
            gv == groups_view(groups@),
            n == entries@.len(),
            groups_below(gv, n),
            v@.no_duplicates(),
            all_below(v@, n),
            v@.to_set() == preselected(entries@, gv.take(gi as int)),
        decreases groups@.len() - gi,
    {
        let g = &groups[gi];
        assert(gv[gi as int] == g@);
        assert(all_below(gv[gi as int], n));
        proof {
            assert(gv.take(gi + 1).drop_last() =~= gv.take(gi as int));
            assert(gv.take(gi + 1).last() == g@);
        }
        if g.len() > 0 {
            let p = newest_position(entries, g);
            let keep = g[p];
            let ghost base = v@.to_set();
            let mut k: usize = 0;
            proof {
                assert(g@.take(0).to_set().remove(keep) =~= Set::<usize>::empty());
                assert(base.union(Set::<usize>::empty()) =~= base);
            }
            while k < g.len()
                invariant
                    k <= g@.len(),
                    all_below(g@, n),
                    v@.no_duplicates(),
                    all_below(v@, n),
                    v@.to_set() == base.union(g@.take(k as int).to_set().remove(keep)),
                decreases g@.len() - k,
            {
                let x = g[k];
                proof {
                    crate::tui::review::lemma_take_to_set(g@, k as int);
                }
                if x != keep {
                    let ghost before = v@;
                    insert_into(&mut v, x);
                    proof {
                        lemma_bound_from_set(v@, before, x, n);
                        assert(v@.to_set() =~= base.union(g@.take(k + 1).to_set().remove(keep)));
                    }
                } else {
                    assert(g@.take(k + 1).to_set().remove(keep) =~= g@.take(k as int).to_set().remove(keep));
                }
                k += 1;
            }
            proof {
                assert(g@.take(g@.len() as int) =~= g@);
            }
        }
        gi += 1;
    }
    proof {
        assert(gv.take(groups@.len() as int) =~= gv);
    }
    v
}


/// The groups held in `g`, as sequences.
pub open spec fn groups_of(g: Option<Vec<Vec<usize>>>) -> Option<Seq<Seq<usize>>> {
    match g {
        Some(gs) => Some(groups_view(gs@)),
        None => None,
    }
}

/// `n` is `o` on the review screen, no longer listening to the scan, with
/// the scan result `entries` /
/// `groups` taken in: the group of each entry noted, every member but the
/// newest of each duplicate group marked, the rows filtered and sorted, the
/// cursor on the first row, and a status counting both.
pub open spec fn results_taken(o: App, entries: Seq<FileEntry>, groups: Option<Vec<Vec<usize>>>, n: App) -> bool {
    &&& n == (App {
        entries: n.entries,
        dup_groups: groups,
        group_of: n.group_of,
        selected: n.selected,
        filtered: n.filtered,
        table_selected: n.table_selected,
        screen: Screen::Review,
        status: n.status,
        scan_attached: false,
        ..o
    })
    &&& n.entries@ == entries
    &&& n.group_of@.len() == entries.len()
    &&& forall|i: int|
        0 <= i < entries.len() ==> #[trigger] n.group_of@[i] == match groups_of(groups) {
            Some(gs) => last_group_of(gs, i as usize),
            None => None,
        }
    &&& n.marked() == match groups_of(groups) {
        Some(gs) => preselected(entries, gs),
        None => Set::empty(),
    }
    &&& n.selected@.len() == n.marked().len()
    &&& sorted_indices(entries, matching(entries, o.filter), o.sort_key, o.sort_desc, n.filtered@)
    &&& n.table_selected == if n.filtered@.len() == 0 {
        None
    } else {
        Some(0usize)
    }
    &&& n.status@ == decimal(entries.len()) + " candidate file(s) found ("@ + decimal(n.selected@.len())
        + " pre-selected)"@
}

/// Every group member is a position of `n` entries.
pub open spec fn groups_fit(groups: Option<Vec<Vec<usize>>>, n: int) -> bool {
    match groups_of(groups) {
        Some(gs) => groups_below(gs, n),
        None => true,
    }
}

impl App {
    fn install_results(
        &mut self,
        entries: Vec<FileEntry>,
        groups: Option<Vec<Vec<usize>>>,
        group_of: Vec<Option<usize>>,
        selected: Vec<usize>,
    )
        requires
            old(self).wf(),
            group_of@.len() == entries@.len(),
            all_below(selected@, entries@.len() as int),
            selected@.no_duplicates(),
        ensures
            final(self).wf(),
            *final(self) == (App {
                entries,
                dup_groups: groups,
                group_of,
                selected,
                filtered: final(self).filtered,
                table_selected: None,
                screen: Screen::Review,
                scan_attached: false,
                ..*old(self)
            }),
            final(self).filtered@.len() == 0,
    {
        self.entries = entries;
        self.dup_groups = groups;
        self.group_of = group_of;
        self.selected = selected;
        self.filtered = Vec::new();
        self.table_selected = None;
        self.screen = Screen::Review;
        self.scan_attached = false;
    }

    /// The scan finished with `entries` (and, for a duplicate scan, the groups
    /// of positions in `entries` that hold identical content).
    pub fn on_scan_done(&mut self, entries: Vec<FileEntry>, dup_groups: Option<Vec<Vec<usize>>>)
        requires
            old(self).wf(),
            groups_fit(dup_groups, entries@.len() as int),
        ensures
            final(self).wf(),
            results_taken(*old(self), entries@, dup_groups, *final(self)),
    {
        let n = entries.len();
        let ghost ev = entries@;
        let (group_of, selected) = match &dup_groups {
            Some(gs) => (group_index(n, gs), preselect(&entries, gs)),
            None => {
                let mut g: Vec<Option<usize>> = Vec::new();
                let mut i: usize = 0;
                while i < n
                    invariant
                        i <= n,
                        g@.len() == i,
                        forall|j: int| 0 <= j < i ==> #[trigger] g@[j] == None::<usize>,
                    decreases n - i,
                {
                    g.push(None);
                    i += 1;
                }
                (g, Vec::new())
            },
        };
        proof {
            if dup_groups is None {
                assert(selected@.to_set() =~= Set::<usize>::empty());
            }
            selected@.unique_seq_to_set();
        }
        let k = selected.len();
        self.install_results(entries, dup_groups, group_of, selected);
        self.rebuild_view();
        self.status = decimal_string(n as u64).concat(" candidate file(s) found (").concat(
            decimal_string(k as u64).as_str(),
        ).concat(" pre-selected)");
    }
}

/// No entry position is in two different groups.
pub open spec fn groups_disjoint(groups: Seq<Seq<usize>>) -> bool {
    forall|a: int, b: int, i: usize|
        0 <= a < b < groups.len() && #[trigger] groups[a].contains(i) ==> !#[trigger] groups[b].contains(i)
}

proof fn lemma_preselected_members(entries: Seq<FileEntry>, groups: Seq<Seq<usize>>, x: usize)
    requires
        preselected(entries, groups).contains(x),
    ensures
        exists|k: int| 0 <= k < groups.len() && #[trigger] groups[k].contains(x),
    decreases groups.len(),
{
    let g = groups.last();
    let rest = groups.drop_last();
    if g.len() > 0 && g.to_set().remove(kept_of(entries, g)).contains(x) {
        assert(groups[groups.len() - 1].contains(x));
    } else {
        lemma_preselected_members(entries, rest, x);
        let k = choose|k: int| 0 <= k < rest.len() && #[trigger] rest[k].contains(x);
        assert(groups[k].contains(x));
    }
}

/// With disjoint groups, a member of a group is marked up front exactly when
/// it is not the newest member of its group: all but the newest are marked.
pub proof fn law_all_but_newest_marked(entries: Seq<FileEntry>, groups: Seq<Seq<usize>>, k: int, j: int)
    requires
        groups_disjoint(groups),
        0 <= k < groups.len(),
        0 <= j < groups[k].len(),
    ensures
        preselected(entries, groups).contains(groups[k][j]) <==> groups[k][j] != kept_of(entries, groups[k]),
    decreases groups.len(),
{
    let last = groups.len() - 1;
    let rest = groups.drop_last();
    let g = groups.last();
    let x = groups[k][j];
    assert(groups[k].contains(x));
    assert(groups_disjoint(rest)) by {
        assert forall|a: int, b: int, i: usize|
            0 <= a < b < rest.len() && #[trigger] rest[a].contains(i) implies !#[trigger] rest[b].contains(i) by {
            assert(groups[a] == rest[a] && groups[b] == rest[b]);
        }
    }
    if k == last {
        assert(g.to_set().contains(x));
        if preselected(entries, rest).contains(x) {
            lemma_preselected_members(entries, rest, x);
            let k2 = choose|k2: int| 0 <= k2 < rest.len() && #[trigger] rest[k2].contains(x);
            assert(groups[k2].contains(x));
            assert(!groups[last].contains(x));
        }
    } else {
        law_all_but_newest_marked(entries, rest, k, j);
        assert(rest[k] == groups[k]);
        assert(!groups[last].contains(x));
        if g.len() > 0 && g.to_set().remove(kept_of(entries, g)).contains(x) {
            assert(g.contains(x));
        }
    }
}

/// Taking in a scan marks, up front, only members of duplicate groups: with
/// disjoint groups, a member is marked exactly when it is not the newest of its
/// group; with no groups, nothing is marked.
pub proof fn law_scan_results_mark_all_but_newest(
    o: App,
    entries: Seq<FileEntry>,
    groups: Option<Vec<Vec<usize>>>,
    n: App,
)
    requires
        results_taken(o, entries, groups, n),
    ensures
        groups is None ==> n.marked() == Set::<usize>::empty(),
        groups_of(groups) matches Some(gs) ==> forall|x: usize|
            #[trigger] n.marked().contains(x) ==> exists|k: int| 0 <= k < gs.len() && #[trigger] gs[k].contains(x),
        groups_of(groups) matches Some(gs) ==> (groups_disjoint(gs) ==> forall|k: int, j: int|
            0 <= k < gs.len() && 0 <= j < gs[k].len() ==> (n.marked().contains(#[trigger] gs[k][j]) <==> gs[k][j]
                != kept_of(entries, gs[k]))),
{
    if let Some(gs) = groups_of(groups) {
        assert forall|x: usize| #[trigger] n.marked().contains(x) implies exists|k: int|
            0 <= k < gs.len() && #[trigger] gs[k].contains(x) by {
            lemma_preselected_members(entries, gs, x);
        }
        if groups_disjoint(gs) {
            assert forall|k: int, j: int| 0 <= k < gs.len() && 0 <= j < gs[k].len() implies (n.marked().contains(
                #[trigger] gs[k][j],
            ) <==> gs[k][j] != kept_of(entries, gs[k])) by {
                law_all_but_newest_marked(entries, gs, k, j);
            }
        }
    }
}
} // verus!
