//! What a scan hands to the review screen: the candidate entries for the
//! chosen mode and, for a duplicate scan, which of them form each group.

use vstd::prelude::*;

use crate::clean_core::algorithms::{
    age_cutoff, clock_bound, find_by_age, find_duplicates, is_duplicate_grouping, select_older,
};
use crate::clean_core::model::{FileEntry, ScanMode, TimeBasis};

verus! {

/// The result of a scan.
#[derive(Debug)]
pub struct ScanOutcome {
    pub entries: Vec<FileEntry>,
    /// For a duplicate scan, the positions in `entries` of each group.
    pub dup_groups: Option<Vec<Vec<usize>>>,
}

/// The groups one after the other.
pub open spec fn concat_all(gs: Seq<Seq<FileEntry>>) -> Seq<FileEntry>
    decreases gs.len(),
{
    if gs.len() == 0 {
        Seq::empty()
    } else {
        concat_all(gs.drop_last()) + gs.last()
    }
}

/// The positions that group `k` occupies once the groups are laid end to end.
pub open spec fn span_of(gs: Seq<Seq<FileEntry>>, k: int) -> Seq<usize> {
    Seq::new(gs[k].len(), |j: int| (concat_all(gs.take(k)).len() + j) as usize)
}

pub open spec fn entry_groups_view(v: Seq<Vec<FileEntry>>) -> Seq<Seq<FileEntry>> {
    v.map_values(|g: Vec<FileEntry>| g@)
}

pub open spec fn index_groups_view(v: Seq<Vec<usize>>) -> Seq<Seq<usize>> {
    v.map_values(|g: Vec<usize>| g@)
}

/// Lay the groups end to end: the entries, and the positions of each group.
pub fn flatten_groups(groups: &Vec<Vec<FileEntry>>) -> (r: (Vec<FileEntry>, Vec<Vec<usize>>))
    ensures
        r.0@ == concat_all(entry_groups_view(groups@)),
        r.1@.len() == groups@.len(),
        forall|k: int| 0 <= k < groups@.len() ==> (#[trigger] r.1@[k])@ == span_of(entry_groups_view(groups@), k),
{
    let ghost gv = entry_groups_view(groups@);
    let mut entries: Vec<FileEntry> = Vec::new();
    let mut idx: Vec<Vec<usize>> = Vec::new();
    let mut g: usize = 0;
    proof {
        assert(gv.take(0) =~= Seq::<Seq<FileEntry>>::empty());
    }
    while g < groups.len()
        invariant
            g <= groups@.len(),
            gv == entry_groups_view(groups@),
            entries@ == concat_all(gv.take(g as int)),
            idx@.len() == g,
            forall|k: int| 0 <= k < g ==> (#[trigger] idx@[k])@ == span_of(gv, k),
        decreases groups@.len() - g,
    {
        let members = &groups[g];
        assert(gv[g as int] == members@);
        proof {
            assert(gv.take(g + 1).drop_last() =~= gv.take(g as int));
            assert(gv.take(g + 1).last() == members@);
        }
        let base = entries.len();
        let ghost start = entries@;
        let mut span: Vec<usize> = Vec::new();
        let mut k: usize = 0;
        while k < members.len()
            invariant
                k <= members@.len(),
                g < groups@.len(),
                members@ == gv[g as int],
                base == start.len(),
                entries@ == start + members@.take(k as int),
                span@ == Seq::new(k as nat, |j: int| (base + j) as usize),
            decreases members@.len() - k,
        {
            let at = entries.len();
            assert(at == base + k);
            span.push(at);
            entries.push(members[k].duplicate());
            assert(members@.take(k + 1) =~= members@.take(k as int).push(members@[k as int]));
            assert(span@ =~= Seq::new((k + 1) as nat, |j: int| (base + j) as usize));
            k += 1;
        }
        assert(members@.take(members@.len() as int) =~= members@);
        assert(span@ =~= span_of(gv, g as int));
        idx.push(span);
        g += 1;
    }
    assert(gv.take(groups@.len() as int) =~= gv);
    (entries, idx)
}


/// The entries that the groups of positions `gs` pick out of `all`.
pub open spec fn picked(all: Seq<FileEntry>, gs: Seq<Seq<usize>>) -> Seq<Seq<FileEntry>> {
    gs.map_values(|g: Seq<usize>| g.map_values(|i: usize| all[i as int]))
}

/// Every group of `r` holds positions of its entries.
pub open spec fn positions_fit(r: ScanOutcome) -> bool {
    match r.dup_groups {
        Some(gs) => forall|k: int, j: int|
            0 <= k < gs@.len() && 0 <= j < gs@[k]@.len() ==> (#[trigger] gs@[k]@[j] as int) < r.entries@.len(),
        None => true,
    }
}

/// `r` is the duplicate-scan outcome for `all` with digests `digests`: the
/// groups of identical files laid end to end, and the positions of each.
pub open spec fn duplicate_outcome(all: Seq<FileEntry>, digests: Seq<Option<String>>, r: ScanOutcome) -> bool {
    exists|gs: Seq<Seq<usize>>|
        {
            &&& is_duplicate_grouping(all, digests, gs)
            &&& #[trigger] concat_all(picked(all, gs)) == r.entries@
            &&& r.dup_groups matches Some(ix) && index_groups_view(ix@).len() == gs.len() && forall|k: int|
                0 <= k < gs.len() ==> #[trigger] index_groups_view(ix@)[k] == span_of(picked(all, gs), k)
        }
}

/// `r` lists the entries of `all` older than `age` days by `basis`, for some
/// reading of the clock.
pub open spec fn age_outcome(all: Seq<FileEntry>, basis: TimeBasis, age: u32, r: ScanOutcome) -> bool {
    &&& r.dup_groups is None
    &&& exists|now: i128|
        -clock_bound() <= now <= clock_bound() && r.entries@ == select_older(
            all,
            basis,
            #[trigger] age_cutoff(now, age),
        )
}

/// The outcome of a scan in `mode` over the walked entries `all`, where
/// `digests[i]` is the content digest of `all[i]` (a duplicate scan reads it;
/// `None` for files that were not hashed): duplicate groups, files not
/// accessed (unused) or not modified (old) for `age` days, or everything.
pub fn run_scan(mode: ScanMode, all: Vec<FileEntry>, digests: &Vec<Option<String>>, age: u32) -> (r: ScanOutcome)
    requires
        mode == ScanMode::Duplicates ==> digests@.len() == all@.len(),
    ensures
        positions_fit(r),
        match mode {
            ScanMode::Duplicates => duplicate_outcome(all@, digests@, r),
            ScanMode::Unused => age_outcome(all@, TimeBasis::Accessed, age, r),
            ScanMode::Old => age_outcome(all@, TimeBasis::Modified, age, r),
            ScanMode::AllFiles => r.entries@ == all@ && r.dup_groups is None,
        },
{
    match mode {
        ScanMode::Duplicates => {
            let groups = find_duplicates(all.as_slice(), digests.as_slice());
            let ghost gs = choose|gs: Seq<Seq<usize>>|
                {
                    &&& is_duplicate_grouping(all@, digests@, gs)
                    &&& #[trigger] gs.len() == groups@.len()
                    &&& forall|g: int|
                        0 <= g < gs.len() ==> (#[trigger] groups@[g])@.len() == gs[g].len() && forall|k: int|
                            0 <= k < gs[g].len() ==> groups@[g]@[k] == all@[#[trigger] gs[g][k] as int]
                };
            proof {
                assert forall|g: int| 0 <= g < gs.len() implies #[trigger] entry_groups_view(groups@)[g] == picked(all@, gs)[g] by {
                    assert(groups@[g]@ =~= gs[g].map_values(|i: usize| all@[i as int]));
                }
                assert(entry_groups_view(groups@) =~= picked(all@, gs));
            }
            let (entries, ix) = flatten_groups(&groups);
            let total = entries.len();
            assert(total as int == concat_all(entry_groups_view(groups@)).len());
            let r = ScanOutcome { entries, dup_groups: Some(ix) };
            proof {
                assert(index_groups_view(ix@).len() == gs.len());
                assert forall|k: int| 0 <= k < gs.len() implies #[trigger] index_groups_view(ix@)[k] == span_of(
                    picked(all@, gs),
                    k,
                ) by {
                    assert(ix@[k]@ == span_of(entry_groups_view(groups@), k));
                }
                assert(positions_fit(r)) by {
                    assert forall|k: int, j: int|
                        0 <= k < ix@.len() && 0 <= j < ix@[k]@.len() implies (#[trigger] ix@[k]@[j] as int)
                        < r.entries@.len() by {
                        lemma_span_within(entry_groups_view(groups@), k, j);
                    }
                }
            }
            r
        },
        ScanMode::Unused => ScanOutcome { entries: find_by_age(all.as_slice(), age, TimeBasis::Accessed), dup_groups: None },
        ScanMode::Old => ScanOutcome { entries: find_by_age(all.as_slice(), age, TimeBasis::Modified), dup_groups: None },
        ScanMode::AllFiles => ScanOutcome { entries: all, dup_groups: None },
    }
}

proof fn lemma_concat_take_len(gs: Seq<Seq<FileEntry>>, k: int)
    requires
        0 <= k < gs.len(),
    ensures
        concat_all(gs.take(k)).len() + gs[k].len() <= concat_all(gs).len(),
    decreases gs.len() - k,
{
    assert(gs.take(k + 1).drop_last() =~= gs.take(k));
    if k + 1 < gs.len() {
        lemma_concat_take_len(gs, k + 1);
    } else {
        assert(gs.take(k + 1) =~= gs);
    }
}

proof fn lemma_span_within(gs: Seq<Seq<FileEntry>>, k: int, j: int)
    requires
        0 <= k < gs.len(),
        0 <= j < gs[k].len(),
        concat_all(gs).len() <= usize::MAX,
    ensures
        (span_of(gs, k)[j] as int) < concat_all(gs).len(),
{
    lemma_concat_take_len(gs, k);
}

/// Every group but its first member, the groups one after the other.
pub open spec fn all_but_first(gs: Seq<Seq<FileEntry>>) -> Seq<FileEntry>
    decreases gs.len(),
{
    if gs.len() == 0 {
        Seq::empty()
    } else {
        all_but_first(gs.drop_last()) + gs.last().skip(1)
    }
}

/// What is removed of the groups is each group without its first member, the
/// groups in order: every group gives up exactly one entry, its first.
pub proof fn law_all_but_first_drops_each_first(gs: Seq<Seq<FileEntry>>)
    ensures
        all_but_first(gs) == gs.map_values(|g: Seq<FileEntry>| g.skip(1)).flatten(),
        (forall|k: int| 0 <= k < gs.len() ==> #[trigger] gs[k].len() >= 1) ==> all_but_first(gs).len() + gs.len()
            == gs.map_values(|g: Seq<FileEntry>| g).flatten().len(),
    decreases gs.len(),
{
    let f = |g: Seq<FileEntry>| g.skip(1);
    let id = |g: Seq<FileEntry>| g;
    gs.map_values(f).lemma_flatten_and_flatten_alt_are_equivalent();
    gs.map_values(id).lemma_flatten_and_flatten_alt_are_equivalent();
    if gs.len() > 0 {
        let rest = gs.drop_last();
        law_all_but_first_drops_each_first(rest);
        rest.map_values(f).lemma_flatten_and_flatten_alt_are_equivalent();
        rest.map_values(id).lemma_flatten_and_flatten_alt_are_equivalent();
        assert(gs.map_values(f).drop_last() =~= rest.map_values(f));
        assert(gs.map_values(id).drop_last() =~= rest.map_values(id));
        if forall|k: int| 0 <= k < gs.len() ==> #[trigger] gs[k].len() >= 1 {
            assert forall|k: int| 0 <= k < rest.len() implies #[trigger] rest[k].len() >= 1 by {
                assert(rest[k] == gs[k]);
            }
            assert(gs[gs.len() - 1].len() >= 1);
        }
    }
}

/// The duplicates to remove: of each group of identical files (content
/// digests `digests`), every member but the first.
pub fn get_duplicates(entries: &[FileEntry], digests: &[Option<String>]) -> (r: Vec<FileEntry>)
    requires
        entries.len() == digests.len(),
    ensures
        exists|gs: Seq<Seq<usize>>|
            is_duplicate_grouping(entries@, digests@, gs) && #[trigger] all_but_first(picked(entries@, gs)) == r@,
{
    let groups = find_duplicates(entries, digests);
    let ghost gs = choose|gs: Seq<Seq<usize>>|
        {
            &&& is_duplicate_grouping(entries@, digests@, gs)
            &&& #[trigger] gs.len() == groups@.len()
            &&& forall|g: int|
                0 <= g < gs.len() ==> (#[trigger] groups@[g])@.len() == gs[g].len() && forall|k: int|
                    0 <= k < gs[g].len() ==> groups@[g]@[k] == entries@[#[trigger] gs[g][k] as int]
        };
    let ghost gv = entry_groups_view(groups@);
    proof {
        assert forall|g: int| 0 <= g < gs.len() implies #[trigger] gv[g] == picked(entries@, gs)[g] by {
            assert(groups@[g]@ =~= gs[g].map_values(|i: usize| entries@[i as int]));
        }
        assert(gv =~= picked(entries@, gs));
        assert(gv.take(0) =~= Seq::<Seq<FileEntry>>::empty());
        assert forall|h: int| 0 <= h < gv.len() implies #[trigger] gv[h].len() >= 2 by {
            assert(gs[h].len() >= 2);
        }
    }
    let mut out: Vec<FileEntry> = Vec::new();
    let mut g: usize = 0;
    while g < groups.len()
        invariant
            g <= groups@.len(),
            gv == entry_groups_view(groups@),
            forall|h: int| 0 <= h < gv.len() ==> #[trigger] gv[h].len() >= 2,
            out@ == all_but_first(gv.take(g as int)),
        decreases groups@.len() - g,
    {
        let members = &groups[g];
        assert(gv[g as int] == members@);
        assert(members@.len() >= 2);
        assert(members@.subrange(1, 1) =~= Seq::<FileEntry>::empty());
        assert(gv.take(g + 1).drop_last() =~= gv.take(g as int));
        let ghost start = out@;
        let mut k: usize = 1;
        while k < members.len()
            invariant
                1 <= k <= members@.len(),
                out@ == start + members@.subrange(1, k as int),
            decreases members@.len() - k,
        {
            out.push(members[k].duplicate());
            assert(members@.subrange(1, k + 1) =~= members@.subrange(1, k as int).push(members@[k as int]));
            k += 1;
        }
        assert(members@.subrange(1, members@.len() as int) =~= members@.skip(1));
        assert(out@ =~= start + gv.take(g + 1).last().skip(1));
        g += 1;
    }
    assert(gv.take(groups@.len() as int) =~= gv);
    out
}
} // verus!
