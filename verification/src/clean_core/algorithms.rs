//! Detection algorithms: duplicates (by size, then content digest) and age-based
//! selection.

use std::collections::HashMap;
use vstd::prelude::*;

use crate::clean_core::model::{FileEntry, TimeBasis, time_of};
use crate::error::CrabError;

verus! {

broadcast use vstd::std_specs::hash::group_hash_axioms;

// ------------------------------------------------------------------ digests

/// What `format!("{:x}", Sha256::digest(data))` gives: the lower-case hex
/// SHA-256 digest of `data`.
pub uninterp spec fn sha256_hex(data: Seq<u8>) -> Seq<char>;

/// Calls `sha2::Sha256::digest` on `data` and formats the digest as lower-case
/// hex. Claimed: the text depends on the bytes alone (it is named `sha256_hex`).
#[verifier::external_body]
pub(crate) fn content_digest(data: &[u8]) -> (r: String)
    ensures
        r@ == sha256_hex(data@),
{
    format!("{:x}", <sha2::Sha256 as sha2::Digest>::digest(data))
}

/// The digest of one file's content: its SHA-256 digest in lower-case hex.
pub fn file_digest(content: &[u8]) -> (r: String)
    ensures
        r@ == sha256_hex(content@),
{
    content_digest(content)
}

/// The digest of each file's content (`None` where the content could not be
/// read or was not asked for).
pub fn content_digests(contents: &Vec<Option<Vec<u8>>>) -> (r: Vec<Option<String>>)
    ensures
        r@.len() == contents@.len(),
        forall|i: int|
            0 <= i < contents@.len() ==> ((#[trigger] r@[i]) is Some) == (contents@[i] is Some) && (
            contents@[i] matches Some(c) ==> r@[i]->0@ == sha256_hex(c@)),
{
    let mut out: Vec<Option<String>> = Vec::new();
    let mut i: usize = 0;
    while i < contents.len()
        invariant
            i <= contents@.len(),
            out@.len() == i,
            forall|j: int|
                0 <= j < i ==> ((#[trigger] out@[j]) is Some) == (contents@[j] is Some) && (
                contents@[j] matches Some(c) ==> out@[j]->0@ == sha256_hex(c@)),
        decreases contents@.len() - i,
    {
        match &contents[i] {
            Some(c) => out.push(Some(file_digest(c.as_slice()))),
            None => out.push(None),
        }
        i += 1;
    }
    out
}

// ------------------------------------------------------------------ duplicates

/// Entry `i` takes part in duplicate detection: it is not empty and its content
/// could be read (a digest is known).
pub open spec fn qualifies(entries: Seq<FileEntry>, digests: Seq<Option<String>>, i: int) -> bool {
    0 <= i < entries.len() && i < digests.len() && entries[i].size > 0 && digests[i] is Some
}

/// The key under which entry `i` is grouped: its size and content digest.
pub open spec fn dup_key(entries: Seq<FileEntry>, digests: Seq<Option<String>>, i: int) -> (
    u64,
    Seq<char>,
) {
    (
        entries[i].size,
        match digests[i] {
            Some(d) => d@,
            None => Seq::empty(),
        },
    )
}

/// Entry `i` has another qualifying entry with the same size and digest.
pub open spec fn has_twin(entries: Seq<FileEntry>, digests: Seq<Option<String>>, i: int) -> bool {
    exists|j: int|
        j != i && #[trigger] qualifies(entries, digests, j) && dup_key(entries, digests, j)
            == dup_key(entries, digests, i)
}

/// `groups` lists, as increasing index sequences, exactly the classes of two or
/// more qualifying entries that share size and digest (in some order).
pub open spec fn is_duplicate_grouping(
    entries: Seq<FileEntry>,
    digests: Seq<Option<String>>,
    groups: Seq<Seq<usize>>,
) -> bool {
    &&& forall|g: int| 0 <= g < groups.len() ==> #[trigger] groups[g].len() >= 2
    &&& forall|g: int, k: int|
        0 <= g < groups.len() && 0 <= k < groups[g].len() ==> qualifies(
            entries,
            digests,
            #[trigger] groups[g][k] as int,
        ) && dup_key(entries, digests, groups[g][k] as int) == dup_key(
            entries,
            digests,
            groups[g][0] as int,
        )
    &&& forall|g: int, k1: int, k2: int|
        0 <= g < groups.len() && 0 <= k1 < k2 < groups[g].len() ==> #[trigger] groups[g][k1]
            < #[trigger] groups[g][k2]
    &&& forall|g1: int, g2: int|
        0 <= g1 < groups.len() && 0 <= g2 < groups.len() && g1 != g2 ==> dup_key(
            entries,
            digests,
            #[trigger] groups[g1][0] as int,
        ) != dup_key(entries, digests, #[trigger] groups[g2][0] as int)
    &&& forall|i: int|
        #[trigger] qualifies(entries, digests, i) && has_twin(entries, digests, i) ==> exists|
            g: int,
            k: int,
        | 0 <= g < groups.len() && 0 <= k < groups[g].len() && #[trigger] groups[g][k] == i
}

/// Duplicate groups are exactly the sets of identical non-empty files: every
/// group has at least two members; each member is a non-empty entry whose
/// content was hashed, with the size and digest of the group's first member;
/// two different groups differ in size or digest; and any two non-empty hashed
/// entries with equal size and digest sit in one group together.
pub proof fn law_duplicate_groups_are_identical_files(
    entries: Seq<FileEntry>,
    digests: Seq<Option<String>>,
    groups: Seq<Seq<usize>>,
)
    requires
        is_duplicate_grouping(entries, digests, groups),
    ensures
        forall|g: int| 0 <= g < groups.len() ==> #[trigger] groups[g].len() >= 2,
        forall|g: int, k: int|
            0 <= g < groups.len() && 0 <= k < groups[g].len() ==> {
                let x = #[trigger] groups[g][k] as int;
                let f = groups[g][0] as int;
                &&& 0 <= x < entries.len()
                &&& x < digests.len()
                &&& entries[x].size > 0
                &&& digests[x] is Some
                &&& entries[x].size == entries[f].size
                &&& digests[x]->0@ == digests[f]->0@
            },
        forall|g1: int, g2: int|
            0 <= g1 < groups.len() && 0 <= g2 < groups.len() && g1 != g2 ==> {
                let a = #[trigger] groups[g1][0] as int;
                let b = #[trigger] groups[g2][0] as int;
                entries[a].size != entries[b].size || digests[a]->0@ != digests[b]->0@
            },
        forall|i: int, j: int|
            0 <= i < entries.len() && 0 <= j < entries.len() && i != j && i < digests.len() && j
                < digests.len() && entries[i].size > 0 && #[trigger] entries[i].size == #[trigger] entries[j].size
                && digests[i] is Some && digests[j] is Some && digests[i]->0@ == digests[j]->0@ ==> exists|g: int|
                0 <= g < groups.len() && groups[g].contains(i as usize) && groups[g].contains(j as usize),
{
    assert forall|g: int, k: int| 0 <= g < groups.len() && 0 <= k < groups[g].len() implies {
        let x = #[trigger] groups[g][k] as int;
        let f = groups[g][0] as int;
        &&& 0 <= x < entries.len()
        &&& x < digests.len()
        &&& entries[x].size > 0
        &&& digests[x] is Some
        &&& entries[x].size == entries[f].size
        &&& digests[x]->0@ == digests[f]->0@
    } by {
        assert(qualifies(entries, digests, groups[g][k] as int));
        assert(qualifies(entries, digests, groups[g][0] as int));
    }
    assert forall|g1: int, g2: int| 0 <= g1 < groups.len() && 0 <= g2 < groups.len() && g1 != g2 implies {
        let a = #[trigger] groups[g1][0] as int;
        let b = #[trigger] groups[g2][0] as int;
        entries[a].size != entries[b].size || digests[a]->0@ != digests[b]->0@
    } by {
        assert(qualifies(entries, digests, groups[g1][0] as int));
        assert(qualifies(entries, digests, groups[g2][0] as int));
        assert(dup_key(entries, digests, groups[g1][0] as int) != dup_key(entries, digests, groups[g2][0] as int));
    }
    assert forall|i: int, j: int|
        0 <= i < entries.len() && 0 <= j < entries.len() && i != j && i < digests.len() && j < digests.len()
            && entries[i].size > 0 && #[trigger] entries[i].size == #[trigger] entries[j].size && digests[i] is Some
            && digests[j] is Some && digests[i]->0@ == digests[j]->0@ implies exists|g: int|
        0 <= g < groups.len() && groups[g].contains(i as usize) && groups[g].contains(j as usize) by {
        assert(qualifies(entries, digests, i) && qualifies(entries, digests, j));
        assert(dup_key(entries, digests, i) == dup_key(entries, digests, j));
        assert(has_twin(entries, digests, i));
        assert(has_twin(entries, digests, j));
        let (g1, k1) = choose|g: int, k: int| 0 <= g < groups.len() && 0 <= k < groups[g].len() && #[trigger] groups[g][k] == i;
        let (g2, k2) = choose|g: int, k: int| 0 <= g < groups.len() && 0 <= k < groups[g].len() && #[trigger] groups[g][k] == j;
        assert(dup_key(entries, digests, groups[g1][k1] as int) == dup_key(entries, digests, groups[g1][0] as int));
        assert(dup_key(entries, digests, groups[g2][k2] as int) == dup_key(entries, digests, groups[g2][0] as int));
        if g1 != g2 {
            assert(dup_key(entries, digests, groups[g1][0] as int) != dup_key(entries, digests, groups[g2][0] as int));
        }
        assert(groups[g1].contains(i as usize));
        assert(groups[g1][k2] == groups[g2][k2]);
        assert(groups[g1].contains(j as usize));
    }
}

/// Invariant of the classes built so far over the first `n` entries.
pub open spec fn classes_inv(
    entries: Seq<FileEntry>,
    digests: Seq<Option<String>>,
    classes: Seq<Vec<usize>>,
    n: int,
) -> bool {
    &&& forall|c: int| 0 <= c < classes.len() ==> #[trigger] classes[c]@.len() >= 1
    &&& forall|c: int, k: int|
        0 <= c < classes.len() && 0 <= k < classes[c]@.len() ==> classes[c]@[k] < n && qualifies(
            entries,
            digests,
            #[trigger] classes[c]@[k] as int,
        ) && dup_key(entries, digests, classes[c]@[k] as int) == dup_key(
            entries,
            digests,
            classes[c]@[0] as int,
        )
    &&& forall|c: int, k1: int, k2: int|
        0 <= c < classes.len() && 0 <= k1 < k2 < classes[c]@.len() ==> #[trigger] classes[c]@[k1]
            < #[trigger] classes[c]@[k2]
    &&& forall|c1: int, c2: int|
        0 <= c1 < classes.len() && 0 <= c2 < classes.len() && c1 != c2 ==> dup_key(
            entries,
            digests,
            #[trigger] classes[c1]@[0] as int,
        ) != dup_key(entries, digests, #[trigger] classes[c2]@[0] as int)
    &&& forall|j: int|
        0 <= j < n && #[trigger] qualifies(entries, digests, j) ==> exists|c: int, k: int|
            0 <= c < classes.len() && 0 <= k < classes[c]@.len() && #[trigger] classes[c]@[k]
                == j
}

/// Invariant linking the size index to the classes.
pub open spec fn index_inv(
    entries: Seq<FileEntry>,
    digests: Seq<Option<String>>,
    classes: Seq<Vec<usize>>,
    index: Map<u64, Vec<usize>>,
) -> bool {
    &&& forall|s: u64|
        #[trigger] index.contains_key(s) ==> forall|x: int|
            0 <= x < index[s]@.len() ==> (#[trigger] index[s]@[x] as int) < classes.len()
                && entries[classes[index[s]@[x] as int]@[0] as int].size == s
    &&& forall|c: int|
        0 <= c < classes.len() ==> index.contains_key(
            entries[#[trigger] classes[c]@[0] as int].size,
        ) && index[entries[classes[c]@[0] as int].size]@.contains(c as usize)
}

/// A copy of an index list.
pub fn clone_indices(v: &Vec<usize>) -> (r: Vec<usize>)
    ensures
        r@ == v@,
{
    let r = v.clone();
    assert(r@ =~= v@);
    r
}

/// Finds, among the classes listed in `ids`, the one whose key matches entry `i`.
fn find_class(
    entries: &[FileEntry],
    digests: &[Option<String>],
    classes: &Vec<Vec<usize>>,
    ids: &Vec<usize>,
    i: usize,
) -> (r: Option<usize>)
    requires
        qualifies(entries@, digests@, i as int),
        entries.len() == digests.len(),
        forall|x: int| 0 <= x < ids@.len() ==> (#[trigger] ids@[x] as int) < classes@.len(),
        forall|c: int| 0 <= c < classes@.len() ==> #[trigger] classes@[c]@.len() >= 1,
        forall|c: int, k: int|
            0 <= c < classes@.len() && 0 <= k < classes@[c]@.len() ==> (
            #[trigger] classes@[c]@[k] as int) < entries.len() && qualifies(
                entries@,
                digests@,
                classes@[c]@[k] as int,
            ),
        forall|x: int|
            0 <= x < ids@.len() ==> entries@[classes@[#[trigger] ids@[x] as int]@[0] as int].size
                == entries@[i as int].size,
    ensures
        match r {
            Some(c) => (c as int) < classes@.len() && ids@.contains(c) && dup_key(
                entries@,
                digests@,
                classes@[c as int]@[0] as int,
            ) == dup_key(entries@, digests@, i as int),
            None => forall|x: int|
                0 <= x < ids@.len() ==> dup_key(
                    entries@,
                    digests@,
                    classes@[#[trigger] ids@[x] as int]@[0] as int,
                ) != dup_key(entries@, digests@, i as int),
        },
{
    let mine = digests[i].as_ref().unwrap();
    let mut x: usize = 0;
    while x < ids.len()
        invariant
            x <= ids@.len(),
            qualifies(entries@, digests@, i as int),
            entries.len() == digests.len(),
            digests@[i as int] == Some(*mine),
            forall|y: int| 0 <= y < ids@.len() ==> (#[trigger] ids@[y] as int) < classes@.len(),
            forall|c: int| 0 <= c < classes@.len() ==> #[trigger] classes@[c]@.len() >= 1,
            forall|c: int, k: int|
                0 <= c < classes@.len() && 0 <= k < classes@[c]@.len() ==> (
                #[trigger] classes@[c]@[k] as int) < entries.len() && qualifies(
                    entries@,
                    digests@,
                    classes@[c]@[k] as int,
                ),
            forall|y: int|
                0 <= y < ids@.len() ==> entries@[classes@[#[trigger] ids@[y] as int]@[0] as int].size
                    == entries@[i as int].size,
            forall|y: int|
                0 <= y < x ==> dup_key(
                    entries@,
                    digests@,
                    classes@[#[trigger] ids@[y] as int]@[0] as int,
                ) != dup_key(entries@, digests@, i as int),
        decreases ids@.len() - x,
    {
        let c = ids[x];
        let rep = classes[c][0];
        assert(qualifies(entries@, digests@, rep as int));
        let theirs = digests[rep].as_ref().unwrap();
        if *theirs == *mine {
            assert(ids@.contains(c)) by {
                assert(ids@[x as int] == c);
            }
            return Some(c);
        }
        x += 1;
    }
    None
}

/// The groups of byte-for-byte identical files among `entries`, as index lists.
///
/// `digests[i]` is the content digest of `entries[i]` (`None` when it could not
/// be read). Zero-length files are ignored; every group has two or more members,
/// all with the same size and digest, and every entry that has such a twin is in
/// exactly one group.
pub fn duplicate_groups(entries: &[FileEntry], digests: &[Option<String>]) -> (r: Vec<Vec<usize>>)
    requires
        entries.len() == digests.len(),
    ensures
        is_duplicate_grouping(entries@, digests@, r@.map_values(|g: Vec<usize>| g@)),
{
    let mut classes: Vec<Vec<usize>> = Vec::new();
    let mut index: HashMap<u64, Vec<usize>> = HashMap::new();
    let n = entries.len();
    let mut i: usize = 0;
    while i < n
        invariant
            i <= n == entries.len() == digests.len(),
            classes_inv(entries@, digests@, classes@, i as int),
            index_inv(entries@, digests@, classes@, index@),
        decreases n - i,
    {
        if entries[i].size > 0 && digests[i].is_some() {
            let size = entries[i].size;
            let found: Option<usize> = match index.get(&size) {
                Some(ids) => {
                    proof {
                        assert forall|x: int| 0 <= x < ids@.len() implies entries@[classes@[
                            #[trigger] ids@[x] as int]@[0] as int].size == entries@[i as int].size by {
                        }
                    }
                    find_class(entries, digests, &classes, ids, i)
                },
                None => None,
            };
            match found {
                Some(c) => {
                    let ghost old_classes = classes@;
                    let mut members = clone_indices(&classes[c]);
                    members.push(i);
                    classes.set(c, members);
                    proof {
                        assert forall|cc: int| 0 <= cc < classes@.len() implies #[trigger] classes@[cc]@[0]
                            == old_classes[cc]@[0] by {}
                        assert forall|cc: int, k: int|
                            0 <= cc < classes@.len() && 0 <= k < classes@[cc]@.len() implies classes@[cc]@[k] < i + 1
                            && qualifies(entries@, digests@, #[trigger] classes@[cc]@[k] as int)
                            && dup_key(entries@, digests@, classes@[cc]@[k] as int) == dup_key(
                            entries@,
                            digests@,
                            classes@[cc]@[0] as int,
                        ) by {
                            if cc != c as int || k < old_classes[cc]@.len() {
                                assert(classes@[cc]@[k] == old_classes[cc]@[k]);
                            }
                        }
                        assert forall|cc: int, k1: int, k2: int|
                            0 <= cc < classes@.len() && 0 <= k1 < k2 < classes@[cc]@.len() implies #[trigger] classes@[cc]@[k1]
                            < #[trigger] classes@[cc]@[k2] by {
                            if cc != c as int {
                                assert(classes@[cc]@ == old_classes[cc]@);
                            } else {
                                assert(old_classes[cc]@[k1] < i);
                                if k2 < old_classes[cc]@.len() {
                                    assert(old_classes[cc]@[k1] < old_classes[cc]@[k2]);
                                }
                            }
                        }
                        assert forall|j: int|
                            0 <= j < i + 1 && #[trigger] qualifies(entries@, digests@, j) implies exists|
                            cc: int,
                            k: int,
                        |
                            0 <= cc < classes@.len() && 0 <= k < classes@[cc]@.len()
                                && #[trigger] classes@[cc]@[k] == j by {
                            if j == i {
                                let k = old_classes[c as int]@.len() as int;
                                assert(classes@[c as int]@[k] == i);
                            } else {
                                let (cc, k) = choose|cc: int, k: int|
                                    0 <= cc < old_classes.len() && 0 <= k < old_classes[cc]@.len()
                                        && #[trigger] old_classes[cc]@[k] == j;
                                assert(classes@[cc]@[k] == j);
                            }
                        }
                        assert forall|s: u64| #[trigger] index@.contains_key(s) implies forall|x: int|
                            0 <= x < index@[s]@.len() ==> (#[trigger] index@[s]@[x] as int)
                                < classes@.len() && entries@[classes@[index@[s]@[x] as int]@[0] as int].size
                                == s by {
                            assert forall|x: int| 0 <= x < index@[s]@.len() implies (
                            #[trigger] index@[s]@[x] as int) < classes@.len() && entries@[classes@[index@[s]@[x] as int]@[0] as int].size
                                == s by {
                                assert(classes@[index@[s]@[x] as int]@[0] == old_classes[index@[s]@[x] as int]@[0]);
                            }
                        }
                    }
                },
                None => {
                    let ghost old_classes = classes@;
                    let ghost old_index = index@;
                    let new_id = classes.len();
                    let mut members: Vec<usize> = Vec::new();
                    members.push(i);
                    classes.push(members);
                    let ids: Vec<usize> = match index.get(&size) {
                        Some(ids) => {
                            let mut v = clone_indices(ids);
                            v.push(new_id);
                            v
                        },
                        None => {
                            let mut v: Vec<usize> = Vec::new();
                            v.push(new_id);
                            v
                        },
                    };
                    index.insert(size, ids);
                    proof {
                        assert(classes@[new_id as int]@[0] == i);
                        assert forall|cc: int| 0 <= cc < old_classes.len() implies #[trigger] classes@[cc]
                            == old_classes[cc] by {}
                        assert forall|cc: int, k: int|
                            0 <= cc < classes@.len() && 0 <= k < classes@[cc]@.len() implies classes@[cc]@[k] < i + 1
                            && qualifies(entries@, digests@, #[trigger] classes@[cc]@[k] as int)
                            && dup_key(entries@, digests@, classes@[cc]@[k] as int) == dup_key(
                            entries@,
                            digests@,
                            classes@[cc]@[0] as int,
                        ) by {
                            if cc < old_classes.len() {
                                assert(classes@[cc] == old_classes[cc]);
                            }
                        }
                        assert forall|cc: int, k1: int, k2: int|
                            0 <= cc < classes@.len() && 0 <= k1 < k2 < classes@[cc]@.len() implies #[trigger] classes@[cc]@[k1]
                            < #[trigger] classes@[cc]@[k2] by {
                            if cc < old_classes.len() {
                                assert(classes@[cc] == old_classes[cc]);
                            }
                        }
                        assert forall|c1: int, c2: int|
                            0 <= c1 < classes@.len() && 0 <= c2 < classes@.len() && c1 != c2 implies dup_key(
                            entries@,
                            digests@,
                            #[trigger] classes@[c1]@[0] as int,
                        ) != dup_key(entries@, digests@, #[trigger] classes@[c2]@[0] as int) by {
                            if c1 < old_classes.len() && c2 < old_classes.len() {
                                assert(classes@[c1] == old_classes[c1]);
                                assert(classes@[c2] == old_classes[c2]);
                            } else if c1 < old_classes.len() {
                                assert(classes@[c1] == old_classes[c1]);
                                lemma_other_class_differs(entries@, digests@, old_classes, old_index, c1, i as int);
                            } else {
                                assert(classes@[c2] == old_classes[c2]);
                                lemma_other_class_differs(entries@, digests@, old_classes, old_index, c2, i as int);
                            }
                        }
                        assert forall|j: int|
                            0 <= j < i + 1 && #[trigger] qualifies(entries@, digests@, j) implies exists|
                            cc: int,
                            k: int,
                        |
                            0 <= cc < classes@.len() && 0 <= k < classes@[cc]@.len()
                                && #[trigger] classes@[cc]@[k] == j by {
                            if j == i {
                                assert(classes@[new_id as int]@[0] == i);
                            } else {
                                let (cc, k) = choose|cc: int, k: int|
                                    0 <= cc < old_classes.len() && 0 <= k < old_classes[cc]@.len()
                                        && #[trigger] old_classes[cc]@[k] == j;
                                assert(classes@[cc] == old_classes[cc]);
                                assert(classes@[cc]@[k] == j);
                            }
                        }
                        assert forall|s: u64| #[trigger] index@.contains_key(s) implies forall|x: int|
                            0 <= x < index@[s]@.len() ==> (#[trigger] index@[s]@[x] as int)
                                < classes@.len() && entries@[classes@[index@[s]@[x] as int]@[0] as int].size
                                == s by {
                            assert forall|x: int| 0 <= x < index@[s]@.len() implies (
                            #[trigger] index@[s]@[x] as int) < classes@.len() && entries@[classes@[index@[s]@[x] as int]@[0] as int].size
                                == s by {
                                if s == size {
                                    if old_index.contains_key(s) && x < old_index[s]@.len() {
                                        assert(index@[s]@[x] == old_index[s]@[x]);
                                        assert(classes@[index@[s]@[x] as int] == old_classes[index@[s]@[x] as int]);
                                    }
                                } else {
                                    assert(index@[s] == old_index[s]);
                                    assert(classes@[index@[s]@[x] as int] == old_classes[index@[s]@[x] as int]);
                                }
                            }
                        }
                        assert forall|cc: int|
                            0 <= cc < classes@.len() implies index@.contains_key(
                            entries@[#[trigger] classes@[cc]@[0] as int].size,
                        ) && index@[entries@[classes@[cc]@[0] as int].size]@.contains(cc as usize) by {
                            if cc < old_classes.len() {
                                assert(classes@[cc] == old_classes[cc]);
                                let s = entries@[old_classes[cc]@[0] as int].size;
                                if s == size {
                                    let w = choose|w: int| 0 <= w < old_index[s]@.len() && old_index[s]@[w] == cc as usize;
                                    assert(index@[s]@[w] == cc as usize);
                                }
                            } else {
                                assert(index@[size]@[index@[size]@.len() - 1] == new_id);
                            }
                        }
                    }
                },
            }
        } else {
            proof {
                assert forall|j: int|
                    0 <= j < i + 1 && #[trigger] qualifies(entries@, digests@, j) implies exists|
                    cc: int,
                    k: int,
                |
                    0 <= cc < classes@.len() && 0 <= k < classes@[cc]@.len() && #[trigger] classes@[cc]@[k]
                        == j by {}
            }
        }
        i += 1;
    }
    // keep the classes with two or more members
    let mut groups: Vec<Vec<usize>> = Vec::new();
    let ghost mut kept: Seq<int> = Seq::empty();
    let mut c: usize = 0;
    while c < classes.len()
        invariant
            c <= classes@.len(),
            n == entries.len() == digests.len(),
            classes_inv(entries@, digests@, classes@, n as int),
            kept.len() == groups@.len(),
            forall|g: int| 0 <= g < kept.len() ==> 0 <= #[trigger] kept[g] < c,
            forall|g: int| 0 <= g < kept.len() ==> groups@[g]@ == classes@[#[trigger] kept[g]]@,
            forall|g1: int, g2: int| 0 <= g1 < g2 < kept.len() ==> #[trigger] kept[g1] < #[trigger] kept[g2],
            forall|cc: int|
                0 <= cc < c && #[trigger] classes@[cc]@.len() >= 2 ==> exists|g: int|
                    0 <= g < kept.len() && #[trigger] kept[g] == cc,
            forall|g: int| 0 <= g < groups@.len() ==> #[trigger] groups@[g]@.len() >= 2,
        decreases classes@.len() - c,
    {
        if classes[c].len() >= 2 {
            let ghost old_kept = kept;
            proof {
                kept = kept.push(c as int);
                assert(kept[kept.len() - 1] == c);
                assert forall|cc: int|
                    0 <= cc < c && #[trigger] classes@[cc]@.len() >= 2 implies exists|g: int|
                        0 <= g < kept.len() && #[trigger] kept[g] == cc by {
                    let g = choose|g: int| 0 <= g < old_kept.len() && #[trigger] old_kept[g] == cc;
                    assert(kept[g] == cc);
                }
            }
            groups.push(clone_indices(&classes[c]));
        }
        c += 1;
    }
    proof {
        let gs = groups@.map_values(|g: Vec<usize>| g@);
        assert forall|g: int| 0 <= g < gs.len() implies #[trigger] gs[g] == classes@[kept[g]]@ by {}
        assert forall|i: int|
            #[trigger] qualifies(entries@, digests@, i) && has_twin(entries@, digests@, i) implies exists|
            g: int,
            k: int,
        | 0 <= g < gs.len() && 0 <= k < gs[g].len() && #[trigger] gs[g][k] == i by {
            let j = choose|j: int|
                j != i && #[trigger] qualifies(entries@, digests@, j) && dup_key(entries@, digests@, j)
                    == dup_key(entries@, digests@, i);
            let (ci, ki) = choose|cc: int, k: int|
                0 <= cc < classes@.len() && 0 <= k < classes@[cc]@.len() && #[trigger] classes@[cc]@[k]
                    == i;
            let (cj, kj) = choose|cc: int, k: int|
                0 <= cc < classes@.len() && 0 <= k < classes@[cc]@.len() && #[trigger] classes@[cc]@[k]
                    == j;
            assert(classes@[ci]@[0] == classes@[ci]@[0]);
            assert(classes@[cj]@[0] == classes@[cj]@[0]);
            if ci != cj {
                assert(dup_key(entries@, digests@, classes@[ci]@[0] as int) != dup_key(
                    entries@,
                    digests@,
                    classes@[cj]@[0] as int,
                ));
            }
            assert(ci == cj);
            assert(ki != kj);
            assert(classes@[ci]@.len() >= 2);
            let g = choose|g: int| 0 <= g < kept.len() && #[trigger] kept[g] == ci;
            assert(gs[g][ki] == i);
        }
        assert forall|g1: int, g2: int|
            0 <= g1 < gs.len() && 0 <= g2 < gs.len() && g1 != g2 implies dup_key(
            entries@,
            digests@,
            #[trigger] gs[g1][0] as int,
        ) != dup_key(entries@, digests@, #[trigger] gs[g2][0] as int) by {
            assert(kept[g1] != kept[g2]) by {
                if g1 < g2 {
                    assert(kept[g1] < kept[g2]);
                } else {
                    assert(kept[g2] < kept[g1]);
                }
            }
            assert(classes@[kept[g1]]@[0] == classes@[kept[g1]]@[0]);
            assert(classes@[kept[g2]]@[0] == classes@[kept[g2]]@[0]);
        }
        assert forall|g: int, k: int|
            0 <= g < gs.len() && 0 <= k < gs[g].len() implies qualifies(
            entries@,
            digests@,
            #[trigger] gs[g][k] as int,
        ) && dup_key(entries@, digests@, gs[g][k] as int) == dup_key(
            entries@,
            digests@,
            gs[g][0] as int,
        ) by {
            assert(classes@[kept[g]]@[k] == classes@[kept[g]]@[k]);
        }
        assert forall|g: int, k1: int, k2: int|
            0 <= g < gs.len() && 0 <= k1 < k2 < gs[g].len() implies #[trigger] gs[g][k1]
            < #[trigger] gs[g][k2] by {
            assert(classes@[kept[g]]@[k1] < classes@[kept[g]]@[k2]);
        }
    }
    groups
}

/// A new class for entry `i` differs in key from an existing class `c`, because
/// no class listed for `i`'s size matched and every class is listed under its size.
proof fn lemma_other_class_differs(
    entries: Seq<FileEntry>,
    digests: Seq<Option<String>>,
    classes: Seq<Vec<usize>>,
    index: Map<u64, Vec<usize>>,
    c: int,
    i: int,
)
    requires
        0 <= c < classes.len(),
        classes.len() <= usize::MAX,
        index_inv(entries, digests, classes, index),
        forall|cc: int| 0 <= cc < classes.len() ==> #[trigger] classes[cc]@.len() >= 1,
        index.contains_key(entries[i].size) ==> forall|x: int|
            0 <= x < index[entries[i].size]@.len() ==> dup_key(
                entries,
                digests,
                classes[#[trigger] index[entries[i].size]@[x] as int]@[0] as int,
            ) != dup_key(entries, digests, i),
    ensures
        dup_key(entries, digests, classes[c]@[0] as int) != dup_key(entries, digests, i),
{
    let s = entries[classes[c]@[0] as int].size;
    assert(index.contains_key(s));
    assert(index[s]@.contains(c as usize));
    if s != entries[i].size {
        assert(dup_key(entries, digests, classes[c]@[0] as int).0 != dup_key(entries, digests, i).0);
    } else {
        let x = choose|x: int| 0 <= x < index[s]@.len() && index[s]@[x] == c as usize;
        assert(index[s]@[x] as int == c);
        assert(dup_key(entries, digests, classes[index[s]@[x] as int]@[0] as int) != dup_key(
            entries,
            digests,
            i,
        ));
    }
}


/// Copies of the entries in each group.
pub fn find_duplicates(entries: &[FileEntry], digests: &[Option<String>]) -> (r: Vec<Vec<FileEntry>>)
    requires
        entries.len() == digests.len(),
    ensures
        exists|gs: Seq<Seq<usize>>|
            {
                &&& is_duplicate_grouping(entries@, digests@, gs)
                &&& #[trigger] gs.len() == r@.len()
                &&& forall|g: int|
                    0 <= g < gs.len() ==> (#[trigger] r@[g])@.len() == gs[g].len() && forall|k: int|
                        0 <= k < gs[g].len() ==> r@[g]@[k] == entries@[#[trigger] gs[g][k] as int]
            },
{
    let groups = duplicate_groups(entries, digests);
    let ghost gs = groups@.map_values(|g: Vec<usize>| g@);
    let mut out: Vec<Vec<FileEntry>> = Vec::new();
    let mut g: usize = 0;
    while g < groups.len()
        invariant
            g <= groups@.len(),
            gs == groups@.map_values(|g: Vec<usize>| g@),
            is_duplicate_grouping(entries@, digests@, gs),
            entries.len() == digests.len(),
            out@.len() == g,
            forall|h: int|
                0 <= h < g ==> (#[trigger] out@[h])@.len() == gs[h].len() && forall|k: int|
                    0 <= k < gs[h].len() ==> out@[h]@[k] == entries@[#[trigger] gs[h][k] as int],
        decreases groups@.len() - g,
    {
        let members = &groups[g];
        let mut files: Vec<FileEntry> = Vec::new();
        let mut k: usize = 0;
        while k < members.len()
            invariant
                k <= members@.len(),
                g < groups@.len(),
                gs == groups@.map_values(|g: Vec<usize>| g@),
                members@ == gs[g as int],
                entries.len() == digests.len(),
                is_duplicate_grouping(entries@, digests@, gs),
                files@.len() == k,
                forall|j: int|
                    0 <= j < k ==> files@[j] == entries@[#[trigger] gs[g as int][j] as int],
            decreases members@.len() - k,
        {
            let idx = members[k];
            assert(qualifies(entries@, digests@, gs[g as int][k as int] as int));
            files.push(entries[idx].duplicate());
            k += 1;
        }
        out.push(files);
        g += 1;
    }
    assert(gs.len() == out@.len());
    out
}

/// Entry `i` is not empty and shares its size with another entry: only such
/// entries need their content hashed.
pub open spec fn is_candidate(entries: Seq<FileEntry>, i: int) -> bool {
    entries[i].size > 0 && exists|j: int|
        0 <= j < entries.len() && j != i && #[trigger] entries[j].size == entries[i].size
}

/// Marks the entries whose content must be hashed to find duplicates.
pub fn duplicate_candidates(entries: &[FileEntry]) -> (r: Vec<bool>)
    ensures
        r@.len() == entries@.len(),
        forall|i: int| 0 <= i < entries@.len() ==> r@[i] == is_candidate(entries@, i),
{
    let n = entries.len();
    let mut marks: Vec<bool> = Vec::new();
    let mut first: HashMap<u64, usize> = HashMap::new();
    let mut i: usize = 0;
    while i < n
        invariant
            i <= n == entries.len(),
            marks@.len() == i,
            forall|s: u64|
                #[trigger] first@.contains_key(s) ==> s > 0 && first@[s] < i && entries@[first@[s] as int].size
                    == s,
            forall|j: int|
                0 <= j < i && entries@[j].size > 0 ==> #[trigger] first@.contains_key(entries@[j].size),
            forall|j: int|
                0 <= j < i ==> #[trigger] marks@[j] == (entries@[j].size > 0 && exists|k: int|
                    0 <= k < i && k != j && #[trigger] entries@[k].size == entries@[j].size),
        decreases n - i,
    {
        let size = entries[i].size;
        let ghost old_marks = marks@;
        if size == 0 {
            marks.push(false);
            proof {
                assert forall|j: int|
                    0 <= j < i + 1 implies #[trigger] marks@[j] == (entries@[j].size > 0 && exists|k: int|
                        0 <= k < i + 1 && k != j && #[trigger] entries@[k].size == entries@[j].size) by {
                    if j < i && entries@[j].size > 0 {
                        if exists|k: int| 0 <= k < i + 1 && k != j && #[trigger] entries@[k].size == entries@[j].size {
                            let k = choose|k: int| 0 <= k < i + 1 && k != j && #[trigger] entries@[k].size == entries@[j].size;
                            assert(k != i);
                        }
                    }
                }
            }
        } else {
            match first.get(&size) {
                Some(f) => {
                    let f = *f;
                    marks.set(f, true);
                    marks.push(true);
                    proof {
                        assert forall|j: int|
                            0 <= j < i + 1 implies #[trigger] marks@[j] == (entries@[j].size > 0 && exists|k: int|
                                0 <= k < i + 1 && k != j && #[trigger] entries@[k].size == entries@[j].size) by {
                            if j == i {
                                assert(entries@[f as int].size == entries@[j].size);
                            } else if j == f {
                                assert(entries@[i as int].size == entries@[j].size);
                            } else if entries@[j].size == size {
                                assert(entries@[i as int].size == entries@[j].size);
                                assert(entries@[f as int].size == entries@[j].size);
                            } else {
                                if exists|k: int| 0 <= k < i + 1 && k != j && #[trigger] entries@[k].size == entries@[j].size {
                                    let k = choose|k: int| 0 <= k < i + 1 && k != j && #[trigger] entries@[k].size == entries@[j].size;
                                    assert(k != i);
                                }
                            }
                        }
                    }
                },
                None => {
                    first.insert(size, i);
                    marks.push(false);
                    proof {
                        assert forall|j: int|
                            0 <= j < i + 1 implies #[trigger] marks@[j] == (entries@[j].size > 0 && exists|k: int|
                                0 <= k < i + 1 && k != j && #[trigger] entries@[k].size == entries@[j].size) by {
                            if j == i {
                                if exists|k: int| 0 <= k < i + 1 && k != j && #[trigger] entries@[k].size == entries@[j].size {
                                    let k = choose|k: int| 0 <= k < i + 1 && k != j && #[trigger] entries@[k].size == entries@[j].size;
                                    assert(first@.contains_key(entries@[k].size));
                                }
                            } else {
                                if exists|k: int| 0 <= k < i + 1 && k != j && #[trigger] entries@[k].size == entries@[j].size {
                                    let k = choose|k: int| 0 <= k < i + 1 && k != j && #[trigger] entries@[k].size == entries@[j].size;
                                    if k == i {
                                        assert(first@.contains_key(entries@[j].size));
                                    }
                                }
                            }
                        }
                    }
                },
            }
        }
        i += 1;
    }
    marks
}

// ------------------------------------------------------------------ age

/// Nanoseconds in a day.
pub open spec fn day_nanos() -> int {
    86_400_000_000_000
}

/// The instant `age_days` days before `now`.
pub open spec fn age_cutoff(now: i128, age_days: u32) -> int {
    now - age_days * day_nanos()
}

/// The entry's `basis` timestamp exists and lies strictly before `cutoff`.
pub open spec fn older_than(e: FileEntry, basis: TimeBasis, cutoff: int) -> bool {
    match time_of(e, basis) {
        Some(t) => t < cutoff,
        None => false,
    }
}

/// The entries of `s` that are older than `cutoff`, in their original order.
pub open spec fn select_older(s: Seq<FileEntry>, basis: TimeBasis, cutoff: int) -> Seq<FileEntry>
    decreases s.len(),
{
    if s.len() == 0 {
        Seq::empty()
    } else {
        let rest = select_older(s.drop_last(), basis, cutoff);
        if older_than(s.last(), basis, cutoff) {
            rest.push(s.last())
        } else {
            rest
        }
    }
}

/// Largest magnitude of a clock reading in nanoseconds (a `Duration` holds at
/// most `u64::MAX` seconds plus less than one second).
pub open spec fn clock_bound() -> int {
    18_446_744_074_709_551_615_000_000_000
}

/// Reads `SystemTime::now()` against the Unix epoch: whether it is at or after
/// the epoch, and the distance as whole seconds plus nanoseconds. Claimed: only
/// that the nanoseconds are below one second (as `Duration::subsec_nanos`
/// documents); the reading depends on the clock.
#[verifier::external_body]
fn clock_reading() -> (r: (bool, u64, u32))
    ensures
        r.2 < 1_000_000_000,
{
    match std::time::SystemTime::now().duration_since(std::time::UNIX_EPOCH) {
        Ok(d) => (true, d.as_secs(), d.subsec_nanos()),
        Err(e) => (false, e.duration().as_secs(), e.duration().subsec_nanos()),
    }
}

/// The instant of a clock reading in nanoseconds relative to the Unix epoch:
/// `secs` seconds and `sub` nanoseconds after the epoch when `after`, before it
/// otherwise.
pub fn reading_nanos(after: bool, secs: u64, sub: u32) -> (r: i128)
    requires
        sub < 1_000_000_000,
    ensures
        r == if after {
            secs * 1_000_000_000 + sub
        } else {
            -(secs * 1_000_000_000 + sub)
        },
        -clock_bound() <= r <= clock_bound(),
{
    assert((secs as i128) * 1_000_000_000i128 <= 18_446_744_073_709_551_615_000_000_000i128)
        by (nonlinear_arith)
        requires
            secs <= u64::MAX,
    ;
    let mag: i128 = (secs as i128) * 1_000_000_000i128 + (sub as i128);
    if after {
        mag
    } else {
        -mag
    }
}

/// The current time in nanoseconds relative to the Unix epoch.
pub fn now_nanos() -> (r: i128)
    ensures
        -clock_bound() <= r <= clock_bound(),
{
    let (after, secs, sub) = clock_reading();
    reading_nanos(after, secs, sub)
}

/// Select files whose `basis` timestamp is older than `age_days` days before `now`.
pub fn find_by_age_at(entries: &[FileEntry], age_days: u32, basis: TimeBasis, now: i128) -> (r: Vec<
    FileEntry,
>)
    requires
        -clock_bound() <= now <= clock_bound(),
    ensures
        r@ == select_older(entries@, basis, age_cutoff(now, age_days)),
{
    let cutoff: i128 = now - (age_days as i128) * 86_400_000_000_000i128;
    let mut out: Vec<FileEntry> = Vec::new();
    let mut i: usize = 0;
    while i < entries.len()
        invariant
            i <= entries.len(),
            cutoff == age_cutoff(now, age_days),
            out@ == select_older(entries@.take(i as int), basis, cutoff as int),
        decreases entries.len() - i,
    {
        assert(entries@.take(i + 1).drop_last() =~= entries@.take(i as int));
        let keep = match entries[i].time(basis) {
            Some(t) => t < cutoff,
            None => false,
        };
        if keep {
            out.push(entries[i].duplicate());
        }
        i += 1;
    }
    assert(entries@.take(entries.len() as int) =~= entries@);
    out
}

/// Select files whose `basis` timestamp is older than `age_days` days.
pub fn find_by_age(entries: &[FileEntry], age_days: u32, basis: TimeBasis) -> (r: Vec<FileEntry>)
    ensures
        exists|now: i128|
            -clock_bound() <= now <= clock_bound() && r@ == select_older(
                entries@,
                basis,
                #[trigger] age_cutoff(now, age_days),
            ),
{
    let now = now_nanos();
    find_by_age_at(entries, age_days, basis, now)
}


/// The age cutoff lies `age_days` whole days of nanoseconds before `now`: zero
/// days give `now`, and each further day moves it one day earlier.
pub proof fn law_age_cutoff_counts_days(now: i128, age_days: u32)
    ensures
        age_cutoff(now, 0) == now,
        age_days < u32::MAX ==> age_cutoff(now, (age_days + 1) as u32) == age_cutoff(now, age_days)
            - 86_400_000_000_000,
{
    assert(age_days * day_nanos() + day_nanos() == (age_days + 1) * day_nanos()) by (nonlinear_arith);
}

/// Age selection reads the timestamp of the basis asked for: it keeps, in
/// their order, exactly the entries whose modification (access, creation)
/// time is known and lies before the cutoff, whatever their other times.
pub proof fn law_age_selection_reads_its_basis(s: Seq<FileEntry>, basis: TimeBasis, cutoff: int)
    ensures
        select_older(s, basis, cutoff) == s.filter(
            |e: FileEntry|
                match basis {
                    TimeBasis::Modified => e.modified,
                    TimeBasis::Accessed => e.accessed,
                    TimeBasis::Created => e.created,
                } matches Some(t) && t < cutoff,
        ),
    decreases s.len(),
{
    reveal(Seq::filter);
    if s.len() > 0 {
        law_age_selection_reads_its_basis(s.drop_last(), basis, cutoff);
    }
}

/// The error for an age of zero days.
pub open spec fn zero_age_message() -> Seq<char> {
    "Age cannot be zero. Please provide a positive age in days."@
}

/// The entry's access time, read as whole seconds (the nanoseconds dropped),
/// lies strictly before `cutoff`; an entry without one is not selected.
pub open spec fn unused_before(e: FileEntry, cutoff: int) -> bool {
    match e.accessed {
        Some(t) => (t as int / 1_000_000_000) * 1_000_000_000 < cutoff,
        None => false,
    }
}

/// The entries of `s` not accessed before `cutoff`, in their original order.
pub open spec fn select_unused(s: Seq<FileEntry>, cutoff: int) -> Seq<FileEntry>
    decreases s.len(),
{
    if s.len() == 0 {
        Seq::empty()
    } else {
        let rest = select_unused(s.drop_last(), cutoff);
        if unused_before(s.last(), cutoff) {
            rest.push(s.last())
        } else {
            rest
        }
    }
}

/// No access time lies before the epoch.
pub open spec fn access_times_after_epoch(s: Seq<FileEntry>) -> bool {
    forall|i: int| 0 <= i < s.len() ==> (#[trigger] s[i].accessed matches Some(t) ==> t >= 0)
}

/// Unused files are chosen by access time alone, read in whole seconds: the
/// selection keeps, in their order, exactly the entries with a known access
/// time whose whole seconds lie before the cutoff, whatever their other times.
pub proof fn law_unused_reads_access_seconds(s: Seq<FileEntry>, cutoff: int)
    ensures
        select_unused(s, cutoff) == s.filter(
            |e: FileEntry| e.accessed matches Some(t) && (t as int / 1_000_000_000) * 1_000_000_000 < cutoff,
        ),
    decreases s.len(),
{
    reveal(Seq::filter);
    if s.len() > 0 {
        law_unused_reads_access_seconds(s.drop_last(), cutoff);
    }
}

/// Files whose access time, in whole seconds, is older than `age_days` days
/// before `now`.
pub fn get_unused_at(entries: &[FileEntry], age_days: u32, now: i128) -> (r: Vec<FileEntry>)
    requires
        -clock_bound() <= now <= clock_bound(),
        access_times_after_epoch(entries@),
    ensures
        r@ == select_unused(entries@, age_cutoff(now, age_days)),
{
    let cutoff: i128 = now - (age_days as i128) * 86_400_000_000_000i128;
    let mut out: Vec<FileEntry> = Vec::new();
    let mut i: usize = 0;
    while i < entries.len()
        invariant
            i <= entries.len(),
            cutoff == age_cutoff(now, age_days),
            access_times_after_epoch(entries@),
            out@ == select_unused(entries@.take(i as int), cutoff as int),
        decreases entries.len() - i,
    {
        assert(entries@.take(i + 1).drop_last() =~= entries@.take(i as int));
        let keep = match entries[i].accessed {
            Some(t) => {
                assert(entries@[i as int].accessed matches Some(t) ==> t >= 0);
                let secs: u128 = (t as u128) / 1_000_000_000u128;
                let whole: i128 = (secs as i128) * 1_000_000_000i128;
                whole < cutoff
            },
            None => false,
        };
        if keep {
            out.push(entries[i].duplicate());
        }
        i += 1;
    }
    assert(entries@.take(entries.len() as int) =~= entries@);
    out
}

/// Files not accessed for `age` days, the access time read as whole seconds;
/// an age of zero is refused.
pub fn get_unused(entries: &[FileEntry], age: u32) -> (r: Result<Vec<FileEntry>, CrabError>)
    requires
        age != 0 ==> access_times_after_epoch(entries@),
    ensures
        (age == 0) == (r is Err),
        r matches Err(e) ==> (e matches CrabError::InvalidArgument(m) && m@ == zero_age_message()),
        r matches Ok(v) ==> exists|now: i128|
            -clock_bound() <= now <= clock_bound() && v@ == select_unused(entries@, #[trigger] age_cutoff(now, age)),
{
    if age == 0 {
        return Err(
            CrabError::InvalidArgument(
                String::from_str("Age cannot be zero. Please provide a positive age in days."),
            ),
        );
    }
    let now = now_nanos();
    Ok(get_unused_at(entries, age, now))
}
} // verus!
