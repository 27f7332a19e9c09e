//! Stable sorting of lists by a key made of two integers and a text, compared
//! in that order (the text lexicographically by character).

use vstd::prelude::*;

verus! {

/// Lexicographic order on character sequences (a proper prefix comes first).
pub open spec fn seq_less(a: Seq<char>, b: Seq<char>) -> bool
    decreases a.len(),
{
    if b.len() == 0 {
        false
    } else if a.len() == 0 {
        true
    } else if a[0] != b[0] {
        a[0] < b[0]
    } else {
        seq_less(a.drop_first(), b.drop_first())
    }
}

/// Texts are ordered lexicographically by character: after a common prefix
/// of length `k`, the first differing character decides; a text that ends
/// there comes before a longer one, and nothing comes before a text that ends
/// there.
pub proof fn law_text_order_is_lexicographic(a: Seq<char>, b: Seq<char>, k: int)
    requires
        0 <= k <= a.len(),
        k <= b.len(),
        a.take(k) == b.take(k),
    ensures
        k < a.len() && k < b.len() && a[k] != b[k] ==> (seq_less(a, b) <==> a[k] < b[k]),
        k == a.len() && k < b.len() ==> seq_less(a, b),
        k == b.len() ==> !seq_less(a, b),
    decreases k,
{
    if k > 0 {
        assert(a[0] == a.take(k)[0] && b[0] == b.take(k)[0]);
        assert(a.drop_first().take(k - 1) =~= a.take(k).drop_first());
        assert(b.drop_first().take(k - 1) =~= b.take(k).drop_first());
        law_text_order_is_lexicographic(a.drop_first(), b.drop_first(), k - 1);
        if k < a.len() && k < b.len() {
            assert(a.drop_first()[k - 1] == a[k] && b.drop_first()[k - 1] == b[k]);
        }
    }
}

pub proof fn lemma_seq_less_irreflexive(a: Seq<char>)
    ensures
        !seq_less(a, a),
    decreases a.len(),
{
    if a.len() > 0 {
        lemma_seq_less_irreflexive(a.drop_first());
    }
}

pub proof fn lemma_seq_less_asymmetric(a: Seq<char>, b: Seq<char>)
    ensures
        !(seq_less(a, b) && seq_less(b, a)),
    decreases a.len(),
{
    if a.len() > 0 && b.len() > 0 && a[0] == b[0] {
        lemma_seq_less_asymmetric(a.drop_first(), b.drop_first());
    }
}

pub proof fn lemma_seq_less_transitive(a: Seq<char>, b: Seq<char>, c: Seq<char>)
    requires
        seq_less(a, b),
        seq_less(b, c),
    ensures
        seq_less(a, c),
    decreases a.len(),
{
    if a.len() > 0 && a[0] == b[0] && b[0] == c[0] {
        lemma_seq_less_transitive(a.drop_first(), b.drop_first(), c.drop_first());
    }
}

pub proof fn lemma_seq_less_total(a: Seq<char>, b: Seq<char>)
    ensures
        seq_less(a, b) || seq_less(b, a) || a == b,
    decreases a.len(),
{
    if a.len() > 0 && b.len() > 0 {
        if a[0] == b[0] {
            lemma_seq_less_total(a.drop_first(), b.drop_first());
            if a.drop_first() == b.drop_first() {
                assert(a =~= seq![a[0]] + a.drop_first());
                assert(b =~= seq![b[0]] + b.drop_first());
            }
        }
    } else if a.len() == 0 && b.len() == 0 {
        assert(a =~= b);
    }
}

/// Compares two character slices: -1, 0 or 1.
pub fn compare_chars(a: &[char], b: &[char]) -> (r: i8)
    ensures
        r == -1 <==> seq_less(a@, b@),
        r == 1 <==> seq_less(b@, a@),
        r == 0 <==> a@ == b@,
        r == -1 || r == 0 || r == 1,
{
    let mut i: usize = 0;
    assert(a@.skip(0) =~= a@);
    assert(b@.skip(0) =~= b@);
    while i < a.len() && i < b.len() && a[i] == b[i]
        invariant
            i <= a.len(),
            i <= b.len(),
            forall|k: int| 0 <= k < i ==> a@[k] == b@[k],
            seq_less(a@, b@) == seq_less(a@.skip(i as int), b@.skip(i as int)),
            seq_less(b@, a@) == seq_less(b@.skip(i as int), a@.skip(i as int)),
        decreases a.len() - i,
    {
        assert(a@.skip(i as int).drop_first() =~= a@.skip(i + 1));
        assert(b@.skip(i as int).drop_first() =~= b@.skip(i + 1));
        i += 1;
    }
    proof {
        lemma_seq_less_irreflexive(a@);
        lemma_seq_less_asymmetric(a@, b@);
    }
    if i < a.len() && i < b.len() {
        assert(a@.skip(i as int)[0] == a@[i as int]);
        assert(b@.skip(i as int)[0] == b@[i as int]);
        if a[i] < b[i] {
            assert(a@[i as int] != b@[i as int]);
            assert(a@ != b@);
            -1
        } else {
            assert(a@[i as int] != b@[i as int]);
            assert(a@ != b@);
            1
        }
    } else if i == a.len() && i == b.len() {
        assert(a@ =~= b@);
        0
    } else if i == a.len() {
        assert(a@.skip(i as int).len() == 0);
        assert(b@.skip(i as int).len() > 0);
        assert(a@.len() != b@.len());
        -1
    } else {
        assert(b@.skip(i as int).len() == 0);
        assert(a@.skip(i as int).len() > 0);
        assert(a@.len() != b@.len());
        1
    }
}

/// A sort key: two integers and a text, compared in that order.
pub struct SortVal {
    pub major: i128,
    pub minor: i128,
    pub text: Vec<char>,
}

/// The value a key stands for.
pub open spec fn key_view(k: SortVal) -> (int, int, Seq<char>) {
    (k.major as int, k.minor as int, k.text@)
}

pub open spec fn keys_view(ks: Seq<SortVal>) -> Seq<(int, int, Seq<char>)> {
    ks.map_values(|k: SortVal| key_view(k))
}

pub open spec fn key_less(a: (int, int, Seq<char>), b: (int, int, Seq<char>)) -> bool {
    ||| a.0 < b.0
    ||| (a.0 == b.0 && a.1 < b.1)
    ||| (a.0 == b.0 && a.1 == b.1 && seq_less(a.2, b.2))
}

pub open spec fn key_same(a: (int, int, Seq<char>), b: (int, int, Seq<char>)) -> bool {
    a == b
}

/// `a` comes before `b` in the order chosen by `desc` (descending reverses it).
pub open spec fn key_before(a: (int, int, Seq<char>), b: (int, int, Seq<char>), desc: bool) -> bool {
    if desc {
        key_less(b, a)
    } else {
        key_less(a, b)
    }
}

pub proof fn lemma_key_order(a: (int, int, Seq<char>), b: (int, int, Seq<char>), c: (int, int, Seq<char>))
    ensures
        !key_less(a, a),
        !(key_less(a, b) && key_less(b, a)),
        key_less(a, b) && key_less(b, c) ==> key_less(a, c),
        key_less(a, b) || key_less(b, a) || key_same(a, b),
        key_same(a, b) ==> !key_less(a, b) && !key_less(b, a),
        key_same(a, b) && key_less(b, c) ==> key_less(a, c),
        key_less(a, b) && key_same(b, c) ==> key_less(a, c),
{
    lemma_seq_less_irreflexive(a.2);
    lemma_seq_less_asymmetric(a.2, b.2);
    lemma_seq_less_total(a.2, b.2);
    if key_less(a, b) && key_less(b, c) && a.0 == b.0 && b.0 == c.0 && a.1 == b.1 && b.1 == c.1 {
        lemma_seq_less_transitive(a.2, b.2, c.2);
    }
    if key_same(a, b) {
        lemma_seq_less_irreflexive(b.2);
    }
    if a.0 == b.0 && a.1 == b.1 && a.2 == b.2 {
        assert(a == b);
    }
}

/// Compares two keys: -1, 0 or 1.
pub fn compare_keys(a: &SortVal, b: &SortVal) -> (r: i8)
    ensures
        r == -1 <==> key_less(key_view(*a), key_view(*b)),
        r == 1 <==> key_less(key_view(*b), key_view(*a)),
        r == 0 <==> key_same(key_view(*a), key_view(*b)),
{
    proof {
        lemma_key_order(key_view(*a), key_view(*b), key_view(*b));
        lemma_key_order(key_view(*b), key_view(*a), key_view(*a));
    }
    if a.major < b.major {
        -1
    } else if a.major > b.major {
        1
    } else if a.minor < b.minor {
        -1
    } else if a.minor > b.minor {
        1
    } else {
        compare_chars(&a.text, &b.text)
    }
}

/// Position `p` of the input comes before position `q` in a stable sort:
/// by key, and by position for equal keys.
pub open spec fn pos_before(keys: Seq<(int, int, Seq<char>)>, desc: bool, p: int, q: int) -> bool {
    key_before(keys[p], keys[q], desc) || (key_same(keys[p], keys[q]) && p < q)
}

/// `perm` lists the positions `0..n` exactly once each.
pub open spec fn is_permutation(perm: Seq<usize>, n: int) -> bool {
    &&& perm.len() == n
    &&& forall|k: int| 0 <= k < perm.len() ==> (#[trigger] perm[k] as int) < n
    &&& perm.no_duplicates()
}

/// Position `p` occurs in `perm`.
pub open spec fn occurs(perm: Seq<usize>, p: int) -> bool {
    exists|m: int| 0 <= m < perm.len() && perm[m] as int == p
}

/// Every position `0..n` occurs in a permutation of `0..n`.
pub proof fn lemma_permutation_onto(perm: Seq<usize>, n: int)
    requires
        is_permutation(perm, n),
    ensures
        forall|p: int| 0 <= p < n ==> #[trigger] occurs(perm, p),
{
    let pi = perm.map_values(|x: usize| x as int);
    assert(pi.no_duplicates()) by {
        assert forall|a: int, b: int| 0 <= a < pi.len() && 0 <= b < pi.len() && a != b implies pi[a] != pi[b] by {
            assert(perm[a] != perm[b]);
        }
    }
    pi.unique_seq_to_set();
    vstd::set_lib::lemma_int_range(0, n);
    assert(pi.to_set().subset_of(vstd::set_lib::set_int_range(0, n))) by {
        assert forall|x: int| pi.to_set().contains(x) implies vstd::set_lib::set_int_range(0, n).contains(x) by {
            let m = choose|m: int| 0 <= m < pi.len() && pi[m] == x;
            assert(perm[m] as int == x);
        }
    }
    vstd::seq_lib::seq_to_set_is_finite(pi);
    vstd::set_lib::lemma_subset_equality(pi.to_set(), vstd::set_lib::set_int_range(0, n));
    assert forall|p: int| 0 <= p < n implies #[trigger] occurs(perm, p) by {
        assert(vstd::set_lib::set_int_range(0, n).contains(p));
        assert(pi.to_set().contains(p));
        let m = choose|m: int| 0 <= m < pi.len() && pi[m] == p;
        assert(perm[m] as int == p);
    }
}

/// `perm` is the stable sort of the positions of `keys`.
pub open spec fn is_stable_order(keys: Seq<(int, int, Seq<char>)>, desc: bool, perm: Seq<usize>) -> bool {
    &&& is_permutation(perm, keys.len() as int)
    &&& forall|a: int, b: int|
        0 <= a < b < perm.len() ==> pos_before(
            keys,
            desc,
            #[trigger] perm[a] as int,
            #[trigger] perm[b] as int,
        )
}

proof fn lemma_pos_before_order(keys: Seq<(int, int, Seq<char>)>, desc: bool, p: int, q: int, r: int)
    requires
        0 <= p < keys.len(),
        0 <= q < keys.len(),
        0 <= r < keys.len(),
    ensures
        pos_before(keys, desc, p, q) && pos_before(keys, desc, q, r) ==> pos_before(
            keys,
            desc,
            p,
            r,
        ),
        p != q ==> (pos_before(keys, desc, p, q) || pos_before(keys, desc, q, p)),
        !(pos_before(keys, desc, p, q) && pos_before(keys, desc, q, p)),
{
    lemma_key_order(keys[p], keys[q], keys[r]);
    lemma_key_order(keys[q], keys[p], keys[r]);
    lemma_key_order(keys[r], keys[q], keys[p]);
    lemma_key_order(keys[q], keys[r], keys[p]);
    lemma_key_order(keys[p], keys[r], keys[q]);
    lemma_key_order(keys[r], keys[p], keys[q]);
}

/// The positions of `keys` in stable sorted order (ascending, or descending
/// when `desc`; equal keys keep their input order).
pub fn stable_order(keys: &Vec<SortVal>, desc: bool) -> (r: Vec<usize>)
    ensures
        is_stable_order(keys_view(keys@), desc, r@),
{
    let n = keys.len();
    let mut perm: Vec<usize> = Vec::new();
    let mut i: usize = 0;
    while i < n
        invariant
            i <= n == keys@.len(),
            is_permutation(perm@, i as int),
            forall|a: int, b: int|
                0 <= a < b < perm@.len() ==> pos_before(
                    keys_view(keys@),
                    desc,
                    #[trigger] perm@[a] as int,
                    #[trigger] perm@[b] as int,
                ),
        decreases n - i,
    {
        // find the insertion point: after every position that comes before i
        let mut j: usize = perm.len();
        loop
            invariant
                j <= perm@.len() == i,
                i < n == keys@.len(),
                forall|k: int| 0 <= k < perm@.len() ==> (#[trigger] perm@[k] as int) < i,
                forall|k: int| j <= k < perm@.len() ==> pos_before(keys_view(keys@), desc, i as int, #[trigger] perm@[k] as int),
            ensures
                j <= perm@.len(),
                forall|k: int| j <= k < perm@.len() ==> pos_before(keys_view(keys@), desc, i as int, #[trigger] perm@[k] as int),
                j > 0 ==> !key_before(keys_view(keys@)[i as int], keys_view(keys@)[perm@[j - 1] as int], desc),
            decreases j,
        {
            if j == 0 {
                break;
            }
            let c = compare_keys(&keys[i], &keys[perm[j - 1]]);
            let goes_first = if desc {
                c == 1
            } else {
                c == -1
            };
            if !goes_first {
                break;
            }
            j -= 1;
        }
        proof {
            if j > 0 {
                let q = perm@[j - 1] as int;
                lemma_pos_before_order(keys_view(keys@), desc, i as int, q, q);
                lemma_key_order(keys_view(keys@)[i as int], keys_view(keys@)[q], keys_view(keys@)[q]);
                assert(q < i);
                assert(pos_before(keys_view(keys@), desc, q, i as int));
            }
        }
        let ghost old_perm = perm@;
        perm.insert(j, i);
        proof {
            assert(perm@ =~= old_perm.take(j as int).push(i) + old_perm.skip(j as int));
            assert forall|k: int| 0 <= k < perm@.len() implies (#[trigger] perm@[k] as int) < i + 1 by {
                if k < j {
                    assert(perm@[k] == old_perm[k]);
                } else if k > j {
                    assert(perm@[k] == old_perm[k - 1]);
                }
            }
            assert(perm@.no_duplicates()) by {
                assert forall|a: int, b: int| 0 <= a < perm@.len() && 0 <= b < perm@.len() && a != b implies perm@[a] != perm@[b] by {
                    let pa = if a < j { old_perm[a] } else if a == j { i } else { old_perm[a - 1] };
                    let pb = if b < j { old_perm[b] } else if b == j { i } else { old_perm[b - 1] };
                    assert(perm@[a] == pa);
                    assert(perm@[b] == pb);
                    if a != j && b != j {
                        let oa = if a < j { a } else { a - 1 };
                        let ob = if b < j { b } else { b - 1 };
                        assert(oa != ob);
                        assert(old_perm[oa] != old_perm[ob]);
                    } else if a == j {
                        let ob = if b < j { b } else { b - 1 };
                        assert((old_perm[ob] as int) < i);
                    } else {
                        let oa = if a < j { a } else { a - 1 };
                        assert((old_perm[oa] as int) < i);
                    }
                }
            }
            assert forall|a: int, b: int|
                0 <= a < b < perm@.len() implies pos_before(
                keys_view(keys@),
                desc,
                #[trigger] perm@[a] as int,
                #[trigger] perm@[b] as int,
            ) by {
                if b < j {
                    assert(perm@[a] == old_perm[a] && perm@[b] == old_perm[b]);
                } else if a > j {
                    assert(perm@[a] == old_perm[a - 1] && perm@[b] == old_perm[b - 1]);
                } else if a == j {
                    assert(perm@[b] == old_perm[b - 1]);
                } else if b == j {
                    // a < j: old_perm[a] comes before old_perm[j - 1], which comes before i
                    assert(perm@[a] == old_perm[a]);
                    if a < j - 1 {
                        lemma_pos_before_order(keys_view(keys@), desc, old_perm[a] as int, old_perm[j - 1] as int, i as int);
                    }
                } else {
                    // a < j < b
                    assert(perm@[a] == old_perm[a] && perm@[b] == old_perm[b - 1]);
                }
            }
        }
        i += 1;
    }
    perm
}

} // verus!
