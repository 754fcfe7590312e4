//! Stable ordering of records by a two-part key: a group flag (records
//! whose flag is `false` come first), then a name in lexicographic order.
use vstd::prelude::*;
use crate::text::{lex_less, lemma_lex_irreflexive, lemma_lex_transitive, lemma_lex_total};

verus! {

/// The key by which a record is ordered.
pub struct SortKey {
    /// Records with `late == true` come after those with `late == false`.
    pub late: bool,
    /// Within a group, records are ordered by this name.
    pub name: Vec<char>,
}

/// The mathematical value of a key.
pub open spec fn key_view(k: SortKey) -> (bool, Seq<char>) {
    (k.late, k.name@)
}

/// The mathematical values of a sequence of keys.
pub open spec fn key_views(keys: Seq<SortKey>) -> Seq<(bool, Seq<char>)> {
    keys.map_values(|k: SortKey| key_view(k))
}

/// Key `a` must come strictly before key `b`.
pub open spec fn key_before(a: (bool, Seq<char>), b: (bool, Seq<char>)) -> bool {
    (!a.0 && b.0) || (a.0 == b.0 && lex_less(a.1, b.1))
}

/// `p` lists each of `0..n` exactly once.
pub open spec fn is_permutation(p: Seq<usize>, n: nat) -> bool {
    &&& p.len() == n
    &&& forall|k: int| 0 <= k < n ==> #[trigger] p[k] < n
    &&& forall|k: int, l: int| 0 <= k < l < n ==> p[k] != p[l]
}

/// `p` is the stable sorting order of `keys`: a permutation of the
/// positions under which no key comes before an earlier one, and records
/// with equal keys keep their original relative order.
pub open spec fn is_stable_order(keys: Seq<(bool, Seq<char>)>, p: Seq<usize>) -> bool {
    &&& is_permutation(p, keys.len())
    &&& forall|k: int, l: int|
        0 <= k < l < p.len() ==> !key_before(keys[p[l] as int], keys[p[k] as int])
    &&& forall|k: int, l: int|
        0 <= k < l < p.len() && !key_before(keys[p[k] as int], keys[p[l] as int]) ==> p[k] < p[l]
}

/// The items at the positions `p`, in that order.
pub open spec fn arranged<T>(items: Seq<T>, p: Seq<usize>) -> Seq<T> {
    p.map_values(|j: usize| items[j as int])
}

/// `out` is `items` sorted stably by `key`.
pub open spec fn stably_sorted_by<T>(
    items: Seq<T>,
    key: spec_fn(T) -> (bool, Seq<char>),
    out: Seq<T>,
) -> bool {
    exists|p: Seq<usize>| is_stable_order(items.map_values(key), p) && out == arranged(items, p)
}

/// No key comes before itself.
pub proof fn lemma_key_irreflexive(a: (bool, Seq<char>))
    ensures
        !key_before(a, a),
{
    lemma_lex_irreflexive(a.1);
}

/// The key order is transitive.
pub proof fn lemma_key_transitive(a: (bool, Seq<char>), b: (bool, Seq<char>), c: (bool, Seq<char>))
    requires
        key_before(a, b),
        key_before(b, c),
    ensures
        key_before(a, c),
{
    if a.0 == b.0 && b.0 == c.0 {
        lemma_lex_transitive(a.1, b.1, c.1);
    }
}

/// Two keys are equal or one comes before the other.
pub proof fn lemma_key_total(a: (bool, Seq<char>), b: (bool, Seq<char>))
    ensures
        a == b || key_before(a, b) || key_before(b, a),
{
    lemma_lex_total(a.1, b.1);
}

/// "Not after" is transitive.
pub proof fn lemma_key_not_after(a: (bool, Seq<char>), b: (bool, Seq<char>), c: (bool, Seq<char>))
    requires
        !key_before(b, a),
        !key_before(c, b),
    ensures
        !key_before(c, a),
{
    lemma_key_total(a, b);
    lemma_key_total(b, c);
    if key_before(c, a) {
        if key_before(a, b) {
            lemma_key_transitive(c, a, b);
        }
    }
}

/// Whether key `a` comes strictly before key `b`.
pub fn key_before_exec(a: &SortKey, b: &SortKey) -> (r: bool)
    ensures
        r == key_before(key_view(*a), key_view(*b)),
{
    if a.late != b.late {
        !a.late
    } else {
        crate::text::lex_less_exec(a.name.as_slice(), b.name.as_slice())
    }
}

/// The stable sorting order of `keys` (insertion sort).
pub fn stable_order(keys: &Vec<SortKey>) -> (p: Vec<usize>)
    ensures
        is_stable_order(key_views(keys@), p@),
{
    let ghost kv = key_views(keys@);
    let mut p: Vec<usize> = Vec::new();
    let n = keys.len();
    let mut i: usize = 0;
    while i < n
        invariant
            n == keys@.len(),
            kv == key_views(keys@),
            kv.len() == n,
            i <= n,
            p@.len() == i,
            forall|k: int| 0 <= k < i ==> #[trigger] p@[k] < i,
            forall|k: int, l: int| 0 <= k < l < i ==> p@[k] != p@[l],
            forall|k: int, l: int|
                0 <= k < l < i ==> !key_before(kv[p@[l] as int], kv[p@[k] as int]),
            forall|k: int, l: int|
                0 <= k < l < i && !key_before(kv[p@[k] as int], kv[p@[l] as int]) ==> p@[k]
                    < p@[l],
        decreases n - i,
    {
        let ghost x = kv[i as int];
        assert(key_view(keys@[i as int]) == x);
        let mut j = i;
        while j > 0 && key_before_exec(&keys[i], &keys[p[j - 1]])
            invariant
                n == keys@.len(),
                kv == key_views(keys@),
                kv.len() == n,
                i < n,
                x == kv[i as int],
                p@.len() == i,
                forall|k: int| 0 <= k < i ==> #[trigger] p@[k] < i,
                j <= i,
                forall|m: int| j <= m < i ==> key_before(x, #[trigger] kv[p@[m] as int]),
            decreases j,
        {
            assert(key_view(keys@[p@[j - 1] as int]) == kv[p@[j - 1] as int]);
            j = j - 1;
        }
        proof {
            if j > 0 {
                assert(key_view(keys@[p@[j - 1] as int]) == kv[p@[j - 1] as int]);
            }
        }
        let ghost old_p = p@;
        p.insert(j, i);
        proof {
            assert(p@ == old_p.insert(j as int, i));
            assert forall|k: int, l: int| 0 <= k < l < i + 1 implies !key_before(
                kv[p@[l] as int],
                kv[p@[k] as int],
            ) by {
                if l < j {
                } else if k > j {
                    assert(p@[k] == old_p[k - 1] && p@[l] == old_p[l - 1]);
                } else if l == j {
                    assert(p@[k] == old_p[k]);
                    lemma_key_irreflexive(kv[old_p[k] as int]);
                    lemma_key_not_after(kv[old_p[k] as int], kv[old_p[j - 1] as int], x);
                } else if k == j {
                    assert(p@[l] == old_p[l - 1]);
                    let y = kv[old_p[l - 1] as int];
                    assert(key_before(x, y));
                    if key_before(y, x) {
                        lemma_key_transitive(x, y, x);
                        lemma_key_irreflexive(x);
                    }
                } else {
                    assert(p@[k] == old_p[k] && p@[l] == old_p[l - 1]);
                }
            }
            assert forall|k: int, l: int|
                0 <= k < l < i + 1 && !key_before(
                    kv[p@[k] as int],
                    kv[p@[l] as int],
                ) implies p@[k] < p@[l] by {
                if l < j {
                } else if k > j {
                    assert(p@[k] == old_p[k - 1] && p@[l] == old_p[l - 1]);
                } else if l == j {
                    assert(p@[k] == old_p[k]);
                } else if k == j {
                    assert(p@[l] == old_p[l - 1]);
                } else {
                    assert(p@[k] == old_p[k] && p@[l] == old_p[l - 1]);
                }
            }
            assert forall|k: int| 0 <= k < i + 1 implies #[trigger] p@[k] < i + 1 by {
                if k < j {
                } else if k > j {
                    assert(p@[k] == old_p[k - 1]);
                }
            }
            assert forall|k: int, l: int| 0 <= k < l < i + 1 implies p@[k] != p@[l] by {
                if l < j {
                } else if k > j {
                    assert(p@[k] == old_p[k - 1] && p@[l] == old_p[l - 1]);
                } else if l == j {
                    assert(p@[k] == old_p[k]);
                } else if k == j {
                    assert(p@[l] == old_p[l - 1]);
                } else {
                    assert(p@[k] == old_p[k] && p@[l] == old_p[l - 1]);
                }
            }
        }
        i = i + 1;
    }
    p
}

// ---------------------------------------------------------------------
// Laws
// ---------------------------------------------------------------------

/// A permutation of `0..n` reaches every position.
pub proof fn lemma_permutation_onto(p: Seq<usize>, n: nat, j: int)
    requires
        is_permutation(p, n),
        0 <= j < n,
    ensures
        exists|k: int| 0 <= k < n && p[k] == j,
{
    let q = p.map_values(|x: usize| x as int);
    assert(q.no_duplicates()) by {
        assert forall|a: int, b: int| 0 <= a < q.len() && 0 <= b < q.len() && a != b implies q[a]
            != q[b] by {
            if a < b {
            } else {
            }
        }
    }
    q.unique_seq_to_set();
    let range = vstd::set_lib::set_int_range(0, n as int);
    vstd::set_lib::lemma_int_range(0, n as int);
    assert(q.to_set().subset_of(range)) by {
        assert forall|x: int| q.to_set().contains(x) implies range.contains(x) by {
            let k = choose|k: int| 0 <= k < q.len() && q[k] == x;
            assert(p[k] < n);
        }
    }
    vstd::seq_lib::seq_to_set_is_finite(q);
    vstd::set_lib::lemma_subset_equality(q.to_set(), range);
    assert(range.contains(j));
    assert(q.to_set().contains(j));
    let k = choose|k: int| 0 <= k < q.len() && q[k] == j;
    assert(p[k] == j);
}

/// Two stable orders of the same keys that agree before position `k` agree
/// at `k`.
proof fn lemma_stable_order_step(
    keys: Seq<(bool, Seq<char>)>,
    p: Seq<usize>,
    q: Seq<usize>,
    k: int,
)
    requires
        is_stable_order(keys, p),
        is_stable_order(keys, q),
        0 <= k < keys.len(),
        forall|i: int| 0 <= i < k ==> p[i] == q[i],
    ensures
        p[k] == q[k],
{
    let n = keys.len();
    let a = p[k];
    let b = q[k];
    if a != b {
        lemma_permutation_onto(p, n, b as int);
        let l = choose|l: int| 0 <= l < n && p[l] == b;
        if l < k {
            assert(q[l] == b);
        }
        lemma_permutation_onto(q, n, a as int);
        let m = choose|m: int| 0 <= m < n && q[m] == a;
        if m < k {
            assert(p[m] == a);
        }
        assert(k < l && k < m);
        assert(!key_before(keys[b as int], keys[a as int]));
        assert(!key_before(keys[a as int], keys[b as int]));
        assert(a < b);
        assert(b < a);
    }
}

/// Two stable orders of the same keys that agree before position `k`
/// agree everywhere.
proof fn lemma_stable_order_agree_from(
    keys: Seq<(bool, Seq<char>)>,
    p: Seq<usize>,
    q: Seq<usize>,
    k: int,
)
    requires
        is_stable_order(keys, p),
        is_stable_order(keys, q),
        0 <= k <= keys.len(),
        forall|i: int| 0 <= i < k ==> p[i] == q[i],
    ensures
        forall|i: int| 0 <= i < keys.len() ==> p[i] == q[i],
    decreases keys.len() - k,
{
    if k < keys.len() {
        lemma_stable_order_step(keys, p, q, k);
        lemma_stable_order_agree_from(keys, p, q, k + 1);
    }
}

/// The stable sorting order is unique: two stable orders of the same keys
/// are the same order.
pub proof fn law_stable_order_unique(keys: Seq<(bool, Seq<char>)>, p: Seq<usize>, q: Seq<usize>)
    requires
        is_stable_order(keys, p),
        is_stable_order(keys, q),
    ensures
        p == q,
{
    lemma_stable_order_agree_from(keys, p, q, 0);
    assert(p =~= q);
}

/// Stable sorting by a key has one result.
pub proof fn law_stably_sorted_unique<T>(
    items: Seq<T>,
    key: spec_fn(T) -> (bool, Seq<char>),
    out1: Seq<T>,
    out2: Seq<T>,
)
    requires
        stably_sorted_by(items, key, out1),
        stably_sorted_by(items, key, out2),
    ensures
        out1 == out2,
{
    let keys = items.map_values(key);
    let p = choose|p: Seq<usize>| is_stable_order(keys, p) && out1 == arranged(items, p);
    let q = choose|q: Seq<usize>| is_stable_order(keys, q) && out2 == arranged(items, q);
    law_stable_order_unique(keys, p, q);
}

/// Sorting keeps the items: the sorted sequence has as many items, each an
/// item of the input, and every input item occurs in it.
pub proof fn law_sorting_keeps_items<T>(
    items: Seq<T>,
    key: spec_fn(T) -> (bool, Seq<char>),
    out: Seq<T>,
)
    requires
        stably_sorted_by(items, key, out),
    ensures
        out.len() == items.len(),
        forall|i: int| 0 <= i < out.len() ==> items.contains(#[trigger] out[i]),
        forall|j: int| 0 <= j < items.len() ==> out.contains(#[trigger] items[j]),
{
    let p = choose|p: Seq<usize>|
        is_stable_order(items.map_values(key), p) && out == arranged(items, p);
    assert forall|i: int| 0 <= i < out.len() implies items.contains(#[trigger] out[i]) by {
        assert(out[i] == items[p[i] as int]);
    }
    assert forall|j: int| 0 <= j < items.len() implies out.contains(#[trigger] items[j]) by {
        lemma_permutation_onto(p, items.len(), j);
        let k = choose|k: int| 0 <= k < items.len() && p[k] == j;
        assert(out[k] == items[j]);
    }
}

} // verus!
