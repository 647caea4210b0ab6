//! Stable ordering by a key.
use vstd::prelude::*;

verus! {

/// Whether entry `a` goes before entry `b`: by key, and by position where the keys are equal.
pub open spec fn goes_before(keys: Seq<u128>, a: int, b: int) -> bool {
    keys[a] < keys[b] || (keys[a] == keys[b] && a < b)
}

/// Whether `r` lists the positions below `n`, each of them once, in stable ascending order of
/// their keys.
pub open spec fn lists_in_order(keys: Seq<u128>, r: Seq<usize>, n: int) -> bool {
    &&& r.len() == n
    &&& forall|i: int| 0 <= i < r.len() ==> 0 <= #[trigger] r[i] < n
    &&& forall|k: int| 0 <= k < n ==> #[trigger] r.contains(k as usize)
    &&& forall|i: int, j: int|
        0 <= i < j < r.len() ==> goes_before(keys, #[trigger] r[i] as int, #[trigger] r[j] as int)
}

/// The positions of `keys` in stable ascending order.
pub fn stable_order(keys: &Vec<u128>) -> (r: Vec<usize>)
    ensures
        lists_in_order(keys@, r@, keys@.len() as int),
{
    let mut r: Vec<usize> = Vec::new();
    let mut n: usize = 0;
    while n < keys.len()
        invariant
            n <= keys.len(),
            lists_in_order(keys@, r@, n as int),
        decreases keys.len() - n,
    {
        let mut p: usize = r.len();
        while p > 0 && keys[r[p - 1]] > keys[n]
            invariant
                p <= r.len(),
                n < keys.len(),
                lists_in_order(keys@, r@, n as int),
                forall|i: int| p <= i < r.len() ==> keys@[#[trigger] r@[i] as int] > keys@[n as int],
            decreases p,
        {
            p = p - 1;
        }
        let ghost old_r = r@;
        r.insert(p, n);
        proof {
            assert(r@[p as int] == n);
            assert forall|k: int| 0 <= k < n + 1 implies #[trigger] r@.contains(k as usize) by {
                if k < n {
                    assert(old_r.contains(k as usize));
                    let i = choose|i: int| 0 <= i < old_r.len() && old_r[i] == k as usize;
                    if i < p {
                        assert(r@[i] == k as usize);
                    } else {
                        assert(r@[i + 1] == k as usize);
                    }
                }
            }
            assert forall|i: int, j: int| 0 <= i < j < r@.len() implies goes_before(
                keys@,
                #[trigger] r@[i] as int,
                #[trigger] r@[j] as int,
            ) by {
                let a = if i < p { i } else { i - 1 };
                let b = if j < p { j } else { j - 1 };
                if i != p && j != p {
                    assert(goes_before(keys@, old_r[a] as int, old_r[b] as int));
                } else if j == p {
                    if i < p - 1 {
                        assert(goes_before(keys@, old_r[i] as int, old_r[p - 1] as int));
                    }
                }
            }
        }
        n = n + 1;
    }
    r
}

/// An order that lists the same positions of the same keys is the same order.
pub proof fn law_stable_order_is_unique(keys: Seq<u128>, r: Seq<usize>, s: Seq<usize>, n: int)
    requires
        0 <= n <= keys.len(),
        n <= usize::MAX,
        lists_in_order(keys, r, n),
        lists_in_order(keys, s, n),
    ensures
        r == s,
{
    assert forall|i: int| 0 <= i < n implies r[i] == s[i] by {
        lemma_same_prefix(keys, r, s, n, i + 1);
    }
}

proof fn lemma_same_prefix(keys: Seq<u128>, r: Seq<usize>, s: Seq<usize>, n: int, m: int)
    requires
        0 <= m <= n <= keys.len(),
        n <= usize::MAX,
        lists_in_order(keys, r, n),
        lists_in_order(keys, s, n),
    ensures
        forall|i: int| 0 <= i < m ==> #[trigger] r[i] == s[i],
    decreases m,
{
    if m > 0 {
        lemma_same_prefix(keys, r, s, n, m - 1);
        let a = r[m - 1];
        let b = s[m - 1];
        assert(s.contains(a as int as usize));
        assert(r.contains(b as int as usize));
        let i = choose|i: int| 0 <= i < s.len() && s[i] == a;
        let j = choose|j: int| 0 <= j < r.len() && r[j] == b;
        if i < m - 1 {
            assert(r[i] == s[i]);
            assert(goes_before(keys, r[i] as int, r[m - 1] as int));
        }
        if j < m - 1 {
            assert(r[j] == s[j]);
            assert(goes_before(keys, s[j] as int, s[m - 1] as int));
        }
        if i > m - 1 {
            assert(goes_before(keys, s[m - 1] as int, s[i] as int));
        }
        if j > m - 1 {
            assert(goes_before(keys, r[m - 1] as int, r[j] as int));
        }
    }
}

} // verus!
