//! Sets of numbers, and maps keyed by numbers, in ascending order.

use std::collections::{BTreeMap, BTreeSet};
use vstd::prelude::*;

verus! {

broadcast use vstd::std_specs::btree::group_btree_axioms;

/// The numbers of `s` that are less than `n`, in ascending order.
pub open spec fn ascending_below(s: Set<u64>, n: nat) -> Seq<u64>
    decreases n,
{
    if n == 0 {
        Seq::empty()
    } else if s.contains((n - 1) as u64) {
        ascending_below(s, (n - 1) as nat).push((n - 1) as u64)
    } else {
        ascending_below(s, (n - 1) as nat)
    }
}

/// The numbers of `s` in ascending order.
pub open spec fn ascending(s: Set<u64>) -> Seq<u64> {
    ascending_below(s, 0x1_0000_0000_0000_0000)
}

/// Each number is less than those after it.
pub open spec fn strictly_ascending(q: Seq<u64>) -> bool {
    forall|i: int, j: int| 0 <= i < j < q.len() ==> #[trigger] q[i] < #[trigger] q[j]
}

proof fn lemma_below(q: Seq<u64>, s: Set<u64>, n: nat, k: int)
    requires
        strictly_ascending(q),
        forall|x: u64| #[trigger] q.contains(x) <==> s.contains(x),
        0 <= k <= q.len(),
        n <= 0x1_0000_0000_0000_0000,
        forall|i: int| 0 <= i < k ==> #[trigger] q[i] < n,
        forall|i: int| k <= i < q.len() ==> #[trigger] q[i] >= n,
    ensures
        ascending_below(s, n) == q.take(k),
    decreases n,
{
    if n == 0 {
        assert(k == 0) by {
            if k > 0 {
                assert(q[0] < 0);
            }
        }
        assert(q.take(0) =~= Seq::empty());
    } else {
        let m = (n - 1) as u64;
        if s.contains(m) {
            assert(q.contains(m));
            let j = choose|j: int| 0 <= j < q.len() && q[j] == m;
            assert(j == k - 1) by {
                if j < k - 1 {
                    assert(q[j] < q[k - 1]);
                }
            }
            assert forall|i: int| 0 <= i < k - 1 implies #[trigger] q[i] < m by {
                assert(q[i] < q[k - 1]);
            }
            assert forall|i: int| k - 1 <= i < q.len() implies #[trigger] q[i] >= m by {
                if i > k - 1 {
                    assert(q[i] >= n);
                }
            }
            lemma_below(q, s, (n - 1) as nat, k - 1);
            assert(q.take(k) =~= q.take(k - 1).push(q[k - 1]));
        } else {
            assert forall|i: int| 0 <= i < k implies #[trigger] q[i] < m by {
                assert(q.contains(q[i]));
            }
            lemma_below(q, s, (n - 1) as nat, k);
        }
    }
}

/// A strictly ascending sequence of the numbers of `s` is [`ascending`] of `s`.
pub proof fn lemma_ascending_is(q: Seq<u64>, s: Set<u64>)
    requires
        strictly_ascending(q),
        forall|x: u64| #[trigger] q.contains(x) <==> s.contains(x),
    ensures
        ascending(s) == q,
{
    lemma_below(q, s, 0x1_0000_0000_0000_0000, q.len() as int);
    assert(q.take(q.len() as int) =~= q);
}

proof fn lemma_below_shape(s: Set<u64>, n: nat)
    requires
        n <= 0x1_0000_0000_0000_0000,
    ensures
        strictly_ascending(ascending_below(s, n)),
        forall|i: int|
            0 <= i < ascending_below(s, n).len() ==> #[trigger] ascending_below(s, n)[i] < n
                && s.contains(ascending_below(s, n)[i]),
        forall|x: u64| x < n && s.contains(x) ==> #[trigger] ascending_below(s, n).contains(x),
    decreases n,
{
    if n > 0 {
        lemma_below_shape(s, (n - 1) as nat);
        let shorter = ascending_below(s, (n - 1) as nat);
        let longer = ascending_below(s, n);
        assert forall|x: u64| x < n && s.contains(x) implies #[trigger] longer.contains(x) by {
            if x == n - 1 {
                assert(longer[longer.len() - 1] == x);
            } else {
                assert(shorter.contains(x));
                let i = choose|i: int| 0 <= i < shorter.len() && shorter[i] == x;
                assert(longer[i] == x);
            }
        }
    }
}

/// [`ascending`] lists exactly the numbers of a set, in strictly ascending order. There are no
/// more than so many.
pub proof fn lemma_ascending(s: Set<u64>)
    ensures
        s.finite(),
        strictly_ascending(ascending(s)),
        forall|x: u64| #[trigger] ascending(s).contains(x) <==> s.contains(x),
        ascending(s).len() == s.len(),
{
    lemma_below_shape(s, 0x1_0000_0000_0000_0000);
    let q = ascending(s);
    assert(q.no_duplicates());
    q.unique_seq_to_set();
    assert forall|x: u64| #[trigger] q.contains(x) <==> s.contains(x) by {
        if q.contains(x) {
            let i = choose|i: int| 0 <= i < q.len() && q[i] == x;
            assert(s.contains(q[i]));
        }
    }
    assert(q.to_set() =~= s);
    vstd::seq_lib::seq_to_set_is_finite(q);
}

broadcast proof fn lemma_iterated(q: Seq<&u64>)
    requires
        vstd::std_specs::btree::increasing_seq(q),
    ensures
        #![trigger vstd::std_specs::btree::increasing_seq(q), q.unref()]
        q.unref() == ascending(q.unref().to_set()),
{
    assert(vstd::laws_cmp::obeys_cmp::<&u64>());
    let r = q.unref();
    let s = r.to_set();
    assert(strictly_ascending(r)) by {
        assert forall|i: int, j: int| 0 <= i < j < r.len() implies #[trigger] r[i]
            < #[trigger] r[j] by {
            assert(vstd::std_specs::cmp::OrdSpec::cmp_spec(&q[i], &q[j]) is Less);
            assert(r[i] == *q[i] && r[j] == *q[j]);
        }
    }
    assert forall|x: u64| #[trigger] r.contains(x) <==> s.contains(x) by {
        assert(r.to_set().contains(x) == r.contains(x));
    }
    lemma_ascending_is(r, s);
}

/// The numbers of a set in ascending order.
pub fn sorted(set: &BTreeSet<u64>) -> (r: Vec<u64>)
    ensures
        r@ == ascending(set@),
{
    broadcast use lemma_iterated;

    let mut out: Vec<u64> = Vec::new();
    for x in it: set.iter()
        invariant
            it.seq().unref() == ascending(set@),
            out@ == it.seq().unref().take(it.index()),
    {
        out.push(*x);
        proof {
            assert(it.seq().unref().take(it.index() + 1) =~= it.seq().unref().take(it.index()).push(
                *x,
            ));
        }
    }
    assert(ascending(set@).take(ascending(set@).len() as int) =~= ascending(set@));
    out
}

/// The keys of a map in ascending order.
pub fn sorted_keys<V>(map: &BTreeMap<u64, V>) -> (r: Vec<u64>)
    ensures
        r@ == ascending(map@.dom()),
{
    broadcast use lemma_iterated;

    let mut out: Vec<u64> = Vec::new();
    for x in it: map.keys()
        invariant
            it.seq().unref() == ascending(map@.dom()),
            out@ == it.seq().unref().take(it.index()),
    {
        out.push(*x);
        proof {
            assert(it.seq().unref().take(it.index() + 1) =~= it.seq().unref().take(it.index()).push(
                *x,
            ));
        }
    }
    assert(ascending(map@.dom()).take(ascending(map@.dom()).len() as int) =~= ascending(
        map@.dom(),
    ));
    out
}

} // verus!
