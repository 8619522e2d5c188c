//! The order in which a subtree is copied: breadth first from its top node.

use crate::archive::readback::{distinct_nodes, parent_places, sub_set};
use crate::archive::{
    children_of, in_subtree, lemma_children_upto_bounds, lemma_children_upto_has,
    lemma_children_upto_sorted, lemma_subtree_le, parents_wf,
};
use vstd::prelude::*;

verus! {

/// The nodes of the tree `ps` in the order of a breadth-first walk from the queue `order`
/// (whose entries from the `i`-th on are still to be visited), with the place in the queue of
/// each one's parent: every node visited adds its contents to the queue. `None` when more than
/// `fuel` nodes would be visited.
pub open spec fn copy_order(
    ps: Seq<int>,
    order: Seq<int>,
    parents: Seq<int>,
    i: nat,
    fuel: nat,
) -> Option<(Seq<int>, Seq<int>)>
    decreases fuel,
{
    if i >= order.len() {
        Some((order, parents))
    } else if fuel == 0 {
        None
    } else {
        let cs = children_of(ps, order[i as int]);
        copy_order(
            ps,
            order + cs,
            parents + Seq::new(cs.len(), |t: int| i as int),
            i + 1,
            (fuel - 1) as nat,
        )
    }
}

/// Distinct nodes under `r` are at most as many as the nodes under `r`.
proof fn lemma_distinct_under_len(ps: Seq<int>, o: Seq<int>, r: int)
    requires
        distinct_nodes(o, ps.len() as int),
        forall|t: int| 0 <= t < o.len() ==> in_subtree(ps, r, #[trigger] o[t]),
    ensures
        sub_set(ps, r).finite(),
        o.len() <= sub_set(ps, r).len(),
{
    vstd::set_lib::lemma_int_range(0, ps.len() as int);
    assert(sub_set(ps, r).subset_of(vstd::set_lib::set_int_range(0, ps.len() as int)));
    vstd::set_lib::lemma_len_subset(
        sub_set(ps, r),
        vstd::set_lib::set_int_range(0, ps.len() as int),
    );
    o.unique_seq_to_set();
    assert(o.to_set().subset_of(sub_set(ps, r)));
    vstd::set_lib::lemma_len_subset(o.to_set(), sub_set(ps, r));
}

/// Nodes under `r` whose parent, when under `r`, is listed, are all listed.
proof fn lemma_listed_under(ps: Seq<int>, o: Seq<int>, r: int, c: int)
    requires
        parents_wf(ps),
        0 <= c < ps.len(),
        in_subtree(ps, r, c),
        o.contains(r),
        forall|d: int| 0 <= d < ps.len() && d != r && in_subtree(ps, r, d) && o.contains(ps[d]) ==> o.contains(d),
    ensures
        o.contains(c),
    decreases c,
{
    if c != r {
        assert(in_subtree(ps, r, ps[c]));
        lemma_listed_under(ps, o, r, ps[c]);
    }
}

/// Copying breadth first from node `r`, with a fuel of at least the number of nodes, lists
/// every node under `r` once, each after its parent.
pub proof fn lemma_copy_order_complete(ps: Seq<int>, r: int, fuel: nat)
    requires
        parents_wf(ps),
        0 <= r < ps.len(),
        fuel >= ps.len(),
    ensures
        copy_order(ps, seq![r], seq![-1int], 0, fuel) matches Some((o, q)) && o.len() == sub_set(
            ps,
            r,
        ).len() && o[0] == r && distinct_nodes(o, ps.len() as int) && parent_places(ps, o, q)
            && (forall|t: int| 0 <= t < o.len() ==> in_subtree(ps, r, #[trigger] o[t])) && (forall|
            j: int,
        | 0 <= j < ps.len() && in_subtree(ps, r, j) ==> #[trigger] o.contains(j)),
{
    let o = seq![r];
    assert(in_subtree(ps, r, r));
    assert forall|c: int| 0 <= c < ps.len() implies (o.contains(c) <==> (c == r || exists|t: int|
        0 <= t < 0 && o[t] == ps[c])) by {
        if o.contains(c) {
            assert(o[0] == r);
        }
        if c == r {
            assert(o[0] == c);
        }
    }
    vstd::set_lib::lemma_int_range(0, ps.len() as int);
    assert(sub_set(ps, r).subset_of(vstd::set_lib::set_int_range(0, ps.len() as int)));
    vstd::set_lib::lemma_len_subset(
        sub_set(ps, r),
        vstd::set_lib::set_int_range(0, ps.len() as int),
    );
    lemma_copy_order_visits(ps, r, o, seq![-1int], 0, fuel);
}

proof fn lemma_copy_order_visits(ps: Seq<int>, r: int, o: Seq<int>, q: Seq<int>, i: nat, fuel: nat)
    requires
        parents_wf(ps),
        0 <= r < ps.len(),
        1 <= o.len(),
        o[0] == r,
        i <= o.len(),
        distinct_nodes(o, ps.len() as int),
        parent_places(ps, o, q),
        forall|t: int| 0 <= t < o.len() ==> in_subtree(ps, r, #[trigger] o[t]),
        forall|c: int|
            0 <= c < ps.len() ==> (o.contains(c) <==> (c == r || exists|t: int|
                0 <= t < i && #[trigger] o[t] == ps[c])),
        sub_set(ps, r).finite(),
        fuel + i >= sub_set(ps, r).len(),
    ensures
        copy_order(ps, o, q, i, fuel) matches Some((o2, q2)) && o2.len() == sub_set(ps, r).len()
            && o2[0] == r && distinct_nodes(o2, ps.len() as int) && parent_places(ps, o2, q2)
            && (forall|t: int| 0 <= t < o2.len() ==> in_subtree(ps, r, #[trigger] o2[t])) && (
        forall|j: int| 0 <= j < ps.len() && in_subtree(ps, r, j) ==> #[trigger] o2.contains(j)),
    decreases fuel,
{
    let n = ps.len() as int;
    lemma_distinct_under_len(ps, o, r);
    if i >= o.len() {
        assert forall|d: int|
            0 <= d < n && d != r && in_subtree(ps, r, d) && o.contains(ps[d]) implies o.contains(
            d,
        ) by {
            let t = choose|t: int| 0 <= t < o.len() && o[t] == ps[d];
        }
        assert forall|j: int| 0 <= j < n && in_subtree(ps, r, j) implies #[trigger] o.contains(j) by {
            lemma_listed_under(ps, o, r, j);
        }
        assert(sub_set(ps, r).subset_of(o.to_set()));
        o.unique_seq_to_set();
        vstd::set_lib::lemma_len_subset(sub_set(ps, r), o.to_set());
    } else {
        let k = o[i as int];
        let cs = children_of(ps, k);
        lemma_children_upto_bounds(ps, k, ps.len());
        lemma_children_upto_sorted(ps, k, ps.len());
        lemma_subtree_le(ps, r, k);
        let o2 = o + cs;
        let q2 = q + Seq::new(cs.len(), |t: int| i as int);
        assert forall|a: int| 0 <= a < cs.len() implies !o.contains(#[trigger] cs[a]) && in_subtree(
            ps,
            r,
            cs[a],
        ) by {
            let c = cs[a];
            assert(ps[c] == k);
            assert(c > k) by {
                if c == 0 {
                    assert(ps[0] == -1);
                } else {
                    assert(0 <= ps[c] < c);
                }
            }
            assert(in_subtree(ps, r, ps[c]));
            if o.contains(c) {
                let t = choose|t: int| 0 <= t < i && #[trigger] o[t] == ps[c];
                assert(o[t] == o[i as int]);
            }
        }
        assert(distinct_nodes(o2, n)) by {
            assert forall|a: int, b: int|
                0 <= a < o2.len() && 0 <= b < o2.len() && a != b implies o2[a] != o2[b] by {
                if a < o.len() && b >= o.len() {
                    assert(o.contains(o2[a]));
                    assert(o2[b] == cs[b - o.len()]);
                } else if a >= o.len() && b < o.len() {
                    assert(o.contains(o2[b]));
                    assert(o2[a] == cs[a - o.len()]);
                } else if a >= o.len() && b >= o.len() {
                    assert(o2[a] == cs[a - o.len()] && o2[b] == cs[b - o.len()]);
                }
            }
            assert forall|t: int| 0 <= t < o2.len() implies 0 <= #[trigger] o2[t] < n by {
                if t >= o.len() {
                    assert(o2[t] == cs[t - o.len()]);
                }
            }
        }
        assert(parent_places(ps, o2, q2)) by {
            assert forall|t: int| 1 <= t < o2.len() implies 0 <= #[trigger] q2[t] < t && o2[q2[t]]
                == ps[o2[t]] by {
                if t >= o.len() {
                    assert(q2[t] == i);
                    assert(o2[t] == cs[t - o.len()]);
                    assert(o2[i as int] == k);
                } else {
                    assert(q2[t] == q[t]);
                }
            }
        }
        assert forall|t: int| 0 <= t < o2.len() implies in_subtree(ps, r, #[trigger] o2[t]) by {
            if t >= o.len() {
                assert(o2[t] == cs[t - o.len()]);
            }
        }
        assert forall|c: int|
            0 <= c < n implies (o2.contains(c) <==> (c == r || exists|t: int|
                0 <= t < i + 1 && #[trigger] o2[t] == ps[c])) by {
            if o2.contains(c) {
                let t = choose|t: int| 0 <= t < o2.len() && o2[t] == c;
                if t >= o.len() {
                    assert(o2[t] == cs[t - o.len()]);
                    assert(ps[c] == k);
                    assert(o2[i as int] == ps[c]);
                } else {
                    assert(o.contains(c));
                    if c != r {
                        let t2 = choose|t2: int| 0 <= t2 < i && #[trigger] o[t2] == ps[c];
                        assert(o2[t2] == ps[c]);
                    }
                }
            }
            if c == r {
                assert(o2[0] == r);
            } else if exists|t: int| 0 <= t < i + 1 && #[trigger] o2[t] == ps[c] {
                let t = choose|t: int| 0 <= t < i + 1 && #[trigger] o2[t] == ps[c];
                if t == i {
                    assert(ps[c] == k);
                    assert(0 <= ps[c] < c) by {
                        if c == 0 {
                            assert(ps[0] == -1);
                        }
                    }
                    lemma_children_upto_has(ps, k, ps.len(), c);
                    let a = choose|a: int| 0 <= a < cs.len() && cs[a] == c;
                    assert(o2[o.len() + a] == c);
                } else {
                    assert(o[t] == ps[c]);
                    assert(o.contains(c));
                    let t3 = choose|t3: int| 0 <= t3 < o.len() && o[t3] == c;
                    assert(o2[t3] == c);
                }
            }
        }
        assert(o2[0] == r);
        lemma_copy_order_visits(ps, r, o2, q2, i + 1, (fuel - 1) as nat);
    }
}

} // verus!
