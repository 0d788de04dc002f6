//! The dependency relation over the manager's unit table.
//!
//! A dependency is a table index, so the units form a directed graph.
//! The relation must be acyclic: acyclicity is witnessed by a rank
//! assignment under which every edge strictly descends, and a cyclic
//! table is convicted by a stuck set — a non-empty set of units each
//! of which depends on another member of the set.  `check_acyclic`
//! decides between the two.

use vstd::prelude::*;

use crate::unit::Unit;

verus! {

/// The table index of the `k`-th dependency of unit `i`.
pub open spec fn dep(units: Seq<Unit>, i: int, k: int) -> int {
    units[i].dependencies@[k] as int
}

/// Unit `i` names unit `j` among its dependencies.
pub open spec fn dep_edge(units: Seq<Unit>, i: int, j: int) -> bool {
    exists|k: int| 0 <= k < units[i].dependencies@.len() && dep(units, i, k) == j
}

/// Every dependency resolves to a table index.
pub open spec fn deps_in_range(units: Seq<Unit>) -> bool {
    forall|i: int, k: int|
        0 <= i < units.len() && 0 <= k < units[i].dependencies@.len() ==> 0 <= #[trigger] dep(
            units,
            i,
            k,
        ) < units.len()
}

/// Every dependency edge strictly descends under `rank`: the witness
/// that the graph is acyclic.
pub open spec fn valid_rank(units: Seq<Unit>, rank: Map<int, nat>) -> bool {
    forall|i: int, k: int|
        0 <= i < units.len() && 0 <= k < units[i].dependencies@.len() ==> rank[#[trigger] dep(
            units,
            i,
            k,
        )] < rank[i]
}

/// The dependency graph admits a descending rank assignment.
pub open spec fn acyclic(units: Seq<Unit>) -> bool {
    exists|rank: Map<int, nat>| valid_rank(units, rank)
}

/// A non-empty set of units each of which depends on another member
/// of the set: what a cycle leaves behind, and what refutes every
/// rank assignment.
pub open spec fn stuck_set(units: Seq<Unit>, s: Set<int>) -> bool {
    &&& exists|i: int| s.contains(i)
    &&& forall|i: int| s.contains(i) ==> 0 <= i < units.len()
    &&& forall|i: int| #[trigger]
        s.contains(i) ==> exists|k: int|
            0 <= k < units[i].dependencies@.len() && s.contains(dep(units, i, k))
}

/// `p` is a dependency path from `from` to `to`.
pub open spec fn is_path(units: Seq<Unit>, p: Seq<int>, from: int, to: int) -> bool {
    &&& p.len() >= 1
    &&& p[0] == from
    &&& p[p.len() - 1] == to
    &&& forall|m: int| 0 <= m < p.len() - 1 ==> dep_edge(units, #[trigger] p[m], p[m + 1])
}

/// Unit `to` lies on some dependency path out of `from`.  Every unit
/// reaches itself by the empty path.
pub open spec fn reachable(units: Seq<Unit>, from: int, to: int) -> bool {
    exists|p: Seq<int>| is_path(units, p, from, to)
}

/// Reachability is reflexive.
pub proof fn lemma_reachable_self(units: Seq<Unit>, i: int)
    ensures
        reachable(units, i, i),
{
    let p = seq![i];
    assert(is_path(units, p, i, i));
}

/// A dependency edge is a path of one step.
pub proof fn lemma_edge_reachable(units: Seq<Unit>, i: int, j: int)
    requires
        dep_edge(units, i, j),
    ensures
        reachable(units, i, j),
{
    let p = seq![i, j];
    assert(p[0] == i && p[1] == j);
    assert(is_path(units, p, i, j));
}

/// Paths concatenate: reachability is transitive.
pub proof fn lemma_reachable_trans(units: Seq<Unit>, a: int, b: int, c: int)
    requires
        reachable(units, a, b),
        reachable(units, b, c),
    ensures
        reachable(units, a, c),
{
    let p1 = choose|p: Seq<int>| is_path(units, p, a, b);
    let p2 = choose|p: Seq<int>| is_path(units, p, b, c);
    let p = p1 + p2.drop_first();
    assert(p.len() >= 1);
    assert(p[0] == a);
    assert(p[p.len() - 1] == c);
    assert forall|m: int| 0 <= m < p.len() - 1 implies dep_edge(units, #[trigger] p[m], p[m + 1]) by {
        if m < p1.len() - 1 {
            assert(p[m] == p1[m] && p[m + 1] == p1[m + 1]);
        } else if m == p1.len() - 1 {
            if p2.len() >= 2 {
                assert(p[m] == p1[m] == b && p[m + 1] == p2[1]);
                assert(dep_edge(units, p2[0], p2[1]));
            }
        } else {
            let m2 = m - p1.len() + 1;
            assert(p[m] == p2[m2] && p[m + 1] == p2[m2 + 1]);
            assert(dep_edge(units, p2[m2], p2[m2 + 1]));
        }
    }
    assert(is_path(units, p, a, c));
}

/// Along any path, ranks never ascend: what makes recursion over an
/// acyclic graph terminate.
pub proof fn lemma_reachable_rank(units: Seq<Unit>, rank: Map<int, nat>, a: int, b: int)
    requires
        valid_rank(units, rank),
        deps_in_range(units),
        0 <= a < units.len(),
        reachable(units, a, b),
    ensures
        rank[b] <= rank[a],
    decreases rank[a],
{
    let p = choose|p: Seq<int>| is_path(units, p, a, b);
    if p.len() == 1 {
        assert(b == a);
    } else {
        assert(dep_edge(units, p[0], p[1]));
        let k = choose|k: int|
            0 <= k < units[a].dependencies@.len() && dep(units, a, k) == p[1];
        assert(rank[p[1]] < rank[a]);
        assert(is_path(units, p.drop_first(), p[1], b));
        lemma_reachable_rank(units, rank, p[1], b);
    }
}

/// Every node of a dependency path out of an in-range node is in
/// range.
pub proof fn lemma_path_in_range(units: Seq<Unit>, p: Seq<int>, from: int, to: int)
    requires
        deps_in_range(units),
        is_path(units, p, from, to),
        0 <= from < units.len(),
    ensures
        forall|m: int| 0 <= m < p.len() ==> 0 <= #[trigger] p[m] < units.len(),
    decreases p.len(),
{
    if p.len() > 1 {
        assert(dep_edge(units, p[0], p[1]));
        let k = choose|k: int|
            0 <= k < units[from].dependencies@.len() && dep(units, from, k) == p[1];
        assert(0 <= dep(units, from, k) < units.len());
        assert(is_path(units, p.drop_first(), p[1], to)) by {
            assert forall|m: int|
                0 <= m < p.drop_first().len() - 1 implies dep_edge(
                units,
                #[trigger] p.drop_first()[m],
                p.drop_first()[m + 1],
            ) by {
                assert(p.drop_first()[m] == p[m + 1]);
                assert(p.drop_first()[m + 1] == p[m + 2]);
                assert(dep_edge(units, p[m + 1], p[m + 2]));
            }
        }
        lemma_path_in_range(units, p.drop_first(), p[1], to);
        assert forall|m: int| 0 <= m < p.len() implies 0 <= #[trigger] p[m] < units.len() by {
            if m > 0 {
                assert(p.drop_first()[m - 1] == p[m]);
            }
        }
    }
}

/// The dependency relation — and with it ranks, reachability and
/// stuck sets — reads only each unit's dependency list, so tables
/// that agree on those lists agree on all of them.
pub proof fn lemma_same_deps(a: Seq<Unit>, b: Seq<Unit>)
    requires
        a.len() == b.len(),
        deps_in_range(a),
        forall|j: int| 0 <= j < a.len() ==> a[j].dependencies@ == b[j].dependencies@,
    ensures
        deps_in_range(b),
        forall|rank: Map<int, nat>| valid_rank(a, rank) == #[trigger] valid_rank(b, rank),
        acyclic(a) == acyclic(b),
        forall|x: int, y: int|
            0 <= x < a.len() ==> reachable(a, x, y) == #[trigger] reachable(b, x, y),
{
    assert forall|x: int, y: int|
        0 <= x < a.len() implies dep_edge(a, x, y) == dep_edge(b, x, y) by {
        if dep_edge(a, x, y) {
            let k = choose|k: int| 0 <= k < a[x].dependencies@.len() && dep(a, x, k) == y;
            assert(dep(b, x, k) == y);
        }
        if dep_edge(b, x, y) {
            let k = choose|k: int| 0 <= k < b[x].dependencies@.len() && dep(b, x, k) == y;
            assert(dep(a, x, k) == y);
        }
    }
    assert forall|x: int, y: int|
        0 <= x < a.len() implies reachable(a, x, y) == #[trigger] reachable(b, x, y) by {
        if reachable(a, x, y) {
            let p = choose|p: Seq<int>| is_path(a, p, x, y);
            lemma_path_in_range(a, p, x, y);
            assert forall|m: int|
                0 <= m < p.len() - 1 implies dep_edge(b, #[trigger] p[m], p[m + 1]) by {
                assert(dep_edge(a, p[m], p[m + 1]));
                assert(0 <= p[m] < a.len());
            }
            assert(is_path(b, p, x, y));
        }
        if reachable(b, x, y) {
            let p = choose|p: Seq<int>| is_path(b, p, x, y);
            assert(deps_in_range(b)) by {
                assert forall|i: int, k: int|
                    0 <= i < b.len() && 0 <= k < b[i].dependencies@.len() implies 0 <= #[trigger] dep(
                    b,
                    i,
                    k,
                ) < b.len() by {
                    assert(dep(a, i, k) == dep(b, i, k));
                }
            }
            lemma_path_in_range(b, p, x, y);
            assert forall|m: int|
                0 <= m < p.len() - 1 implies dep_edge(a, #[trigger] p[m], p[m + 1]) by {
                assert(dep_edge(b, p[m], p[m + 1]));
                assert(0 <= p[m] < a.len());
            }
            assert(is_path(a, p, x, y));
        }
    }
    assert(deps_in_range(b)) by {
        assert forall|i: int, k: int|
            0 <= i < b.len() && 0 <= k < b[i].dependencies@.len() implies 0 <= #[trigger] dep(
            b,
            i,
            k,
        ) < b.len() by {
            assert(dep(a, i, k) == dep(b, i, k));
        }
    }
    assert forall|rank: Map<int, nat>| valid_rank(a, rank) == #[trigger] valid_rank(b, rank) by {
        if valid_rank(a, rank) {
            assert forall|i: int, k: int|
                0 <= i < b.len() && 0 <= k < b[i].dependencies@.len() implies rank[#[trigger] dep(
                b,
                i,
                k,
            )] < rank[i] by {
                assert(dep(a, i, k) == dep(b, i, k));
            }
        }
        if valid_rank(b, rank) {
            assert forall|i: int, k: int|
                0 <= i < a.len() && 0 <= k < a[i].dependencies@.len() implies rank[#[trigger] dep(
                a,
                i,
                k,
            )] < rank[i] by {
                assert(dep(a, i, k) == dep(b, i, k));
            }
        }
    }
    assert(deps_in_range(a) ==> deps_in_range(b));
    assert(deps_in_range(b) ==> deps_in_range(a));
    if acyclic(a) {
        let rank = choose|rank: Map<int, nat>| valid_rank(a, rank);
        assert(valid_rank(b, rank));
    }
    if acyclic(b) {
        let rank = choose|rank: Map<int, nat>| valid_rank(b, rank);
        assert(valid_rank(a, rank));
    }
}

/// Under a valid rank, the members of a stuck set would have to
/// outrank every bound: each member's rank strictly exceeds a
/// dependency's, which is itself a member.
proof fn lemma_stuck_ranks_unbounded(units: Seq<Unit>, s: Set<int>, rank: Map<int, nat>, fuel: nat)
    requires
        stuck_set(units, s),
        valid_rank(units, rank),
    ensures
        forall|i: int| s.contains(i) ==> rank[i] >= fuel,
    decreases fuel,
{
    if fuel > 0 {
        lemma_stuck_ranks_unbounded(units, s, rank, (fuel - 1) as nat);
        assert forall|i: int| s.contains(i) implies rank[i] >= fuel by {
            let k = choose|k: int|
                0 <= k < units[i].dependencies@.len() && s.contains(dep(units, i, k));
            let j = dep(units, i, k);
            assert(rank[j] >= fuel - 1);
            assert(rank[j] < rank[i]);
        }
    }
}

/// No table with a stuck set admits a valid rank.
pub proof fn lemma_stuck_set_refutes_acyclic(units: Seq<Unit>, s: Set<int>)
    requires
        stuck_set(units, s),
    ensures
        !acyclic(units),
{
    if acyclic(units) {
        let rank = choose|rank: Map<int, nat>| valid_rank(units, rank);
        let i = choose|i: int| s.contains(i);
        lemma_stuck_ranks_unbounded(units, s, rank, rank[i] + 1);
        assert(rank[i] >= rank[i] + 1);
    }
}

/// Whether every dependency of unit `i` is already ranked.
fn deps_all_ranked(units: &Vec<Unit>, i: usize, ranked: &Vec<bool>) -> (r: bool)
    requires
        deps_in_range(units@),
        i < units@.len(),
        ranked@.len() == units@.len(),
    ensures
        r == forall|k: int|
            0 <= k < units@[i as int].dependencies@.len() ==> ranked@[dep(units@, i as int, k)],
{
    let deps_len = units[i].dependencies.len();
    let mut k: usize = 0;
    while k < deps_len
        invariant
            deps_in_range(units@),
            i < units@.len(),
            ranked@.len() == units@.len(),
            deps_len == units@[i as int].dependencies@.len(),
            0 <= k <= deps_len,
            forall|m: int| 0 <= m < k ==> ranked@[dep(units@, i as int, m)],
        decreases deps_len - k,
    {
        let d = units[i].dependencies[k];
        proof {
            assert(d as int == dep(units@, i as int, k as int));
            assert(0 <= dep(units@, i as int, k as int) < units@.len());
        }
        if !ranked[d] {
            assert(!ranked@[dep(units@, i as int, k as int)]);
            return false;
        }
        k = k + 1;
    }
    true
}

/// Assigns every unit a rank under which dependencies strictly
/// descend, or reports that none exists.  `Some` and acyclicity
/// coincide exactly.
pub fn check_acyclic(units: &Vec<Unit>) -> (r: Option<Vec<usize>>)
    requires
        deps_in_range(units@),
    ensures
        r is Some <==> acyclic(units@),
        r matches Some(ranks) ==> {
            &&& ranks@.len() == units@.len()
            &&& forall|i: int, k: int|
                0 <= i < units@.len() && 0 <= k < units@[i].dependencies@.len() ==> (ranks@[
                    #[trigger] dep(units@, i, k)] as int) < ranks@[i]
        },
{
    let n = units.len();
    let mut rank: Vec<usize> = Vec::new();
    let mut ranked: Vec<bool> = Vec::new();
    let mut f: usize = 0;
    while f < n
        invariant
            0 <= f <= n,
            rank@.len() == f,
            ranked@.len() == f,
            forall|j: int| 0 <= j < f ==> !ranked@[j],
        decreases n - f,
    {
        rank.push(0);
        ranked.push(false);
        f = f + 1;
    }
    let mut count: usize = 0;
    let ghost mut ranked_set: Set<int> = Set::empty();
    proof {
        assert(ranked_set =~= Set::<int>::empty());
        vstd::set_lib::lemma_int_range(0, n as int);
    }
    let mut scan_found_none = false;
    while !scan_found_none
        invariant
            n == units@.len(),
            deps_in_range(units@),
            rank@.len() == n,
            ranked@.len() == n,
            count <= n,
            ranked_set.finite(),
            ranked_set.len() == count,
            forall|j: int| ranked_set.contains(j) <==> (0 <= j < n && ranked@[j]),
            forall|j: int| 0 <= j < n && ranked@[j] ==> rank@[j] < count,
            forall|i: int, k: int|
                0 <= i < n && ranked@[i] && 0 <= k < units@[i].dependencies@.len() ==> ranked@[
                    #[trigger] dep(units@, i, k)] && (rank@[dep(units@, i, k)] as int) < rank@[i],
            scan_found_none ==> forall|i: int|
                0 <= i < n && !ranked@[i] ==> exists|k: int|
                    0 <= k < units@[i].dependencies@.len() && !ranked@[dep(units@, i, k)],
        decreases n - count, if scan_found_none { 0int } else { 1int },
    {
        let ghost count_at_entry = count;
        let mut changed = false;
        let mut i: usize = 0;
        while i < n
            invariant
                n == units@.len(),
                deps_in_range(units@),
                rank@.len() == n,
                ranked@.len() == n,
                count <= n,
                0 <= i <= n,
                ranked_set.finite(),
                ranked_set.len() == count,
                forall|j: int| ranked_set.contains(j) <==> (0 <= j < n && ranked@[j]),
                forall|j: int| 0 <= j < n && ranked@[j] ==> rank@[j] < count,
                forall|ii: int, k: int|
                    0 <= ii < n && ranked@[ii] && 0 <= k < units@[ii].dependencies@.len()
                        ==> ranked@[#[trigger] dep(units@, ii, k)] && (rank@[dep(
                        units@,
                        ii,
                        k,
                    )] as int) < rank@[ii],
                changed ==> count > count_at_entry,
                !changed ==> count == count_at_entry,
                !changed ==> forall|ii: int|
                    0 <= ii < i && !ranked@[ii] ==> exists|k: int|
                        0 <= k < units@[ii].dependencies@.len() && !ranked@[dep(units@, ii, k)],
            decreases n - i,
        {
            if !ranked[i] && deps_all_ranked(units, i, &ranked) {
                rank[i] = count;
                ranked[i] = true;
                proof {
                    assert(!ranked_set.contains(i as int));
                    ranked_set = ranked_set.insert(i as int);
                    assert(ranked_set.len() == count + 1);
                    vstd::set_lib::lemma_int_range(0, n as int);
                    assert(ranked_set.subset_of(vstd::set_lib::set_int_range(0, n as int)));
                    vstd::set_lib::lemma_len_subset(
                        ranked_set,
                        vstd::set_lib::set_int_range(0, n as int),
                    );
                }
                count = count + 1;
                changed = true;
            }
            i = i + 1;
        }
        if !changed {
            scan_found_none = true;
        }
    }
    let mut all_ranked = true;
    let mut i: usize = 0;
    while i < n
        invariant
            n == units@.len(),
            ranked@.len() == n,
            0 <= i <= n,
            all_ranked <==> forall|j: int| 0 <= j < i ==> ranked@[j],
        decreases n - i,
    {
        if !ranked[i] {
            all_ranked = false;
        }
        i = i + 1;
    }
    if all_ranked {
        proof {
            let rank_map = Map::<int, nat>::new(
                |j: int| true,
                |j: int|
                    if 0 <= j < n {
                        rank@[j] as nat
                    } else {
                        0nat
                    },
            );
            assert forall|ii: int, k: int|
                0 <= ii < units@.len() && 0 <= k
                    < units@[ii].dependencies@.len() implies rank_map[#[trigger] dep(
                units@,
                ii,
                k,
            )] < rank_map[ii] by {
                assert(ranked@[ii]);
            }
            assert(valid_rank(units@, rank_map));
        }
        Some(rank)
    } else {
        proof {
            let stuck = Set::new(|j: int| 0 <= j < n && !ranked@[j]);
            let bad = choose|j: int| 0 <= j < n && !ranked@[j];
            assert(stuck.contains(bad));
            assert forall|j: int| #[trigger]
                stuck.contains(j) implies exists|k: int|
                0 <= k < units@[j].dependencies@.len() && stuck.contains(dep(units@, j, k)) by {
                let k = choose|k: int|
                    0 <= k < units@[j].dependencies@.len() && !ranked@[dep(units@, j, k)];
                assert(stuck.contains(dep(units@, j, k)));
            }
            assert(stuck_set(units@, stuck));
            lemma_stuck_set_refutes_acyclic(units@, stuck);
        }
        None
    }
}

} // verus!
