//! Dependency scheduling: the level-by-level topological order of action
//! nodes (Kahn's algorithm), over the dependency ids that each node holds.

use vstd::prelude::*;
use crate::ast::{ActionNode, Block};
use crate::text::{owned, str_eq};

verus! {

// ---------------------------------------------------------------------------
// Counting helpers over predecessor lists
// ---------------------------------------------------------------------------

/// Number of occurrences of `x` in `s`.
pub open spec fn occ(s: Seq<usize>, x: int) -> nat
    decreases s.len(),
{
    if s.len() == 0 {
        0
    } else {
        occ(s.drop_last(), x) + (if s.last() as int == x { 1nat } else { 0nat })
    }
}

/// Number of entries of `s` that are not in `p`.
pub open spec fn outside(s: Seq<usize>, p: Set<int>) -> nat
    decreases s.len(),
{
    if s.len() == 0 {
        0
    } else {
        outside(s.drop_last(), p) + (if p.contains(s.last() as int) { 0nat } else { 1nat })
    }
}

proof fn lemma_outside_insert(s: Seq<usize>, p: Set<int>, x: int)
    requires
        !p.contains(x),
    ensures
        outside(s, p.insert(x)) + occ(s, x) == outside(s, p),
    decreases s.len(),
{
    if s.len() > 0 {
        lemma_outside_insert(s.drop_last(), p, x);
    }
}

proof fn lemma_outside_zero(s: Seq<usize>, p: Set<int>)
    ensures
        outside(s, p) == 0 <==> forall|k: int| 0 <= k < s.len() ==> p.contains(#[trigger] s[k] as int),
    decreases s.len(),
{
    if s.len() > 0 {
        lemma_outside_zero(s.drop_last(), p);
        assert(forall|k: int| 0 <= k < s.len() - 1 ==> s.drop_last()[k] == s[k]);
        if outside(s, p) == 0 {
            assert forall|k: int| 0 <= k < s.len() implies p.contains(#[trigger] s[k] as int) by {
                if k < s.len() - 1 {
                    assert(s.drop_last()[k] == s[k]);
                }
            }
        }
    }
}

proof fn lemma_outside_empty(s: Seq<usize>)
    ensures
        outside(s, Set::empty()) == s.len(),
    decreases s.len(),
{
    if s.len() > 0 {
        lemma_outside_empty(s.drop_last());
    }
}

proof fn lemma_occ_pos(s: Seq<usize>, x: int)
    requires
        occ(s, x) > 0,
    ensures
        exists|k: int| 0 <= k < s.len() && s[k] as int == x,
    decreases s.len(),
{
    if s.last() as int != x {
        lemma_occ_pos(s.drop_last(), x);
        let k = choose|k: int| 0 <= k < s.len() - 1 && s.drop_last()[k] as int == x;
        assert(s[k] == s.drop_last()[k]);
    } else {
        assert(s[s.len() - 1] as int == x);
    }
}

/// Number of unassigned (-1) entries.
pub open spec fn count_unassigned(lv: Seq<int>) -> nat
    decreases lv.len(),
{
    if lv.len() == 0 {
        0
    } else {
        count_unassigned(lv.drop_last()) + (if lv.last() == -1 { 1nat } else { 0nat })
    }
}

proof fn lemma_count_unassigned_update(lv: Seq<int>, i: int, v: int)
    requires
        0 <= i < lv.len(),
        lv[i] == -1,
        v != -1,
    ensures
        count_unassigned(lv.update(i, v)) + 1 == count_unassigned(lv),
    decreases lv.len(),
{
    let nl = lv.update(i, v);
    if i < lv.len() - 1 {
        assert(nl.drop_last() == lv.drop_last().update(i, v));
        lemma_count_unassigned_update(lv.drop_last(), i, v);
    } else {
        assert(nl.drop_last() == lv.drop_last());
    }
}

proof fn lemma_count_unassigned_zero(lv: Seq<int>)
    ensures
        count_unassigned(lv) == 0 <==> forall|i: int| 0 <= i < lv.len() ==> lv[i] != -1,
    decreases lv.len(),
{
    if lv.len() > 0 {
        lemma_count_unassigned_zero(lv.drop_last());
        assert(forall|i: int| 0 <= i < lv.len() - 1 ==> lv.drop_last()[i] == lv[i]);
    }
}

proof fn lemma_count_unassigned_bound(lv: Seq<int>)
    ensures
        count_unassigned(lv) <= lv.len(),
    decreases lv.len(),
{
    if lv.len() > 0 {
        lemma_count_unassigned_bound(lv.drop_last());
    }
}

/// The index lists held by a vector of vectors.
pub open spec fn seqs_of(v: Seq<Vec<usize>>) -> Seq<Seq<usize>> {
    v.map_values(|x: Vec<usize>| x@)
}

// ---------------------------------------------------------------------------
// Graph properties
// ---------------------------------------------------------------------------

/// Every predecessor index names a node.
pub open spec fn preds_in_range(preds: Seq<Seq<usize>>) -> bool {
    forall|i: int, k: int|
        0 <= i < preds.len() && 0 <= k < preds[i].len() ==> (#[trigger] preds[i][k]) < preds.len()
}

/// A non-empty set of nodes in which every node has a predecessor: the graph
/// has a cycle exactly when such a set exists.
pub open spec fn closed_set(preds: Seq<Seq<usize>>, s: Set<int>) -> bool {
    &&& exists|i: int| s.contains(i)
    &&& forall|i: int| #[trigger] s.contains(i) ==> 0 <= i < preds.len()
    &&& forall|i: int| #[trigger] s.contains(i) ==> exists|k: int|
        0 <= k < preds[i].len() && s.contains(#[trigger] preds[i][k] as int)
}

pub open spec fn has_cycle(preds: Seq<Seq<usize>>) -> bool {
    exists|s: Set<int>| closed_set(preds, s)
}

/// `lv` gives each node its level: every predecessor is on a lower level, and a
/// node above level 0 has a predecessor on the level just below it.
pub open spec fn is_layering(preds: Seq<Seq<usize>>, lv: Seq<int>) -> bool {
    &&& lv.len() == preds.len()
    &&& forall|i: int| 0 <= i < lv.len() ==> lv[i] >= 0
    &&& forall|i: int, k: int|
        0 <= i < preds.len() && 0 <= k < preds[i].len() ==> lv[#[trigger] preds[i][k] as int]
            < lv[i]
    &&& forall|i: int|
        0 <= i < preds.len() && lv[i] > 0 ==> exists|k: int|
            0 <= k < preds[i].len() && lv[#[trigger] preds[i][k] as int] == lv[i] - 1
}

/// `levels[m]` lists, each once, exactly the nodes on level `m`.
pub open spec fn levels_match(levels: Seq<Seq<usize>>, lv: Seq<int>) -> bool {
    &&& forall|m: int| 0 <= m < levels.len() ==> (#[trigger] levels[m]).no_duplicates()
    &&& forall|m: int, a: int|
        0 <= m < levels.len() && 0 <= a < levels[m].len() ==> (#[trigger] levels[m][a]) < lv.len()
            && lv[levels[m][a] as int] == m
    &&& forall|i: int|
        0 <= i < lv.len() ==> 0 <= #[trigger] lv[i] < levels.len() && levels[lv[i]].contains(
            i as usize,
        )
}

proof fn lemma_layering_acyclic(preds: Seq<Seq<usize>>, lv: Seq<int>, s: Set<int>)
    requires
        is_layering(preds, lv),
    ensures
        !closed_set(preds, s),
{
    if closed_set(preds, s) {
        let i0 = choose|i: int| s.contains(i);
        lemma_layering_bound(preds, lv, s, lv[i0] + 1);
    }
}

proof fn lemma_layering_bound(preds: Seq<Seq<usize>>, lv: Seq<int>, s: Set<int>, m: int)
    requires
        is_layering(preds, lv),
        closed_set(preds, s),
        m >= 0,
    ensures
        forall|i: int| #[trigger] s.contains(i) ==> lv[i] >= m,
    decreases m,
{
    if m > 0 {
        lemma_layering_bound(preds, lv, s, m - 1);
        assert forall|i: int| #[trigger] s.contains(i) implies lv[i] >= m by {
            let k = choose|k: int| 0 <= k < preds[i].len() && s.contains(#[trigger] preds[i][k] as int);
            let p = preds[i][k] as int;
            assert(s.contains(p));
            assert(lv[p] < lv[i]);
        }
    }
}

// ---------------------------------------------------------------------------
// Kahn's algorithm on node indices
// ---------------------------------------------------------------------------

fn count_occ(s: &Vec<usize>, x: usize) -> (r: usize)
    ensures
        r == occ(s@, x as int),
{
    let mut c: usize = 0;
    let mut j: usize = 0;
    while j < s.len()
        invariant
            0 <= j <= s@.len(),
            c == occ(s@.subrange(0, j as int), x as int),
            c <= j,
        decreases s@.len() - j,
    {
        let ghost p = s@.subrange(0, j + 1);
        assert(p.drop_last() == s@.subrange(0, j as int));
        if s[j] == x {
            c = c + 1;
        }
        j = j + 1;
    }
    assert(s@.subrange(0, s@.len() as int) == s@);
    c
}

/// Levels of a dependency graph given by predecessor lists: level 0 holds the
/// nodes without predecessors, and each later level the nodes whose last
/// predecessor was released by the level before. Fails exactly when the graph
/// has a cycle.
pub fn kahn_levels(preds: &Vec<Vec<usize>>) -> (r: Option<Vec<Vec<usize>>>)
    requires
        preds_in_range(seqs_of(preds@)),
    ensures
        r is Some <==> !has_cycle(seqs_of(preds@)),
        r matches Some(levels) ==> exists|lv: Seq<int>|
            #[trigger] is_layering(seqs_of(preds@), lv) && levels_match(
                seqs_of(levels@),
                lv,
            ),
        r matches Some(levels) ==> forall|m: int| 0 <= m < levels@.len() ==> (#[trigger] levels@[m])@.len() > 0,
{
    let ghost g = seqs_of(preds@);
    let n = preds.len();
    // in-degrees and the first level
    let mut indeg: Vec<usize> = Vec::new();
    let mut queue: Vec<usize> = Vec::new();
    let ghost mut lv: Seq<int> = Seq::empty();
    let mut i: usize = 0;
    while i < n
        invariant
            0 <= i <= n,
            n == preds@.len(),
            g == seqs_of(preds@),
            indeg@.len() == i,
            lv.len() == i,
            forall|j: int| 0 <= j < i ==> indeg@[j] == outside(g[j], Set::empty()),
            forall|j: int| 0 <= j < i ==> (lv[j] == 0 <==> g[j].len() == 0),
            forall|j: int| 0 <= j < i ==> (lv[j] == -1 <==> g[j].len() > 0),
            forall|a: int| 0 <= a < queue@.len() ==> (#[trigger] queue@[a]) < i && lv[queue@[a] as int] == 0,
            forall|j: int| 0 <= j < i && lv[j] == 0 ==> queue@.contains(j as usize),
            queue@.no_duplicates(),
            queue@.len() + count_unassigned(lv) == i,
        decreases n - i,
    {
        proof {
            lemma_outside_empty(g[i as int]);
        }
        let d = preds[i].len();
        indeg.push(d);
        let ghost old_lv = lv;
        let ghost old_queue = queue@;
        if d == 0 {
            queue.push(i);
            proof {
                lv = lv.push(0);
                assert(lv.drop_last() == old_lv);
                assert forall|j: int| 0 <= j < i + 1 && lv[j] == 0 implies queue@.contains(j as usize) by {
                    if j < i {
                        assert(old_lv[j] == lv[j]);
                        let a = choose|a: int| 0 <= a < old_queue.len() && old_queue[a] == j as usize;
                        assert(queue@[a] == old_queue[a]);
                    } else {
                        assert(queue@[queue@.len() - 1] == i);
                    }
                }
            }
        } else {
            proof {
                lv = lv.push(-1);
                assert(lv.drop_last() == old_lv);
            }
        }
        i = i + 1;
    }
    let ghost mut proc: Set<int> = Set::empty();
    let mut levels: Vec<Vec<usize>> = Vec::new();
    let mut visited: usize = 0;
    while queue.len() > 0
        invariant
            n == preds@.len(),
            g == seqs_of(preds@),
            preds_in_range(g),
            indeg@.len() == n,
            lv.len() == n,
            forall|j: int| 0 <= j < n ==> #[trigger] indeg@[j] == outside(g[j], proc),
            forall|j: int| 0 <= j < n ==> (#[trigger] proc.contains(j) <==> 0 <= lv[j] < levels@.len()),
            forall|j: int| #[trigger] proc.contains(j) ==> 0 <= j < n,
            forall|j: int| 0 <= j < n ==> -1 <= #[trigger] lv[j] <= levels@.len(),
            forall|j: int| 0 <= j < n && lv[j] == -1 ==> outside(g[j], proc) > 0,
            forall|a: int| 0 <= a < queue@.len() ==> (#[trigger] queue@[a]) < n && lv[queue@[a] as int] == levels@.len(),
            forall|j: int| 0 <= j < n && lv[j] == levels@.len() ==> queue@.contains(j as usize),
            queue@.no_duplicates(),
            forall|j: int, k: int|
                0 <= j < n && lv[j] >= 0 && 0 <= k < g[j].len() ==> 0 <= lv[#[trigger] g[j][k] as int] < lv[j],
            forall|j: int|
                0 <= j < n && lv[j] > 0 ==> exists|k: int|
                    0 <= k < g[j].len() && lv[#[trigger] g[j][k] as int] == lv[j] - 1,
            forall|m: int| 0 <= m < levels@.len() ==> (#[trigger] levels@[m])@.no_duplicates(),
            forall|m: int| 0 <= m < levels@.len() ==> (#[trigger] levels@[m])@.len() > 0,
            forall|m: int, a: int|
                0 <= m < levels@.len() && 0 <= a < levels@[m]@.len() ==> (#[trigger] levels@[m]@[a]) < n
                    && lv[levels@[m]@[a] as int] == m,
            forall|j: int|
                0 <= j < n && 0 <= lv[j] < levels@.len() ==> levels@[lv[j]]@.contains(j as usize),
            visited + queue@.len() + count_unassigned(lv) == n,
        decreases 2 * count_unassigned(lv) + (if queue@.len() > 0 { 1nat } else { 0nat }),
    {
        let k_level = levels.len();
        let ghost cu0 = count_unassigned(lv);
        let ghost visited0 = visited;
        let ghost qlen = queue@.len();
        let mut next: Vec<usize> = Vec::new();
        let ghost proc0 = proc;
        let mut q: usize = 0;
        while q < queue.len()
            invariant
                n == preds@.len(),
                g == seqs_of(preds@),
                preds_in_range(g),
                k_level == levels@.len(),
                0 <= q <= queue@.len(),
                visited == visited0 + q,
                qlen == queue@.len(),
                indeg@.len() == n,
                lv.len() == n,
                proc == proc0.union(Set::new(|x: int| exists|a: int| 0 <= a < q && queue@[a] as int == x)),
                forall|j: int| 0 <= j < n ==> #[trigger] indeg@[j] == outside(g[j], proc),
                forall|j: int| 0 <= j < n ==> (#[trigger] proc0.contains(j) <==> 0 <= lv[j] < k_level),
                forall|j: int| #[trigger] proc0.contains(j) ==> 0 <= j < n,
                forall|j: int| 0 <= j < n ==> -1 <= #[trigger] lv[j] <= k_level + 1,
                forall|j: int| 0 <= j < n && lv[j] == -1 ==> outside(g[j], proc) > 0,
                forall|a: int| 0 <= a < queue@.len() ==> (#[trigger] queue@[a]) < n && lv[queue@[a] as int] == k_level,
                forall|j: int| 0 <= j < n && lv[j] == k_level ==> queue@.contains(j as usize),
                queue@.no_duplicates(),
                forall|a: int| 0 <= a < next@.len() ==> (#[trigger] next@[a]) < n && lv[next@[a] as int] == k_level + 1,
                forall|j: int| 0 <= j < n && lv[j] == k_level + 1 ==> next@.contains(j as usize),
                forall|j: int| 0 <= j < n && lv[j] == k_level + 1 ==> outside(g[j], proc) == 0,
                next@.no_duplicates(),
                forall|j: int, k: int|
                    0 <= j < n && lv[j] >= 0 && 0 <= k < g[j].len() ==> 0 <= lv[#[trigger] g[j][k] as int] < lv[j],
                forall|j: int|
                    0 <= j < n && lv[j] > 0 ==> exists|k: int|
                        0 <= k < g[j].len() && lv[#[trigger] g[j][k] as int] == lv[j] - 1,
                forall|m: int| 0 <= m < levels@.len() ==> (#[trigger] levels@[m])@.no_duplicates(),
                forall|m: int, a: int|
                    0 <= m < levels@.len() && 0 <= a < levels@[m]@.len() ==> (#[trigger] levels@[m]@[a]) < n
                        && lv[levels@[m]@[a] as int] == m,
                forall|j: int|
                    0 <= j < n && 0 <= lv[j] < levels@.len() ==> levels@[lv[j]]@.contains(j as usize),
                visited + (queue@.len() - q) + next@.len() + count_unassigned(lv) == n,
            decreases queue@.len() - q,
        {
            let id = queue[q];
            let ghost procq = proc;
            proof {
                // `id` is not yet processed
                if proc.contains(id as int) {
                    if !proc0.contains(id as int) {
                        let a = choose|a: int| 0 <= a < q && queue@[a] as int == id as int;
                        assert(queue@[a] == queue@[q as int]);
                    }
                }
                assert(!proc.contains(id as int));
            }
            let mut nb: usize = 0;
            while nb < n
                invariant
                    n == preds@.len(),
                    g == seqs_of(preds@),
                    preds_in_range(g),
                    k_level == levels@.len(),
                    0 <= q < queue@.len(),
                    visited == visited0 + q,
                    qlen == queue@.len(),
                    id == queue@[q as int],
                    0 <= nb <= n,
                    indeg@.len() == n,
                    lv.len() == n,
                    !procq.contains(id as int),
                    proc == procq,
                    procq == proc0.union(Set::new(|x: int| exists|a: int| 0 <= a < q && queue@[a] as int == x)),
                    forall|j: int| 0 <= j < nb ==> #[trigger] indeg@[j] == outside(g[j], procq.insert(id as int)),
                    forall|j: int| nb <= j < n ==> #[trigger] indeg@[j] == outside(g[j], procq),
                    forall|j: int| 0 <= j < n ==> (#[trigger] proc0.contains(j) <==> 0 <= lv[j] < k_level),
                    forall|j: int| #[trigger] proc0.contains(j) ==> 0 <= j < n,
                    forall|j: int| 0 <= j < n ==> -1 <= #[trigger] lv[j] <= k_level + 1,
                    forall|j: int| 0 <= j < nb && lv[j] == -1 ==> outside(g[j], procq.insert(id as int)) > 0,
                    forall|j: int| nb <= j < n && lv[j] == -1 ==> outside(g[j], procq) > 0,
                    forall|a: int| 0 <= a < queue@.len() ==> (#[trigger] queue@[a]) < n && lv[queue@[a] as int] == k_level,
                    forall|j: int| 0 <= j < n && lv[j] == k_level ==> queue@.contains(j as usize),
                    queue@.no_duplicates(),
                    forall|a: int| 0 <= a < next@.len() ==> (#[trigger] next@[a]) < n && lv[next@[a] as int] == k_level + 1,
                    forall|j: int| 0 <= j < n && lv[j] == k_level + 1 ==> next@.contains(j as usize),
                    forall|j: int| 0 <= j < nb && lv[j] == k_level + 1 ==> outside(g[j], procq.insert(id as int)) == 0,
                    forall|j: int| nb <= j < n && lv[j] == k_level + 1 ==> outside(g[j], procq) == 0,
                    next@.no_duplicates(),
                    forall|j: int, k: int|
                        0 <= j < n && lv[j] >= 0 && 0 <= k < g[j].len() ==> 0 <= lv[#[trigger] g[j][k] as int] < lv[j],
                    forall|j: int|
                        0 <= j < n && lv[j] > 0 ==> exists|k: int|
                            0 <= k < g[j].len() && lv[#[trigger] g[j][k] as int] == lv[j] - 1,
                    forall|m: int| 0 <= m < levels@.len() ==> (#[trigger] levels@[m])@.no_duplicates(),
                    forall|m: int, a: int|
                        0 <= m < levels@.len() && 0 <= a < levels@[m]@.len() ==> (#[trigger] levels@[m]@[a]) < n
                            && lv[levels@[m]@[a] as int] == m,
                    forall|j: int|
                        0 <= j < n && 0 <= lv[j] < levels@.len() ==> levels@[lv[j]]@.contains(j as usize),
                    visited + (queue@.len() - q) + next@.len() + count_unassigned(lv) == n,
                decreases n - nb,
            {
                let c = count_occ(&preds[nb], id);
                proof {
                    lemma_outside_insert(g[nb as int], procq, id as int);
                }
                if c > 0 {
                    proof {
                        lemma_occ_pos(g[nb as int], id as int);
                        let kk = choose|kk: int| 0 <= kk < g[nb as int].len() && g[nb as int][kk] as int == id as int;
                        if lv[nb as int] >= 0 {
                            assert(lv[g[nb as int][kk] as int] < lv[nb as int]);
                            assert(lv[nb as int] == k_level + 1);
                            lemma_outside_zero(g[nb as int], procq);
                            assert(procq.contains(g[nb as int][kk] as int));
                            assert(false);
                        }
                    }
                    let d = indeg[nb] - c;
                    indeg.set(nb, d);
                    if d == 0 {
                        let ghost old_next = next@;
                        next.push(nb);
                        proof {
                            assert forall|j: int| 0 <= j < n && #[trigger] lv.update(nb as int, k_level + 1)[j] == k_level + 1 implies next@.contains(j as usize) by {
                                if j != nb as int {
                                    assert(lv[j] == k_level + 1);
                                    let a = choose|a: int| 0 <= a < old_next.len() && old_next[a] == j as usize;
                                    assert(next@[a] == old_next[a]);
                                } else {
                                    assert(next@[next@.len() - 1] == nb);
                                }
                            }
                            let kk = choose|kk: int| 0 <= kk < g[nb as int].len() && g[nb as int][kk] as int == id as int;
                            lemma_outside_zero(g[nb as int], procq.insert(id as int));
                            lemma_count_unassigned_update(lv, nb as int, k_level + 1);
                            let old_lv = lv;
                            lv = lv.update(nb as int, k_level + 1);
                            assert forall|k: int| 0 <= k < g[nb as int].len() implies 0 <= lv[#[trigger] g[nb as int][k] as int] < lv[nb as int] by {
                                let p = g[nb as int][k] as int;
                                assert(procq.insert(id as int).contains(p));
                                if p != id as int {
                                    if proc0.contains(p) {
                                    } else {
                                        let a = choose|a: int| 0 <= a < q && queue@[a] as int == p;
                                        assert(old_lv[queue@[a] as int] == k_level);
                                    }
                                }
                            }
                            assert(lv[g[nb as int][kk] as int] == lv[nb as int] - 1);
                        }
                    }
                } else {
                    proof {
                        assert(outside(g[nb as int], procq.insert(id as int)) == outside(g[nb as int], procq));
                    }
                }
                nb = nb + 1;
            }
            proof {
                proc = procq.insert(id as int);
                assert(proc =~= proc0.union(Set::new(|x: int| exists|a: int| 0 <= a < q + 1 && queue@[a] as int == x))) by {
                    assert forall|x: int| proc.contains(x) implies proc0.union(Set::new(|x: int| exists|a: int| 0 <= a < q + 1 && queue@[a] as int == x)).contains(x) by {
                        if x == id as int {
                            assert(queue@[q as int] as int == x);
                        } else if !proc0.contains(x) {
                            let a = choose|a: int| 0 <= a < q && queue@[a] as int == x;
                        }
                    }
                    assert forall|x: int| proc0.union(Set::new(|x: int| exists|a: int| 0 <= a < q + 1 && queue@[a] as int == x)).contains(x) implies proc.contains(x) by {
                        if !proc0.contains(x) {
                            let a = choose|a: int| 0 <= a < q + 1 && queue@[a] as int == x;
                            if a < q {
                                assert(procq.contains(x));
                            }
                        }
                    }
                }
            }
            visited = visited + 1;
            q = q + 1;
        }
        proof {
            assert forall|j: int| 0 <= j < n implies (#[trigger] proc.contains(j) <==> 0 <= lv[j] < k_level + 1) by {
                if proc.contains(j) && !proc0.contains(j) {
                    let a = choose|a: int| 0 <= a < queue@.len() && queue@[a] as int == j;
                }
                if lv[j] == k_level {
                    assert(queue@.contains(j as usize));
                    let a = choose|a: int| 0 <= a < queue@.len() && queue@[a] == j as usize;
                    assert(Set::new(|x: int| exists|a: int| 0 <= a < queue@.len() && queue@[a] as int == x).contains(j));
                }
            }
        }
        assert(visited == visited0 + qlen);
        assert(count_unassigned(lv) + next@.len() == cu0);
        let ghost old_levels = levels@;
        levels.push(queue);
        queue = next;
        proof {
            assert forall|m: int| 0 <= m < levels@.len() implies (#[trigger] levels@[m])@.no_duplicates() by {
                if m < old_levels.len() {
                    assert(levels@[m] == old_levels[m]);
                }
            }
            assert forall|m: int| 0 <= m < levels@.len() implies (#[trigger] levels@[m])@.len() > 0 by {
                if m < old_levels.len() {
                    assert(levels@[m] == old_levels[m]);
                }
            }
        }
    }
    proof {
        lemma_count_unassigned_bound(lv);
    }
    if visited != n {
        proof {
            lemma_count_unassigned_zero(lv);
            let s = Set::new(|x: int| 0 <= x < n && lv[x] == -1);
            let w = choose|w: int| 0 <= w < lv.len() && lv[w] == -1;
            assert(s.contains(w));
            assert forall|x: int| #[trigger] s.contains(x) implies exists|k: int|
                0 <= k < g[x].len() && s.contains(#[trigger] g[x][k] as int) by {
                lemma_outside_zero(g[x], proc);
                let k = choose|k: int| 0 <= k < g[x].len() && !proc.contains(#[trigger] g[x][k] as int);
                let p = g[x][k] as int;
                assert(lv[p] == -1);
                assert(s.contains(p));
            }
            assert(closed_set(g, s));
        }
        return None;
    }
    proof {
        lemma_count_unassigned_zero(lv);
        assert(is_layering(g, lv));
        let lg = seqs_of(levels@);
        assert(levels_match(lg, lv));
        if has_cycle(g) {
            let s = choose|s: Set<int>| closed_set(g, s);
            lemma_layering_acyclic(g, lv, s);
        }
    }
    Some(levels)
}


// ---------------------------------------------------------------------------
// Action nodes and their dependencies
// ---------------------------------------------------------------------------

/// The action nodes of a root's blocks, in order: each action block, and the
/// nodes of each parallel block in place.
pub open spec fn actions_of(blocks: Seq<Block>) -> Seq<ActionNode>
    decreases blocks.len(),
{
    if blocks.len() == 0 {
        Seq::empty()
    } else {
        actions_of(blocks.drop_last()) + match blocks.last() {
            Block::Action(n) => seq![n],
            Block::Parallel(p) => p.nodes@,
            _ => Seq::empty(),
        }
    }
}

/// Collects the action nodes of a root's blocks, in order.
pub fn collect_actions(blocks: &Vec<Block>) -> (r: Vec<&ActionNode>)
    ensures
        r@.map_values(|n: &ActionNode| *n) == actions_of(blocks@),
{
    let mut res: Vec<&ActionNode> = Vec::new();
    let mut i: usize = 0;
    while i < blocks.len()
        invariant
            0 <= i <= blocks@.len(),
            res@.map_values(|n: &ActionNode| *n) == actions_of(blocks@.subrange(0, i as int)),
        decreases blocks@.len() - i,
    {
        let ghost before = res@.map_values(|n: &ActionNode| *n);
        let ghost p = blocks@.subrange(0, i + 1);
        assert(p.drop_last() == blocks@.subrange(0, i as int));
        match &blocks[i] {
            Block::Action(n) => {
                res.push(n);
                assert(res@.map_values(|n: &ActionNode| *n) =~= before + seq![*n]);
            },
            Block::Parallel(par) => {
                let mut j: usize = 0;
                while j < par.nodes.len()
                    invariant
                        0 <= j <= par.nodes@.len(),
                        res@.map_values(|n: &ActionNode| *n) == before + par.nodes@.subrange(0, j as int),
                    decreases par.nodes@.len() - j,
                {
                    let ghost b2 = res@.map_values(|n: &ActionNode| *n);
                    res.push(&par.nodes[j]);
                    assert(res@.map_values(|n: &ActionNode| *n) =~= b2.push(par.nodes@[j as int]));
                    assert(par.nodes@.subrange(0, j + 1) =~= par.nodes@.subrange(0, j as int).push(par.nodes@[j as int]));
                    j = j + 1;
                }
                assert(par.nodes@.subrange(0, par.nodes@.len() as int) == par.nodes@);
            },
            _ => {
                assert(res@.map_values(|n: &ActionNode| *n) =~= before + Seq::<ActionNode>::empty());
            },
        }
        i = i + 1;
    }
    assert(blocks@.subrange(0, blocks@.len() as int) == blocks@);
    res
}

/// The first node with this id, from position `k` on.
pub open spec fn first_named(nodes: Seq<ActionNode>, id: Seq<char>, k: int) -> Option<int>
    decreases nodes.len() - k,
{
    if k < 0 || k >= nodes.len() {
        None
    } else if nodes[k].id@ == id {
        Some(k)
    } else {
        first_named(nodes, id, k + 1)
    }
}

pub proof fn lemma_first_named(nodes: Seq<ActionNode>, id: Seq<char>, k: int)
    ensures
        match first_named(nodes, id, k) {
            Some(j) => k <= j < nodes.len() && 0 <= j && nodes[j].id@ == id,
            None => forall|j: int| 0 <= k <= j < nodes.len() ==> (#[trigger] nodes[j]).id@ != id,
        },
    decreases nodes.len() - k,
{
    if 0 <= k < nodes.len() && nodes[k].id@ != id {
        lemma_first_named(nodes, id, k + 1);
    }
}

/// The indices of the nodes named in a list of dependency ids (the first node
/// with each id; ids of no node dropped).
pub open spec fn resolve(deps: Seq<String>, nodes: Seq<ActionNode>) -> Seq<usize>
    decreases deps.len(),
{
    if deps.len() == 0 {
        Seq::empty()
    } else {
        let rest = resolve(deps.drop_last(), nodes);
        match first_named(nodes, deps.last()@, 0) {
            Some(j) => rest.push(j as usize),
            None => rest,
        }
    }
}

/// The dependency graph of a list of nodes, as predecessor lists: one edge per
/// dependency id that names one of the nodes.
pub open spec fn dep_graph(nodes: Seq<ActionNode>) -> Seq<Seq<usize>> {
    Seq::new(nodes.len(), |i: int| resolve(nodes[i].depends_on@, nodes))
}

pub open spec fn ids_distinct(nodes: Seq<ActionNode>) -> bool {
    forall|i: int, j: int|
        0 <= i < nodes.len() && 0 <= j < nodes.len() && i != j ==> nodes[i].id@ != nodes[j].id@
}

pub open spec fn node_view(nodes: Seq<&ActionNode>) -> Seq<ActionNode> {
    nodes.map_values(|n: &ActionNode| *n)
}

/// The index of the first node with this id.
pub fn find_named(nodes: &Vec<&ActionNode>, id: &str) -> (r: Option<usize>)
    ensures
        match r {
            Some(j) => first_named(node_view(nodes@), id@, 0) == Some(j as int),
            None => first_named(node_view(nodes@), id@, 0) is None,
        },
{
    let ghost nv = node_view(nodes@);
    let mut i: usize = 0;
    while i < nodes.len()
        invariant
            0 <= i <= nodes@.len(),
            nv == node_view(nodes@),
            first_named(nv, id@, 0) == first_named(nv, id@, i as int),
        decreases nodes@.len() - i,
    {
        if str_eq(nodes[i].id.as_str(), id) {
            return Some(i);
        }
        i = i + 1;
    }
    None
}

fn resolve_deps(deps: &Vec<String>, nodes: &Vec<&ActionNode>) -> (r: Vec<usize>)
    ensures
        r@ == resolve(deps@, node_view(nodes@)),
        forall|k: int| 0 <= k < r@.len() ==> (#[trigger] r@[k]) < nodes@.len(),
{
    let ghost nv = node_view(nodes@);
    let mut res: Vec<usize> = Vec::new();
    let mut i: usize = 0;
    while i < deps.len()
        invariant
            0 <= i <= deps@.len(),
            nv == node_view(nodes@),
            res@ == resolve(deps@.subrange(0, i as int), nv),
            forall|k: int| 0 <= k < res@.len() ==> (#[trigger] res@[k]) < nodes@.len(),
        decreases deps@.len() - i,
    {
        let ghost p = deps@.subrange(0, i + 1);
        assert(p.drop_last() == deps@.subrange(0, i as int));
        proof {
            lemma_first_named(nv, deps@[i as int]@, 0);
        }
        match find_named(nodes, deps[i].as_str()) {
            Some(j) => {
                res.push(j);
            },
            None => {},
        }
        i = i + 1;
    }
    assert(deps@.subrange(0, deps@.len() as int) == deps@);
    res
}

fn check_ids_distinct(nodes: &Vec<&ActionNode>) -> (r: bool)
    ensures
        r == ids_distinct(node_view(nodes@)),
{
    let ghost nv = node_view(nodes@);
    let mut i: usize = 0;
    while i < nodes.len()
        invariant
            0 <= i <= nodes@.len(),
            nv == node_view(nodes@),
            forall|a: int, b: int| 0 <= a < i && 0 <= b < nodes@.len() && a != b ==> nv[a].id@ != nv[b].id@,
        decreases nodes@.len() - i,
    {
        let mut j: usize = 0;
        while j < nodes.len()
            invariant
                0 <= i < nodes@.len(),
                0 <= j <= nodes@.len(),
                nv == node_view(nodes@),
                forall|a: int, b: int| 0 <= a < i && 0 <= b < nodes@.len() && a != b ==> nv[a].id@ != nv[b].id@,
                forall|b: int| 0 <= b < j && b != i ==> nv[i as int].id@ != nv[b].id@,
            decreases nodes@.len() - j,
        {
            if j != i && str_eq(nodes[i].id.as_str(), nodes[j].id.as_str()) {
                assert(nv[i as int].id@ == nv[j as int].id@);
                return false;
            }
            j = j + 1;
        }
        i = i + 1;
    }
    true
}

pub open spec fn cycle_message() -> Seq<char> {
    "Circular dependency detected in action nodes"@
}

/// Names of the nodes at given indices, level by level.
pub open spec fn level_names(idx: Seq<Seq<usize>>, nodes: Seq<ActionNode>) -> Seq<Seq<Seq<char>>> {
    idx.map_values(|l: Seq<usize>| l.map_values(|i: usize| nodes[i as int].id@))
}

pub open spec fn names_of(levels: Seq<Vec<String>>) -> Seq<Seq<Seq<char>>> {
    levels.map_values(|l: Vec<String>| l@.map_values(|s: String| s@))
}

/// A schedule of nodes: named levels that come from a layering of the
/// dependency graph, as the topological sort gives them.
pub open spec fn schedule_of(nodes: Seq<ActionNode>, names: Seq<Seq<Seq<char>>>) -> bool {
    exists|lv: Seq<int>, idx: Seq<Seq<usize>>|
        #[trigger] is_layering(dep_graph(nodes), lv) && #[trigger] levels_match(idx, lv) && names
            == level_names(idx, nodes)
}

/// Strictly increasing indices.
pub open spec fn increasing(s: Seq<usize>) -> bool {
    forall|a: int, b: int| 0 <= a < b < s.len() ==> s[a] < s[b]
}

/// A schedule whose levels list their nodes in the order the nodes are given.
pub open spec fn ordered_schedule(nodes: Seq<ActionNode>, names: Seq<Seq<Seq<char>>>) -> bool {
    exists|lv: Seq<int>, idx: Seq<Seq<usize>>|
        #[trigger] is_layering(dep_graph(nodes), lv) && #[trigger] levels_match(idx, lv) && names
            == level_names(idx, nodes) && forall|m: int| 0 <= m < idx.len() ==> increasing(#[trigger] idx[m])
            && idx[m].len() > 0
}

fn vec_contains(v: &Vec<usize>, x: usize) -> (r: bool)
    ensures
        r == v@.contains(x),
{
    let mut i: usize = 0;
    while i < v.len()
        invariant
            0 <= i <= v@.len(),
            forall|j: int| 0 <= j < i ==> v@[j] != x,
        decreases v@.len() - i,
    {
        if v[i] == x {
            assert(v@[i as int] == x);
            return true;
        }
        i = i + 1;
    }
    false
}

/// Each level's indices below `n`, in increasing order.
fn order_levels(idx: &Vec<Vec<usize>>, n: usize) -> (r: Vec<Vec<usize>>)
    ensures
        r@.len() == idx@.len(),
        forall|m: int, x: usize| 0 <= m < r@.len() ==> (#[trigger] r@[m]@.contains(x) <==> (x < n && idx@[m]@.contains(x))),
        forall|m: int| 0 <= m < r@.len() ==> increasing(#[trigger] r@[m]@),
{
    let mut out: Vec<Vec<usize>> = Vec::new();
    let mut m: usize = 0;
    while m < idx.len()
        invariant
            0 <= m <= idx@.len(),
            out@.len() == m,
            forall|a: int, x: usize| 0 <= a < m ==> (#[trigger] out@[a]@.contains(x) <==> (x < n && idx@[a]@.contains(x))),
            forall|a: int| 0 <= a < m ==> increasing(#[trigger] out@[a]@),
        decreases idx@.len() - m,
    {
        let mut cur: Vec<usize> = Vec::new();
        let mut i: usize = 0;
        while i < n
            invariant
                0 <= i <= n,
                0 <= m < idx@.len(),
                increasing(cur@),
                forall|a: int| 0 <= a < cur@.len() ==> #[trigger] cur@[a] < i,
                forall|x: usize| #[trigger] cur@.contains(x) <==> (x < i && idx@[m as int]@.contains(x)),
            decreases n - i,
        {
            let here = vec_contains(&idx[m], i);
            assert(here == idx@[m as int]@.contains(i));
            if here {
                let ghost before = cur@;
                cur.push(i);
                proof {
                    assert forall|x: usize| #[trigger] cur@.contains(x) <==> (x < i + 1 && idx@[m as int]@.contains(x)) by {
                        if cur@.contains(x) && x != i {
                            let w = choose|w: int| 0 <= w < cur@.len() && cur@[w] == x;
                            assert(w < before.len());
                            assert(before[w] == x);
                            assert(before.contains(x));
                            assert(x < i && idx@[m as int]@.contains(x));
                        }
                        if x == i {
                            assert(cur@[before.len() as int] == i);
                        }
                        if x < i && idx@[m as int]@.contains(x) {
                            assert(before.contains(x));
                            let w = choose|w: int| 0 <= w < before.len() && before[w] == x;
                            assert(cur@[w] == x);
                        }
                    }
                }
            } else {
                proof {
                    assert forall|x: usize| #[trigger] cur@.contains(x) <==> (x < i + 1 && idx@[m as int]@.contains(x)) by {
                        assert(cur@.contains(x) <==> (x < i && idx@[m as int]@.contains(x)));
                        if x == i {
                            assert(!idx@[m as int]@.contains(i));
                        } else if x < i + 1 && idx@[m as int]@.contains(x) {
                            assert(x < i);
                            assert(cur@.contains(x));
                        }
                    }
                }
            }
            i = i + 1;
        }
        let ghost before_out = out@;
        out.push(cur);
        proof {
            assert forall|a: int, x: usize| 0 <= a < m + 1 implies (#[trigger] out@[a]@.contains(x) <==> (x < n && idx@[a]@.contains(x))) by {
                if a < m {
                    assert(out@[a] == before_out[a]);
                }
            }
            assert forall|a: int| 0 <= a < m + 1 implies increasing(#[trigger] out@[a]@) by {
                if a < m {
                    assert(out@[a] == before_out[a]);
                }
            }
        }
        m = m + 1;
    }
    out
}

proof fn lemma_ordered_match(a: Seq<Seq<usize>>, b: Seq<Seq<usize>>, lv: Seq<int>)
    requires
        levels_match(a, lv),
        forall|m: int| 0 <= m < a.len() ==> (#[trigger] a[m]).len() > 0,
        b.len() == a.len(),
        forall|m: int, x: usize| 0 <= m < b.len() ==> (#[trigger] b[m].contains(x) <==> (x < lv.len() && a[m].contains(x))),
        forall|m: int| 0 <= m < b.len() ==> increasing(#[trigger] b[m]),
    ensures
        levels_match(b, lv),
        forall|m: int| 0 <= m < b.len() ==> (#[trigger] b[m]).len() > 0,
{
    assert forall|m: int| 0 <= m < b.len() implies (#[trigger] b[m]).no_duplicates() by {
        assert forall|i: int, j: int| 0 <= i < b[m].len() && 0 <= j < b[m].len() && i != j implies b[m][i] != b[m][j] by {
            assert(increasing(b[m]));
            if i < j {
                assert(b[m][i] < b[m][j]);
            } else {
                assert(b[m][j] < b[m][i]);
            }
        }
    }
    assert forall|m: int, k: int| 0 <= m < b.len() && 0 <= k < b[m].len() implies (#[trigger] b[m][k]) < lv.len()
        && lv[b[m][k] as int] == m by {
        let x = b[m][k];
        assert(b[m].contains(x));
        assert(a[m].contains(x));
        let w = choose|w: int| 0 <= w < a[m].len() && a[m][w] == x;
        assert(a[m][w] < lv.len() && lv[a[m][w] as int] == m);
    }
    assert forall|i: int| 0 <= i < lv.len() implies 0 <= #[trigger] lv[i] < b.len() && b[lv[i]].contains(i as usize) by {
        assert(0 <= lv[i] < a.len() && a[lv[i]].contains(i as usize));
    }
    assert forall|m: int| 0 <= m < b.len() implies (#[trigger] b[m]).len() > 0 by {
        assert(a[m].len() > 0);
        let x = a[m][0];
        assert(x < lv.len());
        assert(a[m].contains(x));
        assert(b[m].contains(x));
    }
}

/// Orders action nodes level by level. Fails when two nodes share an id or
/// the dependencies form a cycle; otherwise every node is on exactly one level,
/// after all of its producers, and a node above the first level has a producer
/// on the level just below it.
pub fn topological_sort(nodes: &Vec<&ActionNode>) -> (r: Result<Vec<Vec<String>>, String>)
    ensures
        r is Ok <==> ids_distinct(node_view(nodes@)) && !has_cycle(dep_graph(node_view(nodes@))),
        r matches Err(m) ==> m@ == cycle_message(),
        r matches Ok(levels) ==> schedule_of(node_view(nodes@), names_of(levels@)),
        r matches Ok(levels) ==> ordered_schedule(node_view(nodes@), names_of(levels@)),
        r matches Ok(levels) ==> forall|m: int| 0 <= m < levels@.len() ==> (#[trigger] levels@[m])@.len() > 0,
        nodes@.len() == 0 ==> (r matches Ok(levels) && levels@.len() == 0),
{
    let ghost nv = node_view(nodes@);
    proof {
        if nodes@.len() == 0 && has_cycle(dep_graph(nv)) {
            let s = choose|s: Set<int>| closed_set(dep_graph(nv), s);
            let i = choose|i: int| s.contains(i);
            assert(0 <= i < dep_graph(nv).len());
        }
    }
    if !check_ids_distinct(nodes) {
        return Err(owned("Circular dependency detected in action nodes"));
    }
    let mut preds: Vec<Vec<usize>> = Vec::new();
    let mut i: usize = 0;
    while i < nodes.len()
        invariant
            0 <= i <= nodes@.len(),
            nv == node_view(nodes@),
            preds@.len() == i,
            forall|j: int| 0 <= j < i ==> (#[trigger] preds@[j])@ == resolve(nv[j].depends_on@, nv),
            forall|j: int, k: int| 0 <= j < i && 0 <= k < preds@[j]@.len() ==> (#[trigger] preds@[j]@[k]) < nodes@.len(),
        decreases nodes@.len() - i,
    {
        let d = resolve_deps(&nodes[i].depends_on, nodes);
        preds.push(d);
        i = i + 1;
    }
    proof {
        assert(seqs_of(preds@) =~= dep_graph(nv));
    }
    match kahn_levels(&preds) {
        Some(kl) => {
            let idx_levels = order_levels(&kl, nodes.len());
            proof {
                let lv0 = choose|lv: Seq<int>| #[trigger] is_layering(seqs_of(preds@), lv) && levels_match(seqs_of(kl@), lv);
                assert(lv0.len() == nodes@.len());
                assert forall|m: int| 0 <= m < seqs_of(kl@).len() implies (#[trigger] seqs_of(kl@)[m]).len() > 0 by {
                    assert(seqs_of(kl@)[m] == kl@[m]@);
                }
                assert forall|m: int, x: usize| 0 <= m < seqs_of(idx_levels@).len() implies (#[trigger] seqs_of(idx_levels@)[m].contains(x) <==> (x < lv0.len() && seqs_of(kl@)[m].contains(x))) by {
                    assert(seqs_of(idx_levels@)[m] == idx_levels@[m]@);
                    assert(seqs_of(kl@)[m] == kl@[m]@);
                }
                assert forall|m: int| 0 <= m < seqs_of(idx_levels@).len() implies increasing(#[trigger] seqs_of(idx_levels@)[m]) by {
                    assert(seqs_of(idx_levels@)[m] == idx_levels@[m]@);
                }
                lemma_ordered_match(seqs_of(kl@), seqs_of(idx_levels@), lv0);
                assert(is_layering(seqs_of(preds@), lv0) && levels_match(seqs_of(idx_levels@), lv0));
                assert forall|m: int| 0 <= m < idx_levels@.len() implies (#[trigger] idx_levels@[m])@.len() > 0 by {
                    assert(seqs_of(idx_levels@)[m] == idx_levels@[m]@);
                }
            }
            proof {
                let lv = choose|lv: Seq<int>| #[trigger] is_layering(seqs_of(preds@), lv) && levels_match(seqs_of(idx_levels@), lv);
                assert forall|a: int, b: int| 0 <= a < idx_levels@.len() && 0 <= b < idx_levels@[a]@.len() implies (#[trigger] idx_levels@[a]@[b]) < nodes@.len() by {
                    assert(seqs_of(idx_levels@)[a] == idx_levels@[a]@);
                    assert(seqs_of(idx_levels@)[a][b] < lv.len());
                }
            }
            let mut out: Vec<Vec<String>> = Vec::new();
            let mut m: usize = 0;
            while m < idx_levels.len()
                invariant
                    0 <= m <= idx_levels@.len(),
                    nv == node_view(nodes@),
                    seqs_of(preds@) == dep_graph(nv),
                    out@.len() == m,
                    forall|a: int, b: int| 0 <= a < idx_levels@.len() && 0 <= b < idx_levels@[a]@.len() ==> (#[trigger] idx_levels@[a]@[b]) < nodes@.len(),
                    forall|a: int| 0 <= a < m ==> (#[trigger] out@[a])@.map_values(|s: String| s@) == idx_levels@[a]@.map_values(|x: usize| nv[x as int].id@),
                    forall|a: int| 0 <= a < idx_levels@.len() ==> (#[trigger] idx_levels@[a])@.len() > 0,
                decreases idx_levels@.len() - m,
            {
                let lvl = &idx_levels[m];
                let mut names: Vec<String> = Vec::new();
                let mut a: usize = 0;
                while a < lvl.len()
                    invariant
                        0 <= a <= lvl@.len(),
                        nv == node_view(nodes@),
                        *lvl == idx_levels@[m as int],
                        0 <= m < idx_levels@.len(),
                        forall|x: int, b: int| 0 <= x < idx_levels@.len() && 0 <= b < idx_levels@[x]@.len() ==> (#[trigger] idx_levels@[x]@[b]) < nodes@.len(),
                        names@.map_values(|s: String| s@) == lvl@.subrange(0, a as int).map_values(|x: usize| nv[x as int].id@),
                    decreases lvl@.len() - a,
                {
                    let ghost before = names@.map_values(|s: String| s@);
                    let x = lvl[a];
                    let nm = owned(nodes[x].id.as_str());
                    assert(nm@ == nv[x as int].id@);
                    let ghost nmv = nm@;
                    names.push(nm);
                    assert(lvl@.subrange(0, a + 1) == lvl@.subrange(0, a as int).push(x));
                    assert(names@.map_values(|s: String| s@) =~= before.push(nmv));
                    assert(lvl@.subrange(0, a as int).push(x).map_values(|x: usize| nv[x as int].id@) =~= lvl@.subrange(0, a as int).map_values(|x: usize| nv[x as int].id@).push(nv[x as int].id@));
                    assert(names@.map_values(|s: String| s@) =~= lvl@.subrange(0, a + 1).map_values(|x: usize| nv[x as int].id@));
                    a = a + 1;
                }
                assert(lvl@.subrange(0, lvl@.len() as int) == lvl@);
                out.push(names);
                m = m + 1;
            }
            proof {
                let lv = choose|lv: Seq<int>| #[trigger] is_layering(seqs_of(preds@), lv) && levels_match(seqs_of(idx_levels@), lv);
                assert(names_of(out@) =~= level_names(seqs_of(idx_levels@), nv));
                assert forall|a: int| 0 <= a < seqs_of(idx_levels@).len() implies increasing(#[trigger] seqs_of(idx_levels@)[a])
                    && seqs_of(idx_levels@)[a].len() > 0 by {
                    assert(seqs_of(idx_levels@)[a] == idx_levels@[a]@);
                }
                assert(is_layering(dep_graph(nv), lv) && levels_match(seqs_of(idx_levels@), lv));
                assert forall|a: int| 0 <= a < out@.len() implies (#[trigger] out@[a])@.len() > 0 by {
                    assert(out@[a]@.map_values(|s: String| s@).len() == idx_levels@[a]@.len());
                }
                if nodes@.len() == 0 && out@.len() > 0 {
                    assert(idx_levels@[0]@.len() > 0);
                    assert(idx_levels@[0]@[0] < nodes@.len());
                }
            }
            Ok(out)
        },
        None => Err(owned("Circular dependency detected in action nodes")),
    }
}

} // verus!
