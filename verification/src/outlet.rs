//! Outlet propagation over the site adjacency graph.
//!
//! A site is a *candidate* outlet when noise classification marked it as
//! ocean. The final outlet set is the subset of candidates connected to the
//! domain boundary through a chain of candidate sites: a flood fill seeded at
//! the boundary sites that are candidates. When boundary sites exist but none
//! is a candidate, one deterministic fallback site (the first boundary site)
//! becomes the sole outlet so the erosion simulation always has a drainage
//! sink. When there are no boundary sites at all, `None` signals the
//! degenerate configuration to the caller.

use vstd::pervasive::VecAdditionalExecFns;
use vstd::prelude::*;

verus! {

/// The adjacency structure seen as a sequence of neighbor-index sequences.
pub open spec fn adj_view(adjacency: Seq<Vec<usize>>) -> Seq<Seq<usize>> {
    adjacency.map_values(|row: Vec<usize>| row@)
}

/// Every neighbor index is a valid site index below `n`.
pub open spec fn graph_wf(adj: Seq<Seq<usize>>, n: int) -> bool {
    &&& adj.len() == n
    &&& forall|a: int, k: int|
        0 <= a < n && 0 <= k < adj[a].len() ==> (#[trigger] adj[a][k]) < n
}

/// There is an edge from site `a` to site `b` in the adjacency structure.
pub open spec fn edge(adj: Seq<Seq<usize>>, a: int, b: int) -> bool {
    exists|k: int| 0 <= k < adj[a].len() && adj[a][k] == b
}

/// Site `s` is a flood-fill seed: a boundary site that is a candidate.
pub open spec fn is_seed(cand: Seq<bool>, boundary: Seq<usize>, s: int) -> bool {
    &&& 0 <= s < cand.len()
    &&& cand[s]
    &&& exists|k: int| 0 <= k < boundary.len() && boundary[k] == s
}

/// Some flood-fill seed exists.
pub open spec fn has_seed(cand: Seq<bool>, boundary: Seq<usize>) -> bool {
    exists|s: int| is_seed(cand, boundary, s)
}

/// `p` is a non-empty walk through candidate sites along graph edges.
pub open spec fn is_candidate_path(adj: Seq<Seq<usize>>, cand: Seq<bool>, p: Seq<int>) -> bool {
    &&& p.len() > 0
    &&& forall|i: int| 0 <= i < p.len() ==> 0 <= #[trigger] p[i] < cand.len() && cand[p[i]]
    &&& forall|i: int| 0 <= i < p.len() - 1 ==> #[trigger] edge(adj, p[i], p[i + 1])
}

/// Site `s` is connected to the boundary through a chain of candidate sites.
pub open spec fn reaches(
    adj: Seq<Seq<usize>>,
    cand: Seq<bool>,
    boundary: Seq<usize>,
    s: int,
) -> bool {
    exists|p: Seq<int>|
        {
            &&& #[trigger] is_candidate_path(adj, cand, p)
            &&& is_seed(cand, boundary, p[0])
            &&& p[p.len() - 1] == s
        }
}

/// `b` is one of the entries of the worklist `q`.
pub open spec fn in_queue(q: Seq<usize>, b: int) -> bool {
    exists|t: int| 0 <= t < q.len() && q[t] == b
}

/// The marked set is closed under edges into candidate sites.
pub open spec fn closed_set(adj: Seq<Seq<usize>>, cand: Seq<bool>, m: Seq<bool>) -> bool {
    forall|a: int, b: int|
        0 <= a < m.len() && m[a] && #[trigger] edge(adj, a, b) && 0 <= b < cand.len() && cand[b]
            ==> m[b]
}

/// Every flood-fill seed is in the marked set.
pub open spec fn seeds_marked(cand: Seq<bool>, boundary: Seq<usize>, m: Seq<bool>) -> bool {
    forall|s: int| #[trigger] is_seed(cand, boundary, s) ==> m[s]
}

/// A seed reaches itself through the one-site path.
proof fn lemma_seed_reaches(adj: Seq<Seq<usize>>, cand: Seq<bool>, boundary: Seq<usize>, s: int)
    requires
        is_seed(cand, boundary, s),
    ensures
        reaches(adj, cand, boundary, s),
{
    let p: Seq<int> = seq![s];
    assert(is_candidate_path(adj, cand, p));
    assert(p[0] == s && p[p.len() - 1] == s);
}

/// Reachability extends along an edge into a candidate site.
proof fn lemma_reaches_step(
    adj: Seq<Seq<usize>>,
    cand: Seq<bool>,
    boundary: Seq<usize>,
    a: int,
    b: int,
)
    requires
        reaches(adj, cand, boundary, a),
        0 <= b < cand.len(),
        cand[b],
        edge(adj, a, b),
    ensures
        reaches(adj, cand, boundary, b),
{
    let p: Seq<int> = choose|p: Seq<int>|
        {
            &&& #[trigger] is_candidate_path(adj, cand, p)
            &&& is_seed(cand, boundary, p[0])
            &&& p[p.len() - 1] == a
        };
    let q: Seq<int> = p.push(b);
    assert(q[q.len() - 1] == b);
    assert(q[0] == p[0]);
    assert forall|i: int| 0 <= i < q.len() implies 0 <= #[trigger] q[i] < cand.len()
        && cand[q[i]] by {
        if i < p.len() {
            assert(q[i] == p[i]);
        } else {
            assert(q[i] == b);
        }
    }
    assert forall|i: int| 0 <= i < q.len() - 1 implies #[trigger] edge(adj, q[i], q[i + 1]) by {
        if i < p.len() - 1 {
            assert(q[i] == p[i] && q[i + 1] == p[i + 1]);
        } else {
            assert(q[i] == p[p.len() - 1] && q[i + 1] == b);
        }
    }
    assert(is_candidate_path(adj, cand, q));
}

/// Anything reachable ends up inside a closed marked set that holds the seeds.
proof fn lemma_path_marked(
    adj: Seq<Seq<usize>>,
    cand: Seq<bool>,
    boundary: Seq<usize>,
    m: Seq<bool>,
    p: Seq<int>,
)
    requires
        m.len() == cand.len(),
        closed_set(adj, cand, m),
        seeds_marked(cand, boundary, m),
        is_candidate_path(adj, cand, p),
        is_seed(cand, boundary, p[0]),
    ensures
        m[p[p.len() - 1]],
    decreases p.len(),
{
    if p.len() == 1 {
        assert(m[p[0]]);
    } else {
        let q: Seq<int> = p.subrange(0, p.len() - 1);
        assert forall|i: int| 0 <= i < q.len() implies 0 <= #[trigger] q[i] < cand.len()
            && cand[q[i]] by {
            assert(q[i] == p[i]);
        }
        assert forall|i: int| 0 <= i < q.len() - 1 implies #[trigger] edge(adj, q[i], q[i + 1]) by {
            assert(q[i] == p[i] && q[i + 1] == p[i + 1]);
        }
        assert(is_candidate_path(adj, cand, q));
        assert(q[0] == p[0]);
        lemma_path_marked(adj, cand, boundary, m, q);
        let last: int = p[p.len() - 1];
        let prev: int = p[p.len() - 2];
        assert(q[q.len() - 1] == prev);
        assert(m[prev]);
        assert(edge(adj, p[p.len() - 2], p[(p.len() - 2) + 1]));
        assert(edge(adj, prev, last));
        assert(m[last]);
    }
}

/// Removing the popped last entry keeps every other entry in the worklist.
proof fn lemma_in_queue_pop(q: Seq<usize>, b: int)
    requires
        q.len() > 0,
        in_queue(q, b),
    ensures
        b == q[q.len() - 1] || in_queue(q.subrange(0, q.len() - 1), b),
{
    let t: int = choose|t: int| 0 <= t < q.len() && q[t] == b;
    if t < q.len() - 1 {
        let q2: Seq<usize> = q.subrange(0, q.len() - 1);
        assert(q2[t] == b);
    }
}

/// The number of `false` entries: the flood fill's termination measure.
pub closed spec fn count_unmarked(m: Seq<bool>) -> nat
    decreases m.len(),
{
    if m.len() == 0 {
        0
    } else {
        count_unmarked(m.drop_last()) + if m[m.len() - 1] {
            0nat
        } else {
            1nat
        }
    }
}

/// Marking one unmarked site decreases the termination measure by one.
proof fn lemma_count_unmarked_set_true(m: Seq<bool>, i: int)
    requires
        0 <= i < m.len(),
        !m[i],
    ensures
        count_unmarked(m.update(i, true)) + 1 == count_unmarked(m),
    decreases m.len(),
{
    let m2 = m.update(i, true);
    if i == m.len() - 1 {
        assert(m2.drop_last() =~= m.drop_last());
    } else {
        assert(m2.drop_last() =~= m.drop_last().update(i, true));
        lemma_count_unmarked_set_true(m.drop_last(), i);
    }
}

/// Decide the final outlet set.
///
/// `candidates[i]` says whether noise classification made site `i` a
/// candidate outlet; `boundary` lists the boundary-site indices in order;
/// `adjacency[i]` lists the neighbor indices of site `i`.
///
/// Returns `None` exactly when there are no boundary sites (the caller must
/// treat that as an unsatisfiable configuration). Otherwise returns one flag
/// per site: when some boundary site is a candidate, a site is an outlet if
/// and only if a chain of candidate sites connects it to such a boundary
/// site; when no boundary site is a candidate, the first boundary site is
/// the sole outlet.
pub fn determine_outlets(
    adjacency: &Vec<Vec<usize>>,
    candidates: &Vec<bool>,
    boundary: &Vec<usize>,
) -> (r: Option<Vec<bool>>)
    requires
        adjacency@.len() == candidates@.len(),
        graph_wf(adj_view(adjacency@), candidates@.len() as int),
        forall|k: int| 0 <= k < boundary@.len() ==> (#[trigger] boundary@[k]) < candidates@.len(),
    ensures
        r is Some <==> boundary@.len() > 0,
        r matches Some(v) ==> v@.len() == candidates@.len(),
        r matches Some(v) ==> forall|i: int|
            0 <= i < v@.len() ==> (#[trigger] v@[i] <==> (if has_seed(candidates@, boundary@) {
                reaches(adj_view(adjacency@), candidates@, boundary@, i)
            } else {
                i == boundary@[0]
            })),
{
    let ghost adj: Seq<Seq<usize>> = adj_view(adjacency@);
    let ghost cand: Seq<bool> = candidates@;
    let ghost bnd: Seq<usize> = boundary@;
    let n: usize = candidates.len();

    // Seed the worklist with every boundary site that is a candidate.
    let mut queue: Vec<usize> = Vec::new();
    let mut k: usize = 0;
    while k < boundary.len()
        invariant
            k <= bnd.len(),
            boundary@ == bnd,
            candidates@ == cand,
            cand.len() == n,
            forall|j: int| 0 <= j < bnd.len() ==> (#[trigger] bnd[j]) < n,
            forall|t: int| 0 <= t < queue@.len() ==> is_seed(cand, bnd, #[trigger] queue@[t] as int),
            forall|j: int|
                0 <= j < k && cand[bnd[j] as int] ==> in_queue(queue@, #[trigger] bnd[j] as int),
        decreases bnd.len() - k,
    {
        let b: usize = boundary[k];
        let ghost qb: Seq<usize> = queue@;
        if candidates[b] {
            queue.push(b);
            proof {
                assert(is_seed(cand, bnd, b as int)) by {
                    assert(bnd[k as int] == b);
                }
            }
        }
        k = k + 1;
        proof {
            assert forall|j: int| 0 <= j < k && cand[bnd[j] as int] implies in_queue(
                queue@,
                #[trigger] bnd[j] as int,
            ) by {
                if j < k - 1 {
                    let u: int = choose|u: int| 0 <= u < qb.len() && qb[u] == bnd[j];
                    assert(queue@[u] == bnd[j]);
                } else {
                    assert(queue@[queue@.len() - 1] == b);
                }
            }
        }
    }

    proof {
        assert forall|t: int| 0 <= t < queue@.len() implies (#[trigger] queue@[t]) < n
            && cand[queue@[t] as int] && reaches(adj, cand, bnd, queue@[t] as int) by {
            lemma_seed_reaches(adj, cand, bnd, queue@[t] as int);
        }
        assert forall|s: int| #[trigger] is_seed(cand, bnd, s) implies in_queue(queue@, s) by {
            let j: int = choose|j: int| 0 <= j < bnd.len() && bnd[j] == s;
            assert(cand[bnd[j] as int]);
        }
    }

    // One mark per site, initially clear.
    let mut marked: Vec<bool> = Vec::new();
    let mut z: usize = 0;
    while z < n
        invariant
            marked@.len() == z,
            z <= n,
            forall|i: int| 0 <= i < z ==> !(#[trigger] marked@[i]),
        decreases n - z,
    {
        marked.push(false);
        z = z + 1;
    }

    // Flood fill: pop a site, mark it, enqueue its unmarked candidate
    // neighbors.
    let mut any_marked: bool = false;
    while queue.len() > 0
        invariant
            adjacency@.len() == n,
            candidates@ == cand,
            boundary@ == bnd,
            adj == adj_view(adjacency@),
            cand.len() == n,
            marked@.len() == n,
            graph_wf(adj, n as int),
            forall|t: int| 0 <= t < queue@.len() ==> (#[trigger] queue@[t]) < n
                && cand[queue@[t] as int] && reaches(adj, cand, bnd, queue@[t] as int),
            forall|i: int| 0 <= i < n && (#[trigger] marked@[i]) ==> cand[i] && reaches(
                adj,
                cand,
                bnd,
                i,
            ),
            forall|a: int, b: int|
                0 <= a < n && marked@[a] && #[trigger] edge(adj, a, b) && 0 <= b < n && cand[b]
                    ==> marked@[b] || in_queue(queue@, b),
            forall|s: int| #[trigger] is_seed(cand, bnd, s) ==> marked@[s] || in_queue(queue@, s),
            any_marked <==> exists|i: int| 0 <= i < n && (#[trigger] marked@[i]),
        decreases count_unmarked(marked@), queue@.len(),
    {
        let ghost queue_before: Seq<usize> = queue@;
        let site: usize = queue.pop().unwrap();
        proof {
            assert(queue_before[queue_before.len() - 1] == site);
            assert forall|b: int| in_queue(queue_before, b) implies b == site || in_queue(
                queue@,
                b,
            ) by {
                lemma_in_queue_pop(queue_before, b);
            }
        }
        if !marked[site] {
            let ghost marked_before: Seq<bool> = marked@;
            marked.set(site, true);
            any_marked = true;
            proof {
                lemma_count_unmarked_set_true(marked_before, site as int);
            }
            let row: &Vec<usize> = &adjacency[site];
            proof {
                assert(adj[site as int] == row@);
            }
            let mut j: usize = 0;
            while j < row.len()
                invariant
                    adjacency@.len() == n,
                    candidates@ == cand,
                    boundary@ == bnd,
                    adj == adj_view(adjacency@),
                    cand.len() == n,
                    marked@.len() == n,
                    graph_wf(adj, n as int),
                    site < n,
                    row@ == adj[site as int],
                    j <= row@.len(),
                    marked@[site as int],
                    forall|t: int| 0 <= t < queue@.len() ==> (#[trigger] queue@[t]) < n
                        && cand[queue@[t] as int] && reaches(adj, cand, bnd, queue@[t] as int),
                    forall|i: int| 0 <= i < n && (#[trigger] marked@[i]) ==> cand[i] && reaches(
                        adj,
                        cand,
                        bnd,
                        i,
                    ),
                    forall|a: int, b: int|
                        0 <= a < n && marked@[a] && a != site && #[trigger] edge(adj, a, b)
                            && 0 <= b < n && cand[b] ==> marked@[b] || in_queue(queue@, b),
                    forall|t: int|
                        0 <= t < j && cand[(#[trigger] row@[t]) as int] ==> marked@[row@[t] as int]
                            || in_queue(queue@, row@[t] as int),
                    forall|s: int| #[trigger] is_seed(cand, bnd, s) ==> marked@[s] || in_queue(
                        queue@,
                        s,
                    ),
                decreases row@.len() - j,
            {
                let neighbor: usize = row[j];
                proof {
                    assert(adj[site as int][j as int] == neighbor);
                    assert(neighbor < n);
                }
                let ghost qb2: Seq<usize> = queue@;
                if !marked[neighbor] && candidates[neighbor] {
                    queue.push(neighbor);
                    proof {
                        assert(edge(adj, site as int, neighbor as int)) by {
                            assert(adj[site as int][j as int] == neighbor);
                        }
                        lemma_reaches_step(adj, cand, bnd, site as int, neighbor as int);
                        assert(queue@[queue@.len() - 1] == neighbor);
                        assert forall|b: int| in_queue(qb2, b) implies in_queue(queue@, b) by {
                            let u: int = choose|u: int| 0 <= u < qb2.len() && qb2[u] == b;
                            assert(queue@[u] == b);
                        }
                    }
                }
                j = j + 1;
                proof {
                    assert forall|t: int| 0 <= t < j && cand[(#[trigger] row@[t]) as int] implies
                        marked@[row@[t] as int] || in_queue(queue@, row@[t] as int) by {
                        if t == j - 1 {
                            assert(row@[t] == neighbor);
                        }
                    }
                }
            }
            proof {
                // The inner loop restored edge-closure for the newly marked
                // site: every candidate neighbor is marked or queued.
                assert forall|a: int, b: int|
                    0 <= a < n && marked@[a] && #[trigger] edge(adj, a, b) && 0 <= b < n
                        && cand[b] implies marked@[b] || in_queue(queue@, b) by {
                    if a == site as int {
                        let kk: int = choose|kk: int| 0 <= kk < adj[a].len() && adj[a][kk] == b;
                        assert(cand[(row@[kk]) as int]);
                    }
                }
            }
        }
    }

    proof {
        assert forall|a: int, b: int|
            0 <= a < n && marked@[a] && #[trigger] edge(adj, a, b) && 0 <= b < n
                && cand[b] implies marked@[b] by {
            assert(!in_queue(queue@, b));
        }
        assert(closed_set(adj, cand, marked@));
        assert forall|s: int| #[trigger] is_seed(cand, bnd, s) implies marked@[s] by {
            assert(!in_queue(queue@, s));
        }
        assert(seeds_marked(cand, bnd, marked@));
    }

    if any_marked {
        proof {
            assert forall|i: int| 0 <= i < n implies ((#[trigger] marked@[i]) <==> reaches(
                adj,
                cand,
                bnd,
                i,
            )) by {
                if reaches(adj, cand, bnd, i) {
                    let p: Seq<int> = choose|p: Seq<int>|
                        {
                            &&& #[trigger] is_candidate_path(adj, cand, p)
                            &&& is_seed(cand, bnd, p[0])
                            &&& p[p.len() - 1] == i
                        };
                    lemma_path_marked(adj, cand, bnd, marked@, p);
                }
            }
            // Some site is marked, so it reaches a seed, so a seed exists.
            let i0: int = choose|i: int| 0 <= i < n && marked@[i];
            assert(reaches(adj, cand, bnd, i0));
            let p0: Seq<int> = choose|p: Seq<int>|
                {
                    &&& #[trigger] is_candidate_path(adj, cand, p)
                    &&& is_seed(cand, bnd, p[0])
                    &&& p[p.len() - 1] == i0
                };
            assert(is_seed(cand, bnd, p0[0]));
            assert(has_seed(cand, bnd));
            assert(bnd.len() > 0) by {
                let s0: int = choose|s: int| is_seed(cand, bnd, s);
                let kk: int = choose|kk: int| 0 <= kk < bnd.len() && bnd[kk] == s0;
            }
        }
        Some(marked)
    } else if boundary.len() > 0 {
        proof {
            // Nothing was marked, so no seed exists: a seed would be marked.
            assert(!has_seed(cand, bnd)) by {
                if has_seed(cand, bnd) {
                    let s0: int = choose|s: int| is_seed(cand, bnd, s);
                    assert(marked@[s0]);
                }
            }
        }
        let first: usize = boundary[0];
        marked.set(first, true);
        Some(marked)
    } else {
        None
    }
}

} // verus!
