//! Depth-first cycle search over a graph given by adjacency lists of node
//! indices.
use vstd::prelude::*;

verus! {

/// The adjacency lists as sequences.
pub open spec fn adj_view(adj: Seq<Vec<usize>>) -> Seq<Seq<usize>> {
    adj.map_values(|v: Vec<usize>| v@)
}

/// Every neighbour is a node of the graph.
pub open spec fn adj_wf(adj: Seq<Seq<usize>>) -> bool {
    forall|u: int, q: int|
        0 <= u < adj.len() && 0 <= q < adj[u].len() ==> (#[trigger] adj[u][q]) < adj.len()
}

/// Whether `v` is a neighbour of `u`.
pub open spec fn edge(adj: Seq<Seq<usize>>, u: int, v: int) -> bool {
    0 <= u < adj.len() && exists|q: int| 0 <= q < adj[u].len() && adj[u][q] == v
}

/// Whether `c` is a cycle: each node is followed by a neighbour, and the
/// last node by the first.
pub open spec fn is_cycle(adj: Seq<Seq<usize>>, c: Seq<usize>) -> bool {
    &&& c.len() >= 1
    &&& forall|j: int| 0 <= j < c.len() - 1 ==> edge(adj, #[trigger] c[j] as int, c[j + 1] as int)
    &&& edge(adj, c.last() as int, c[0] as int)
}

pub open spec fn acyclic(adj: Seq<Seq<usize>>) -> bool {
    forall|c: Seq<usize>| !is_cycle(adj, c)
}

pub open spec fn count_white(color: Seq<u8>) -> nat
    decreases color.len(),
{
    if color.len() == 0 {
        0
    } else {
        count_white(color.drop_last()) + if color.last() == 0 {
            1nat
        } else {
            0nat
        }
    }
}

pub proof fn lemma_count_white_update(color: Seq<u8>, i: int, x: u8)
    requires
        0 <= i < color.len(),
        color[i] == 0,
        x != 0,
    ensures
        count_white(color.update(i, x)) + 1 == count_white(color),
    decreases color.len(),
{
    if i < color.len() - 1 {
        lemma_count_white_update(color.drop_last(), i, x);
        assert(color.update(i, x).drop_last() =~= color.drop_last().update(i, x));
    } else {
        assert(color.update(i, x).drop_last() =~= color.drop_last());
    }
}

pub proof fn lemma_count_white_update_nonwhite(color: Seq<u8>, i: int, x: u8)
    requires
        0 <= i < color.len(),
        color[i] != 0,
        x != 0,
    ensures
        count_white(color.update(i, x)) == count_white(color),
    decreases color.len(),
{
    if i < color.len() - 1 {
        lemma_count_white_update_nonwhite(color.drop_last(), i, x);
        assert(color.update(i, x).drop_last() =~= color.drop_last().update(i, x));
    } else {
        assert(color.update(i, x).drop_last() =~= color.drop_last());
    }
}

/// The neighbours still to be examined by the frames of the search stack.
pub open spec fn remaining(adj: Seq<Seq<usize>>, frames: Seq<(usize, usize)>) -> nat
    decreases frames.len(),
{
    if frames.len() == 0 {
        0
    } else {
        remaining(adj, frames.drop_last()) + (adj[frames.last().0 as int].len() - frames.last().1) as nat
    }
}

/// Whether every adjacency list is short enough to be indexed by `usize`.
pub open spec fn lists_fit(adj: Seq<Seq<usize>>) -> bool {
    forall|u: int| 0 <= u < adj.len() ==> #[trigger] adj[u].len() <= usize::MAX
}

/// Whether each frame of `stack` holds a coloured node and a neighbour
/// index within its list.
pub open spec fn frames_valid(adj: Seq<Seq<usize>>, color: Seq<u8>, stack: Seq<(usize, usize)>) -> bool {
    forall|k: int|
        0 <= k < stack.len() ==> (#[trigger] stack[k]).0 < adj.len() && stack[k].1 <= adj[stack[k].0 as int].len()
            && color[stack[k].0 as int] != 0
}

/// The position of the first `x` in `s`.
pub open spec fn pos_in(s: Seq<usize>, x: usize) -> int
    decreases s.len(),
{
    if s.len() == 0 || s[0] == x {
        0
    } else {
        1 + pos_in(s.drop_first(), x)
    }
}

proof fn lemma_pos_in(s: Seq<usize>, x: usize, i: int)
    requires
        0 <= i < s.len(),
        s[i] == x,
        forall|k: int| 0 <= k < i ==> s[k] != x,
    ensures
        pos_in(s, x) == i,
    decreases i,
{
    if i > 0 {
        assert forall|k: int| 0 <= k < i - 1 implies s.drop_first()[k] != x by {
            assert(s.drop_first()[k] == s[k + 1]);
        }
        lemma_pos_in(s.drop_first(), x, i - 1);
    }
}

/// The search from the frames `stack` (the last on top), with the path of
/// grey nodes `path` and the colours `color` (0 white, 1 grey, 2 black):
/// the cycles it reports, in order, and the colours in the end. The top
/// frame looks at its next neighbour: a white one turns grey and is
/// pushed; a grey one closes the cycle of the path from it on; a black one
/// is passed over. A frame without neighbours left turns black and is
/// popped.
pub open spec fn cdfs(adj: Seq<Seq<usize>>, color: Seq<u8>, stack: Seq<(usize, usize)>, path: Seq<usize>) -> (
    Seq<Seq<usize>>,
    Seq<u8>,
)
    decreases count_white(color), remaining(adj, stack), stack.len()
    when color.len() == adj.len() && adj_wf(adj) && lists_fit(adj) && frames_valid(adj, color, stack)
{
    if stack.len() == 0 {
        (seq![], color)
    } else {
        let node = stack.last().0;
        let idx = stack.last().1;
        let rest = stack.drop_last();
        proof {
            assert(stack[stack.len() - 1].0 < adj.len());
        }
        if idx < adj[node as int].len() {
            let nb = adj[node as int][idx as int];
            let st2 = rest.push((node, (idx + 1) as usize));
            proof {
                assert(st2.drop_last() =~= rest);
                assert(nb < adj.len());
                assert(adj[node as int].len() <= usize::MAX);
                assert(remaining(adj, st2) == remaining(adj, rest) + (adj[node as int].len() - (idx + 1)) as nat);
                assert(remaining(adj, stack) == remaining(adj, rest) + (adj[node as int].len() - idx) as nat);
            }
            if color[nb as int] == 0 {
                proof {
                    lemma_count_white_update(color, nb as int, 1);
                }
                cdfs(adj, color.update(nb as int, 1), st2.push((nb, 0usize)), path.push(nb))
            } else if color[nb as int] == 1 {
                let r = cdfs(adj, color, st2, path);
                (seq![path.subrange(pos_in(path, nb), path.len() as int)] + r.0, r.1)
            } else {
                cdfs(adj, color, st2, path)
            }
        } else {
            proof {
                lemma_count_white_update_nonwhite(color, node as int, 2);
            }
            cdfs(adj, color.update(node as int, 2), rest, path.drop_last())
        }
    }
}

/// One step of [`cdfs`] on a stack with a frame on top.
proof fn lemma_cdfs_step(adj: Seq<Seq<usize>>, color: Seq<u8>, stack: Seq<(usize, usize)>, path: Seq<usize>)
    requires
        color.len() == adj.len(),
        adj_wf(adj),
        lists_fit(adj),
        frames_valid(adj, color, stack),
        stack.len() > 0,
    ensures
        ({
            let node = stack.last().0;
            let idx = stack.last().1;
            let rest = stack.drop_last();
            cdfs(adj, color, stack, path) == if idx < adj[node as int].len() {
                let nb = adj[node as int][idx as int];
                let st2 = rest.push((node, (idx + 1) as usize));
                if color[nb as int] == 0 {
                    cdfs(adj, color.update(nb as int, 1), st2.push((nb, 0usize)), path.push(nb))
                } else if color[nb as int] == 1 {
                    let r = cdfs(adj, color, st2, path);
                    (seq![path.subrange(pos_in(path, nb), path.len() as int)] + r.0, r.1)
                } else {
                    cdfs(adj, color, st2, path)
                }
            } else {
                cdfs(adj, color.update(node as int, 2), rest, path.drop_last())
            }
        }),
{
}

/// The cycles that the searches from the white nodes from `s` on report,
/// in order, each search starting with the colours the one before left.
pub open spec fn cdfs_from(adj: Seq<Seq<usize>>, s: int, color: Seq<u8>) -> Seq<Seq<usize>>
    decreases adj.len() - s,
{
    if s < 0 || s >= adj.len() || color.len() != adj.len() {
        seq![]
    } else if color[s] != 0 {
        cdfs_from(adj, s + 1, color)
    } else {
        let r = cdfs(adj, color.update(s, 1), seq![(s as usize, 0usize)], seq![s as usize]);
        r.0 + cdfs_from(adj, s + 1, r.1)
    }
}

/// The cycles that the search of the whole graph reports, in order.
pub open spec fn all_cycles(adj: Seq<Seq<usize>>) -> Seq<Seq<usize>> {
    cdfs_from(adj, 0, Seq::new(adj.len(), |i: int| 0u8))
}

pub open spec fn cycles_view(v: Seq<Vec<usize>>) -> Seq<Seq<usize>> {
    v.map_values(|c: Vec<usize>| c@)
}

/// Decreasing finishing ranks along a chain.
proof fn lemma_rank_chain(adj: Seq<Seq<usize>>, fin: Seq<int>, c: Seq<usize>, j: int)
    requires
        0 <= j < c.len(),
        forall|k: int| 0 <= k < c.len() ==> (#[trigger] c[k]) < fin.len(),
        forall|k: int|
            0 <= k < c.len() - 1 ==> fin[#[trigger] c[k + 1] as int] < fin[c[k] as int],
    ensures
        fin[c[j] as int] <= fin[c[0] as int],
        j > 0 ==> fin[c[j] as int] < fin[c[0] as int],
    decreases j,
{
    if j > 0 {
        lemma_rank_chain(adj, fin, c, j - 1);
        let k = j - 1;
        assert(fin[c[k + 1] as int] < fin[c[k] as int]);
    }
}

/// A graph in which every edge goes to a node of smaller rank has no cycle.
proof fn lemma_ranked_acyclic(adj: Seq<Seq<usize>>, fin: Seq<int>)
    requires
        fin.len() == adj.len(),
        adj_wf(adj),
        forall|u: int, q: int|
            0 <= u < adj.len() && 0 <= q < adj[u].len() ==> fin[#[trigger] adj[u][q] as int]
                < fin[u],
    ensures
        acyclic(adj),
{
    assert forall|c: Seq<usize>| !is_cycle(adj, c) by {
        if is_cycle(adj, c) {
            assert forall|k: int| 0 <= k < c.len() implies (#[trigger] c[k]) < fin.len() by {
                if k < c.len() - 1 {
                    assert(edge(adj, c[k] as int, c[k + 1] as int));
                } else {
                    assert(edge(adj, c.last() as int, c[0] as int));
                }
            }
            assert forall|k: int| 0 <= k < c.len() - 1 implies fin[#[trigger] c[k + 1] as int]
                < fin[c[k] as int] by {
                assert(edge(adj, c[k] as int, c[k + 1] as int));
                let q = choose|q: int| 0 <= q < adj[c[k] as int].len() && adj[c[k] as int][q] == c[k + 1];
                assert(fin[adj[c[k] as int][q] as int] < fin[c[k] as int]);
            }
            lemma_rank_chain(adj, fin, c, c.len() - 1);
            let l = c.last();
            assert(edge(adj, l as int, c[0] as int));
            let q = choose|q: int| 0 <= q < adj[l as int].len() && adj[l as int][q] == c[0];
            assert(fin[adj[l as int][q] as int] < fin[l as int]);
        }
    }
}

/// Searches the graph depth first, from each node in index order that has
/// not been reached yet, examining neighbours in list order, and returns
/// the cycle closed by each edge that leads back to a node on the current
/// search path: the path from that node on.
///
/// Every returned sequence is a cycle, and none is returned exactly when
/// the graph has no cycle.
#[verifier::rlimit(40)]
pub fn find_cycles(adj: &Vec<Vec<usize>>) -> (r: Vec<Vec<usize>>)
    requires
        adj_wf(adj_view(adj@)),
    ensures
        forall|k: int| 0 <= k < r@.len() ==> is_cycle(adj_view(adj@), #[trigger] r@[k]@),
        forall|k: int| 0 <= k < r@.len() ==> (#[trigger] r@[k])@.no_duplicates(),
        r@.len() == 0 <==> acyclic(adj_view(adj@)),
        cycles_view(r@) == all_cycles(adj_view(adj@)),
{
    let ghost g = adj_view(adj@);
    let n = adj.len();
    let mut color: Vec<u8> = Vec::new();
    let mut i: usize = 0;
    while i < n
        invariant
            i <= n,
            color@.len() == i,
            forall|v: int| 0 <= v < i ==> color@[v] == 0,
        decreases n - i,
    {
        color.push(0);
        i = i + 1;
    }
    let mut cycles: Vec<Vec<usize>> = Vec::new();
    let ghost target = all_cycles(g);
    proof {
        assert(color@ =~= Seq::new(g.len(), |i: int| 0u8));
        assert(cycles_view(cycles@) =~= Seq::<Seq<usize>>::empty());
        assert(cycles_view(cycles@) + cdfs_from(g, 0, color@) =~= target);
        assert forall|u: int| 0 <= u < g.len() implies #[trigger] g[u].len() <= usize::MAX by {
            assert(g[u] == adj@[u]@);
            assert(adj@[u].len() == adj@[u]@.len());
        }
    }
    let ghost mut fin: Seq<int> = Seq::new(n as nat, |v: int| 0);
    let ghost mut t: int = 0;
    let mut s: usize = 0;
    while s < n
        invariant
            g == adj_view(adj@),
            adj_wf(g),
            n == g.len(),
            s <= n,
            color@.len() == n,
            fin.len() == n,
            forall|v: int| 0 <= v < n ==> color@[v] == 0 || color@[v] == 2,
            forall|v: int| 0 <= v < s ==> color@[v] == 2,
            forall|k: int| 0 <= k < cycles@.len() ==> is_cycle(g, #[trigger] cycles@[k]@),
            cycles@.len() == 0 ==> forall|u: int, q: int|
                0 <= u < n && color@[u] == 2 && 0 <= q < g[u].len() ==> color@[#[trigger] g[u][q] as int]
                    == 2 && fin[g[u][q] as int] < fin[u],
            forall|u: int| 0 <= u < n && color@[u] == 2 ==> fin[u] < t,
            lists_fit(g),
            target == all_cycles(g),
            cycles_view(cycles@) + cdfs_from(g, s as int, color@) == target,
            forall|k: int| 0 <= k < cycles@.len() ==> (#[trigger] cycles@[k])@.no_duplicates(),
        decreases n - s,
    {
        let ghost color0 = color@;
        if color[s] == 0 {
            proof {
                lemma_count_white_update(color@, s as int, 1);
            }
            color.set(s, 1);
            let mut stack: Vec<(usize, usize)> = Vec::new();
            let mut path: Vec<usize> = Vec::new();
            stack.push((s, 0));
            path.push(s);
            proof {
                assert forall|v: int| 0 <= v < n && color@[v] == 1 implies path@.contains(v as usize) by {
                    assert(v == s);
                    assert(path@[0] == s);
                }
                assert(stack@ =~= seq![(s, 0usize)]);
                assert(path@ =~= seq![s]);
                assert(color@ == color0.update(s as int, 1));
            }
            while stack.len() > 0
                invariant
                    g == adj_view(adj@),
                    adj_wf(g),
                    n == g.len(),
                    s < n,
                    color@.len() == n,
                    fin.len() == n,
                    forall|v: int| 0 <= v < n ==> color@[v] <= 2,
                    forall|v: int| 0 <= v < s ==> color@[v] == 2,
                    color@[s as int] != 0,
                    path@.len() == stack@.len(),
                    forall|k: int| 0 <= k < stack@.len() ==> (#[trigger] stack@[k]).0 == path@[k],
                    forall|k: int|
                        0 <= k < stack@.len() ==> (#[trigger] stack@[k]).0 < n && stack@[k].1
                            <= g[stack@[k].0 as int].len(),
                    forall|k: int| 0 <= k < path@.len() ==> color@[#[trigger] path@[k] as int] == 1,
                    path@.no_duplicates(),
                    forall|v: int| 0 <= v < n && color@[v] == 1 ==> path@.contains(v as usize),
                    forall|k: int|
                        0 <= k < path@.len() - 1 ==> edge(g, #[trigger] path@[k] as int, path@[k + 1] as int),
                    forall|k: int| 0 <= k < cycles@.len() ==> is_cycle(g, #[trigger] cycles@[k]@),
                    cycles@.len() == 0 ==> forall|k: int, q: int|
                        #![trigger stack@[k], g[stack@[k].0 as int][q]]
                        0 <= k < stack@.len() && 0 <= q < stack@[k].1 ==> {
                            let w = g[stack@[k].0 as int][q];
                            color@[w as int] == 2 || (k + 1 < stack@.len() && q == stack@[k].1 - 1
                                && w == stack@[k + 1].0)
                        },
                    cycles@.len() == 0 ==> forall|u: int, q: int|
                        0 <= u < n && color@[u] == 2 && 0 <= q < g[u].len() ==> color@[#[trigger] g[u][q] as int]
                            == 2 && fin[g[u][q] as int] < fin[u],
                    forall|u: int| 0 <= u < n && color@[u] == 2 ==> fin[u] < t,
                    lists_fit(g),
                    target == all_cycles(g),
                    cycles_view(cycles@) + cdfs(g, color@, stack@, path@).0 + cdfs_from(
                        g,
                        s + 1,
                        cdfs(g, color@, stack@, path@).1,
                    ) == target,
                    forall|k: int| 0 <= k < cycles@.len() ==> (#[trigger] cycles@[k])@.no_duplicates(),
                decreases count_white(color@), remaining(g, stack@), stack@.len(),
            {
                proof {
                    assert forall|k: int| 0 <= k < stack@.len() implies (#[trigger] stack@[k]).0 < g.len()
                        && stack@[k].1 <= g[stack@[k].0 as int].len() && color@[stack@[k].0 as int] != 0 by {
                        assert(color@[path@[k] as int] == 1);
                    }
                    lemma_cdfs_step(g, color@, stack@, path@);
                }
                let ghost before = cdfs(g, color@, stack@, path@);
                let ghost cycles0 = cycles_view(cycles@);
                let ghost old_stack = stack@;
                let ghost old_path = path@;
                let ghost old_color = color@;
                let (node, next_idx) = stack.pop().unwrap();
                assert(old_stack =~= stack@.push((node, next_idx)));
                let neighbors = &adj[node];
                if next_idx < neighbors.len() {
                    stack.push((node, next_idx + 1));
                    let neighbor = neighbors[next_idx];
                    assert(g[node as int][next_idx as int] == neighbor);
                    if color[neighbor] == 0 {
                        proof {
                            lemma_count_white_update(color@, neighbor as int, 1);
                        }
                        color.set(neighbor, 1);
                        stack.push((neighbor, 0));
                        path.push(neighbor);
                        proof {
                            assert(!old_path.contains(neighbor)) by {
                                if old_path.contains(neighbor) {
                                    let k = choose|k: int| 0 <= k < old_path.len() && old_path[k] == neighbor;
                                    assert(old_color[old_path[k] as int] == 1);
                                }
                            }
                            assert(path@ =~= old_path.push(neighbor));
                            assert(edge(g, node as int, neighbor as int));
                            assert forall|v: int| 0 <= v < n && color@[v] == 1 implies path@.contains(v as usize) by {
                                if v != neighbor {
                                    assert(old_path.contains(v as usize));
                                    let k = choose|k: int| 0 <= k < old_path.len() && old_path[k] == v as usize;
                                    assert(path@[k] == v as usize);
                                } else {
                                    assert(path@[path@.len() - 1] == v as usize);
                                }
                            }
                        }
                    } else if color[neighbor] == 1 {
                        // Back edge: the path from the neighbour on is a cycle.
                        let mut pos: usize = 0;
                        while pos < path.len() && path[pos] != neighbor
                            invariant
                                pos <= path@.len(),
                                path@.contains(neighbor),
                                forall|k: int| 0 <= k < pos ==> path@[k] != neighbor,
                            decreases path@.len() - pos,
                        {
                            pos = pos + 1;
                        }
                        proof {
                            if pos >= path@.len() {
                                let k = choose|k: int| 0 <= k < path@.len() && path@[k] == neighbor;
                                assert(path@[k] != neighbor);
                            }
                        }
                        let mut cycle: Vec<usize> = Vec::new();
                        let mut j = pos;
                        while j < path.len()
                            invariant
                                pos <= j <= path@.len(),
                                cycle@ == path@.subrange(pos as int, j as int),
                            decreases path@.len() - j,
                        {
                            cycle.push(path[j]);
                            j = j + 1;
                            assert(cycle@ =~= path@.subrange(pos as int, j as int));
                        }
                        proof {
                            let c = cycle@;
                            assert forall|j: int| 0 <= j < c.len() - 1 implies edge(g, #[trigger] c[j] as int, c[j + 1] as int) by {
                                assert(c[j] == path@[pos + j]);
                                assert(c[j + 1] == path@[pos + j + 1]);
                            }
                            assert(path@.last() == node);
                            assert(edge(g, node as int, neighbor as int));
                            lemma_pos_in(path@, neighbor, pos as int);
                            assert(c.no_duplicates()) by {
                                assert forall|a: int, b: int| 0 <= a < b < c.len() implies c[a] != c[b] by {
                                    assert(c[a] == path@[pos + a] && c[b] == path@[pos + b]);
                                }
                            }
                        }
                        let ghost cyc = cycle@;
                        cycles.push(cycle);
                        proof {
                            assert(cycles_view(cycles@) =~= cycles0.push(cyc));
                        }
                    }
                    proof {
                        let mid = old_stack.drop_last().push((node, (next_idx + 1) as usize));
                        assert(mid.drop_last() =~= old_stack.drop_last());
                        assert(remaining(g, mid) < remaining(g, old_stack));
                        if color@ =~= old_color {
                            assert(stack@ =~= mid);
                        }
                    }
                } else {
                    proof {
                        lemma_count_white_update_nonwhite(color@, node as int, 2);
                        fin = fin.update(node as int, t);
                        t = t + 1;
                    }
                    color.set(node, 2);
                    path.pop();
                    proof {
                        assert(path@ =~= old_path.drop_last());
                        assert(remaining(g, old_stack) == remaining(g, stack@));
                        assert forall|k: int| 0 <= k < path@.len() implies color@[#[trigger] path@[k] as int] == 1 by {
                            assert(old_path[k] != old_path[old_path.len() - 1]);
                        }
                        assert forall|v: int| 0 <= v < n && color@[v] == 1 implies path@.contains(v as usize) by {
                            assert(old_path.contains(v as usize));
                            let k = choose|k: int| 0 <= k < old_path.len() && old_path[k] == v as usize;
                            if k == old_path.len() - 1 {
                                assert(v == node);
                            } else {
                                assert(path@[k] == v as usize);
                            }
                        }
                    }
                }
            }
        }
        s = s + 1;
    }
    proof {
        if cycles@.len() == 0 {
            lemma_ranked_acyclic(g, fin);
        } else {
            assert(is_cycle(g, cycles@[0]@));
        }
    }
    cycles
}

} // verus!
