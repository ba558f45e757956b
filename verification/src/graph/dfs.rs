//! The depth-first cycle search of the graph: what it does, step by step,
//! and what it keeps true (every node that it has left behind reaches no
//! dependency cycle).
use crate::graph::index_map::key_pos;
use crate::graph::node::{adj_cycle, adj_dep_edge, adj_step, dep_path, graph_names, names_of};
use crate::parser::ast::{EntityView, RelationshipType};
use crate::validator::rules::is_dependency;
use vstd::prelude::*;

verus! {

broadcast use vstd::seq_lib::group_seq_properties;

pub type Adjacency = Seq<(Seq<char>, Seq<(Seq<char>, RelationshipType)>)>;

/// A search frame: an id, and the path from the search's start to it.
pub type FrameView = (Seq<char>, Seq<Seq<char>>);

/// A cycle of ids, and the type of the edge that closes it.
pub type CycleView = (Seq<Seq<char>>, RelationshipType);

/// How many ids of `univ` are not explored (counted with repetition).
pub open spec fn count_unexplored(univ: Seq<Seq<char>>, explored: Seq<Seq<char>>) -> nat
    decreases univ.len(),
{
    if univ.len() == 0 {
        0
    } else {
        count_unexplored(univ.drop_last(), explored) + if explored.contains(univ.last()) {
            0nat
        } else {
            1nat
        }
    }
}

pub proof fn lemma_count_unexplored(univ: Seq<Seq<char>>, explored: Seq<Seq<char>>, x: Seq<char>)
    requires
        !explored.contains(x),
    ensures
        count_unexplored(univ, explored.push(x)) <= count_unexplored(univ, explored),
        univ.contains(x) ==> count_unexplored(univ, explored.push(x)) < count_unexplored(
            univ,
            explored,
        ),
    decreases univ.len(),
{
    if univ.len() > 0 {
        lemma_count_unexplored(univ.drop_last(), explored, x);
        assert forall|y: Seq<char>| explored.push(x).contains(y) == (explored.contains(y) || y == x) by {
            if explored.push(x).contains(y) {
                let k = choose|k: int| 0 <= k < explored.push(x).len() && explored.push(x)[k] == y;
                if k < explored.len() {
                    assert(explored[k] == y);
                }
            }
            if explored.contains(y) {
                let k = choose|k: int| 0 <= k < explored.len() && explored[k] == y;
                assert(explored.push(x)[k] == y);
            }
            if y == x {
                assert(explored.push(x)[explored.len() as int] == y);
            }
        }
        if univ.contains(x) && univ.last() != x {
            let k = choose|k: int| 0 <= k < univ.len() && univ[k] == x;
            assert(univ.drop_last()[k] == x);
        }
    }
}

/// How many of the frame ids are explored.
pub open spec fn count_explored_frames(frames: Seq<Seq<char>>, explored: Seq<Seq<char>>) -> nat
    decreases frames.len(),
{
    if frames.len() == 0 {
        0
    } else {
        count_explored_frames(frames.drop_last(), explored) + if explored.contains(frames.last()) {
            1nat
        } else {
            0nat
        }
    }
}

pub proof fn lemma_count_frames_push(s: Seq<Seq<char>>, e: Seq<Seq<char>>, x: Seq<char>)
    ensures
        count_explored_frames(s.push(x), e) == count_explored_frames(s, e) + if e.contains(x) {
            1nat
        } else {
            0nat
        },
{
    assert(s.push(x).drop_last() =~= s);
}

pub proof fn lemma_count_frames_new(s: Seq<Seq<char>>, base: int, e: Seq<Seq<char>>)
    requires
        0 <= base <= s.len(),
        forall|k: int| base <= k < s.len() ==> !e.contains(#[trigger] s[k]),
    ensures
        count_explored_frames(s, e) == count_explored_frames(s.subrange(0, base), e),
    decreases s.len() - base,
{
    if s.len() > base {
        lemma_count_frames_new(s.drop_last(), base, e);
        assert(s.drop_last().subrange(0, base) =~= s.subrange(0, base));
    } else {
        assert(s.subrange(0, base) =~= s);
    }
}

pub proof fn lemma_count_frames_monotone(s: Seq<Seq<char>>, e: Seq<Seq<char>>, x: Seq<char>)
    ensures
        count_explored_frames(s, e) <= count_explored_frames(s, e.push(x)),
    decreases s.len(),
{
    if s.len() > 0 {
        lemma_count_frames_monotone(s.drop_last(), e, x);
        if e.contains(s.last()) {
            let k = choose|k: int| 0 <= k < e.len() && e[k] == s.last();
            assert(e.push(x)[k] == s.last());
        }
    }
}


/// The adjacency list stored under `x`; empty when there is none.
pub open spec fn adj_list(adj: Adjacency, x: Seq<char>) -> Seq<(Seq<char>, RelationshipType)> {
    if key_pos(adj, x) >= 0 {
        adj[key_pos(adj, x)].1
    } else {
        seq![]
    }
}

/// The position of the first `x` in `s`.
pub open spec fn first_pos(s: Seq<Seq<char>>, x: Seq<char>) -> int
    decreases s.len(),
{
    if s.len() == 0 || s[0] == x {
        0
    } else {
        1 + first_pos(s.drop_first(), x)
    }
}

pub proof fn lemma_first_pos(s: Seq<Seq<char>>, x: Seq<char>, i: int)
    requires
        0 <= i < s.len(),
        s[i] == x,
        forall|k: int| 0 <= k < i ==> s[k] != x,
    ensures
        first_pos(s, x) == i,
    decreases i,
{
    if i > 0 {
        assert forall|k: int| 0 <= k < i - 1 implies s.drop_first()[k] != x by {
            assert(s.drop_first()[k] == s[k + 1]);
        }
        lemma_first_pos(s.drop_first(), x, i - 1);
    }
}

/// Expanding a frame whose path is `path`, over the adjacency list `list`
/// of its id, with the ids `explored` done: a frame for each dependency
/// target that is not explored, in list order, with `path` and the target
/// as its path; or, at the first dependency target that is on `path`
/// already, the cycle from its first place on `path` on, closed by that
/// edge.
pub open spec fn expand(
    list: Seq<(Seq<char>, RelationshipType)>,
    path: Seq<Seq<char>>,
    explored: Seq<Seq<char>>,
) -> Result<Seq<FrameView>, CycleView>
    decreases list.len(),
{
    if list.len() == 0 {
        Ok(seq![])
    } else {
        match expand(list.drop_last(), path, explored) {
            Err(c) => Err(c),
            Ok(fr) => {
                let to = list.last().0;
                let t = list.last().1;
                if !is_dependency(t) {
                    Ok(fr)
                } else if path.contains(to) {
                    Err((path.subrange(first_pos(path, to), path.len() as int), t))
                } else if explored.contains(to) {
                    Ok(fr)
                } else {
                    Ok(fr.push((to, path.push(to))))
                }
            },
        }
    }
}

/// Once expanding a prefix of a list meets a cycle, expanding the whole
/// list meets the same cycle.
pub proof fn lemma_expand_err_rest(
    list: Seq<(Seq<char>, RelationshipType)>,
    n: int,
    path: Seq<Seq<char>>,
    explored: Seq<Seq<char>>,
)
    requires
        0 <= n <= list.len(),
        expand(list.take(n), path, explored) is Err,
    ensures
        expand(list, path, explored) == expand(list.take(n), path, explored),
    decreases list.len() - n,
{
    if n < list.len() {
        assert(list.take(n + 1).drop_last() =~= list.take(n));
        lemma_expand_err_rest(list, n + 1, path, explored);
    } else {
        assert(list.take(n) =~= list);
    }
}

/// The frames that `expand` gives hold ids that are not explored.
pub proof fn lemma_expand_fresh(
    list: Seq<(Seq<char>, RelationshipType)>,
    path: Seq<Seq<char>>,
    explored: Seq<Seq<char>>,
)
    ensures
        expand(list, path, explored) matches Ok(fr) ==> forall|k: int|
            0 <= k < fr.len() ==> !explored.contains(#[trigger] fr[k].0),
    decreases list.len(),
{
    if list.len() > 0 {
        lemma_expand_fresh(list.drop_last(), path, explored);
    }
}

pub open spec fn frame_ids(stack: Seq<FrameView>) -> Seq<Seq<char>> {
    stack.map_values(|f: FrameView| f.0)
}

/// Whether every frame of `stack` holds an id of `univ`.
pub open spec fn frames_in(univ: Seq<Seq<char>>, stack: Seq<FrameView>) -> bool {
    forall|k: int| 0 <= k < stack.len() ==> univ.contains(#[trigger] stack[k].0)
}

/// The ids explored once the id `x` is.
pub open spec fn explore(explored: Seq<Seq<char>>, x: Seq<char>) -> Seq<Seq<char>> {
    if explored.contains(x) {
        explored
    } else {
        explored.push(x)
    }
}

pub proof fn lemma_dfs_step_decreases(
    univ: Seq<Seq<char>>,
    explored: Seq<Seq<char>>,
    stack: Seq<FrameView>,
    fr: Seq<FrameView>,
)
    requires
        stack.len() > 0,
        univ.contains(stack.last().0),
        forall|k: int| 0 <= k < fr.len() ==> !explored.contains(#[trigger] fr[k].0),
    ensures
        ({
            let ex2 = explore(explored, stack.last().0);
            let before = count_explored_frames(frame_ids(stack), explored);
            let after = count_explored_frames(frame_ids(stack.drop_last() + fr), ex2);
            ||| count_unexplored(univ, ex2) < count_unexplored(univ, explored)
            ||| (count_unexplored(univ, ex2) == count_unexplored(univ, explored) && after < before)
        }),
{
    let cur = stack.last().0;
    let rest = stack.drop_last();
    if !explored.contains(cur) {
        lemma_count_unexplored(univ, explored, cur);
    } else {
        let ids = frame_ids(rest + fr);
        assert forall|k: int| rest.len() <= k < ids.len() implies !explored.contains(#[trigger] ids[k]) by {
            assert(ids[k] == fr[k - rest.len()].0);
        }
        lemma_count_frames_new(ids, rest.len() as int, explored);
        assert(ids.subrange(0, rest.len() as int) =~= frame_ids(rest));
        assert(frame_ids(stack) =~= frame_ids(rest).push(cur));
        lemma_count_frames_push(frame_ids(rest), explored, cur);
    }
}

/// The outcome of the depth-first search with the frames `stack` still to
/// expand, the last first, and the ids `explored` done: the ids explored
/// in the end, or the first cycle met. Expanding a frame replaces it with
/// the frames of [`expand`] and marks its id explored.
pub open spec fn dfs(
    adj: Adjacency,
    univ: Seq<Seq<char>>,
    explored: Seq<Seq<char>>,
    stack: Seq<FrameView>,
) -> Result<Seq<Seq<char>>, CycleView>
    decreases count_unexplored(univ, explored), count_explored_frames(frame_ids(stack), explored)
    when frames_in(univ, stack)
{
    if stack.len() == 0 {
        Ok(explored)
    } else {
        let cur = stack.last().0;
        match expand(adj_list(adj, cur), stack.last().1, explored) {
            Err(c) => Err(c),
            Ok(fr) => {
                proof {
                    assert(univ.contains(stack[stack.len() - 1].0));
                    lemma_expand_fresh(adj_list(adj, cur), stack.last().1, explored);
                    lemma_dfs_step_decreases(univ, explored, stack, fr);
                }
                dfs(adj, univ, explore(explored, cur), stack.drop_last() + fr)
            },
        }
    }
}

/// The outcome of the searches from each of `keys` from `si` on, in order,
/// skipping the ids explored already: no cycle, or the first cycle met.
pub open spec fn dfs_from(
    adj: Adjacency,
    univ: Seq<Seq<char>>,
    keys: Seq<Seq<char>>,
    si: int,
    explored: Seq<Seq<char>>,
) -> Result<(), CycleView>
    decreases keys.len() - si,
{
    if si < 0 || si >= keys.len() {
        Ok(())
    } else if explored.contains(keys[si]) {
        dfs_from(adj, univ, keys, si + 1, explored)
    } else {
        match dfs(adj, univ, explored, seq![(keys[si], seq![keys[si]])]) {
            Err(c) => Err(c),
            Ok(ex) => dfs_from(adj, univ, keys, si + 1, ex),
        }
    }
}

/// The outcome of the searches from `keys[si + 1..]`, after a search from
/// `keys[si]` with outcome `r`.
pub open spec fn then_from(
    adj: Adjacency,
    univ: Seq<Seq<char>>,
    keys: Seq<Seq<char>>,
    si: int,
    r: Result<Seq<Seq<char>>, CycleView>,
) -> Result<(), CycleView> {
    match r {
        Err(c) => Err(c),
        Ok(ex) => dfs_from(adj, univ, keys, si + 1, ex),
    }
}

/// What the cycle search of a graph finds: a depth-first search from each
/// node key in turn, over the dependency entries of the adjacency lists.
pub open spec fn cycle_search(nodes: Seq<(Seq<char>, EntityView)>, adj: Adjacency) -> Result<(), CycleView> {
    dfs_from(adj, graph_names(nodes, adj), nodes.map_values(|e: (Seq<char>, EntityView)| e.0), 0, seq![])
}

/// Whether no dependency walk from `x` visits an id twice, so that no
/// dependency cycle can be reached from `x`.
pub open spec fn cycle_free_from(adj: Adjacency, x: Seq<char>) -> bool {
    forall|p: Seq<Seq<char>>| #![trigger dep_path(adj, p)] dep_path(adj, p) && p[0] == x ==> p.no_duplicates()
}

/// Whether `p` is a prefix of `s`.
pub open spec fn prefix_of(p: Seq<Seq<char>>, s: Seq<Seq<char>>) -> bool {
    p.len() <= s.len() && s.take(p.len() as int) == p
}

/// Whether every frame's path, without its last id, is a prefix of the
/// spine (the path of the frame expanded last).
pub open spec fn stack_on_spine(stack: Seq<(String, Vec<String>)>, spine: Seq<Seq<char>>) -> bool {
    forall|k: int|
        0 <= k < stack.len() ==> {
            let p = names_of((#[trigger] stack[k]).1@);
            p.len() >= 1 && prefix_of(p.drop_last(), spine)
        }
}

/// Whether the frames' paths grow (weakly) from the bottom of the stack to
/// its top.
pub open spec fn stack_sorted(stack: Seq<(String, Vec<String>)>) -> bool {
    forall|k1: int, k2: int|
        0 <= k1 < k2 < stack.len() ==> names_of((#[trigger] stack[k1]).1@).len() <= names_of(
            (#[trigger] stack[k2]).1@,
        ).len()
}

/// Whether each dependency successor of the spine's id at `i` is cycle
/// free, waits on the stack as a child of that id, or lies deeper on the
/// spine.
pub open spec fn expanded(adj: Adjacency, spine: Seq<Seq<char>>, stack: Seq<(String, Vec<String>)>, i: int) -> bool {
    forall|y: Seq<char>|
        #[trigger] adj_step(adj, spine[i], y) ==> {
            ||| cycle_free_from(adj, y)
            ||| exists|k: int|
                0 <= k < stack.len() && (#[trigger] stack[k]).0@ == y && names_of(stack[k].1@) == spine.take(i + 1).push(y)
            ||| exists|j: int| i < j < spine.len() && #[trigger] spine[j] == y
        }
}

pub open spec fn spine_ok(adj: Adjacency, spine: Seq<Seq<char>>, stack: Seq<(String, Vec<String>)>) -> bool {
    forall|i: int| 0 <= i < spine.len() ==> #[trigger] expanded(adj, spine, stack, i)
}

/// Whether every explored id is cycle free or on the spine.
pub open spec fn explored_ok(adj: Adjacency, explored: Seq<Seq<char>>, spine: Seq<Seq<char>>) -> bool {
    forall|y: Seq<char>| #[trigger] explored.contains(y) ==> cycle_free_from(adj, y) || spine.contains(y)
}

/// An id whose dependency successors are all cycle free is cycle free.
pub proof fn lemma_successors_free(adj: Adjacency, x: Seq<char>)
    requires
        forall|y: Seq<char>| #[trigger] adj_step(adj, x, y) ==> cycle_free_from(adj, y),
    ensures
        cycle_free_from(adj, x),
{
    assert forall|p: Seq<Seq<char>>| #![trigger dep_path(adj, p)] dep_path(adj, p) && p[0] == x implies p.no_duplicates() by {
        if p.len() > 1 {
            let y = p[1];
            assert(adj_step(adj, p[0], p[1]));
            let q = p.drop_first();
            assert(dep_path(adj, q)) by {
                assert forall|j: int| 0 <= j < q.len() - 1 implies adj_step(adj, #[trigger] q[j], q[j + 1]) by {
                    assert(q[j] == p[j + 1] && q[j + 1] == p[j + 2]);
                }
            }
            assert(q.no_duplicates());
            assert forall|a: int, b: int| 0 <= a < p.len() && 0 <= b < p.len() && a != b implies p[a] != p[b] by {
                if a > 0 && b > 0 {
                    assert(p[a] == q[a - 1] && p[b] == q[b - 1]);
                } else {
                    let j = if a == 0 { b } else { a };
                    if p[j] == x {
                        // y .. x, then back to y: a walk from y that repeats y
                        let w = p.subrange(1, j + 1).push(y);
                        assert(dep_path(adj, w)) by {
                            assert forall|t: int| 0 <= t < w.len() - 1 implies adj_step(adj, #[trigger] w[t], w[t + 1]) by {
                                if t < j - 1 {
                                    assert(w[t] == p[t + 1] && w[t + 1] == p[t + 2]);
                                } else {
                                    assert(w[t] == p[j]);
                                    assert(w[t + 1] == y);
                                }
                            }
                        }
                        assert(w[0] == y);
                        assert(w[w.len() - 1] == y);
                        assert(!w.no_duplicates());
                    }
                }
            }
        }
    }
}

/// The spine's ids from `j` on are cycle free when no frame on the stack
/// is longer than `m + 1` and `m <= j`.
pub proof fn lemma_spine_tail_free(
    adj: Adjacency,
    spine: Seq<Seq<char>>,
    stack: Seq<(String, Vec<String>)>,
    m: int,
    j: int,
)
    requires
        spine_ok(adj, spine, stack),
        0 <= m <= j,
        forall|k: int| 0 <= k < stack.len() ==> names_of((#[trigger] stack[k]).1@).len() <= m + 1,
    ensures
        forall|t: int| j <= t < spine.len() ==> cycle_free_from(adj, #[trigger] spine[t]),
    decreases spine.len() - j,
{
    if j < spine.len() {
        lemma_spine_tail_free(adj, spine, stack, m, j + 1);
        assert(expanded(adj, spine, stack, j));
        assert forall|y: Seq<char>| #[trigger] adj_step(adj, spine[j], y) implies cycle_free_from(adj, y) by {
            if exists|k: int|
                0 <= k < stack.len() && (#[trigger] stack[k]).0@ == y && names_of(stack[k].1@) == spine.take(j + 1).push(y) {
                let k = choose|k: int|
                    0 <= k < stack.len() && (#[trigger] stack[k]).0@ == y && names_of(stack[k].1@) == spine.take(j + 1).push(y);
                assert(names_of(stack[k].1@).len() == j + 2);
            }
            if exists|jj: int| j < jj < spine.len() && #[trigger] spine[jj] == y {
                let jj = choose|jj: int| j < jj < spine.len() && #[trigger] spine[jj] == y;
                assert(cycle_free_from(adj, spine[jj]));
            }
        }
        lemma_successors_free(adj, spine[j]);
    }
}

/// From a dependency cycle's first id a walk repeats it.
pub proof fn lemma_cycle_not_free(adj: Adjacency, c: Seq<Seq<char>>, t: RelationshipType)
    requires
        adj_cycle(adj, c, t),
    ensures
        !cycle_free_from(adj, c[0]),
{
    let w = c.push(c[0]);
    assert(dep_path(adj, w)) by {
        assert forall|j: int| 0 <= j < w.len() - 1 implies adj_step(adj, #[trigger] w[j], w[j + 1]) by {
            if j < c.len() - 1 {
                assert(w[j] == c[j] && w[j + 1] == c[j + 1]);
            } else {
                assert(w[j] == c.last() && w[j + 1] == c[0]);
                assert(adj_dep_edge(adj, c.last(), c[0], t));
            }
        }
    }
    assert(w[0] == c[0] && w[c.len() as int] == c[0]);
    assert(!w.no_duplicates());
}

/// Expanding the top frame keeps the search's invariants, with the
/// frame's path as the new spine: the ids that leave the spine are cycle
/// free, and the frames pushed for the expanded id's successors extend its
/// path.
pub proof fn lemma_expand_step(
    adj: Adjacency,
    spine: Seq<Seq<char>>,
    before: Seq<(String, Vec<String>)>,
    after: Seq<(String, Vec<String>)>,
    explored: Seq<Seq<char>>,
)
    requires
        before.len() >= 1,
        stack_on_spine(before, spine),
        stack_sorted(before),
        spine_ok(adj, spine, before),
        explored_ok(adj, explored, spine),
        after.len() >= before.len() - 1,
        after.subrange(0, before.len() - 1) == before.drop_last(),
        forall|k: int|
            before.len() - 1 <= k < after.len() ==> names_of((#[trigger] after[k]).1@) == names_of(
                before.last().1@,
            ).push(after[k].0@),
        forall|y: Seq<char>|
            #[trigger] adj_step(adj, names_of(before.last().1@).last(), y) ==> !names_of(before.last().1@).contains(y)
                && (explored.contains(y) || exists|k: int|
                before.len() - 1 <= k < after.len() && (#[trigger] after[k]).0@ == y),
    ensures
        stack_on_spine(after, names_of(before.last().1@)),
        stack_sorted(after),
        spine_ok(adj, names_of(before.last().1@), after),
        forall|y: Seq<char>|
            explored.contains(y) || y == names_of(before.last().1@).last() ==> cycle_free_from(adj, y)
                || #[trigger] names_of(before.last().1@).contains(y),
{
    let top = before.len() - 1;
    let p = names_of(before.last().1@);
    assert(before[top] == before.last());
    assert(p.len() >= 1 && prefix_of(p.drop_last(), spine));
    let m = p.len() - 1;
    assert(spine.take(m) == p.drop_last());
    assert forall|k: int| 0 <= k < before.len() implies names_of((#[trigger] before[k]).1@).len() <= m + 1 by {
        if k < top {
            assert(names_of(before[k].1@).len() <= names_of(before[top].1@).len());
        }
    }
    lemma_spine_tail_free(adj, spine, before, m, m);
    // ids at positions below m are shared
    assert forall|j: int| 0 <= j < m implies #[trigger] p[j] == spine[j] by {
        assert(p.drop_last()[j] == p[j]);
        assert(spine.take(m)[j] == spine[j]);
    }
    assert forall|k: int| 0 <= k < top implies #[trigger] after[k] == before[k] by {
        assert(after.subrange(0, top)[k] == after[k]);
        assert(before.drop_last()[k] == before[k]);
    }
    // the spine of the expanded frame
    assert forall|i: int| 0 <= i < p.len() implies #[trigger] expanded(adj, p, after, i) by {
        if i < m {
            assert(expanded(adj, spine, before, i));
            assert(p.take(i + 1) =~= spine.take(i + 1)) by {
                assert forall|t: int| 0 <= t < i + 1 implies #[trigger] p.take(i + 1)[t] == spine.take(i + 1)[t] by {
                    assert(p[t] == spine[t]);
                }
            }
            assert(p[i] == spine[i]);
            assert forall|y: Seq<char>| #[trigger] adj_step(adj, p[i], y) implies {
                ||| cycle_free_from(adj, y)
                ||| exists|k: int|
                    0 <= k < after.len() && (#[trigger] after[k]).0@ == y && names_of(after[k].1@) == p.take(i + 1).push(y)
                ||| exists|j: int| i < j < p.len() && #[trigger] p[j] == y
            } by {
                assert(adj_step(adj, spine[i], y));
                if !cycle_free_from(adj, y) {
                    if exists|k: int|
                        0 <= k < before.len() && (#[trigger] before[k]).0@ == y && names_of(before[k].1@) == spine.take(i + 1).push(y) {
                        let k = choose|k: int|
                            0 <= k < before.len() && (#[trigger] before[k]).0@ == y && names_of(before[k].1@) == spine.take(i + 1).push(y);
                        if k < top {
                            assert(after[k] == before[k]);
                        } else {
                            assert(p == spine.take(i + 1).push(y));
                            assert(p[m] == y);
                        }
                    } else {
                        let j = choose|j: int| i < j < spine.len() && #[trigger] spine[j] == y;
                        if j < m {
                            assert(p[j] == y);
                        } else {
                            assert(cycle_free_from(adj, spine[j]));
                        }
                    }
                }
            }
        } else {
            assert(p.take(i + 1) =~= p);
            assert(p[i] == p.last());
            assert forall|y: Seq<char>| #[trigger] adj_step(adj, p[i], y) implies {
                ||| cycle_free_from(adj, y)
                ||| exists|k: int|
                    0 <= k < after.len() && (#[trigger] after[k]).0@ == y && names_of(after[k].1@) == p.take(i + 1).push(y)
                ||| exists|j: int| i < j < p.len() && #[trigger] p[j] == y
            } by {
                assert(adj_step(adj, p.last(), y));
                if explored.contains(y) {
                    if !cycle_free_from(adj, y) {
                        let j = choose|j: int| 0 <= j < spine.len() && spine[j] == y;
                        if j < m {
                            assert(p[j] == y);
                            assert(p.contains(y));
                        } else {
                            assert(cycle_free_from(adj, spine[j]));
                        }
                    }
                } else {
                    let k = choose|k: int| before.len() - 1 <= k < after.len() && (#[trigger] after[k]).0@ == y;
                    assert(names_of(after[k].1@) == p.push(y));
                }
            }
        }
    }
    // frames stay on the new spine
    assert forall|k: int| 0 <= k < after.len() implies {
        let q = names_of((#[trigger] after[k]).1@);
        q.len() >= 1 && prefix_of(q.drop_last(), p)
    } by {
        let q = names_of(after[k].1@);
        if k < top {
            assert(after[k] == before[k]);
            assert(q.len() <= m + 1);
            assert(prefix_of(q.drop_last(), spine));
            let l = q.drop_last().len() as int;
            assert(p.take(l) =~= spine.take(l)) by {
                assert forall|t: int| 0 <= t < l implies #[trigger] p.take(l)[t] == spine.take(l)[t] by {
                    assert(p[t] == spine[t]);
                }
            }
        } else {
            assert(q == p.push(after[k].0@));
            assert(q.drop_last() =~= p);
            assert(p.take(p.len() as int) =~= p);
        }
    }
    assert forall|k1: int, k2: int| 0 <= k1 < k2 < after.len() implies names_of((#[trigger] after[k1]).1@).len()
        <= names_of((#[trigger] after[k2]).1@).len() by {
        if k2 < top {
            assert(after[k1] == before[k1] && after[k2] == before[k2]);
        } else if k1 < top {
            assert(after[k1] == before[k1]);
            assert(names_of(after[k2].1@) == p.push(after[k2].0@));
        } else {
            assert(names_of(after[k1].1@) == p.push(after[k1].0@));
            assert(names_of(after[k2].1@) == p.push(after[k2].0@));
        }
    }
    assert forall|y: Seq<char>|
        explored.contains(y) || y == p.last() implies cycle_free_from(adj, y) || #[trigger] p.contains(y) by {
        if y == p.last() {
            assert(p[m] == y);
        } else if !cycle_free_from(adj, y) {
            let j = choose|j: int| 0 <= j < spine.len() && spine[j] == y;
            if j < m {
                assert(p[j] == y);
            } else {
                assert(cycle_free_from(adj, spine[j]));
            }
        }
    }
}

} // verus!
