//! Static pointer checking: every engine pointer a script reads must have been
//! set on every path that reaches the read, and no intervening call may have
//! corrupted it.
use vstd::prelude::*;
use crate::bytecode::{CompiledScript, Instruction, Opcode, Operand};
use crate::lints::{
    branch_op, count_false, is_branch_op, lemma_count_false_update, next_real, next_real_from,
    terminal_op, usize_in,
};
use crate::pointer::{PointerHolder, PointerSet, PointerType, ptr_index, ptr_repr};
use crate::strings::{lowercase, push_str, str_eq, to_lowercase, to_owned_string};
use crate::strmap::StrMap;
use crate::symbol::{SymbolKind, SymbolRegistry};
use crate::diagnostics::{Applicability, Diagnostic, DiagnosticsCollector, Help, Phase, Severity, Suggestion};
use crate::lints::{cached_source, header_of, resolve_line};
use crate::diagnostic_messages::{
    filled, POINTER_CORRUPTED, POINTER_CORRUPTED_LOC, POINTER_READ_HERE, POINTER_REQUIRED_LOC,
    POINTER_STALE, POINTER_STALE_UNINIT, POINTER_SUPERSEDED_HERE, POINTER_UNINITIALIZED,
};
use crate::source_text::{
    call_site_rewrite, corruptors_clause, header_rewrite, line_at, line_count, nth_source_line,
    rewrite_call_site_arg, rewrite_header_add_param, short_name_spec, short_script_name,
};

verus! {

// ── Control-flow graph ─────────────────────────────────────────────────────

/// A node of a script's control-flow graph: the entry (node 0), one node per
/// instruction other than a line marker, and synthetic nodes where a
/// conditional command has set pointers.
struct CfgNode {
    /// The instruction of this node; `None` for synthetic nodes.
    instruction_index: Option<usize>,
    /// For a synthetic pointer node: the pointers it establishes.
    pointer_set: PointerSet,
    /// Successor nodes.
    next: Vec<usize>,
    /// Predecessor nodes.
    previous: Vec<usize>,
}

impl CfgNode {
    fn new(instruction_index: Option<usize>) -> (n: Self)
        ensures
            n.instruction_index == instruction_index,
            n.pointer_set@ == Set::<PointerType>::empty(),
            n.next@.len() == 0,
            n.previous@.len() == 0,
    {
        CfgNode {
            instruction_index,
            pointer_set: PointerSet::new(),
            next: Vec::new(),
            previous: Vec::new(),
        }
    }

    fn pointer_node(pointer_set: PointerSet) -> (n: Self)
        ensures
            n.instruction_index is None,
            n.pointer_set == pointer_set,
            n.next@.len() == 0,
            n.previous@.len() == 0,
    {
        CfgNode { instruction_index: None, pointer_set, next: Vec::new(), previous: Vec::new() }
    }
}

/// Whether every edge of `nodes` points at one of them.
spec fn edges_within(nodes: Seq<CfgNode>) -> bool {
    &&& forall|a: int, k: int|
        0 <= a < nodes.len() && 0 <= k < nodes[a].next@.len() ==> (#[trigger] nodes[a].next@[k])
            < nodes.len()
    &&& forall|a: int, k: int|
        0 <= a < nodes.len() && 0 <= k < nodes[a].previous@.len() ==> (
        #[trigger] nodes[a].previous@[k]) < nodes.len()
}

/// Whether `b` is a predecessor of node `a`.
spec fn pred_of(nodes: Seq<CfgNode>, a: int, b: int) -> bool {
    0 <= a < nodes.len() && 0 <= b && nodes[a].previous@.contains(b as usize)
}

/// Adds the edge `from -> to` unless it is already there.
fn add_edge(nodes: &mut Vec<CfgNode>, from: usize, to: usize)
    requires
        from < old(nodes)@.len(),
        to < old(nodes)@.len(),
        edges_within(old(nodes)@),
    ensures
        final(nodes)@.len() == old(nodes)@.len(),
        edges_within(final(nodes)@),
        forall|a: int|
            0 <= a < old(nodes)@.len() ==> (#[trigger] final(nodes)@[a]).instruction_index
                == old(nodes)@[a].instruction_index && final(nodes)@[a].pointer_set
                == old(nodes)@[a].pointer_set,
        forall|a: int|
            0 <= a < old(nodes)@.len() && a != from ==> (#[trigger] final(nodes)@[a]).next
                == old(nodes)@[a].next,
        forall|a: int|
            0 <= a < old(nodes)@.len() && a != to ==> (#[trigger] final(nodes)@[a]).previous
                == old(nodes)@[a].previous,
        final(nodes)@[from as int].next@ == if old(nodes)@[from as int].next@.contains(to) {
            old(nodes)@[from as int].next@
        } else {
            old(nodes)@[from as int].next@.push(to)
        },
        final(nodes)@[to as int].previous@ == if old(nodes)@[to as int].previous@.contains(from) {
            old(nodes)@[to as int].previous@
        } else {
            old(nodes)@[to as int].previous@.push(from)
        },
{
    if !usize_in(&nodes[from].next, to) {
        nodes[from].next.push(to);
    }
    if !usize_in(&nodes[to].previous, from) {
        nodes[to].previous.push(from);
    }
    proof {
        assert forall|a: int, k: int|
            0 <= a < nodes@.len() && 0 <= k < nodes@[a].next@.len() implies (
            #[trigger] nodes@[a].next@[k]) < nodes@.len() by {
            if a == from && k == old(nodes)@[a].next@.len() {
            } else {
                assert(nodes@[a].next@[k] == old(nodes)@[a].next@[k]);
            }
        }
        assert forall|a: int, k: int|
            0 <= a < nodes@.len() && 0 <= k < nodes@[a].previous@.len() implies (
            #[trigger] nodes@[a].previous@[k]) < nodes@.len() by {
            if a == to && k == old(nodes)@[a].previous@.len() {
            } else {
                assert(nodes@[a].previous@[k] == old(nodes)@[a].previous@[k]);
            }
        }
    }
}

/// `s` without the occurrences of `x`, in order.
spec fn drop_value(s: Seq<usize>, x: usize) -> Seq<usize>
    decreases s.len(),
{
    if s.len() == 0 {
        seq![]
    } else {
        let r = drop_value(s.drop_last(), x);
        if s.last() == x {
            r
        } else {
            r.push(s.last())
        }
    }
}

proof fn lemma_drop_value(s: Seq<usize>, x: usize)
    ensures
        forall|y: usize| #[trigger] drop_value(s, x).contains(y) <==> (s.contains(y) && y != x),
    decreases s.len(),
{
    if s.len() > 0 {
        lemma_drop_value(s.drop_last(), x);
        assert forall|y: usize| #[trigger] drop_value(s, x).contains(y) <==> (s.contains(y) && y != x) by {
            let r = drop_value(s.drop_last(), x);
            if s.contains(y) && y != x {
                let k = choose|k: int| 0 <= k < s.len() && s[k] == y;
                if k < s.len() - 1 {
                    assert(s.drop_last()[k] == y);
                    assert(r.contains(y));
                    if s.last() != x {
                        let j = choose|j: int| 0 <= j < r.len() && r[j] == y;
                        assert(r.push(s.last())[j] == y);
                    }
                } else if s.last() != x {
                    assert(r.push(s.last())[r.len() as int] == y);
                }
            }
            if drop_value(s, x).contains(y) {
                let j = choose|j: int| 0 <= j < drop_value(s, x).len() && drop_value(s, x)[j] == y;
                if s.last() != x && j == r.len() {
                    assert(s[s.len() - 1] == y);
                } else {
                    assert(r[j] == y);
                    assert(r.contains(y));
                    assert(s.drop_last().contains(y));
                    let k = choose|k: int| 0 <= k < s.drop_last().len() && s.drop_last()[k] == y;
                    assert(s[k] == y);
                }
            }
        }
    }
}

/// `v` without the occurrences of `x`, in order.
fn without(v: &Vec<usize>, x: usize) -> (r: Vec<usize>)
    ensures
        r@ == drop_value(v@, x),
        forall|y: usize| #[trigger] r@.contains(y) <==> (v@.contains(y) && y != x),
{
    let mut r: Vec<usize> = Vec::new();
    let mut i: usize = 0;
    while i < v.len()
        invariant
            i <= v@.len(),
            r@ == drop_value(v@.take(i as int), x),
        decreases v@.len() - i,
    {
        proof {
            assert(v@.take(i + 1).drop_last() == v@.take(i as int));
            assert(v@.take(i + 1).last() == v@[i as int]);
        }
        if v[i] != x {
            r.push(v[i]);
        }
        i += 1;
    }
    assert(v@.take(v@.len() as int) == v@);
    proof {
        lemma_drop_value(v@, x);
    }
    r
}

/// Removes the edge `from -> to`.
fn remove_edge(nodes: &mut Vec<CfgNode>, from: usize, to: usize)
    requires
        from < old(nodes)@.len(),
        to < old(nodes)@.len(),
        edges_within(old(nodes)@),
    ensures
        final(nodes)@.len() == old(nodes)@.len(),
        edges_within(final(nodes)@),
        forall|a: int|
            0 <= a < old(nodes)@.len() ==> (#[trigger] final(nodes)@[a]).instruction_index
                == old(nodes)@[a].instruction_index && final(nodes)@[a].pointer_set
                == old(nodes)@[a].pointer_set,
        forall|a: int|
            0 <= a < old(nodes)@.len() && a != from ==> (#[trigger] final(nodes)@[a]).next
                == old(nodes)@[a].next,
        forall|a: int|
            0 <= a < old(nodes)@.len() && a != to ==> (#[trigger] final(nodes)@[a]).previous
                == old(nodes)@[a].previous,
        final(nodes)@[from as int].next@ == drop_value(old(nodes)@[from as int].next@, to),
        final(nodes)@[to as int].previous@ == drop_value(old(nodes)@[to as int].previous@, from),
{
    let kept_next = without(&nodes[from].next, to);
    nodes[from].next = kept_next;
    let kept_prev = without(&nodes[to].previous, from);
    nodes[to].previous = kept_prev;
    proof {
        lemma_drop_value(old(nodes)@[from as int].next@, to);
        lemma_drop_value(old(nodes)@[to as int].previous@, from);
        assert forall|a: int, k: int|
            0 <= a < nodes@.len() && 0 <= k < nodes@[a].next@.len() implies (
            #[trigger] nodes@[a].next@[k]) < nodes@.len() by {
            if a == from {
                let y = nodes@[a].next@[k];
                assert(drop_value(old(nodes)@[a].next@, to).contains(y));
                let j = choose|j: int| 0 <= j < old(nodes)@[a].next@.len() && old(nodes)@[a].next@[j] == y;
                assert(old(nodes)@[a].next@[j] < nodes@.len());
            }
        }
        assert forall|a: int, k: int|
            0 <= a < nodes@.len() && 0 <= k < nodes@[a].previous@.len() implies (
            #[trigger] nodes@[a].previous@[k]) < nodes@.len() by {
            if a == to {
                let y = nodes@[a].previous@[k];
                assert(drop_value(old(nodes)@[a].previous@, from).contains(y));
                let j = choose|j: int| 0 <= j < old(nodes)@[a].previous@.len() && old(nodes)@[a].previous@[j] == y;
                assert(old(nodes)@[a].previous@[j] < nodes@.len());
            }
        }
    }
}

// ── Backward search ────────────────────────────────────────────────────────

/// Whether node `j` is found within `k + 1` backward steps from one of
/// `starts`: each step goes from a node to one of its predecessors, and every
/// node after the start lies outside `blocked`.
spec fn back_reach_in(
    nodes: Seq<CfgNode>,
    starts: Seq<usize>,
    blocked: Seq<bool>,
    j: int,
    k: nat,
) -> bool
    decreases k,
{
    &&& 0 <= j < blocked.len()
    &&& !blocked[j]
    &&& ((exists|s: int| 0 <= s < starts.len() && #[trigger] pred_of(nodes, starts[s] as int, j))
        || (k > 0 && exists|i: int|
        back_reach_in(nodes, starts, blocked, i, (k - 1) as nat) && #[trigger] pred_of(
            nodes,
            i,
            j,
        )))
}

/// Whether node `j` is found going backwards from one of `starts` without
/// passing a node of `blocked`.
spec fn back_reachable(nodes: Seq<CfgNode>, starts: Seq<usize>, blocked: Seq<bool>, j: int) -> bool {
    exists|k: nat| #[trigger] back_reach_in(nodes, starts, blocked, j, k)
}

/// Whether `path` leads from one of `starts`, through predecessors that lie
/// outside `blocked`, to a node of `targets`.
spec fn back_path(
    nodes: Seq<CfgNode>,
    starts: Seq<usize>,
    blocked: Seq<bool>,
    targets: Seq<bool>,
    path: Seq<usize>,
) -> bool {
    &&& path.len() >= 2
    &&& starts.contains(path[0])
    &&& forall|k: int| 0 <= k < path.len() ==> #[trigger] path[k] < nodes.len()
    &&& forall|k: int| 0 <= k < path.len() - 1 ==> pred_of(nodes, #[trigger] path[k] as int, path[k + 1] as int)
    &&& forall|k: int| 1 <= k < path.len() ==> !blocked[#[trigger] path[k] as int]
    &&& targets[path.last() as int]
}

proof fn lemma_closed(
    nodes: Seq<CfgNode>,
    starts: Seq<usize>,
    blocked: Seq<bool>,
    visited: Seq<bool>,
    k: nat,
)
    requires
        visited.len() == blocked.len(),
        forall|s: int, j: int|
            0 <= s < starts.len() && #[trigger] pred_of(nodes, starts[s] as int, j) && j
                < blocked.len() && !blocked[j] ==> visited[j],
        forall|i: int, j: int|
            0 <= i < visited.len() && visited[i] && #[trigger] pred_of(nodes, i, j) && j
                < blocked.len() && !blocked[j] ==> visited[j],
    ensures
        forall|j: int| #[trigger] back_reach_in(nodes, starts, blocked, j, k) ==> visited[j],
    decreases k,
{
    if k > 0 {
        lemma_closed(nodes, starts, blocked, visited, (k - 1) as nat);
    }
    assert forall|j: int| #[trigger] back_reach_in(nodes, starts, blocked, j, k) implies visited[j] by {
        if exists|s: int| 0 <= s < starts.len() && #[trigger] pred_of(nodes, starts[s] as int, j) {
            let s = choose|s: int| 0 <= s < starts.len() && #[trigger] pred_of(nodes, starts[s] as int, j);
            assert(pred_of(nodes, starts[s] as int, j));
        } else {
            let i = choose|i: int|
                back_reach_in(nodes, starts, blocked, i, (k - 1) as nat) && #[trigger] pred_of(
                    nodes,
                    i,
                    j,
                );
            assert(visited[i]);
        }
    }
}

/// Whether every node of the first `upto` entries of `queue` is a node index,
/// and `visited` marks exactly the entries of `queue`.
spec fn queue_matches(queue: Seq<usize>, visited: Seq<bool>) -> bool {
    &&& forall|q: int| 0 <= q < queue.len() ==> (#[trigger] queue[q]) < visited.len() && visited[queue[q] as int]
    &&& forall|v: int| 0 <= v < visited.len() && visited[v] ==> exists|q: int| 0 <= q < queue.len() && #[trigger] queue[q] == v
}

/// Searches backwards from the predecessors of `starts` (the starts themselves
/// are not tested) for a node of `targets`, never entering a node of
/// `blocked`. On success, returns a path from a start to the target found
/// first in breadth-first order.
fn find_edge_path(
    nodes: &Vec<CfgNode>,
    starts: &Vec<usize>,
    targets: &Vec<bool>,
    blocked: &Vec<bool>,
) -> (r: Option<Vec<usize>>)
    requires
        edges_within(nodes@),
        blocked@.len() == nodes@.len(),
        targets@.len() == nodes@.len(),
        forall|k: int| 0 <= k < starts@.len() ==> #[trigger] starts@[k] < nodes@.len(),
    ensures
        r is Some <==> exists|j: int|
            back_reachable(nodes@, starts@, blocked@, j) && #[trigger] targets@[j],
        r matches Some(path) ==> back_path(nodes@, starts@, blocked@, targets@, path@),
{
    let n = nodes.len();
    let mut visited: Vec<bool> = Vec::new();
    let mut from: Vec<usize> = Vec::new();
    let mut origin: Vec<usize> = Vec::new();
    let mut i: usize = 0;
    while i < n
        invariant
            i <= n,
            n == nodes@.len(),
            visited@.len() == i,
            from@.len() == i,
            origin@.len() == i,
            forall|v: int| 0 <= v < i ==> !visited@[v],
            count_false(visited@) == i,
        decreases n - i,
    {
        proof {
            assert(visited@.push(false).drop_last() == visited@);
        }
        visited.push(false);
        from.push(0);
        origin.push(0);
        i += 1;
    }
    let ghost mut depth: Seq<nat> = Seq::new(n as nat, |v: int| 0nat);
    let mut queue: Vec<usize> = Vec::new();
    let ghost nv = nodes@;
    let ghost sv = starts@;
    let ghost bv = blocked@;
    // The parent links of every visited node lead back to a start.
    let mut si: usize = 0;
    while si < starts.len()
        invariant
            si <= starts@.len(),
            n == nodes@.len(),
            nv == nodes@,
            sv == starts@,
            bv == blocked@,
            edges_within(nv),
            blocked@.len() == n,
            forall|k: int| 0 <= k < sv.len() ==> #[trigger] sv[k] < n,
            visited@.len() == n,
            from@.len() == n,
            origin@.len() == n,
            depth.len() == n,
            queue_matches(queue@, visited@),
            queue@.len() + count_false(visited@) == n,
            forall|s: int, j: int|
                0 <= s < si && #[trigger] pred_of(nv, sv[s] as int, j) && j < n && !bv[j]
                    ==> visited@[j],
            forall|v: int|
                0 <= v < n && #[trigger] visited@[v] ==> {
                    &&& from@[v] < n
                    &&& pred_of(nv, from@[v] as int, v)
                    &&& !bv[v]
                    &&& sv.contains(origin@[v])
                    &&& ((from@[v] == origin@[v] && sv.contains(from@[v])) || (visited@[from@[v] as int]
                        && depth[from@[v] as int] < depth[v]))
                    &&& back_reach_in(nv, sv, bv, v, depth[v])
                },
        decreases starts@.len() - si,
    {
        let s = starts[si];
        let mut k: usize = 0;
        while k < nodes[s].previous.len()
            invariant
                si < starts@.len(),
                s == sv[si as int],
                s < n,
                k <= nv[s as int].previous@.len(),
                n == nodes@.len(),
                nv == nodes@,
                sv == starts@,
                bv == blocked@,
                edges_within(nv),
                blocked@.len() == n,
                forall|kk: int| 0 <= kk < sv.len() ==> #[trigger] sv[kk] < n,
                visited@.len() == n,
                from@.len() == n,
                origin@.len() == n,
                depth.len() == n,
                queue_matches(queue@, visited@),
                queue@.len() + count_false(visited@) == n,
                forall|s2: int, j: int|
                    0 <= s2 < si && #[trigger] pred_of(nv, sv[s2] as int, j) && j < n && !bv[j]
                        ==> visited@[j],
                forall|kk: int|
                    0 <= kk < k ==> #[trigger] nv[s as int].previous@[kk] < n && (!bv[nv[s as int].previous@[kk] as int]
                        ==> visited@[nv[s as int].previous@[kk] as int]),
                forall|v: int|
                    0 <= v < n && #[trigger] visited@[v] ==> {
                        &&& from@[v] < n
                        &&& pred_of(nv, from@[v] as int, v)
                        &&& !bv[v]
                        &&& sv.contains(origin@[v])
                        &&& ((from@[v] == origin@[v] && sv.contains(from@[v])) || (visited@[from@[v] as int]
                            && depth[from@[v] as int] < depth[v]))
                        &&& back_reach_in(nv, sv, bv, v, depth[v])
                    },
            decreases nv[s as int].previous@.len() - k,
        {
            let p = nodes[s].previous[k];
            assert(p < n);
            if !blocked[p] && !visited[p] {
                proof {
                    lemma_count_false_update(visited@, p as int);
                    assert(pred_of(nv, sv[si as int] as int, p as int));
                    assert(back_reach_in(nv, sv, bv, p as int, 0));
                    assert(sv.contains(s)) by {
                        assert(sv[si as int] == s);
                    }
                }
                let ghost oq = queue@;
                visited.set(p, true);
                from.set(p, s);
                origin.set(p, s);
                queue.push(p);
                proof {
                    depth = depth.update(p as int, 0);
                    assert forall|v: int| 0 <= v < visited@.len() && visited@[v] implies exists|q: int|
                        0 <= q < queue@.len() && #[trigger] queue@[q] == v by {
                        if v == p {
                            assert(queue@[queue@.len() - 1] == v);
                        } else {
                            let q = choose|q: int| 0 <= q < oq.len() && #[trigger] oq[q] == v;
                            assert(queue@[q] == v);
                        }
                    }
                }
            }
            k += 1;
        }
        proof {
            assert forall|s2: int, j: int|
                0 <= s2 < si + 1 && #[trigger] pred_of(nv, sv[s2] as int, j) && j < n && !bv[j]
                    implies visited@[j] by {
                if s2 == si {
                    let kk = choose|kk: int| 0 <= kk < nv[s as int].previous@.len() && nv[s as int].previous@[kk] == j as usize;
                    assert(nv[s as int].previous@[kk] < n);
                }
            }
        }
        si += 1;
    }
    let mut head: usize = 0;
    while head < queue.len()
        invariant
            head <= queue@.len(),
            n == nodes@.len(),
            nv == nodes@,
            sv == starts@,
            bv == blocked@,
            targets@.len() == n,
            edges_within(nv),
            blocked@.len() == n,
            forall|k: int| 0 <= k < sv.len() ==> #[trigger] sv[k] < n,
            visited@.len() == n,
            from@.len() == n,
            origin@.len() == n,
            depth.len() == n,
            queue_matches(queue@, visited@),
            queue@.len() + count_false(visited@) == n,
            forall|s: int, j: int|
                0 <= s < sv.len() && #[trigger] pred_of(nv, sv[s] as int, j) && j < n && !bv[j]
                    ==> visited@[j],
            forall|q: int, j: int|
                0 <= q < head && #[trigger] pred_of(nv, queue@[q] as int, j) && j < n && !bv[j]
                    ==> visited@[j],
            forall|q: int| 0 <= q < head ==> !targets@[#[trigger] queue@[q] as int],
            forall|v: int|
                0 <= v < n && #[trigger] visited@[v] ==> {
                    &&& from@[v] < n
                    &&& pred_of(nv, from@[v] as int, v)
                    &&& !bv[v]
                    &&& sv.contains(origin@[v])
                    &&& ((from@[v] == origin@[v] && sv.contains(from@[v])) || (visited@[from@[v] as int]
                        && depth[from@[v] as int] < depth[v]))
                    &&& back_reach_in(nv, sv, bv, v, depth[v])
                },
        decreases count_false(visited@) + queue@.len() - head,
    {
        let current = queue[head];
        head += 1;
        if targets[current] {
            let path = trace_back(&from, &origin, starts, current, Ghost(nv), Ghost(bv), Ghost(visited@), Ghost(depth));
            proof {
                assert(back_reachable(nv, sv, bv, current as int));
            }
            return Some(path);
        }
        let start_node = origin[current];
        let mut k: usize = 0;
        while k < nodes[current].previous.len()
            invariant
                1 <= head <= queue@.len(),
                current == queue@[head - 1],
                current < n,
                sv.contains(start_node),
                k <= nv[current as int].previous@.len(),
                n == nodes@.len(),
                nv == nodes@,
                sv == starts@,
                bv == blocked@,
                targets@.len() == n,
                !targets@[current as int],
                edges_within(nv),
                blocked@.len() == n,
                forall|kk: int| 0 <= kk < sv.len() ==> #[trigger] sv[kk] < n,
                visited@.len() == n,
                visited@[current as int],
                from@.len() == n,
                origin@.len() == n,
                depth.len() == n,
                queue_matches(queue@, visited@),
                queue@.len() + count_false(visited@) == n,
                forall|s: int, j: int|
                    0 <= s < sv.len() && #[trigger] pred_of(nv, sv[s] as int, j) && j < n && !bv[j]
                        ==> visited@[j],
                forall|q: int, j: int|
                    0 <= q < head - 1 && #[trigger] pred_of(nv, queue@[q] as int, j) && j < n
                        && !bv[j] ==> visited@[j],
                forall|q: int| 0 <= q < head - 1 ==> !targets@[#[trigger] queue@[q] as int],
                forall|kk: int|
                    0 <= kk < k ==> #[trigger] nv[current as int].previous@[kk] < n && (!bv[nv[current as int].previous@[kk] as int]
                        ==> visited@[nv[current as int].previous@[kk] as int]),
                forall|v: int|
                    0 <= v < n && #[trigger] visited@[v] ==> {
                        &&& from@[v] < n
                        &&& pred_of(nv, from@[v] as int, v)
                        &&& !bv[v]
                        &&& sv.contains(origin@[v])
                        &&& ((from@[v] == origin@[v] && sv.contains(from@[v])) || (visited@[from@[v] as int]
                            && depth[from@[v] as int] < depth[v]))
                        &&& back_reach_in(nv, sv, bv, v, depth[v])
                    },
            decreases nv[current as int].previous@.len() - k,
        {
            let p = nodes[current].previous[k];
            assert(p < n);
            if !blocked[p] && !visited[p] {
                proof {
                    lemma_count_false_update(visited@, p as int);
                    let dc = depth[current as int];
                    assert(back_reach_in(nv, sv, bv, current as int, dc));
                    assert(pred_of(nv, current as int, p as int));
                    assert(back_reach_in(nv, sv, bv, p as int, dc + 1));
                }
                let ghost oq = queue@;
                visited.set(p, true);
                from.set(p, current);
                origin.set(p, start_node);
                queue.push(p);
                proof {
                    assert(queue@[head - 1] == oq[head - 1]);
                    depth = depth.update(p as int, depth[current as int] + 1);
                    assert forall|v: int| 0 <= v < visited@.len() && visited@[v] implies exists|q: int|
                        0 <= q < queue@.len() && #[trigger] queue@[q] == v by {
                        if v == p {
                            assert(queue@[queue@.len() - 1] == v);
                        } else {
                            let q = choose|q: int| 0 <= q < oq.len() && #[trigger] oq[q] == v;
                            assert(queue@[q] == v);
                        }
                    }
                }
            }
            k += 1;
        }
        proof {
            assert forall|q: int, j: int|
                0 <= q < head && #[trigger] pred_of(nv, queue@[q] as int, j) && j < n && !bv[j]
                    implies visited@[j] by {
                if q == head - 1 {
                    let kk = choose|kk: int| 0 <= kk < nv[current as int].previous@.len() && nv[current as int].previous@[kk] == j as usize;
                    assert(nv[current as int].previous@[kk] < n);
                }
            }
        }
    }
    proof {
        assert forall|i: int, j: int|
            0 <= i < visited@.len() && visited@[i] && #[trigger] pred_of(nv, i, j) && j < bv.len() && !bv[j]
                implies visited@[j] by {
            let q = choose|q: int| 0 <= q < queue@.len() && #[trigger] queue@[q] == i;
            assert(pred_of(nv, queue@[q] as int, j));
        }
        assert forall|j: int| back_reachable(nv, sv, bv, j) implies !#[trigger] targets@[j] by {
            let k = choose|k: nat| #[trigger] back_reach_in(nv, sv, bv, j, k);
            lemma_closed(nv, sv, bv, visited@, k);
            let q = choose|q: int| 0 <= q < queue@.len() && #[trigger] queue@[q] == j;
            assert(!targets@[queue@[q] as int]);
        }
    }
    None
}

/// Follows the parent links from `current` back to a start, and returns the
/// path from that start to `current`.
fn trace_back(
    from: &Vec<usize>,
    origin: &Vec<usize>,
    starts: &Vec<usize>,
    current: usize,
    Ghost(nv): Ghost<Seq<CfgNode>>,
    Ghost(bv): Ghost<Seq<bool>>,
    Ghost(visited): Ghost<Seq<bool>>,
    Ghost(depth): Ghost<Seq<nat>>,
) -> (path: Vec<usize>)
    requires
        current < visited.len(),
        visited[current as int],
        visited.len() == nv.len(),
        bv.len() == nv.len(),
        from@.len() == nv.len(),
        origin@.len() == nv.len(),
        depth.len() == nv.len(),
        forall|v: int|
            0 <= v < nv.len() && #[trigger] visited[v] ==> {
                &&& from@[v] < nv.len()
                &&& pred_of(nv, from@[v] as int, v)
                &&& !bv[v]
                &&& starts@.contains(origin@[v])
                &&& ((from@[v] == origin@[v] && starts@.contains(from@[v])) || (visited[from@[v] as int]
                    && depth[from@[v] as int] < depth[v]))
            },
    ensures
        path@.len() >= 2,
        starts@.contains(path@[0]),
        path@.last() == current,
        forall|k: int| 0 <= k < path@.len() ==> #[trigger] path@[k] < nv.len(),
        forall|k: int| 0 <= k < path@.len() - 1 ==> pred_of(nv, #[trigger] path@[k] as int, path@[k + 1] as int),
        forall|k: int| 1 <= k < path@.len() ==> !bv[#[trigger] path@[k] as int],
{
    let mut rev: Vec<usize> = Vec::new();
    rev.push(current);
    let mut node = current;
    loop
        invariant_except_break
            rev@.last() == node,
            forall|k: int| 0 <= k < rev@.len() ==> #[trigger] rev@[k] < nv.len() && visited[rev@[k] as int],
            forall|k: int| 0 <= k < rev@.len() - 1 ==> pred_of(nv, #[trigger] rev@[k + 1] as int, rev@[k] as int),
        invariant
            node < nv.len(),
            visited[node as int],
            visited.len() == nv.len(),
            bv.len() == nv.len(),
            from@.len() == nv.len(),
            origin@.len() == nv.len(),
            depth.len() == nv.len(),
            rev@.len() >= 1,
            rev@[0] == current,
            forall|v: int|
                0 <= v < nv.len() && #[trigger] visited[v] ==> {
                    &&& from@[v] < nv.len()
                    &&& pred_of(nv, from@[v] as int, v)
                    &&& !bv[v]
                    &&& starts@.contains(origin@[v])
                    &&& ((from@[v] == origin@[v] && starts@.contains(from@[v])) || (visited[from@[v] as int]
                        && depth[from@[v] as int] < depth[v]))
                },
        ensures
            rev@.len() >= 2,
            rev@[0] == current,
            starts@.contains(rev@.last()),
            forall|k: int| 0 <= k < rev@.len() ==> #[trigger] rev@[k] < nv.len(),
            forall|k: int| 0 <= k < rev@.len() - 1 ==> pred_of(nv, #[trigger] rev@[k + 1] as int, rev@[k] as int),
            forall|k: int| 0 <= k < rev@.len() - 1 ==> !bv[#[trigger] rev@[k] as int],
        decreases depth[node as int],
    {
        let f = from[node];
        let o = origin[node];
        if f == o && usize_in(starts, f) {
            rev.push(f);
            proof {
                assert forall|k: int| 0 <= k < rev@.len() - 1 implies !bv[#[trigger] rev@[k] as int] by {
                    assert(visited[rev@[k] as int]);
                }
            }
            break;
        }
        rev.push(f);
        node = f;
    }
    let mut path: Vec<usize> = Vec::new();
    let mut i: usize = rev.len();
    while i > 0
        invariant
            i <= rev@.len(),
            path@.len() == rev@.len() - i,
            forall|k: int| 0 <= k < path@.len() ==> path@[k] == rev@[rev@.len() - 1 - k],
        decreases i,
    {
        i -= 1;
        path.push(rev[i]);
    }
    proof {
        let m = rev@.len();
        assert(path@[0] == rev@[m - 1]);
        assert(path@.last() == rev@[0]);
        assert forall|k: int| 0 <= k < path@.len() - 1 implies pred_of(nv, #[trigger] path@[k] as int, path@[k + 1] as int) by {
            assert(path@[k] == rev@[m - 1 - k]);
            assert(path@[k + 1] == rev@[m - 1 - (k + 1)]);
            assert(rev@[(m - 1 - (k + 1)) + 1] == rev@[m - 1 - k]);
        }
        assert forall|k: int| 1 <= k < path@.len() implies !bv[#[trigger] path@[k] as int] by {
            assert(path@[k] == rev@[m - 1 - k]);
        }
        assert forall|k: int| 0 <= k < path@.len() implies #[trigger] path@[k] < nv.len() by {
            assert(path@[k] == rev@[m - 1 - k]);
        }
    }
    path
}

// ── Pointer classes ────────────────────────────────────────────────────────

/// The pointers the engine does not track at run time (`find_*` and
/// `last_*`): reading one after a delay is brittle but not fatal.
pub open spec fn static_only(p: PointerType) -> bool {
    ptr_index(p) >= 10
}

/// Whether `ptr` is one of the pointers the engine does not track at run time.
fn is_static_only_pointer(ptr: PointerType) -> (b: bool)
    ensures
        b == static_only(ptr),
{
    match ptr {
        PointerType::FindPlayer | PointerType::FindNpc | PointerType::FindLoc | PointerType::FindObj
        | PointerType::FindDb | PointerType::LastCom | PointerType::LastInt | PointerType::LastItem
        | PointerType::LastSlot | PointerType::LastTargetslot | PointerType::LastUseitem
        | PointerType::LastUseslot => true,
        _ => false,
    }
}

/// The parameter type used to pass a `last_*` pointer's value to a label.
pub open spec fn param_type_of(p: PointerType) -> Seq<char> {
    match p {
        PointerType::LastUseitem | PointerType::LastItem => "obj"@,
        PointerType::LastCom => "component"@,
        _ => "int"@,
    }
}

/// The parameter type used to pass the value of `ptr` to a label: `obj` for
/// `last_useitem` and `last_item`, `component` for `last_com`, else `int`.
fn pointer_param_type(ptr: PointerType) -> (r: &'static str)
    ensures
        r@ == param_type_of(ptr),
{
    match ptr {
        PointerType::LastUseitem | PointerType::LastItem => {
            proof {
                reveal_strlit("obj");
            }
            "obj"
        },
        PointerType::LastCom => {
            proof {
                reveal_strlit("component");
            }
            "component"
        },
        _ => {
            proof {
                reveal_strlit("int");
            }
            "int"
        },
    }
}

/// Whether a game-variable operand names a secondary (`.`-prefixed) variable:
/// bit 16 of an integer operand.
pub open spec fn secondary_operand(o: Operand) -> bool {
    match o {
        Operand::Int(e) => (e >> 16u32) & 1i32 == 1i32,
        _ => false,
    }
}

fn is_secondary_var_operand(operand: &Operand) -> (b: bool)
    ensures
        b == secondary_operand(*operand),
{
    match operand {
        Operand::Int(encoded) => ((*encoded >> 16u32) & 1i32) == 1i32,
        _ => false,
    }
}

/// The graph node of the first instruction at or after `target` that is not
/// a line marker, if that instruction has a node.
spec fn target_node(ins: Seq<Instruction>, map: Seq<Option<usize>>, target: int) -> Option<usize> {
    match next_real_from(ins, target) {
        Some(i) => if 0 <= i < map.len() { map[i] } else { None },
        None => None,
    }
}

fn resolve_target_node(
    target: usize,
    instructions: &Vec<Instruction>,
    instr_to_node: &Vec<Option<usize>>,
) -> (r: Option<usize>)
    ensures
        r == target_node(instructions@, instr_to_node@, target as int),
{
    match next_real(instructions, target) {
        Some(i) => if i < instr_to_node.len() {
            instr_to_node[i]
        } else {
            None
        },
        None => None,
    }
}

// ── Per-script analysis ────────────────────────────────────────────────────

/// The analysis of one script: its graph, and for each pointer (by position)
/// the nodes that require, set and corrupt it.
struct ScriptAnalysis {
    /// The script analysed (its position among the checker's scripts).
    script_idx: usize,
    nodes: Vec<CfgNode>,
    required: Vec<Vec<usize>>,
    set_list: Vec<Vec<usize>>,
    corrupted_list: Vec<Vec<usize>>,
    /// `set_nodes[p][k]`: whether node `k` sets pointer `p`.
    set_nodes: Vec<Vec<bool>>,
    /// `corrupted_nodes[p][k]`: whether node `k` corrupts pointer `p`.
    corrupted_nodes: Vec<Vec<bool>>,
    /// The nodes of `Return` instructions.
    return_nodes: Vec<usize>,
}

/// Whether `l` holds one list of node indices below `n` per pointer.
spec fn lists_within(l: Seq<Vec<usize>>, n: int) -> bool {
    &&& l.len() == 22
    &&& forall|p: int, k: int| 0 <= p < 22 && 0 <= k < l[p]@.len() ==> #[trigger] l[p]@[k] < n
}

/// Whether `m` holds one mask over `n` nodes per pointer.
spec fn masks_sized(m: Seq<Vec<bool>>, n: int) -> bool {
    &&& m.len() == 22
    &&& forall|p: int| 0 <= p < 22 ==> #[trigger] m[p]@.len() == n
}

/// Whether the graph of `a` is well formed for a script of `n_ins` instructions.
spec fn graph_ok(a: ScriptAnalysis, n_ins: int) -> bool {
    let n = a.nodes@.len() as int;
    &&& n >= 1
    &&& a.nodes@[0].instruction_index is None
    &&& edges_within(a.nodes@)
    &&& forall|k: int|
        0 <= k < n ==> match (#[trigger] a.nodes@[k]).instruction_index {
            Some(i) => i < n_ins,
            None => true,
        }
    &&& forall|k: int| 0 <= k < a.return_nodes@.len() ==> #[trigger] a.return_nodes@[k] < n
    &&& lists_within(a.required@, n)
    &&& lists_within(a.set_list@, n)
    &&& lists_within(a.corrupted_list@, n)
}

/// Whether the lists and masks of `a` are sized for its graph, and each mask
/// marks exactly the nodes of the matching list.
spec fn marks_ok(a: ScriptAnalysis) -> bool {
    let n = a.nodes@.len() as int;
    &&& lists_within(a.required@, n)
    &&& lists_within(a.set_list@, n)
    &&& lists_within(a.corrupted_list@, n)
    &&& masks_sized(a.set_nodes@, n)
    &&& masks_sized(a.corrupted_nodes@, n)
    &&& forall|p: int, k: int|
        0 <= p < 22 && 0 <= k < n ==> (#[trigger] a.set_nodes@[p]@[k] <==> a.set_list@[p]@.contains(k as usize))
    &&& forall|p: int, k: int|
        0 <= p < 22 && 0 <= k < n ==> (#[trigger] a.corrupted_nodes@[p]@[k] <==> a.corrupted_list@[p]@.contains(
            k as usize,
        ))
}

/// The pointer a variable access requires: the active player (its
/// secondary form for a secondary operand) for player variables and varbits,
/// the active npc for npc variables; none for other instructions.
pub open spec fn var_read_pointer(ins: Instruction) -> Option<PointerType> {
    if ins.opcode == Opcode::PushVarp || ins.opcode == Opcode::PushVarbit || ins.opcode == Opcode::PopVarp
        || ins.opcode == Opcode::PopVarbit {
        Some(if secondary_operand(ins.operand) { PointerType::ActivePlayer2 } else { PointerType::ActivePlayer })
    } else if ins.opcode == Opcode::PushVarn || ins.opcode == Opcode::PopVarn {
        Some(if secondary_operand(ins.operand) { PointerType::ActiveNpc2 } else { PointerType::ActiveNpc })
    } else {
        None
    }
}

/// Whether the graph of `a` records, for each node of a variable access of
/// `ins`, that the node requires the pointer the access needs.
spec fn var_reads_recorded(a: ScriptAnalysis, ins: Seq<Instruction>) -> bool {
    forall|k: int|
        0 <= k < a.nodes@.len() ==> match (#[trigger] a.nodes@[k]).instruction_index {
            Some(x) => x < ins.len() ==> match var_read_pointer(ins[x as int]) {
                Some(p) => a.required@[ptr_index(p) as int]@.contains(k as usize),
                None => true,
            },
            None => true,
        }
}

/// Whether `a` is a complete analysis for a script of `n_ins` instructions.
spec fn analysis_ok(a: ScriptAnalysis, n_ins: int) -> bool {
    &&& graph_ok(a, n_ins)
    &&& marks_ok(a)
}

fn empty_lists() -> (l: Vec<Vec<usize>>)
    ensures
        l@.len() == 22,
        forall|p: int| 0 <= p < 22 ==> (#[trigger] l@[p])@.len() == 0,
{
    let mut l: Vec<Vec<usize>> = Vec::new();
    let mut i: usize = 0;
    while i < 22
        invariant
            i <= 22,
            l@.len() == i,
            forall|p: int| 0 <= p < i ==> (#[trigger] l@[p])@.len() == 0,
        decreases 22 - i,
    {
        l.push(Vec::new());
        i += 1;
    }
    l
}

fn empty_masks(n: usize) -> (m: Vec<Vec<bool>>)
    ensures
        masks_sized(m@, n as int),
        forall|p: int, k: int| 0 <= p < 22 && 0 <= k < n ==> !(#[trigger] m@[p]@[k]),
{
    let mut row: Vec<bool> = Vec::new();
    let mut k: usize = 0;
    while k < n
        invariant
            k <= n,
            row@.len() == k,
            forall|j: int| 0 <= j < k ==> !row@[j],
        decreases n - k,
    {
        row.push(false);
        k += 1;
    }
    let mut m: Vec<Vec<bool>> = Vec::new();
    let mut i: usize = 0;
    while i < 22
        invariant
            i <= 22,
            row@.len() == n,
            forall|j: int| 0 <= j < n ==> !row@[j],
            m@.len() == i,
            forall|p: int| 0 <= p < i ==> (#[trigger] m@[p])@ == row@,
        decreases 22 - i,
    {
        m.push(row.clone());
        i += 1;
    }
    m
}

/// Records node `k` in list `p`.
fn add_to(l: &mut Vec<Vec<usize>>, p: usize, k: usize, Ghost(n): Ghost<int>)
    requires
        lists_within(old(l)@, n),
        p < 22,
        k < n,
    ensures
        lists_within(final(l)@, n),
        final(l)@[p as int]@ == old(l)@[p as int]@.push(k),
        forall|q: int| 0 <= q < 22 && q != p ==> #[trigger] final(l)@[q] == old(l)@[q],
{
    l[p].push(k);
    proof {
        assert forall|q: int, j: int| 0 <= q < 22 && 0 <= j < l@[q]@.len() implies #[trigger] l@[q]@[j] < n by {
            if q == p && j == old(l)@[q]@.len() {
            } else {
                assert(l@[q]@[j] == old(l)@[q]@[j]);
            }
        }
    }
}

/// Marks node `k` in mask `p`.
fn mark(m: &mut Vec<Vec<bool>>, p: usize, k: usize, Ghost(n): Ghost<int>)
    requires
        masks_sized(old(m)@, n),
        p < 22,
        k < n,
    ensures
        masks_sized(final(m)@, n),
        final(m)@[p as int]@ == old(m)@[p as int]@.update(k as int, true),
        forall|q: int| 0 <= q < 22 && q != p ==> #[trigger] final(m)@[q] == old(m)@[q],
{
    m[p].set(k, true);
}

// ── Command names ──────────────────────────────────────────────────────────

/// The name recorded for opcode `op` in `table`: its last entry.
spec fn opcode_name(table: Seq<(i32, String)>, op: i32) -> Option<Seq<char>>
    decreases table.len(),
{
    if table.len() == 0 {
        None
    } else if table.last().0 == op {
        Some(table.last().1@)
    } else {
        opcode_name(table.drop_last(), op)
    }
}

/// The command an instruction names: for an integer operand, the name of
/// its low 16 bits, `.`-prefixed when bit 16 is set; for a string operand,
/// the string in lower case.
spec fn command_name_of(table: Seq<(i32, String)>, operand: Operand) -> Option<Seq<char>> {
    match operand {
        Operand::Int(e) => match opcode_name(table, e & 0xFFFFi32) {
            Some(base) => if (e >> 16u32) & 1i32 == 1i32 {
                Some(seq!['.'] + base)
            } else {
                Some(base)
            },
            None => None,
        },
        Operand::Str(name) => Some(lowercase(name@)),
        _ => None,
    }
}

fn find_opcode_name(table: &Vec<(i32, String)>, op: i32) -> (r: Option<&String>)
    ensures
        match r {
            Some(name) => opcode_name(table@, op) == Some(name@),
            None => opcode_name(table@, op) is None,
        },
{
    let mut i: usize = table.len();
    assert(table@.take(i as int) == table@);
    while i > 0
        invariant
            i <= table@.len(),
            opcode_name(table@.take(i as int), op) == opcode_name(table@, op),
        decreases i,
    {
        assert(table@.take(i as int).drop_last() == table@.take(i - 1));
        if table[i - 1].0 == op {
            return Some(&table[i - 1].1);
        }
        i -= 1;
    }
    None
}

// ── The checker ────────────────────────────────────────────────────────────

/// Checks, for a set of compiled scripts, that every pointer a script reads
/// is set on every path that reaches the read.
pub struct PointerChecker<'a> {
    scripts: &'a [CompiledScript],
    cmd_pointers: StrMap<PointerHolder>,
    registry: &'a SymbolRegistry,
    /// Command opcode and lowercase name, in registration order.
    opcode_to_name: Vec<(i32, String)>,
    /// The names of overlay interfaces (lowercase, spaces as underscores).
    overlay_interfaces: Vec<String>,
    /// Source text by path, used to attach concrete suggestions to warnings.
    source_cache: Option<&'a StrMap<String>>,
    script_analyses: StrMap<ScriptAnalysis>,
    script_pointers: StrMap<PointerHolder>,
    pending_analyses: StrMap<bool>,
    pending_scripts: StrMap<bool>,
}

/// Whether `k` is marked in `pend`.
spec fn pending_in(pend: Map<Seq<char>, bool>, k: Seq<char>) -> bool {
    pend.contains_key(k) && pend[k]
}

/// The number of scripts whose analysis is not under way.
spec fn free_count(scripts: Seq<CompiledScript>, pend: Map<Seq<char>, bool>) -> nat
    decreases scripts.len(),
{
    if scripts.len() == 0 {
        0
    } else {
        free_count(scripts.drop_last(), pend) + if pending_in(pend, scripts.last().name@) {
            0nat
        } else {
            1nat
        }
    }
}

proof fn lemma_free_same(scripts: Seq<CompiledScript>, a: Map<Seq<char>, bool>, b: Map<Seq<char>, bool>)
    requires
        forall|i: int| 0 <= i < scripts.len() ==> pending_in(a, #[trigger] scripts[i].name@) == pending_in(b, scripts[i].name@),
    ensures
        free_count(scripts, a) == free_count(scripts, b),
    decreases scripts.len(),
{
    if scripts.len() > 0 {
        assert forall|i: int| 0 <= i < scripts.drop_last().len() implies pending_in(a, #[trigger] scripts.drop_last()[i].name@) == pending_in(b, scripts.drop_last()[i].name@) by {
            assert(scripts.drop_last()[i] == scripts[i]);
        }
        lemma_free_same(scripts.drop_last(), a, b);
    }
}

proof fn lemma_free_insert(scripts: Seq<CompiledScript>, pend: Map<Seq<char>, bool>, i: int)
    requires
        0 <= i < scripts.len(),
        !pending_in(pend, scripts[i].name@),
    ensures
        free_count(scripts, pend.insert(scripts[i].name@, true)) < free_count(scripts, pend),
    decreases scripts.len(),
{
    let k = scripts[i].name@;
    let q = pend.insert(k, true);
    if i < scripts.len() - 1 {
        assert(scripts.drop_last()[i] == scripts[i]);
        lemma_free_insert(scripts.drop_last(), pend, i);
        if scripts.last().name@ == k {
        } else {
            assert(pending_in(q, scripts.last().name@) == pending_in(pend, scripts.last().name@));
        }
    } else {
        lemma_free_monotone(scripts.drop_last(), pend, q);
    }
}

proof fn lemma_free_monotone(scripts: Seq<CompiledScript>, a: Map<Seq<char>, bool>, b: Map<Seq<char>, bool>)
    requires
        forall|k: Seq<char>| pending_in(a, k) ==> pending_in(b, k),
    ensures
        free_count(scripts, b) <= free_count(scripts, a),
    decreases scripts.len(),
{
    if scripts.len() > 0 {
        lemma_free_monotone(scripts.drop_last(), a, b);
    }
}

impl<'a> PointerChecker<'a> {
    /// No script analysis is under way (as for a new checker).
    pub closed spec fn fresh(&self) -> bool {
        forall|i: int| 0 <= i < self.scripts@.len() ==> !pending_in(self.pending_analyses@, #[trigger] self.scripts@[i].name@)
    }

    /// Whether the analysis of script `i` (under the trigger of the first
    /// script of its name) flags some pointer: a use of a pointer that is
    /// required where it may be unset or corrupted on some path, and that the
    /// script's trigger does not provide.
    #[verifier::opaque]
    pub closed spec fn script_flagged(&self, i: int) -> bool {
        let name = self.scripts@[i].name@;
        let first = self.scripts@[first_named(self.scripts@, name)->Some_0];
        &&& self.script_analyses@.contains_key(name)
        &&& exists|p: PointerType| #[trigger] flagged(
            self.script_analyses@[name],
            ptr_index(p) as int,
            provided(self.overlay_interfaces@, first.trigger@, name, p),
        )
    }

    /// Whether the analysis of script `i` (under the trigger of the first
    /// script of its name) flags pointer `p`.
    pub closed spec fn script_flags(&self, i: int, p: PointerType) -> bool {
        let name = self.scripts@[i].name@;
        let first = self.scripts@[first_named(self.scripts@, name)->Some_0];
        &&& self.script_analyses@.contains_key(name)
        &&& flagged(
            self.script_analyses@[name],
            ptr_index(p) as int,
            provided(self.overlay_interfaces@, first.trigger@, name, p),
        )
    }

    /// Whether an analysis of the script named `name` is stored.
    pub closed spec fn analyzed(&self, name: Seq<char>) -> bool {
        self.script_analyses@.contains_key(name)
    }

    /// Whether the stored analysis of the script named `name` belongs to a
    /// script of that name and records, at the node of each variable access
    /// of that script's code, a requirement of the pointer the access needs
    /// (see [`var_read_pointer`]).
    pub closed spec fn records_var_reads(&self, name: Seq<char>) -> bool {
        let a = self.script_analyses@[name];
        &&& self.script_analyses@.contains_key(name)
        &&& a.script_idx < self.scripts@.len()
        &&& self.scripts@[a.script_idx as int].name@ == name
        &&& var_reads_recorded(a, self.scripts@[a.script_idx as int].instructions@)
    }

    /// Some checked script's analysis flags a pointer.
    pub closed spec fn any_flagged(&self) -> bool {
        exists|i: int| 0 <= i < self.scripts@.len() && #[trigger] self.script_flagged(i)
    }

    /// The scripts being checked.
    pub closed spec fn checked_scripts(&self) -> Seq<CompiledScript> {
        self.scripts@
    }

    /// The attached source text, if any.
    pub closed spec fn cache(&self) -> Option<&'a StrMap<String>> {
        self.source_cache
    }

    /// The number of scripts whose analysis is not under way.
    spec fn free(&self) -> nat {
        free_count(self.scripts@, self.pending_analyses@)
    }

    /// Whether every stored analysis is complete and belongs to the script
    /// of its name.
    pub closed spec fn wf(&self) -> bool {
        forall|k: Seq<char>|
            #[trigger] self.script_analyses@.contains_key(k) ==> {
                let a = self.script_analyses@[k];
                &&& a.script_idx < self.scripts@.len()
                &&& self.scripts@[a.script_idx as int].name@ == k
                &&& analysis_ok(a, self.scripts@[a.script_idx as int].instructions@.len() as int)
                &&& var_reads_recorded(a, self.scripts@[a.script_idx as int].instructions@)
            }
    }

    /// Whether `b` is `a` later on: the same scripts and overlays, the same
    /// script analyses under way, and every finished analysis kept as it was.
    spec fn same_pending(a: &Self, b: &Self) -> bool {
        &&& a.scripts == b.scripts
        &&& a.overlay_interfaces == b.overlay_interfaces
        &&& forall|i: int|
            0 <= i < a.scripts@.len() ==> pending_in(a.pending_analyses@, #[trigger] a.scripts@[i].name@)
                == pending_in(b.pending_analyses@, a.scripts@[i].name@)
        &&& forall|k: Seq<char>|
            #[trigger] a.script_analyses@.contains_key(k) ==> b.script_analyses@.contains_key(k)
                && b.script_analyses@[k] == a.script_analyses@[k]
    }

    /// A checker over `scripts`, with the command names of `registry`.
    pub fn new(scripts: &'a [CompiledScript], registry: &'a SymbolRegistry) -> (c: Self)
        ensures
            c.checked_scripts() == scripts@,
            c.cache() is None,
            c.wf(),
            c.fresh(),
    {
        let mut opcode_to_name: Vec<(i32, String)> = Vec::new();
        let nc = registry.command_count();
        let mut i: usize = 0;
        while i < nc
            invariant
                i <= nc,
                nc == registry.command_names().len(),
            decreases nc - i,
        {
            let (name, sym) = registry.command_at(i);
            if let SymbolKind::Command { opcode, .. } = &sym.kind {
                opcode_to_name.push((*opcode, to_lowercase(name.as_str())));
            }
            i += 1;
        }
        let mut overlay_interfaces: Vec<String> = Vec::new();
        let ne = registry.entity_count();
        let mut j: usize = 0;
        while j < ne
            invariant
                j <= ne,
                ne == registry.entity_names().len(),
            decreases ne - j,
        {
            let (name, entry) = registry.entity_at(j);
            if let Some(r) = entry.primary {
                if r.const_type == crate::types::Type::OverlayInterface {
                    overlay_interfaces.push(crate::strings::normalize_name(name.as_str()));
                }
            }
            j += 1;
        }
        PointerChecker {
            scripts,
            cmd_pointers: crate::command_table::command_pointers(),
            registry,
            opcode_to_name,
            overlay_interfaces,
            source_cache: None,
            script_analyses: StrMap::new(),
            script_pointers: StrMap::new(),
            pending_analyses: StrMap::new(),
            pending_scripts: StrMap::new(),
        }
    }

    /// Attaches source text by path, so that warnings can carry concrete
    /// suggestions. Nothing else changes.
    pub fn set_source_cache(&mut self, cache: &'a StrMap<String>)
        ensures
            final(self).cache() == Some(cache),
            final(self).checked_scripts() == old(self).checked_scripts(),
            final(self).wf() == old(self).wf(),
            final(self).fresh() == old(self).fresh(),
    {
        self.source_cache = Some(cache);
        proof {
            assert(self.script_analyses == old(self).script_analyses);
            assert(self.scripts == old(self).scripts);
            assert(self.wf() == old(self).wf());
        }
    }

    /// The command an instruction calls (see [`command_name_of`]).
    fn resolve_command_name(&self, instr: &Instruction) -> (r: Option<String>)
        ensures
            match r {
                Some(n) => command_name_of(self.opcode_to_name@, instr.operand) == Some(n@),
                None => command_name_of(self.opcode_to_name@, instr.operand) is None,
            },
    {
        match &instr.operand {
            Operand::Int(encoded) => {
                let opcode = *encoded & 0xFFFFi32;
                let secondary = (*encoded >> 16u32) & 1i32;
                match find_opcode_name(&self.opcode_to_name, opcode) {
                    Some(base) => if secondary == 1 {
                        let mut s = String::new();
                        crate::strings::push_char(&mut s, '.');
                        push_str(&mut s, base.as_str());
                        proof {
                            assert(s@ == seq!['.'] + base@);
                        }
                        Some(s)
                    } else {
                        Some(to_owned_string(base.as_str()))
                    },
                    None => None,
                }
            },
            Operand::Str(name) => Some(to_lowercase(name.as_str())),
            _ => None,
        }
    }
}

// ── Interface buttons ──────────────────────────────────────────────────────

/// Whether `t` is a button trigger.
spec fn button_trigger(t: Seq<char>) -> bool {
    match crate::trigger_table::trigger_info(t) {
        Some(i) => i.is_button,
        None => false,
    }
}

/// The interface a script `[trigger,interface:component]` belongs to:
/// the subject up to the first `:`, lowercase, spaces as underscores.
spec fn iface_of(script_name: Seq<char>) -> Seq<char> {
    let subject = match crate::source_text::short_name_spec(script_name) {
        Some(rest) => rest,
        None => seq![],
    };
    let head = match crate::strings::index_of_char(subject, ':') {
        Some(i) => subject.take(i),
        None => subject,
    };
    crate::strings::normalized_name(head)
}

/// Whether a button script of trigger `trigger` named `script_name` starts
/// with `p_active_player`: its interface is named and is not an overlay.
spec fn grants_protected(overlay: Seq<String>, trigger: Seq<char>, script_name: Seq<char>) -> bool {
    &&& button_trigger(trigger)
    &&& iface_of(script_name).len() > 0
    &&& !(exists|k: int| 0 <= k < overlay.len() && (#[trigger] overlay[k])@ == iface_of(script_name))
}

// ── Graph construction ─────────────────────────────────────────────────────

/// Instructions at which the backward scan for a conditional command stops.
spec fn flow_boundary(op: Opcode) -> bool {
    op == Opcode::Branch || op == Opcode::Return || op == Opcode::Switch || op == Opcode::BranchEquals
        || op == Opcode::BranchNot || op == Opcode::BranchLessThan || op == Opcode::BranchGreaterThan
        || op == Opcode::BranchLessThanOrEquals || op == Opcode::BranchGreaterThanOrEquals
}

fn is_flow_boundary(op: Opcode) -> (b: bool)
    ensures
        b == flow_boundary(op),
{
    op == Opcode::Branch || op == Opcode::Return || op == Opcode::Switch || op == Opcode::BranchEquals
        || op == Opcode::BranchNot || op == Opcode::BranchLessThan || op == Opcode::BranchGreaterThan
        || op == Opcode::BranchLessThanOrEquals || op == Opcode::BranchGreaterThanOrEquals
}

/// Whether `nodes` keeps the first `old_len` nodes' instructions of `old`
/// and adds only synthetic nodes.
spec fn extends_nodes(old: Seq<CfgNode>, new: Seq<CfgNode>) -> bool {
    &&& new.len() >= old.len()
    &&& forall|k: int| 0 <= k < old.len() ==> (#[trigger] new[k]).instruction_index == old[k].instruction_index
    &&& forall|k: int| old.len() <= k < new.len() ==> (#[trigger] new[k]).instruction_index is None
}

/// Whether `o` is the index of a `Return` among `ins`.
spec fn is_return_at(ins: Seq<Instruction>, o: Option<usize>) -> bool {
    match o {
        Some(i) => i < ins.len() && ins[i as int].opcode == Opcode::Return,
        None => false,
    }
}

/// Whether `o` is no instruction, or one that is not a line marker.
spec fn not_marker(ins: Seq<Instruction>, o: Option<usize>) -> bool {
    match o {
        Some(i) => i < ins.len() && ins[i as int].opcode != Opcode::LineNumber,
        None => true,
    }
}

/// Whether each mapped instruction of `map` has a node among `n`.
spec fn map_within(map: Seq<Option<usize>>, n: int) -> bool {
    forall|i: int| 0 <= i < map.len() ==> match #[trigger] map[i] {
        Some(k) => k < n,
        None => true,
    }
}

proof fn lemma_target_within(ins: Seq<Instruction>, map: Seq<Option<usize>>, t: int, n: int)
    requires
        map_within(map, n),
    ensures
        target_node(ins, map, t) matches Some(k) ==> k < n,
{
    if let Some(i) = next_real_from(ins, t) {
        if 0 <= i < map.len() {
            assert(match map[i] {
                Some(k) => k < n,
                None => true,
            });
        }
    }
}

impl<'a> PointerChecker<'a> {
    fn is_overlay(&self, name: &str) -> (b: bool)
        ensures
            b == exists|k: int| 0 <= k < self.overlay_interfaces@.len() && (#[trigger] self.overlay_interfaces@[k])@ == name@,
    {
        let mut k: usize = 0;
        while k < self.overlay_interfaces.len()
            invariant
                k <= self.overlay_interfaces@.len(),
                forall|j: int| 0 <= j < k ==> (#[trigger] self.overlay_interfaces@[j])@ != name@,
            decreases self.overlay_interfaces@.len() - k,
        {
            if str_eq(self.overlay_interfaces[k].as_str(), name) {
                return true;
            }
            k += 1;
        }
        false
    }

    /// Whether a button trigger on a non-overlay interface starts with
    /// `p_active_player` (see [`grants_protected`]).
    fn interface_trigger_grants_protected(&self, trigger: &str, script_name: &str) -> (b: bool)
        ensures
            b == grants_protected(self.overlay_interfaces@, trigger@, script_name@),
    {
        if !crate::trigger_table::is_button(trigger) {
            return false;
        }
        let subject: Vec<char> = match crate::source_text::short_script_name(script_name) {
            Some(rest) => crate::strings::chars_of(rest.as_str()),
            None => Vec::new(),
        };
        let head: Vec<char> = match crate::strings::find_char(&subject, ':') {
            Some(i) => crate::strings::sub_chars(&subject, 0, i),
            None => subject,
        };
        proof {
            assert(head@ == match crate::strings::index_of_char(subject@, ':') {
                Some(i) => subject@.take(i),
                None => subject@,
            });
        }
        let head_text = crate::strings::string_from_chars(&head);
        let iface = crate::strings::normalize_name(head_text.as_str());
        if crate::strings::chars_of(iface.as_str()).len() == 0 {
            return false;
        }
        !self.is_overlay(iface.as_str())
    }

    /// Builds the graph of script `script_idx`: node 0 is the entry; each
    /// instruction other than a line marker gets a node, in order; edges
    /// follow branches, switch tables and fallthrough, and conditional
    /// commands get synthetic nodes on the path where they set pointers.
    fn build_cfg(&self, script_idx: usize) -> (a: ScriptAnalysis)
        requires
            script_idx < self.scripts@.len(),
        ensures
            a.script_idx == script_idx,
            graph_ok(a, self.scripts@[script_idx as int].instructions@.len() as int),
            forall|k: int| 0 <= k < a.return_nodes@.len() ==> is_return_at(self.scripts@[script_idx as int].instructions@, (#[trigger] a.nodes@[a.return_nodes@[k] as int]).instruction_index),
            forall|k: int| 0 <= k < a.nodes@.len() ==> not_marker(self.scripts@[script_idx as int].instructions@, (#[trigger] a.nodes@[k]).instruction_index),
            forall|p: int| 0 <= p < 22 ==> (#[trigger] a.required@[p])@.len() == 0,
            forall|p: int| 0 <= p < 22 ==> (#[trigger] a.set_list@[p])@.len() == 0,
            forall|p: int| 0 <= p < 22 ==> (#[trigger] a.corrupted_list@[p])@.len() == 0,
    {
        let instructions = &self.scripts[script_idx].instructions;
        let ghost ins = instructions@;
        let mut nodes: Vec<CfgNode> = Vec::new();
        nodes.push(CfgNode::new(None));
        let mut instr_to_node: Vec<Option<usize>> = Vec::new();
        let mut node_order: Vec<usize> = Vec::new();
        let mut i: usize = 0;
        while i < instructions.len()
            invariant
                i <= ins.len(),
                ins == instructions@,
                instr_to_node@.len() == i,
                nodes@.len() == node_order@.len() + 1,
                nodes@[0].instruction_index is None,
                forall|k: int| 0 <= k < nodes@.len() ==> (#[trigger] nodes@[k]).next@.len() == 0
                    && nodes@[k].previous@.len() == 0,
                forall|k: int| 0 <= k < nodes@.len() ==> match (#[trigger] nodes@[k]).instruction_index {
                    Some(j) => j < i && ins[j as int].opcode != Opcode::LineNumber,
                    None => k == 0,
                },
                forall|j: int| 0 <= j < node_order@.len() ==> #[trigger] node_order@[j] < i
                    && nodes@[j + 1].instruction_index == Some(node_order@[j])
                    && instr_to_node@[node_order@[j] as int] == Some((j + 1) as usize),
                map_within(instr_to_node@, nodes@.len() as int),
            decreases ins.len() - i,
        {
            if instructions[i].opcode == Opcode::LineNumber {
                instr_to_node.push(None);
            } else {
                let node_idx = nodes.len();
                instr_to_node.push(Some(node_idx));
                node_order.push(i);
                nodes.push(CfgNode::new(Some(i)));
            }
            i += 1;
        }
        let mut return_nodes: Vec<usize> = Vec::new();
        if node_order.len() == 0 {
            return ScriptAnalysis {
                script_idx,
                nodes,
                required: empty_lists(),
                set_list: empty_lists(),
                corrupted_list: empty_lists(),
                set_nodes: Vec::new(),
                corrupted_nodes: Vec::new(),
                return_nodes,
            };
        }
        let m = node_order.len();
        assert(edges_within(nodes@));
        add_edge(&mut nodes, 0, 1);
        let mut oi: usize = 0;
        while oi < m
            invariant
                oi <= m,
                m == node_order@.len(),
                ins == instructions@,
                nodes@.len() == m + 1,
                instr_to_node@.len() == ins.len(),
                nodes@[0].instruction_index is None,
                edges_within(nodes@),
                forall|k: int| 0 <= k < nodes@.len() ==> match (#[trigger] nodes@[k]).instruction_index {
                    Some(j) => j < ins.len() && ins[j as int].opcode != Opcode::LineNumber,
                    None => k == 0,
                },
                forall|j: int| 0 <= j < m ==> #[trigger] node_order@[j] < ins.len()
                    && nodes@[j + 1].instruction_index == Some(node_order@[j]),
                map_within(instr_to_node@, nodes@.len() as int),
                forall|k: int| 0 <= k < return_nodes@.len() ==> #[trigger] return_nodes@[k] < nodes@.len()
                    && is_return_at(ins, nodes@[return_nodes@[k] as int].instruction_index),
            decreases m - oi,
        {
            let instr_idx = node_order[oi];
            let node_idx = oi + 1;
            let instr = &instructions[instr_idx];
            let is_terminal = instr.opcode == Opcode::Branch || instr.opcode == Opcode::Return
                || instr.opcode == Opcode::Jump || instr.opcode == Opcode::JumpWithParams;
            if is_branch_op(instr.opcode) {
                if let Operand::JumpTarget(target) = &instr.operand {
                    if let Some(target_node) = resolve_target_node(*target, instructions, &instr_to_node) {
                        proof {
                            lemma_target_within(ins, instr_to_node@, *target as int, nodes@.len() as int);
                        }
                        add_edge(&mut nodes, node_idx, target_node);
                    }
                }
            } else if instr.opcode == Opcode::Switch {
                if let Operand::SwitchTable(cases) = &instr.operand {
                    let mut c: usize = 0;
                    while c < cases.len()
                        invariant
                            c <= cases@.len(),
                            node_idx < nodes@.len(),
                            nodes@.len() == m + 1,
                            ins == instructions@,
                            instr_to_node@.len() == ins.len(),
                            nodes@[0].instruction_index is None,
                            edges_within(nodes@),
                            forall|k: int| 0 <= k < nodes@.len() ==> match (#[trigger] nodes@[k]).instruction_index {
                                Some(j) => j < ins.len() && ins[j as int].opcode != Opcode::LineNumber,
                                None => k == 0,
                            },
                            forall|j: int| 0 <= j < m ==> #[trigger] node_order@[j] < ins.len()
                                && nodes@[j + 1].instruction_index == Some(node_order@[j]),
                            map_within(instr_to_node@, nodes@.len() as int),
                            forall|k: int| 0 <= k < return_nodes@.len() ==> #[trigger] return_nodes@[k] < nodes@.len()
                                && is_return_at(ins, nodes@[return_nodes@[k] as int].instruction_index),
                        decreases cases@.len() - c,
                    {
                        let target = cases[c].1;
                        if let Some(target_node) = resolve_target_node(target, instructions, &instr_to_node) {
                            proof {
                                lemma_target_within(ins, instr_to_node@, target as int, nodes@.len() as int);
                            }
                            add_edge(&mut nodes, node_idx, target_node);
                        }
                        c += 1;
                    }
                }
            }
            if !is_terminal && oi + 1 < m {
                add_edge(&mut nodes, node_idx, oi + 2);
            }
            if instr.opcode == Opcode::Return {
                return_nodes.push(node_idx);
            }
            oi += 1;
        }
        let ghost before = nodes@;
        self.insert_pointer_nodes(instructions, &mut nodes, &instr_to_node, &node_order);
        proof {
            assert forall|k: int| 0 <= k < nodes@.len() implies match (#[trigger] nodes@[k]).instruction_index {
                Some(j) => j < ins.len(),
                None => true,
            } by {
                if k < before.len() {
                    assert(nodes@[k].instruction_index == before[k].instruction_index);
                }
            }
            assert forall|k: int| 0 <= k < return_nodes@.len() implies is_return_at(ins, (#[trigger] nodes@[return_nodes@[k] as int]).instruction_index) by {
                assert(nodes@[return_nodes@[k] as int].instruction_index == before[return_nodes@[k] as int].instruction_index);
            }
            assert forall|k: int| 0 <= k < nodes@.len() implies not_marker(ins, (#[trigger] nodes@[k]).instruction_index) by {
                if k < before.len() {
                    assert(nodes@[k].instruction_index == before[k].instruction_index);
                }
            }
        }
        let required = empty_lists();
        let set_list = empty_lists();
        let corrupted_list = empty_lists();
        ScriptAnalysis {
            script_idx,
            nodes,
            required,
            set_list,
            corrupted_list,
            set_nodes: Vec::new(),
            corrupted_nodes: Vec::new(),
            return_nodes,
        }
    }

    /// Where a command that sets pointers only on success is followed by a
    /// comparison of its result with a constant 0 or 1 and a `BranchEquals`,
    /// inserts a synthetic node with the command's pointers on the edge taken
    /// on success (see [`Self::try_insert_pointer_node`]).
    fn insert_pointer_nodes(
        &self,
        instructions: &Vec<Instruction>,
        nodes: &mut Vec<CfgNode>,
        instr_to_node: &Vec<Option<usize>>,
        node_order: &Vec<usize>,
    )
        requires
            edges_within(old(nodes)@),
            map_within(instr_to_node@, old(nodes)@.len() as int),
            instr_to_node@.len() == instructions@.len(),
            forall|j: int| 0 <= j < node_order@.len() ==> #[trigger] node_order@[j] < instructions@.len(),
        ensures
            edges_within(final(nodes)@),
            extends_nodes(old(nodes)@, final(nodes)@),
            ({
                let added = inserted_sets(
                    self.opcode_to_name@,
                    self.cmd_pointers@,
                    instructions@,
                    instr_to_node@,
                    node_order@,
                    node_order@.len() as int,
                );
                &&& final(nodes)@.len() == old(nodes)@.len() + added.len()
                &&& forall|k: int| 0 <= k < added.len() ==> #[trigger] final(nodes)@[old(nodes)@.len() + k].pointer_set == added[k]
                &&& forall|a: int| 0 <= a < old(nodes)@.len() ==> (#[trigger] final(nodes)@[a]).pointer_set
                    == old(nodes)@[a].pointer_set
            }),
    {
        let ghost tbl = self.opcode_to_name@;
        let ghost cmdp = self.cmd_pointers@;
        let mut we: usize = 2;
        while we < node_order.len()
            invariant
                2 <= we,
                we == 2 || we <= node_order@.len(),
                tbl == self.opcode_to_name@,
                cmdp == self.cmd_pointers@,
                nodes@.len() == old(nodes)@.len() + inserted_sets(tbl, cmdp, instructions@, instr_to_node@, node_order@, we as int).len(),
                forall|k: int| 0 <= k < inserted_sets(tbl, cmdp, instructions@, instr_to_node@, node_order@, we as int).len()
                    ==> #[trigger] nodes@[old(nodes)@.len() + k].pointer_set == inserted_sets(tbl, cmdp, instructions@, instr_to_node@, node_order@, we as int)[k],
                forall|a: int| 0 <= a < old(nodes)@.len() ==> (#[trigger] nodes@[a]).pointer_set == old(nodes)@[a].pointer_set,
                edges_within(nodes@),
                map_within(instr_to_node@, nodes@.len() as int),
                instr_to_node@.len() == instructions@.len(),
                forall|j: int| 0 <= j < node_order@.len() ==> #[trigger] node_order@[j] < instructions@.len(),
                extends_nodes(old(nodes)@, nodes@),
            decreases node_order@.len() - we,
        {
            let ghost mid = nodes@;
            self.try_insert_pointer_node(instructions, nodes, instr_to_node, node_order, we);
            proof {
                let before = inserted_sets(tbl, cmdp, instructions@, instr_to_node@, node_order@, we as int);
                let after = inserted_sets(tbl, cmdp, instructions@, instr_to_node@, node_order@, we + 1);
                assert forall|k: int| 0 <= k < after.len() implies #[trigger] nodes@[old(nodes)@.len() + k].pointer_set
                    == after[k] by {
                    if k < before.len() {
                        assert(nodes@[old(nodes)@.len() + k].pointer_set == mid[old(nodes)@.len() + k].pointer_set);
                    }
                }
                assert forall|a: int| 0 <= a < old(nodes)@.len() implies (#[trigger] nodes@[a]).pointer_set
                    == old(nodes)@[a].pointer_set by {
                    assert(nodes@[a].pointer_set == mid[a].pointer_set);
                }
                assert forall|k: int| 0 <= k < old(nodes)@.len() implies (#[trigger] nodes@[k]).instruction_index
                    == old(nodes)@[k].instruction_index by {
                    assert(nodes@[k].instruction_index == mid[k].instruction_index);
                }
                assert forall|k: int| old(nodes)@.len() <= k < nodes@.len() implies (#[trigger] nodes@[k]).instruction_index is None by {
                    if k < mid.len() {
                        assert(nodes@[k].instruction_index == mid[k].instruction_index);
                    }
                }
                assert forall|i: int| 0 <= i < instr_to_node@.len() implies match #[trigger] instr_to_node@[i] {
                    Some(k) => k < nodes@.len(),
                    None => true,
                } by {
                    assert(match instr_to_node@[i] {
                        Some(k) => k < mid.len(),
                        None => true,
                    });
                }
            }
            we += 1;
        }
        proof {
            let n = node_order@.len() as int;
            if n < 2 {
                assert(inserted_sets(tbl, cmdp, instructions@, instr_to_node@, node_order@, n) =~= Seq::<PointerSet>::empty());
                assert(inserted_sets(tbl, cmdp, instructions@, instr_to_node@, node_order@, we as int) =~= Seq::<PointerSet>::empty());
            } else {
                assert(we == n);
            }
        }
    }

    /// One window of [`Self::insert_pointer_nodes`]: the instructions at
    /// positions `we - 1` (a push of 0 or 1) and `we` (a `BranchEquals`), and
    /// the nearest command before them with no control flow in between.
    /// A push of 1 means the branch is taken on success: the synthetic node
    /// goes on the branch edge; a push of 0 puts it on the fallthrough edges.
    fn try_insert_pointer_node(
        &self,
        instructions: &Vec<Instruction>,
        nodes: &mut Vec<CfgNode>,
        instr_to_node: &Vec<Option<usize>>,
        node_order: &Vec<usize>,
        we: usize,
    )
        requires
            2 <= we < node_order@.len(),
            edges_within(old(nodes)@),
            map_within(instr_to_node@, old(nodes)@.len() as int),
            instr_to_node@.len() == instructions@.len(),
            forall|j: int| 0 <= j < node_order@.len() ==> #[trigger] node_order@[j] < instructions@.len(),
        ensures
            edges_within(final(nodes)@),
            extends_nodes(old(nodes)@, final(nodes)@),
            match pointer_insert_at(
                self.opcode_to_name@,
                self.cmd_pointers@,
                instructions@,
                instr_to_node@,
                node_order@,
                we as int,
            ) {
                Some(set) => {
                    &&& final(nodes)@.len() == old(nodes)@.len() + 1
                    &&& final(nodes)@[old(nodes)@.len() as int].pointer_set == set
                    &&& forall|a: int| 0 <= a < old(nodes)@.len() ==> (#[trigger] final(nodes)@[a]).pointer_set
                        == old(nodes)@[a].pointer_set
                },
                None => final(nodes)@ == old(nodes)@,
            },
    {
        let push_instr_idx = node_order[we - 1];
        let branch_instr_idx = node_order[we];
        let push_instr = &instructions[push_instr_idx];
        let branch_instr = &instructions[branch_instr_idx];
        let push_value: i32 = match &push_instr.operand {
            Operand::Int(v) => {
                if *v == 0 || *v == 1 {
                    *v
                } else {
                    return;
                }
            },
            _ => {
                return;
            },
        };
        if push_instr.opcode != Opcode::PushConstantInt {
            return;
        }
        if branch_instr.opcode != Opcode::BranchEquals {
            return;
        }
        let mut cmd_instr_idx: Option<usize> = None;
        let mut scan: usize = we - 1;
        let mut stopped = false;
        while scan > 0 && !stopped
            invariant
                scan < we,
                we < node_order@.len(),
                forall|j: int| 0 <= j < node_order@.len() ==> #[trigger] node_order@[j] < instructions@.len(),
                cmd_instr_idx matches Some(i) ==> i < instructions@.len(),
                !stopped ==> cmd_instr_idx is None && command_before(instructions@, node_order@, we - 1)
                    == command_before(instructions@, node_order@, scan as int),
                stopped ==> cmd_instr_idx == command_before(instructions@, node_order@, we - 1),
            decreases scan,
        {
            scan -= 1;
            let idx = node_order[scan];
            if instructions[idx].opcode == Opcode::Command {
                cmd_instr_idx = Some(idx);
                stopped = true;
            } else if is_flow_boundary(instructions[idx].opcode) {
                stopped = true;
            }
        }
        let cmd_idx = match cmd_instr_idx {
            Some(i) => i,
            None => {
                return;
            },
        };
        let name = match self.resolve_command_name(&instructions[cmd_idx]) {
            Some(n) => n,
            None => {
                return;
            },
        };
        let holder: PointerHolder = match self.cmd_pointers.get(name.as_str()) {
            Some(h) => *h,
            None => {
                return;
            },
        };
        if !holder.conditional_set {
            return;
        }
        if holder.set.is_empty() {
            return;
        }
        let branch_node_idx = match instr_to_node[branch_instr_idx] {
            Some(k) => k,
            None => {
                return;
            },
        };
        let ptr_node_idx = nodes.len();
        let ghost before = nodes@;
        nodes.push(CfgNode::pointer_node(holder.set));
        proof {
            assert forall|a: int, k: int|
                0 <= a < nodes@.len() && 0 <= k < nodes@[a].next@.len() implies (
                #[trigger] nodes@[a].next@[k]) < nodes@.len() by {
                assert(nodes@[a] == before[a]);
            }
            assert forall|a: int, k: int|
                0 <= a < nodes@.len() && 0 <= k < nodes@[a].previous@.len() implies (
                #[trigger] nodes@[a].previous@[k]) < nodes@.len() by {
                assert(nodes@[a] == before[a]);
            }
            assert forall|i: int| 0 <= i < instr_to_node@.len() implies match #[trigger] instr_to_node@[i] {
                Some(k) => k < nodes@.len(),
                None => true,
            } by {
                assert(match instr_to_node@[i] {
                    Some(k) => k < before.len(),
                    None => true,
                });
            }
        }
        let ghost pushed = nodes@;
        if push_value == 0 {
            let jump_node: Option<usize> = match &branch_instr.operand {
                Operand::JumpTarget(target) => resolve_target_node(*target, instructions, instr_to_node),
                _ => None,
            };
            let mut fallthrough: Vec<usize> = Vec::new();
            let mut k: usize = 0;
            while k < nodes[branch_node_idx].next.len()
                invariant
                    branch_node_idx < nodes@.len(),
                    k <= nodes@[branch_node_idx as int].next@.len(),
                    edges_within(nodes@),
                    forall|j: int| 0 <= j < fallthrough@.len() ==> #[trigger] fallthrough@[j] < nodes@.len(),
                decreases nodes@[branch_node_idx as int].next@.len() - k,
            {
                let t = nodes[branch_node_idx].next[k];
                let keep = match jump_node {
                    Some(j) => t != j,
                    None => true,
                };
                if keep {
                    fallthrough.push(t);
                }
                k += 1;
            }
            let mut f: usize = 0;
            while f < fallthrough.len()
                invariant
                    branch_node_idx < nodes@.len(),
                    ptr_node_idx < nodes@.len(),
                    nodes@.len() == pushed.len(),
                    edges_within(nodes@),
                    forall|j: int| 0 <= j < fallthrough@.len() ==> #[trigger] fallthrough@[j] < nodes@.len(),
                    forall|a: int| 0 <= a < pushed.len() ==> (#[trigger] nodes@[a]).instruction_index == pushed[a].instruction_index,
                    forall|a: int| 0 <= a < pushed.len() ==> (#[trigger] nodes@[a]).pointer_set == pushed[a].pointer_set,
                decreases fallthrough@.len() - f,
            {
                let target = fallthrough[f];
                remove_edge(nodes, branch_node_idx, target);
                add_edge(nodes, branch_node_idx, ptr_node_idx);
                add_edge(nodes, ptr_node_idx, target);
                f += 1;
            }
        } else {
            if let Operand::JumpTarget(target) = &branch_instr.operand {
                if let Some(jump_target_node) = resolve_target_node(*target, instructions, instr_to_node) {
                    proof {
                        lemma_target_within(instructions@, instr_to_node@, *target as int, nodes@.len() as int);
                    }
                    remove_edge(nodes, branch_node_idx, jump_target_node);
                    add_edge(nodes, branch_node_idx, ptr_node_idx);
                    add_edge(nodes, ptr_node_idx, jump_target_node);
                }
            }
        }
        proof {
            assert forall|a: int| 0 <= a < old(nodes)@.len() implies (#[trigger] nodes@[a]).instruction_index
                == old(nodes)@[a].instruction_index by {
                assert(nodes@[a].instruction_index == pushed[a].instruction_index);
                assert(pushed[a] == before[a]);
            }
            assert forall|a: int| old(nodes)@.len() <= a < nodes@.len() implies (#[trigger] nodes@[a]).instruction_index is None by {
                assert(nodes@[a].instruction_index == pushed[a].instruction_index);
            }
        }
    }
}

/// Records node `k` for pointer `p` in a list and its mask.
fn record(l: &mut Vec<Vec<usize>>, m: &mut Vec<Vec<bool>>, p: usize, k: usize, Ghost(n): Ghost<int>)
    requires
        n <= usize::MAX,
        lists_within(old(l)@, n),
        masks_sized(old(m)@, n),
        p < 22,
        k < n,
        forall|q: int, j: int|
            0 <= q < 22 && 0 <= j < n ==> (#[trigger] old(m)@[q]@[j] <==> old(l)@[q]@.contains(j as usize)),
    ensures
        lists_within(final(l)@, n),
        masks_sized(final(m)@, n),
        forall|q: int, j: int|
            0 <= q < 22 && 0 <= j < n ==> (#[trigger] final(m)@[q]@[j] <==> final(l)@[q]@.contains(j as usize)),
        final(l)@[p as int]@ == old(l)@[p as int]@.push(k),
        forall|q: int| 0 <= q < 22 && q != p ==> #[trigger] final(l)@[q] == old(l)@[q],
{
    let ghost ol = l@;
    add_to(l, p, k, Ghost(n));
    mark(m, p, k, Ghost(n));
    proof {
        assert forall|q: int, j: int|
            0 <= q < 22 && 0 <= j < n implies (#[trigger] m@[q]@[j] <==> l@[q]@.contains(j as usize)) by {
            if q == p {
                assert(l@[q]@ == ol[q]@.push(k));
                if j == k {
                    assert(l@[q]@[l@[q]@.len() - 1] == k);
                } else {
                    assert(ol[q]@.contains(j as usize) ==> l@[q]@.contains(j as usize)) by {
                        if ol[q]@.contains(j as usize) {
                            let t = choose|t: int| 0 <= t < ol[q]@.len() && ol[q]@[t] == j as usize;
                            assert(l@[q]@[t] == j as usize);
                        }
                    }
                    assert(l@[q]@.contains(j as usize) ==> ol[q]@.contains(j as usize)) by {
                        if l@[q]@.contains(j as usize) {
                            let t = choose|t: int| 0 <= t < l@[q]@.len() && l@[q]@[t] == j as usize;
                            if t >= ol[q]@.len() {
                                assert(l@[q]@[t] == k);
                            }
                            assert(ol[q]@[t] == j as usize);
                        }
                    }
                }
            }
        }
    }
}

/// The first script named `name`.
spec fn first_named(scripts: Seq<CompiledScript>, name: Seq<char>) -> Option<int> {
    if exists|i: int| 0 <= i < scripts.len() && (#[trigger] scripts[i]).name@ == name {
        Some(choose|i: int| 0 <= i < scripts.len() && scripts[i].name@ == name && forall|j: int| 0 <= j < i ==> (#[trigger] scripts[j]).name@ != name)
    } else {
        None
    }
}

/// The last script with id `id`.
spec fn last_with_id(scripts: Seq<CompiledScript>, id: i32) -> Option<int> {
    if exists|i: int| 0 <= i < scripts.len() && (#[trigger] scripts[i]).id == id {
        Some(choose|i: int| 0 <= i < scripts.len() && scripts[i].id == id && forall|j: int| i < j < scripts.len() ==> (#[trigger] scripts[j]).id != id)
    } else {
        None
    }
}

fn position_of_name(scripts: &[CompiledScript], name: &str) -> (r: Option<usize>)
    ensures
        match r {
            Some(i) => i < scripts@.len() && scripts@[i as int].name@ == name@ && first_named(scripts@, name@) == Some(i as int),
            None => first_named(scripts@, name@) is None && forall|i: int| 0 <= i < scripts@.len() ==> (#[trigger] scripts@[i]).name@ != name@,
        },
{
    let mut i: usize = 0;
    while i < scripts.len()
        invariant
            i <= scripts@.len(),
            forall|j: int| 0 <= j < i ==> (#[trigger] scripts@[j]).name@ != name@,
        decreases scripts@.len() - i,
    {
        if str_eq(scripts[i].name.as_str(), name) {
            proof {
                let c = choose|c: int| 0 <= c < scripts@.len() && scripts@[c].name@ == name@ && forall|j: int| 0 <= j < c ==> (#[trigger] scripts@[j]).name@ != name@;
                assert(!(c < i));
                assert(!(i < c)) by {
                    if i < c {
                        assert(scripts@[i as int].name@ != name@);
                    }
                }
            }
            return Some(i);
        }
        i += 1;
    }
    None
}

fn index_of_id(scripts: &[CompiledScript], id: i32) -> (r: Option<usize>)
    ensures
        match r {
            Some(i) => i < scripts@.len() && last_with_id(scripts@, id) == Some(i as int),
            None => last_with_id(scripts@, id) is None,
        },
{
    let mut i: usize = scripts.len();
    while i > 0
        invariant
            i <= scripts@.len(),
            forall|j: int| i <= j < scripts@.len() ==> (#[trigger] scripts@[j]).id != id,
        decreases i,
    {
        if scripts[i - 1].id == id {
            proof {
                let k = (i - 1) as int;
                assert(scripts@[k].id == id);
                let c = choose|c: int| 0 <= c < scripts@.len() && scripts@[c].id == id && forall|j: int| c < j < scripts@.len() ==> (#[trigger] scripts@[j]).id != id;
                assert(!(c < k)) by {
                    if c < k {
                        assert(scripts@[k].id != id);
                    }
                }
            }
            return Some(i - 1);
        }
        i -= 1;
    }
    None
}

/// The mask with only node 0 marked.
fn entry_mask(n: usize) -> (m: Vec<bool>)
    requires
        n >= 1,
    ensures
        m@.len() == n,
        forall|k: int| 0 <= k < n ==> m@[k] == (k == 0),
{
    let mut m: Vec<bool> = Vec::new();
    let mut k: usize = 0;
    while k < n
        invariant
            k <= n,
            m@.len() == k,
            forall|j: int| 0 <= j < k ==> m@[j] == (j == 0),
        decreases n - k,
    {
        m.push(k == 0);
        k += 1;
    }
    m
}

/// Whether any node is marked.
fn any_marked(m: &Vec<bool>) -> (b: bool)
    ensures
        b == exists|k: int| 0 <= k < m@.len() && m@[k],
{
    let mut k: usize = 0;
    while k < m.len()
        invariant
            k <= m@.len(),
            forall|j: int| 0 <= j < k ==> !m@[j],
        decreases m@.len() - k,
    {
        if m[k] {
            return true;
        }
        k += 1;
    }
    false
}

/// Whether a called script needs pointer `p` from its caller: some path from
/// its entry reaches a read of `p` without passing a setter of `p`.
spec fn summary_requires(a: ScriptAnalysis, p: int) -> bool {
    back_reachable(a.nodes@, a.required@[p]@, a.set_nodes@[p]@, 0)
}

/// Whether a called script leaves pointer `p` corrupted: some return is
/// reached from a corruptor of `p` without passing a setter of `p`.
spec fn summary_corrupts(a: ScriptAnalysis, p: int) -> bool {
    exists|j: int| back_reachable(a.nodes@, a.return_nodes@, a.set_nodes@[p]@, j) && #[trigger] a.corrupted_nodes@[p]@[j]
}

/// Whether a called script always returns with pointer `p` set: it has a
/// return, and no return is reached from its entry or from a corruptor of
/// `p` without passing a setter of `p`.
spec fn summary_sets(a: ScriptAnalysis, p: int) -> bool {
    &&& a.return_nodes@.len() > 0
    &&& !exists|j: int| back_reachable(a.nodes@, a.return_nodes@, a.set_nodes@[p]@, j) && #[trigger] exit_target(a.corrupted_nodes@[p]@, j)
}

/// The entry, or a node marked in `corrupts`.
spec fn exit_target(corrupts: Seq<bool>, j: int) -> bool {
    j == 0 || corrupts[j]
}

/// What calling a script with analysis `a` requires, sets and corrupts.
fn summarize(a: &ScriptAnalysis) -> (h: PointerHolder)
    requires
        edges_within(a.nodes@),
        a.nodes@.len() >= 1,
        marks_ok(*a),
        forall|k: int| 0 <= k < a.return_nodes@.len() ==> #[trigger] a.return_nodes@[k] < a.nodes@.len(),
    ensures
        !h.conditional_set,
        forall|p: PointerType| #[trigger] h.required@.contains(p) == summary_requires(*a, ptr_index(p) as int),
        forall|p: PointerType| #[trigger] h.set@.contains(p) == summary_sets(*a, ptr_index(p) as int),
        forall|p: PointerType| #[trigger] h.corrupted@.contains(p) == summary_corrupts(*a, ptr_index(p) as int),
{
    let n = a.nodes.len();
    let mut holder = PointerHolder::empty();
    let all = PointerType::all_types();
    let entry = entry_mask(n);
    let mut i: usize = 0;
    while i < 22
        invariant
            i <= 22,
            n == a.nodes@.len(),
            n >= 1,
            all@.len() == 22,
            forall|k: int| 0 <= k < 22 ==> all@[k] == crate::pointer::ptr_at(k as nat),
            entry@.len() == n,
            forall|k: int| 0 <= k < n ==> entry@[k] == (k == 0),
            edges_within(a.nodes@),
            marks_ok(*a),
            forall|k: int| 0 <= k < a.return_nodes@.len() ==> #[trigger] a.return_nodes@[k] < a.nodes@.len(),
            !holder.conditional_set,
            forall|p: PointerType| #[trigger] holder.required@.contains(p) == (ptr_index(p) < i && summary_requires(*a, ptr_index(p) as int)),
            forall|p: PointerType| #[trigger] holder.set@.contains(p) == (ptr_index(p) < i && summary_sets(*a, ptr_index(p) as int)),
            forall|p: PointerType| #[trigger] holder.corrupted@.contains(p) == (ptr_index(p) < i && summary_corrupts(*a, ptr_index(p) as int)),
        decreases 22 - i,
    {
        let ptr = all[i];
        proof {
            crate::pointer::lemma_ptr_at(i as nat);
        }
        let pi = ptr.index();
        let blocked = &a.set_nodes[pi];
        assert(blocked@ == a.set_nodes@[pi as int]@);
        assert(a.set_nodes@[pi as int]@.len() == n);
        assert(a.corrupted_nodes@[pi as int]@.len() == n);
        let required = &a.required[pi];
        proof {
            assert forall|k: int| 0 <= k < required@.len() implies #[trigger] required@[k] < n by {
                assert(a.required@[pi as int]@[k] < n);
            }
        }
        let needs = if required.len() > 0 {
            find_edge_path(&a.nodes, required, &entry, blocked).is_some()
        } else {
            false
        };
        proof {
            if required@.len() == 0 {
                assert forall|j: int| !back_reachable(a.nodes@, required@, blocked@, j) by {
                    assert forall|k: nat| !#[trigger] back_reach_in(a.nodes@, required@, blocked@, j, k) by {
                        lemma_no_starts(a.nodes@, required@, blocked@, j, k);
                    }
                }
            }
            if needs {
                let j = choose|j: int| back_reachable(a.nodes@, required@, blocked@, j) && #[trigger] entry@[j];
                assert(j == 0);
            } else if required@.len() > 0 {
                assert(!entry@[0] ==> false);
            }
        }
        if needs {
            holder.required.insert(ptr);
        }
        if a.return_nodes.len() > 0 {
            let mut reach_target: Vec<bool> = a.corrupted_nodes[pi].clone();
            reach_target.set(0, true);
            proof {
                assert forall|k: int| 0 <= k < a.return_nodes@.len() implies #[trigger] a.return_nodes@[k] < n by {}
            }
            let escapes = find_edge_path(&a.nodes, &a.return_nodes, &reach_target, blocked).is_some();
            proof {
                assert forall|j: int| 0 <= j < n implies (#[trigger] reach_target@[j] == (j == 0 || a.corrupted_nodes@[pi as int]@[j])) by {}
                if escapes {
                    let j = choose|j: int| back_reachable(a.nodes@, a.return_nodes@, blocked@, j) && #[trigger] reach_target@[j];
                    assert(0 <= j < n) by {
                        let k = choose|k: nat| #[trigger] back_reach_in(a.nodes@, a.return_nodes@, blocked@, j, k);
                    }
                }
            }
            proof {
                assert forall|j: int| back_reachable(a.nodes@, a.return_nodes@, blocked@, j) implies #[trigger] reach_target@[j]
                    == (j == 0 || a.corrupted_nodes@[pi as int]@[j]) by {
                    lemma_reach_bounds(a.nodes@, a.return_nodes@, blocked@, j);
                }
            }
            proof {
                let c = a.corrupted_nodes@[pi as int]@;
                if escapes {
                    let j = choose|j: int| back_reachable(a.nodes@, a.return_nodes@, blocked@, j) && #[trigger] reach_target@[j];
                    lemma_reach_bounds(a.nodes@, a.return_nodes@, blocked@, j);
                    assert(exit_target(c, j));
                    assert(!summary_sets(*a, pi as int));
                } else {
                    assert forall|j: int| back_reachable(a.nodes@, a.return_nodes@, blocked@, j) implies !#[trigger] exit_target(c, j) by {
                        lemma_reach_bounds(a.nodes@, a.return_nodes@, blocked@, j);
                        assert(reach_target@[j] == exit_target(c, j));
                    }
                    assert(summary_sets(*a, pi as int));
                }
            }
            if !escapes {
                holder.set.insert(ptr);
            }
            if any_marked(&a.corrupted_nodes[pi]) {
                let corrupts = find_edge_path(&a.nodes, &a.return_nodes, &a.corrupted_nodes[pi], blocked).is_some();
                if corrupts {
                    holder.corrupted.insert(ptr);
                }
            } else {
                proof {
                    assert forall|j: int| !(back_reachable(a.nodes@, a.return_nodes@, blocked@, j) && #[trigger] a.corrupted_nodes@[pi as int]@[j]) by {
                        if back_reachable(a.nodes@, a.return_nodes@, blocked@, j) {
                            let k = choose|k: nat| #[trigger] back_reach_in(a.nodes@, a.return_nodes@, blocked@, j, k);
                            assert(0 <= j < n);
                        }
                    }
                }
            }
        } else {
            proof {
                assert forall|j: int| !back_reachable(a.nodes@, a.return_nodes@, blocked@, j) by {
                    assert forall|k: nat| !#[trigger] back_reach_in(a.nodes@, a.return_nodes@, blocked@, j, k) by {
                        lemma_no_starts(a.nodes@, a.return_nodes@, blocked@, j, k);
                    }
                }
            }
        }
        proof {
            assert forall|p: PointerType| #[trigger] holder.required@.contains(p) == (ptr_index(p) < i + 1 && summary_requires(*a, ptr_index(p) as int)) by {
                crate::pointer::lemma_ptr_index(p);
            }
            assert forall|p: PointerType| #[trigger] holder.set@.contains(p) == (ptr_index(p) < i + 1 && summary_sets(*a, ptr_index(p) as int)) by {
                crate::pointer::lemma_ptr_index(p);
            }
            assert forall|p: PointerType| #[trigger] holder.corrupted@.contains(p) == (ptr_index(p) < i + 1 && summary_corrupts(*a, ptr_index(p) as int)) by {
                crate::pointer::lemma_ptr_index(p);
            }
        }
        i += 1;
    }
    proof {
        assert forall|p: PointerType| #[trigger] holder.required@.contains(p) == summary_requires(*a, ptr_index(p) as int) by {
            crate::pointer::lemma_ptr_index(p);
        }
        assert forall|p: PointerType| #[trigger] holder.set@.contains(p) == summary_sets(*a, ptr_index(p) as int) by {
            crate::pointer::lemma_ptr_index(p);
        }
        assert forall|p: PointerType| #[trigger] holder.corrupted@.contains(p) == summary_corrupts(*a, ptr_index(p) as int) by {
            crate::pointer::lemma_ptr_index(p);
        }
    }
    holder
}

proof fn lemma_no_starts(nodes: Seq<CfgNode>, starts: Seq<usize>, blocked: Seq<bool>, j: int, k: nat)
    requires
        starts.len() == 0,
    ensures
        !back_reach_in(nodes, starts, blocked, j, k),
    decreases k,
{
    if back_reach_in(nodes, starts, blocked, j, k) {
        if exists|s: int| 0 <= s < starts.len() && #[trigger] pred_of(nodes, starts[s] as int, j) {
            let s = choose|s: int| 0 <= s < starts.len() && #[trigger] pred_of(nodes, starts[s] as int, j);
            assert(false);
        } else {
            let i = choose|i: int|
                back_reach_in(nodes, starts, blocked, i, (k - 1) as nat) && #[trigger] pred_of(nodes, i, j);
            lemma_no_starts(nodes, starts, blocked, i, (k - 1) as nat);
        }
    }
}

proof fn lemma_reach_bounds(nodes: Seq<CfgNode>, starts: Seq<usize>, blocked: Seq<bool>, j: int)
    requires
        back_reachable(nodes, starts, blocked, j),
    ensures
        0 <= j < blocked.len(),
        !blocked[j],
{
    let k = choose|k: nat| #[trigger] back_reach_in(nodes, starts, blocked, j, k);
}

/// Records node `node_idx` as requiring, setting and corrupting what `holder`
/// says, pointer by pointer in position order.
fn apply_holder(analysis: &mut ScriptAnalysis, node_idx: usize, holder: &PointerHolder)
    requires
        marks_ok(*old(analysis)),
        node_idx < old(analysis).nodes@.len(),
    ensures
        marks_ok(*final(analysis)),
        final(analysis).nodes == old(analysis).nodes,
        final(analysis).return_nodes == old(analysis).return_nodes,
        final(analysis).script_idx == old(analysis).script_idx,
        forall|p: int| 0 <= p < 22 ==> (#[trigger] final(analysis).required@[p])@ == if holder.required@.contains(crate::pointer::ptr_at(p as nat)) {
            old(analysis).required@[p]@.push(node_idx)
        } else {
            old(analysis).required@[p]@
        },
        forall|p: int| 0 <= p < 22 ==> (#[trigger] final(analysis).set_list@[p])@ == if holder.set@.contains(crate::pointer::ptr_at(p as nat)) {
            old(analysis).set_list@[p]@.push(node_idx)
        } else {
            old(analysis).set_list@[p]@
        },
        forall|p: int| 0 <= p < 22 ==> (#[trigger] final(analysis).corrupted_list@[p])@ == if holder.corrupted@.contains(crate::pointer::ptr_at(p as nat)) {
            old(analysis).corrupted_list@[p]@.push(node_idx)
        } else {
            old(analysis).corrupted_list@[p]@
        },
        forall|p: int| 0 <= p < 22 ==> (#[trigger] final(analysis).set_nodes@[p])@[node_idx as int] == (
            old(analysis).set_nodes@[p]@[node_idx as int] || holder.set@.contains(crate::pointer::ptr_at(p as nat))),
        forall|p: int| 0 <= p < 22 ==> (#[trigger] final(analysis).corrupted_nodes@[p])@[node_idx as int] == (
            old(analysis).corrupted_nodes@[p]@[node_idx as int] || holder.corrupted@.contains(crate::pointer::ptr_at(p as nat))),
{
    let n = analysis.nodes.len();
    let all = PointerType::all_types();
    let mut i: usize = 0;
    while i < 22
        invariant
            i <= 22,
            n == analysis.nodes@.len(),
            node_idx < n,
            all@.len() == 22,
            forall|k: int| 0 <= k < 22 ==> all@[k] == crate::pointer::ptr_at(k as nat),
            marks_ok(*analysis),
            analysis.nodes == old(analysis).nodes,
            analysis.return_nodes == old(analysis).return_nodes,
            analysis.script_idx == old(analysis).script_idx,
            forall|p: int| 0 <= p < 22 ==> (#[trigger] analysis.required@[p])@ == if p < i && holder.required@.contains(crate::pointer::ptr_at(p as nat)) {
                old(analysis).required@[p]@.push(node_idx)
            } else {
                old(analysis).required@[p]@
            },
            forall|p: int| 0 <= p < 22 ==> (#[trigger] analysis.set_list@[p])@ == if p < i && holder.set@.contains(crate::pointer::ptr_at(p as nat)) {
                old(analysis).set_list@[p]@.push(node_idx)
            } else {
                old(analysis).set_list@[p]@
            },
            forall|p: int| 0 <= p < 22 ==> (#[trigger] analysis.corrupted_list@[p])@ == if p < i && holder.corrupted@.contains(crate::pointer::ptr_at(p as nat)) {
                old(analysis).corrupted_list@[p]@.push(node_idx)
            } else {
                old(analysis).corrupted_list@[p]@
            },
        decreases 22 - i,
    {
        let ptr = all[i];
        proof {
            crate::pointer::lemma_ptr_at(i as nat);
        }
        let pi = ptr.index();
        if holder.required.contains(ptr) {
            add_to(&mut analysis.required, pi, node_idx, Ghost(n as int));
        }
        if holder.set.contains(ptr) {
            record(&mut analysis.set_list, &mut analysis.set_nodes, pi, node_idx, Ghost(n as int));
        }
        if holder.corrupted.contains(ptr) {
            record(&mut analysis.corrupted_list, &mut analysis.corrupted_nodes, pi, node_idx, Ghost(n as int));
        }
        i += 1;
    }
    proof {
        assert forall|p: int| 0 <= p < 22 implies (#[trigger] analysis.set_nodes@[p])@[node_idx as int] == (
            old(analysis).set_nodes@[p]@[node_idx as int] || holder.set@.contains(crate::pointer::ptr_at(p as nat))) by {
            let x = node_idx as usize;
            if holder.set@.contains(crate::pointer::ptr_at(p as nat)) {
                assert(analysis.set_list@[p]@.last() == x);
                assert(analysis.set_list@[p]@.contains(x));
            } else {
                assert(analysis.set_list@[p]@.contains(x) == old(analysis).set_list@[p]@.contains(x));
            }
        }
        assert forall|p: int| 0 <= p < 22 implies (#[trigger] analysis.corrupted_nodes@[p])@[node_idx as int] == (
            old(analysis).corrupted_nodes@[p]@[node_idx as int] || holder.corrupted@.contains(crate::pointer::ptr_at(p as nat))) by {
            let x = node_idx as usize;
            if holder.corrupted@.contains(crate::pointer::ptr_at(p as nat)) {
                assert(analysis.corrupted_list@[p]@.last() == x);
                assert(analysis.corrupted_list@[p]@.contains(x));
            } else {
                assert(analysis.corrupted_list@[p]@.contains(x) == old(analysis).corrupted_list@[p]@.contains(x));
            }
        }
    }
}

/// The pointer a game-variable access needs: the primary or secondary form
/// of `primary`.
fn var_pointer(primary: PointerType, secondary: PointerType, operand: &Operand) -> (p: PointerType)
    ensures
        p == if secondary_operand(*operand) { secondary } else { primary },
{
    if is_secondary_var_operand(operand) {
        secondary
    } else {
        primary
    }
}

impl<'a> PointerChecker<'a> {
    fn is_pending_analysis(&self, name: &str) -> (b: bool)
        ensures
            b == pending_in(self.pending_analyses@, name@),
    {
        match self.pending_analyses.get(name) {
            Some(v) => *v,
            None => false,
        }
    }

    fn is_pending_script(&self, name: &str) -> (b: bool)
        ensures
            b == pending_in(self.pending_scripts@, name@),
    {
        match self.pending_scripts.get(name) {
            Some(v) => *v,
            None => false,
        }
    }

    /// Analyses the script named `script_name` unless it has been analysed
    /// or its analysis is under way.
    #[verifier::rlimit(40)]
    fn ensure_analysis(&mut self, script_name: &str)
        requires
            old(self).wf(),
        ensures
            final(self).wf(),
            Self::same_pending(old(self), final(self)),
            (first_named(old(self).scripts@, script_name@) is Some && !pending_in(old(self).pending_analyses@, script_name@))
                ==> final(self).script_analyses@.contains_key(script_name@),
        decreases old(self).free(), 0nat,
    {
        if self.script_analyses.contains_key(script_name) {
            return;
        }
        if self.is_pending_analysis(script_name) {
            return;
        }
        let idx = match position_of_name(self.scripts, script_name) {
            Some(i) => i,
            None => {
                self.pending_analyses.insert(to_owned_string(script_name), true);
                return;
            },
        };
        proof {
            lemma_free_insert(self.scripts@, self.pending_analyses@, idx as int);
        }
        let ghost entry = self.pending_analyses@;
        self.pending_analyses.insert(to_owned_string(script_name), true);
        let mut analysis = self.build_cfg(idx);
        let ghost mid = *self;
        self.categorize_nodes(idx, &mut analysis);
        let ghost mid2 = self.pending_analyses@;
        let ghost before_insert = self.script_analyses@;
        self.script_analyses.insert(to_owned_string(script_name), analysis);
        self.pending_analyses.insert(to_owned_string(script_name), false);
        proof {
            assert forall|k: Seq<char>| #[trigger] old(self).script_analyses@.contains_key(k) implies self.script_analyses@.contains_key(k)
                && self.script_analyses@[k] == old(self).script_analyses@[k] by {
                assert(k != script_name@);
                assert(mid.script_analyses@.contains_key(k));
                assert(before_insert.contains_key(k));
            }
            assert forall|i: int| 0 <= i < old(self).scripts@.len() implies pending_in(old(self).pending_analyses@, #[trigger] old(self).scripts@[i].name@)
                == pending_in(self.pending_analyses@, old(self).scripts@[i].name@) by {
                let k = old(self).scripts@[i].name@;
                if k != script_name@ {
                    assert(pending_in(mid.pending_analyses@, k) == pending_in(mid2, k));
                }
            }
        }
    }

    /// Fills in which nodes of the graph of script `script_idx` require, set
    /// and corrupt which pointers: commands by their table entry, calls and
    /// jumps by what the called script does, and game-variable accesses by
    /// the player or npc pointer they read through.
    fn categorize_nodes(&mut self, script_idx: usize, analysis: &mut ScriptAnalysis)
        requires
            old(self).wf(),
            script_idx < old(self).scripts@.len(),
            graph_ok(*old(analysis), old(self).scripts@[script_idx as int].instructions@.len() as int),
            old(analysis).script_idx == script_idx,
            forall|p: int| 0 <= p < 22 ==> (#[trigger] old(analysis).set_list@[p])@.len() == 0,
            forall|p: int| 0 <= p < 22 ==> (#[trigger] old(analysis).corrupted_list@[p])@.len() == 0,
        ensures
            final(self).wf(),
            Self::same_pending(old(self), final(self)),
            analysis_ok(*final(analysis), old(self).scripts@[script_idx as int].instructions@.len() as int),
            final(analysis).script_idx == script_idx,
            final(analysis).nodes == old(analysis).nodes,
            final(analysis).return_nodes == old(analysis).return_nodes,
            var_reads_recorded(*final(analysis), old(self).scripts@[script_idx as int].instructions@),
        decreases old(self).free(), 2nat,
    {
        let scripts: &'a [CompiledScript] = self.scripts;
        let instructions = &scripts[script_idx].instructions;
        let ghost n_ins = instructions@.len() as int;
        let n = analysis.nodes.len();
        analysis.set_nodes = empty_masks(n);
        analysis.corrupted_nodes = empty_masks(n);
        proof {
            assert forall|p: int, k: int| 0 <= p < 22 && 0 <= k < n implies (#[trigger] analysis.set_nodes@[p]@[k] <==> analysis.set_list@[p]@.contains(k as usize)) by {}
            assert forall|p: int, k: int| 0 <= p < 22 && 0 <= k < n implies (#[trigger] analysis.corrupted_nodes@[p]@[k] <==> analysis.corrupted_list@[p]@.contains(k as usize)) by {}
        }
        let all = PointerType::all_types();
        let mut node_idx: usize = 0;
        while node_idx < n
            invariant
                node_idx <= n,
                n == analysis.nodes@.len(),
                scripts == self.scripts,
                scripts == old(self).scripts,
                script_idx < scripts@.len(),
                instructions == scripts@[script_idx as int].instructions,
                n_ins == instructions@.len(),
                all@.len() == 22,
                forall|k: int| 0 <= k < 22 ==> all@[k] == crate::pointer::ptr_at(k as nat),
                self.wf(),
                Self::same_pending(old(self), self),
                graph_ok(*analysis, n_ins),
                marks_ok(*analysis),
                analysis.script_idx == script_idx,
                analysis.nodes == old(analysis).nodes,
                analysis.return_nodes == old(analysis).return_nodes,
                analysis.required@.len() == 22,
                forall|k: int|
                    0 <= k < node_idx ==> match (#[trigger] analysis.nodes@[k]).instruction_index {
                        Some(x) => x < instructions@.len() ==> match var_read_pointer(instructions@[x as int]) {
                            Some(p) => analysis.required@[ptr_index(p) as int]@.contains(k as usize),
                            None => true,
                        },
                        None => true,
                    },
            decreases n - node_idx,
        {
            let ghost req0 = analysis.required@;
            match analysis.nodes[node_idx].instruction_index {
                None => {
                    let ptr_set = analysis.nodes[node_idx].pointer_set;
                    if !ptr_set.is_empty() {
                        let mut i: usize = 0;
                        while i < 22
                            invariant
                                i <= 22,
                                node_idx < n,
                                n == analysis.nodes@.len(),
                                all@.len() == 22,
                                analysis.required@ == req0,
                                marks_ok(*analysis),
                                graph_ok(*analysis, n_ins),
                                analysis.script_idx == script_idx,
                                analysis.nodes == old(analysis).nodes,
                                analysis.return_nodes == old(analysis).return_nodes,
                            decreases 22 - i,
                        {
                            let ptr = all[i];
                            if ptr_set.contains(ptr) {
                                let pi = ptr.index();
                                record(&mut analysis.set_list, &mut analysis.set_nodes, pi, node_idx, Ghost(n as int));
                            }
                            i += 1;
                        }
                    }
                },
                Some(instr_idx) => {
                    assert(instr_idx < n_ins);
                    let instr = &instructions[instr_idx];
                    if instr.opcode == Opcode::Command {
                        if let Some(name) = self.resolve_command_name(instr) {
                            if let Some(h) = self.cmd_pointers.get(name.as_str()) {
                                let holder: PointerHolder = *h;
                                apply_holder(analysis, node_idx, &holder);
                            }
                        }
                    } else if instr.opcode == Opcode::Gosub || instr.opcode == Opcode::GosubWithParams
                        || instr.opcode == Opcode::Jump || instr.opcode == Opcode::JumpWithParams {
                        if let Operand::Int(script_id) = &instr.operand {
                            proof {
                                lemma_free_same(old(self).scripts@, old(self).pending_analyses@, self.pending_analyses@);
                            }
                            let callee_holder = self.get_script_pointers(*script_id);
                            apply_holder(analysis, node_idx, &callee_holder);
                        }
                    } else if instr.opcode == Opcode::PushVarp || instr.opcode == Opcode::PushVarbit
                        || instr.opcode == Opcode::PopVarp || instr.opcode == Opcode::PopVarbit {
                        let ptr = var_pointer(PointerType::ActivePlayer, PointerType::ActivePlayer2, &instr.operand);
                        add_to(&mut analysis.required, ptr.index(), node_idx, Ghost(n as int));
                        proof {
                            assert(var_read_pointer(instructions@[instr_idx as int]) == Some(ptr));
                            assert(analysis.required@[ptr_index(ptr) as int]@.last() == node_idx);
                            assert(analysis.required@[ptr_index(ptr) as int]@.contains(node_idx));
                        }
                    } else if instr.opcode == Opcode::PushVarn || instr.opcode == Opcode::PopVarn {
                        let ptr = var_pointer(PointerType::ActiveNpc, PointerType::ActiveNpc2, &instr.operand);
                        add_to(&mut analysis.required, ptr.index(), node_idx, Ghost(n as int));
                        proof {
                            assert(var_read_pointer(instructions@[instr_idx as int]) == Some(ptr));
                            assert(analysis.required@[ptr_index(ptr) as int]@.last() == node_idx);
                            assert(analysis.required@[ptr_index(ptr) as int]@.contains(node_idx));
                        }
                    }
                },
            }
            proof {
                assert(forall|p: int| 0 <= p < 22 ==> #[trigger] analysis.required@[p]@ == req0[p]@
                    || analysis.required@[p]@ == req0[p]@.push(node_idx));
                assert forall|p: int, w: int| 0 <= p < 22 && 0 <= w < req0[p]@.len() implies analysis.required@[p]@.contains(
                    #[trigger] req0[p]@[w],
                ) by {
                    if analysis.required@[p]@ != req0[p]@ {
                        assert(analysis.required@[p]@ == req0[p]@.push(node_idx));
                    }
                    assert(analysis.required@[p]@[w] == req0[p]@[w]);
                }
                assert forall|k: int|
                    0 <= k < node_idx + 1 implies match (#[trigger] analysis.nodes@[k]).instruction_index {
                        Some(x) => x < instructions@.len() ==> match var_read_pointer(instructions@[x as int]) {
                            Some(p) => analysis.required@[ptr_index(p) as int]@.contains(k as usize),
                            None => true,
                        },
                        None => true,
                    } by {
                    if k < node_idx {
                        if let Some(x) = analysis.nodes@[k].instruction_index {
                            if x < instructions@.len() {
                                if let Some(p) = var_read_pointer(instructions@[x as int]) {
                                    crate::pointer::lemma_ptr_index(p);
                                    let pi = ptr_index(p) as int;
                                    let w = choose|w: int| 0 <= w < req0[pi]@.len() && req0[pi]@[w] == k as usize;
                                    assert(analysis.required@[pi]@.contains(req0[pi]@[w]));
                                }
                            }
                        }
                    }
                }
            }
            node_idx += 1;
        }
    }

    /// What calling the script with id `script_id` requires, sets and
    /// corrupts (see [`summarize`]); nothing for an unknown id, or for a
    /// script whose summary is already being computed further up (a cycle).
    /// Summaries are cached by script name.
    #[verifier::rlimit(40)]
    fn get_script_pointers(&mut self, script_id: i32) -> (h: PointerHolder)
        requires
            old(self).wf(),
        ensures
            final(self).wf(),
            Self::same_pending(old(self), final(self)),
            last_with_id(old(self).scripts@, script_id) is None ==> h@ == no_pointers(),
            last_with_id(old(self).scripts@, script_id) matches Some(i) ==> {
                let name = old(self).scripts@[i].name@;
                if old(self).script_pointers@.contains_key(name) {
                    h == old(self).script_pointers@[name]
                } else if pending_in(old(self).pending_scripts@, name) {
                    h@ == no_pointers()
                } else {
                    &&& final(self).script_pointers@.contains_key(name)
                    &&& final(self).script_pointers@[name] == h
                    &&& final(self).script_analyses@.contains_key(name) ==> summarizes(h, final(self).script_analyses@[name])
                    &&& !final(self).script_analyses@.contains_key(name) ==> h@ == no_pointers()
                }
            },
        decreases old(self).free(), 1nat,
    {
        let script_idx = match index_of_id(self.scripts, script_id) {
            Some(i) => i,
            None => {
                return PointerHolder::empty();
            },
        };
        let script_name = to_owned_string(self.scripts[script_idx].name.as_str());
        if let Some(holder) = self.script_pointers.get(script_name.as_str()) {
            return *holder;
        }
        if self.is_pending_script(script_name.as_str()) {
            return PointerHolder::empty();
        }
        self.pending_scripts.insert(to_owned_string(script_name.as_str()), true);
        proof {
            lemma_free_same(old(self).scripts@, old(self).pending_analyses@, self.pending_analyses@);
        }
        let ghost pre = *self;
        self.ensure_analysis(script_name.as_str());
        let ghost post = *self;
        proof {
            assert forall|k: Seq<char>| #[trigger] old(self).script_analyses@.contains_key(k) implies post.script_analyses@.contains_key(k)
                && post.script_analyses@[k] == old(self).script_analyses@[k] by {
                assert(pre.script_analyses@.contains_key(k));
            }
        }
        let holder = match self.script_analyses.get(script_name.as_str()) {
            Some(analysis) => summarize(analysis),
            None => PointerHolder::empty(),
        };
        self.pending_scripts.insert(to_owned_string(script_name.as_str()), false);
        self.script_pointers.insert(script_name, holder);
        holder
    }
}

// ── Suggested fixes ────────────────────────────────────────────────────────

/// Line `k` (1-based) of `src`, if there is one.
pub open spec fn source_line(src: Seq<char>, k: usize) -> Option<Seq<char>> {
    if 1 <= k <= line_count(src) {
        Some(line_at(src, k - 1))
    } else {
        None
    }
}

/// The help text suggesting to pass `ptr` to `callee` as a parameter.
pub open spec fn rule_a_message(callee: Seq<char>, ptr: Seq<char>, phrase: Seq<char>, ty: Seq<char>, pname: Seq<char>) -> Seq<char> {
    "`"@ + callee + "` reads `"@ + ptr + "` then "@ + phrase
        + "; the script still compiles and runs, but the reference is brittle to reorder. Consider capturing `"@
        + ptr + "` at the call site and threading it through `"@ + callee + "` as an `"@ + ty + " "@ + pname
        + "` parameter so the value is explicit and stable."@
}

/// The rewrite of line `line` of the cached source at `path` by `rewrite`, if
/// the source and the line are there and the rewrite applies.
pub open spec fn cached_line(cache: Option<&StrMap<String>>, path: Seq<char>, line: usize) -> Option<Seq<char>> {
    match cached_source(cache, path) {
        Some(src) => source_line(src, line),
        None => None,
    }
}

/// The name of a script for display: its name half, else the full name.
pub open spec fn display_name(full: Seq<char>) -> Seq<char> {
    match short_name_spec(full) {
        Some(n) => n,
        None => full,
    }
}

fn display_script_name(full: &str) -> (r: String)
    ensures
        r@ == display_name(full@),
{
    match short_script_name(full) {
        Some(n) => n,
        None => to_owned_string(full),
    }
}

fn cached_source_line(cache: Option<&StrMap<String>>, path: &str, line: usize) -> (r: Option<String>)
    ensures
        match r {
            Some(t) => cached_line(cache, path@, line) == Some(t@),
            None => cached_line(cache, path@, line) is None,
        },
{
    match crate::lints::source_of(cache, path) {
        Some(src) => nth_source_line(src.as_str(), line),
        None => None,
    }
}

/// The calls a jump or gosub instruction makes: whether it is a gosub, and
/// the callee's id.
spec fn call_of(instr: Instruction) -> Option<(bool, i32)> {
    if instr.opcode == Opcode::Jump || instr.opcode == Opcode::JumpWithParams {
        match instr.operand {
            Operand::Int(id) => Some((false, id)),
            _ => None,
        }
    } else if instr.opcode == Opcode::Gosub || instr.opcode == Opcode::GosubWithParams {
        match instr.operand {
            Operand::Int(id) => Some((true, id)),
            _ => None,
        }
    } else {
        None
    }
}

impl<'a> PointerChecker<'a> {
    /// The calls in the script `callee_idx` that corrupt `ptr`: each command
    /// by name, each gosub as `~name`, with its source line, each pair once.
    fn corruptors_in_callee(&self, callee_idx: usize, ptr: PointerType) -> (r: Vec<(String, usize)>)
        requires
            self.wf(),
            callee_idx < self.scripts@.len(),
        ensures
            pairs_view(r@) == (match self.script_analyses@.get(self.scripts@[callee_idx as int].name@) {
                Some(a) => corruptor_pairs(
                    self.opcode_to_name@,
                    self.scripts@,
                    a,
                    self.scripts@[a.script_idx as int].instructions@,
                    a.corrupted_list@[ptr_index(ptr) as int]@,
                ),
                None => Seq::empty(),
            }),
    {
        let mut result: Vec<(String, usize)> = Vec::new();
        let callee = &self.scripts[callee_idx];
        let analysis = match self.script_analyses.get(callee.name.as_str()) {
            Some(a) => a,
            None => {
                return result;
            },
        };
        let instructions = &self.scripts[analysis.script_idx].instructions;
        let pi = ptr.index();
        let list = &analysis.corrupted_list[pi];
        let ghost tbl = self.opcode_to_name@;
        let ghost scr = self.scripts@;
        proof {
            assert(pairs_view(result@) =~= Seq::<(Seq<char>, usize)>::empty());
            assert(list@.take(0) =~= Seq::<usize>::empty());
        }
        let mut k: usize = 0;
        while k < list.len()
            invariant
                k <= list@.len(),
                analysis_ok(*analysis, instructions@.len() as int),
                pi < 22,
                list == analysis.corrupted_list@[pi as int],
                tbl == self.opcode_to_name@,
                scr == self.scripts@,
                pairs_view(result@) == corruptor_pairs(tbl, scr, *analysis, instructions@, list@.take(k as int)),
            decreases list@.len() - k,
        {
            let ghost before = pairs_view(result@);
            proof {
                assert(list@.take(k + 1).drop_last() =~= list@.take(k as int));
                assert(list@.take(k + 1).last() == list@[k as int]);
            }
            let node_idx = list[k];
            assert(node_idx < analysis.nodes@.len());
            if let Some(instr_idx) = analysis.nodes[node_idx].instruction_index {
                assert(instr_idx < instructions@.len());
                let instr = &instructions[instr_idx];
                let line = resolve_line(instructions, instr_idx);
                let name: Option<String> = if instr.opcode == Opcode::Command {
                    self.resolve_command_name(instr)
                } else if instr.opcode == Opcode::Gosub || instr.opcode == Opcode::GosubWithParams {
                    match &instr.operand {
                        Operand::Int(id) => match index_of_id(self.scripts, *id) {
                            Some(target_idx) => {
                                let full = self.scripts[target_idx].name.as_str();
                                match short_script_name(full) {
                                    Some(short) => {
                                        let mut shown = String::new();
                                        crate::strings::push_char(&mut shown, '~');
                                        push_str(&mut shown, short.as_str());
                                        Some(shown)
                                    },
                                    None => Some(to_owned_string(full)),
                                }
                            },
                            None => None,
                        },
                        _ => None,
                    }
                } else {
                    None
                };
                proof {
                    assert(name matches Some(n) ==> corruptor_name(tbl, scr, *instr) == Some(n@)) by {
                        if instr.opcode != Opcode::Command && (instr.opcode == Opcode::Gosub || instr.opcode
                            == Opcode::GosubWithParams) {
                            reveal_strlit("~");
                        }
                    }
                    assert(name is None ==> corruptor_name(tbl, scr, *instr) is None);
                }
                if let Some(name) = name {
                    let ghost pair = (name@, line);
                    let dup = listed_pair(&result, name.as_str(), line);
                    proof {
                        assert(dup == before.contains(pair)) by {
                            if dup {
                                let j = choose|j: int| 0 <= j < result@.len() && (#[trigger] result@[j]).0@ == name@ && result@[j].1 == line;
                                assert(before[j] == pair);
                            }
                            if before.contains(pair) {
                                let j = choose|j: int| 0 <= j < before.len() && before[j] == pair;
                                assert(result@[j].0@ == name@ && result@[j].1 == line);
                            }
                        }
                    }
                    if !dup {
                        result.push((name, line));
                        proof {
                            assert(pairs_view(result@) =~= before.push(pair));
                        }
                    }
                }
            }
            k += 1;
        }
        proof {
            assert(list@.take(list@.len() as int) =~= list@);
        }
        result
    }

    /// For a jump or gosub at node `node_idx` of the caller's analysis that
    /// reads and then supersedes the static pointer `ptr`: a help that names
    /// the callee and its corruptors and suggests passing the pointer's value
    /// as a parameter, with concrete rewrites of the call line and the
    /// callee's header where the source text is attached. `None` when the
    /// node is not such a call or the callee is unknown.
    fn build_rule_a_help(
        &self,
        ptr: PointerType,
        caller_source_path: &str,
        caller_line: usize,
        node_idx: usize,
        analysis: &ScriptAnalysis,
    ) -> (r: Option<Help>)
        requires
            self.wf(),
            analysis.script_idx < self.scripts@.len(),
            analysis_ok(*analysis, self.scripts@[analysis.script_idx as int].instructions@.len() as int),
            node_idx < analysis.nodes@.len(),
        ensures
            r is Some <==> (match analysis.nodes@[node_idx as int].instruction_index {
                Some(i) => match call_of(self.scripts@[analysis.script_idx as int].instructions@[i as int]) {
                    Some((_, id)) => last_with_id(self.scripts@, id) is Some,
                    None => false,
                },
                None => false,
            }),
            r matches Some(h) ==> {
                let i = analysis.nodes@[node_idx as int].instruction_index->Some_0;
                let (is_gosub, id) = call_of(self.scripts@[analysis.script_idx as int].instructions@[i as int])->Some_0;
                let callee = self.scripts@[last_with_id(self.scripts@, id)->Some_0];
                let short = display_name(callee.name@);
                let pname = seq!['$'] + ptr_repr(ptr);
                let arrow = if is_gosub { "~"@ } else { "@"@ };
                &&& exists|c: Seq<(Seq<char>, usize)>| h.message@ == rule_a_message(short, ptr_repr(ptr), corruptors_clause(c), param_type_of(ptr), pname)
                &&& h.applicability == if self.source_cache is None { Applicability::Unspecified } else { Applicability::MaybeIncorrect }
                &&& self.source_cache is None ==> h.suggestions@.len() == 0
                &&& self.source_cache is Some ==> {
                    let call = match cached_line(self.source_cache, caller_source_path@, caller_line) {
                        Some(t) => call_site_rewrite(t, arrow, short, ptr_repr(ptr)),
                        None => None,
                    };
                    let header_line = header_of(&callee, cached_source(self.source_cache, callee.source_path@));
                    let head = match cached_line(self.source_cache, callee.source_path@, header_line) {
                        Some(t) => header_rewrite(t, short, param_type_of(ptr), pname),
                        None => None,
                    };
                    &&& h.suggestions@.len() == (if call is Some { 1int } else { 0int }) + (if head is Some { 1int } else { 0int })
                    &&& call matches Some(text) ==> {
                        &&& h.suggestions@[0].file@ == caller_source_path@
                        &&& h.suggestions@[0].line_range == (caller_line, caller_line)
                        &&& h.suggestions@[0].replacement@ == text
                    }
                    &&& head matches Some(text) ==> {
                        let s = h.suggestions@[h.suggestions@.len() - 1];
                        &&& s.file@ == callee.source_path@
                        &&& s.line_range == (header_line, header_line)
                        &&& s.replacement@ == text
                    }
                }
            },
    {
        let caller_instructions = &self.scripts[analysis.script_idx].instructions;
        let instr_idx = match analysis.nodes[node_idx].instruction_index {
            Some(i) => i,
            None => {
                return None;
            },
        };
        assert(instr_idx < caller_instructions@.len());
        let instr = &caller_instructions[instr_idx];
        let (is_gosub, script_id) = if instr.opcode == Opcode::Jump || instr.opcode == Opcode::JumpWithParams {
            match &instr.operand {
                Operand::Int(id) => (false, *id),
                _ => {
                    return None;
                },
            }
        } else if instr.opcode == Opcode::Gosub || instr.opcode == Opcode::GosubWithParams {
            match &instr.operand {
                Operand::Int(id) => (true, *id),
                _ => {
                    return None;
                },
            }
        } else {
            return None;
        };
        let callee_idx = match index_of_id(self.scripts, script_id) {
            Some(i) => i,
            None => {
                return None;
            },
        };
        let callee = &self.scripts[callee_idx];
        let callee_header_line = crate::lints::header_line_of(callee, self.source_cache);
        let ptr_cmd = ptr.representation();
        let param_type = pointer_param_type(ptr);
        let mut param_name = String::new();
        crate::strings::push_char(&mut param_name, '$');
        push_str(&mut param_name, ptr_cmd);
        let callee_short = display_script_name(callee.name.as_str());
        let arrow: &str = if is_gosub {
            "~"
        } else {
            "@"
        };
        let corruptors = self.corruptors_in_callee(callee_idx, ptr);
        let phrase = crate::source_text::format_corruptors(corruptors.as_slice());
        let mut message = String::new();
        push_str(&mut message, "`");
        push_str(&mut message, callee_short.as_str());
        push_str(&mut message, "` reads `");
        push_str(&mut message, ptr_cmd);
        push_str(&mut message, "` then ");
        push_str(&mut message, phrase.as_str());
        push_str(&mut message, "; the script still compiles and runs, but the reference is brittle to reorder. Consider capturing `");
        push_str(&mut message, ptr_cmd);
        push_str(&mut message, "` at the call site and threading it through `");
        push_str(&mut message, callee_short.as_str());
        push_str(&mut message, "` as an `");
        push_str(&mut message, param_type);
        push_str(&mut message, " ");
        push_str(&mut message, param_name.as_str());
        push_str(&mut message, "` parameter so the value is explicit and stable.");
        proof {
            reveal_strlit("~");
            reveal_strlit("@");
            let c = corruptors@.map_values(|p: (String, usize)| (p.0@, p.1));
            assert(message@ == rule_a_message(callee_short@, ptr_cmd@, corruptors_clause(c), param_type@, param_name@));
        }
        if self.source_cache.is_none() {
            return Some(Help { message, suggestions: Vec::new(), applicability: Applicability::Unspecified });
        }
        let mut suggestions: Vec<Suggestion> = Vec::new();
        if let Some(line_text) = cached_source_line(self.source_cache, caller_source_path, caller_line) {
            if let Some(rewritten) = rewrite_call_site_arg(line_text.as_str(), arrow, callee_short.as_str(), ptr_cmd) {
                let mut label = String::new();
                push_str(&mut label, "at the call site (pass `");
                push_str(&mut label, ptr_cmd);
                push_str(&mut label, "` as an arg)");
                suggestions.push(Suggestion {
                    file: to_owned_string(caller_source_path),
                    line_range: (caller_line, caller_line),
                    replacement: rewritten,
                    label: Some(label),
                });
            }
        }
        if let Some(header_text) = cached_source_line(self.source_cache, callee.source_path.as_str(), callee_header_line) {
            if let Some(rewritten) = rewrite_header_add_param(header_text.as_str(), callee_short.as_str(), param_type, param_name.as_str()) {
                let mut label = String::new();
                push_str(&mut label, "at the `");
                push_str(&mut label, callee_short.as_str());
                push_str(&mut label, "` header (add `");
                push_str(&mut label, param_type);
                push_str(&mut label, " ");
                push_str(&mut label, param_name.as_str());
                push_str(&mut label, "`)");
                suggestions.push(Suggestion {
                    file: to_owned_string(callee.source_path.as_str()),
                    line_range: (callee_header_line, callee_header_line),
                    replacement: rewritten,
                    label: Some(label),
                });
            }
        }
        Some(Help { message, suggestions, applicability: Applicability::MaybeIncorrect })
    }
}

/// Whether `(name, line)` is among `pairs`.
fn listed_pair(pairs: &Vec<(String, usize)>, name: &str, line: usize) -> (b: bool)
    ensures
        b == exists|k: int| 0 <= k < pairs@.len() && (#[trigger] pairs@[k]).0@ == name@ && pairs@[k].1 == line,
{
    let mut k: usize = 0;
    while k < pairs.len()
        invariant
            k <= pairs@.len(),
            forall|j: int| 0 <= j < k ==> !((#[trigger] pairs@[j]).0@ == name@ && pairs@[j].1 == line),
        decreases pairs@.len() - k,
    {
        if pairs[k].1 == line && str_eq(pairs[k].0.as_str(), name) {
            return true;
        }
        k += 1;
    }
    false
}

// ── Checking one script ────────────────────────────────────────────────────

/// `template` with its one placeholder filled with `arg`.
fn fill1(template: &str, arg: &str) -> (r: String)
    ensures
        r@ == filled(template@, seq![arg@]),
{
    let args: Vec<&str> = vec![arg];
    assert(args@.map_values(|a: &str| a@) =~= seq![arg@]);
    crate::diagnostic_messages::fmt(template, args.as_slice())
}

/// A corruptor of the pointer, or the entry when the trigger does not
/// provide it.
spec fn corrupt_target(corrupts: Seq<bool>, provides: bool, j: int) -> bool {
    corrupts[j] || (j == 0 && !provides)
}

/// Whether some read of pointer `p` is reached, going backwards without
/// passing a setter of `p`, from a corruptor of `p` or (when the trigger does
/// not provide `p`) from the entry.
spec fn main_finding(a: ScriptAnalysis, p: int, provides: bool) -> bool {
    exists|j: int|
        back_reachable(a.nodes@, a.required@[p]@, a.set_nodes@[p]@, j) && #[trigger] corrupt_target(
            a.corrupted_nodes@[p]@,
            provides,
            j,
        )
}

/// Whether some node both reads and corrupts pointer `p` (a call into a
/// script that reads `p` and then supersedes it).
spec fn self_corrupting(a: ScriptAnalysis, p: int) -> bool {
    exists|k: int| 0 <= k < a.required@[p]@.len() && a.corrupted_nodes@[p]@[#[trigger] a.required@[p]@[k] as int]
}

/// Whether pointer `p` gets a warning: a main finding, or, for a pointer the
/// engine does not track, a node that reads and corrupts it.
spec fn flagged(a: ScriptAnalysis, p: int, provides: bool) -> bool {
    main_finding(a, p, provides) || (static_only(crate::pointer::ptr_at(p as nat)) && self_corrupting(a, p))
}

/// Whether the diagnostics of `s` from `from` on are pointer-check findings
/// about the file `path`, none an error.
pub open spec fn pointer_findings(s: Seq<Diagnostic>, from: int, path: Seq<char>) -> bool {
    forall|k: int|
        from <= k < s.len() ==> (#[trigger] s[k]).phase == Phase::PointerCheck && s[k].severity != Severity::Error
            && s[k].file@ == path
}

/// Whether `m` is the text of a warning about pointer `p`: an
/// uninitialized or corrupted pointer, or (for a pointer the engine does not
/// track) a possibly stale or uninitialized reference.
pub open spec fn pointer_warning(m: Seq<char>, p: PointerType) -> bool {
    ||| m == filled(POINTER_UNINITIALIZED@, seq![ptr_repr(p)])
    ||| m == filled(POINTER_CORRUPTED@, seq![ptr_repr(p)])
    ||| m == filled(POINTER_STALE_UNINIT@, seq![ptr_repr(p)])
    ||| m == filled(POINTER_STALE@, seq![ptr_repr(p)])
}

/// Whether some diagnostic of `s` from `from` on is a warning about pointer `p`.
pub open spec fn warns_about(s: Seq<Diagnostic>, from: int, p: PointerType) -> bool {
    exists|k: int| from <= k < s.len() && (#[trigger] s[k]).severity == Severity::Warning && pointer_warning(s[k].message@, p)
}

/// Whether every warning of `s` from `from` on is about some pointer.
pub open spec fn warnings_about_pointers(s: Seq<Diagnostic>, from: int) -> bool {
    forall|k: int|
        from <= k < s.len() && (#[trigger] s[k]).severity == Severity::Warning ==> exists|p: PointerType| pointer_warning(
            s[k].message@,
            p,
        )
}

proof fn lemma_warns_about_extend(s1: Seq<Diagnostic>, s2: Seq<Diagnostic>, from: int, p: PointerType)
    requires
        0 <= from,
        s1.len() <= s2.len(),
        s2.subrange(0, s1.len() as int) == s1,
        warns_about(s1, from, p),
    ensures
        warns_about(s2, from, p),
{
    let k = choose|k: int| from <= k < s1.len() && (#[trigger] s1[k]).severity == Severity::Warning && pointer_warning(s1[k].message@, p);
    assert(s2.subrange(0, s1.len() as int)[k] == s1[k]);
    assert(s2[k] == s1[k]);
}

proof fn lemma_findings_prefix(mid: Seq<Diagnostic>, now: Seq<Diagnostic>, scripts: Seq<CompiledScript>)
    requires
        now.len() >= mid.len(),
        now.subrange(0, mid.len() as int) == mid,
        script_findings(mid, 0, scripts),
        script_findings(now, mid.len() as int, scripts),
    ensures
        script_findings(now, 0, scripts),
{
    assert forall|k: int| 0 <= k < now.len() implies (#[trigger] now[k]).phase == Phase::PointerCheck
        && now[k].severity != Severity::Error && exists|j: int| 0 <= j < scripts.len() && now[k].file@ == (#[trigger] scripts[j]).source_path@ by {
        if k < mid.len() {
            assert(now.subrange(0, mid.len() as int)[k] == mid[k]);
            assert(now[k] == mid[k]);
        }
    }
}

proof fn lemma_warnings_concat(s1: Seq<Diagnostic>, s2: Seq<Diagnostic>, from: int)
    requires
        0 <= from <= s1.len() <= s2.len(),
        s2.subrange(0, s1.len() as int) == s1,
        warnings_about_pointers(s1, from),
        warnings_about_pointers(s2, s1.len() as int),
    ensures
        warnings_about_pointers(s2, from),
{
    assert forall|k: int| from <= k < s2.len() && (#[trigger] s2[k]).severity == Severity::Warning implies exists|p: PointerType| pointer_warning(
        s2[k].message@,
        p,
    ) by {
        if k < s1.len() {
            assert(s2.subrange(0, s1.len() as int)[k] == s1[k]);
        }
    }
}

/// Whether some diagnostic of `s` from `from` on is a warning.
pub open spec fn warns_from(s: Seq<Diagnostic>, from: int) -> bool {
    exists|k: int| from <= k < s.len() && (#[trigger] s[k]).severity == Severity::Warning
}

/// The name a corrupting instruction is shown by: a command's name, or
/// `~short` of the script a gosub calls (its full name where it has no short
/// form); none for anything else or an unknown callee.
spec fn corruptor_name(table: Seq<(i32, String)>, scripts: Seq<CompiledScript>, ins: Instruction) -> Option<Seq<char>> {
    if ins.opcode == Opcode::Command {
        command_name_of(table, ins.operand)
    } else if ins.opcode == Opcode::Gosub || ins.opcode == Opcode::GosubWithParams {
        match ins.operand {
            Operand::Int(id) => match last_with_id(scripts, id) {
                Some(t) => match crate::source_text::short_name_spec(scripts[t].name@) {
                    Some(sh) => Some(seq!['~'] + sh),
                    None => Some(scripts[t].name@),
                },
                None => None,
            },
            _ => None,
        }
    } else {
        None
    }
}

/// The named corruptor at node `node` of `a`, with its line.
spec fn corruptor_at(
    table: Seq<(i32, String)>,
    scripts: Seq<CompiledScript>,
    a: ScriptAnalysis,
    ins: Seq<Instruction>,
    node: usize,
) -> Option<(Seq<char>, usize)> {
    match a.nodes@[node as int].instruction_index {
        Some(ii) => match corruptor_name(table, scripts, ins[ii as int]) {
            Some(n) => Some((n, crate::lints::line_before(ins, ii as int))),
            None => None,
        },
        None => None,
    }
}

/// The distinct named corruptors of the nodes `list`, in first-seen order.
spec fn corruptor_pairs(
    table: Seq<(i32, String)>,
    scripts: Seq<CompiledScript>,
    a: ScriptAnalysis,
    ins: Seq<Instruction>,
    list: Seq<usize>,
) -> Seq<(Seq<char>, usize)>
    decreases list.len(),
{
    if list.len() == 0 {
        Seq::empty()
    } else {
        let rest = corruptor_pairs(table, scripts, a, ins, list.drop_last());
        match corruptor_at(table, scripts, a, ins, list.last()) {
            Some(p) => if rest.contains(p) {
                rest
            } else {
                rest.push(p)
            },
            None => rest,
        }
    }
}

/// Pairs of owned names and lines as plain values.
spec fn pairs_view(v: Seq<(String, usize)>) -> Seq<(Seq<char>, usize)> {
    v.map_values(|p: (String, usize)| (p.0@, p.1))
}

/// The command that a backward scan from position `scan` (exclusive) of
/// `order` reaches first, stopping at a flow boundary.
spec fn command_before(ins: Seq<Instruction>, order: Seq<usize>, scan: int) -> Option<usize>
    decreases scan,
{
    if scan <= 0 {
        None
    } else {
        let idx = order[scan - 1];
        if ins[idx as int].opcode == Opcode::Command {
            Some(idx)
        } else if flow_boundary(ins[idx as int].opcode) {
            None
        } else {
            command_before(ins, order, scan - 1)
        }
    }
}

/// The pointers a synthetic node inserted at the branch at position `we` of
/// `order` establishes: where a command that conditionally sets pointers is
/// followed by a push of 0 or 1 and a `branch_equals` on its result, the
/// command's set; none where the pattern does not hold.
spec fn pointer_insert_at(
    table: Seq<(i32, String)>,
    cmd_pointers: Map<Seq<char>, PointerHolder>,
    ins: Seq<Instruction>,
    instr_to_node: Seq<Option<usize>>,
    order: Seq<usize>,
    we: int,
) -> Option<PointerSet> {
    let push = ins[order[we - 1] as int];
    let branch = ins[order[we] as int];
    if push.opcode == Opcode::PushConstantInt && (push.operand == Operand::Int(0) || push.operand
        == Operand::Int(1)) && branch.opcode == Opcode::BranchEquals {
        match command_before(ins, order, we - 1) {
            Some(ci) => match command_name_of(table, ins[ci as int].operand) {
                Some(name) => if cmd_pointers.contains_key(name) && cmd_pointers[name].conditional_set
                    && cmd_pointers[name].set@ != Set::<PointerType>::empty() && instr_to_node[order[we] as int] is Some {
                    Some(cmd_pointers[name].set)
                } else {
                    None
                },
                None => None,
            },
            None => None,
        }
    } else {
        None
    }
}

/// The pointer sets of the synthetic nodes inserted at the branches at
/// positions `2..to` of `order`, in order.
spec fn inserted_sets(
    table: Seq<(i32, String)>,
    cmd_pointers: Map<Seq<char>, PointerHolder>,
    ins: Seq<Instruction>,
    instr_to_node: Seq<Option<usize>>,
    order: Seq<usize>,
    to: int,
) -> Seq<PointerSet>
    decreases to,
{
    if to <= 2 {
        Seq::empty()
    } else {
        let rest = inserted_sets(table, cmd_pointers, ins, instr_to_node, order, to - 1);
        match pointer_insert_at(table, cmd_pointers, ins, instr_to_node, order, to - 1) {
            Some(set) => rest.push(set),
            None => rest,
        }
    }
}

/// The holder that requires, sets and corrupts nothing.
spec fn no_pointers() -> crate::pointer::HolderView {
    crate::pointer::HolderView { required: Set::empty(), set: Set::empty(), conditional_set: false, corrupted: Set::empty() }
}

/// Whether `h` is the pointer summary of analysis `a`: what every path
/// requires, sets and may corrupt, never conditionally.
spec fn summarizes(h: PointerHolder, a: ScriptAnalysis) -> bool {
    &&& !h.conditional_set
    &&& forall|p: PointerType| #[trigger] h.required@.contains(p) == summary_requires(a, ptr_index(p) as int)
    &&& forall|p: PointerType| #[trigger] h.set@.contains(p) == summary_sets(a, ptr_index(p) as int)
    &&& forall|p: PointerType| #[trigger] h.corrupted@.contains(p) == summary_corrupts(a, ptr_index(p) as int)
}

/// The line of the instruction of node `k`, or 0 for a synthetic node.
fn node_line(analysis: &ScriptAnalysis, instructions: &Vec<Instruction>, k: usize) -> (r: usize)
    requires
        k < analysis.nodes@.len(),
        analysis.nodes@[k as int].instruction_index matches Some(i) ==> i < instructions@.len(),
    ensures
        r == (match analysis.nodes@[k as int].instruction_index {
            Some(i) => crate::lints::line_before(instructions@, i as int),
            None => 0,
        }),
{
    match analysis.nodes[k].instruction_index {
        Some(i) => resolve_line(instructions, i),
        None => 0,
    }
}

fn finding(path: &str, line: usize, message: String, severity: Severity) -> (d: Diagnostic)
    ensures
        d.file@ == path@,
        d.line == line,
        d.column == 0,
        d.message == message,
        d.severity == severity,
        d.phase == Phase::PointerCheck,
        d.help@.len() == 0,
{
    Diagnostic {
        file: to_owned_string(path),
        line,
        column: 0,
        message,
        severity,
        phase: Phase::PointerCheck,
        help: Vec::new(),
    }
}

impl<'a> PointerChecker<'a> {
    /// Checks pointer `ptr` in the script analysed by `analysis`.
    ///
    /// A read of the pointer that is reached, going backwards without passing
    /// a setter, from a corruptor (or from the entry, when the trigger does not
    /// provide the pointer) gets a warning at the read, an info note there,
    /// and an info note at the corruptor. Otherwise, for a pointer the engine
    /// does not track, each call that both reads and supersedes the pointer
    /// gets one warning per line, with help on passing the value instead.
    fn check_pointer(
        &self,
        ptr: PointerType,
        analysis: &ScriptAnalysis,
        provides: bool,
        source_path: &str,
        diagnostics: &mut DiagnosticsCollector,
    )
        requires
            self.wf(),
            analysis.script_idx < self.scripts@.len(),
            analysis_ok(*analysis, self.scripts@[analysis.script_idx as int].instructions@.len() as int),
        ensures
            final(diagnostics)@.len() >= old(diagnostics)@.len(),
            final(diagnostics)@.subrange(0, old(diagnostics)@.len() as int) == old(diagnostics)@,
            pointer_findings(final(diagnostics)@, old(diagnostics)@.len() as int, source_path@),
            warns_from(final(diagnostics)@, old(diagnostics)@.len() as int) == flagged(*analysis, ptr_index(ptr) as int, provides),
            main_finding(*analysis, ptr_index(ptr) as int, provides) ==> {
                let d = final(diagnostics)@[old(diagnostics)@.len() as int];
                &&& d.severity == Severity::Warning
                &&& if static_only(ptr) {
                    d.message@ == filled(POINTER_STALE_UNINIT@, seq![ptr_repr(ptr)]) || d.message@ == filled(POINTER_STALE@, seq![ptr_repr(ptr)])
                } else {
                    d.message@ == filled(POINTER_UNINITIALIZED@, seq![ptr_repr(ptr)]) || d.message@ == filled(POINTER_CORRUPTED@, seq![ptr_repr(ptr)])
                }
            },
            !main_finding(*analysis, ptr_index(ptr) as int, provides) ==> forall|k: int|
                old(diagnostics)@.len() <= k < final(diagnostics)@.len() ==> (#[trigger] final(diagnostics)@[k]).severity == Severity::Warning
                    && final(diagnostics)@[k].message@ == filled(POINTER_STALE@, seq![ptr_repr(ptr)]),
            forall|k: int|
                old(diagnostics)@.len() <= k < final(diagnostics)@.len() && (#[trigger] final(diagnostics)@[k]).severity
                    == Severity::Warning ==> pointer_warning(final(diagnostics)@[k].message@, ptr),
            flagged(*analysis, ptr_index(ptr) as int, provides) ==> warns_about(
                final(diagnostics)@,
                old(diagnostics)@.len() as int,
                ptr,
            ),
    {
        let ghost old_d = diagnostics@;
        let ghost p = ptr_index(ptr) as int;
        let instructions = &self.scripts[analysis.script_idx].instructions;
        let n = analysis.nodes.len();
        let pi = ptr.index();
        proof {
            crate::pointer::lemma_ptr_index(ptr);
        }
        let required_nodes = &analysis.required[pi];
        assert(analysis.set_nodes@[p]@.len() == n);
        assert(analysis.corrupted_nodes@[p]@.len() == n);
        proof {
            assert forall|k: int| 0 <= k < required_nodes@.len() implies #[trigger] required_nodes@[k] < n by {
                assert(analysis.required@[p]@[k] < n);
            }
        }
        if required_nodes.len() == 0 {
            proof {
                assert forall|j: int| !back_reachable(analysis.nodes@, required_nodes@, analysis.set_nodes@[p]@, j) by {
                    assert forall|k: nat| !#[trigger] back_reach_in(analysis.nodes@, required_nodes@, analysis.set_nodes@[p]@, j, k) by {
                        lemma_no_starts(analysis.nodes@, required_nodes@, analysis.set_nodes@[p]@, j, k);
                    }
                }
                assert(diagnostics@.subrange(0, old_d.len() as int) == old_d);
            }
            return;
        }
        let mut corrupted: Vec<bool> = analysis.corrupted_nodes[pi].clone();
        if !provides {
            corrupted.set(0, true);
        }
        proof {
            assert forall|j: int| 0 <= j < n implies #[trigger] corrupted@[j] == corrupt_target(analysis.corrupted_nodes@[p]@, provides, j) by {}
        }
        if !any_marked(&corrupted) {
            proof {
                assert forall|j: int| back_reachable(analysis.nodes@, required_nodes@, analysis.set_nodes@[p]@, j) implies !#[trigger] corrupt_target(analysis.corrupted_nodes@[p]@, provides, j) by {
                    lemma_reach_bounds(analysis.nodes@, required_nodes@, analysis.set_nodes@[p]@, j);
                    assert(corrupted@[j] == corrupt_target(analysis.corrupted_nodes@[p]@, provides, j));
                }
                assert forall|k: int| 0 <= k < required_nodes@.len() implies !analysis.corrupted_nodes@[p]@[#[trigger] required_nodes@[k] as int] by {
                    assert(corrupted@[required_nodes@[k] as int] == corrupt_target(analysis.corrupted_nodes@[p]@, provides, required_nodes@[k] as int));
                }
                assert(diagnostics@.subrange(0, old_d.len() as int) == old_d);
            }
            return;
        }
        let set_blocked = &analysis.set_nodes[pi];
        let path = find_edge_path(&analysis.nodes, required_nodes, &corrupted, set_blocked);
        proof {
            assert forall|j: int| back_reachable(analysis.nodes@, required_nodes@, analysis.set_nodes@[p]@, j) implies #[trigger] corrupted@[j] == corrupt_target(analysis.corrupted_nodes@[p]@, provides, j) by {
                lemma_reach_bounds(analysis.nodes@, required_nodes@, analysis.set_nodes@[p]@, j);
            }
            if path is Some {
                let j = choose|j: int| back_reachable(analysis.nodes@, required_nodes@, analysis.set_nodes@[p]@, j) && #[trigger] corrupted@[j];
                assert(corrupt_target(analysis.corrupted_nodes@[p]@, provides, j));
                assert(main_finding(*analysis, p, provides));
            } else {
                assert forall|j: int| back_reachable(analysis.nodes@, required_nodes@, analysis.set_nodes@[p]@, j) implies !#[trigger] corrupt_target(analysis.corrupted_nodes@[p]@, provides, j) by {
                    assert(corrupted@[j] == corrupt_target(analysis.corrupted_nodes@[p]@, provides, j));
                }
                assert(!main_finding(*analysis, p, provides));
            }
        }
        let repr = ptr.representation();
        let static_ptr = is_static_only_pointer(ptr);
        if let Some(path) = path {
            let end_node_idx = path[path.len() - 1];
            let start_node_idx = path[0];
            let is_start_node = end_node_idx == 0;
            let error_msg = if is_start_node {
                if static_ptr {
                    fill1(POINTER_STALE_UNINIT, repr)
                } else {
                    fill1(POINTER_UNINITIALIZED, repr)
                }
            } else if static_ptr {
                fill1(POINTER_STALE, repr)
            } else {
                fill1(POINTER_CORRUPTED, repr)
            };
            let req_line = node_line(analysis, instructions, start_node_idx);
            diagnostics.add(finding(source_path, req_line, error_msg, Severity::Warning));
            let read_hint = if static_ptr {
                fill1(POINTER_READ_HERE, repr)
            } else {
                fill1(POINTER_REQUIRED_LOC, repr)
            };
            diagnostics.add(finding(source_path, req_line, read_hint, Severity::Info));
            if !is_start_node {
                let corrupt_line = node_line(analysis, instructions, end_node_idx);
                let cause_hint = if static_ptr {
                    fill1(POINTER_SUPERSEDED_HERE, repr)
                } else {
                    fill1(POINTER_CORRUPTED_LOC, repr)
                };
                diagnostics.add(finding(source_path, corrupt_line, cause_hint, Severity::Info));
            }
            proof {
                assert(diagnostics@[old_d.len() as int].severity == Severity::Warning);
                assert(warns_from(diagnostics@, old_d.len() as int));
                assert(diagnostics@.subrange(0, old_d.len() as int) =~= old_d);
            }
            return;
        }
        if !static_ptr {
            proof {
                assert(diagnostics@.subrange(0, old_d.len() as int) == old_d);
            }
            return;
        }
        let corrupted_nodes = &analysis.corrupted_nodes[pi];
        let mut seen_lines: Vec<usize> = Vec::new();
        let mut k: usize = 0;
        while k < required_nodes.len()
            invariant
                k <= required_nodes@.len(),
                required_nodes == analysis.required@[p],
                corrupted_nodes == analysis.corrupted_nodes@[p],
                corrupted_nodes@.len() == n,
                n == analysis.nodes@.len(),
                p == pi,
                0 <= p < 22,
                static_only(ptr),
                repr@ == ptr_repr(ptr),
                self.wf(),
                analysis.script_idx < self.scripts@.len(),
                instructions == self.scripts@[analysis.script_idx as int].instructions,
                analysis_ok(*analysis, instructions@.len() as int),
                forall|kk: int| 0 <= kk < required_nodes@.len() ==> #[trigger] required_nodes@[kk] < n,
                diagnostics@.len() >= old_d.len(),
                diagnostics@.subrange(0, old_d.len() as int) == old_d,
                pointer_findings(diagnostics@, old_d.len() as int, source_path@),
                forall|j: int| old_d.len() <= j < diagnostics@.len() ==> (#[trigger] diagnostics@[j]).severity == Severity::Warning
                    && diagnostics@[j].message@ == filled(POINTER_STALE@, seq![ptr_repr(ptr)]),
                (seen_lines@.len() > 0) == (diagnostics@.len() > old_d.len()),
                (seen_lines@.len() > 0) == (exists|kk: int| 0 <= kk < k && corrupted_nodes@[#[trigger] required_nodes@[kk] as int]),
            decreases required_nodes@.len() - k,
        {
            let node_idx = required_nodes[k];
            if corrupted_nodes[node_idx] {
                let line = node_line(analysis, instructions, node_idx);
                if !usize_in(&seen_lines, line) {
                    seen_lines.push(line);
                    let help = self.build_rule_a_help(ptr, source_path, line, node_idx, analysis);
                    let mut helps: Vec<Help> = Vec::new();
                    if let Some(h) = help {
                        helps.push(h);
                    }
                    let diag = Diagnostic {
                        file: to_owned_string(source_path),
                        line,
                        column: 0,
                        message: fill1(POINTER_STALE, repr),
                        severity: Severity::Warning,
                        phase: Phase::PointerCheck,
                        help: helps,
                    };
                    assert(diag.message@ == filled(POINTER_STALE@, seq![ptr_repr(ptr)]));
                    let ghost before = diagnostics@;
                    diagnostics.add(diag);
                    proof {
                        assert(diagnostics@.subrange(0, old_d.len() as int) =~= before.subrange(0, old_d.len() as int));
                        assert forall|j: int| old_d.len() <= j < diagnostics@.len() implies (#[trigger] diagnostics@[j]).severity == Severity::Warning
                            && diagnostics@[j].message@ == filled(POINTER_STALE@, seq![ptr_repr(ptr)]) by {
                            if j < before.len() {
                                assert(diagnostics@[j] == before[j]);
                            }
                        }
                    }
                }
            }
            k += 1;
        }
        proof {
            if diagnostics@.len() > old_d.len() {
                assert(diagnostics@[old_d.len() as int].severity == Severity::Warning);
            }
            assert(required_nodes@.len() == k);
        }
    }
}

/// Whether the findings of `s` from `from` on are pointer-check findings
/// about the source files of `scripts`, none an error.
pub open spec fn script_findings(s: Seq<Diagnostic>, from: int, scripts: Seq<CompiledScript>) -> bool {
    forall|k: int|
        from <= k < s.len() ==> (#[trigger] s[k]).phase == Phase::PointerCheck && s[k].severity != Severity::Error
            && exists|i: int| 0 <= i < scripts.len() && s[k].file@ == (#[trigger] scripts[i]).source_path@
}

/// Whether a script of trigger `trigger` named `name` starts with pointer `p`.
spec fn provided(overlay: Seq<String>, trigger: Seq<char>, name: Seq<char>, p: PointerType) -> bool {
    crate::pointer::trigger_pointer_set(trigger).contains(p) || (p == PointerType::PActivePlayer
        && grants_protected(overlay, trigger, name))
}

/// Whether some pointer of position below `i` is flagged.
spec fn flagged_below(a: ScriptAnalysis, overlay: Seq<String>, trigger: Seq<char>, name: Seq<char>, i: int) -> bool {
    exists|p: PointerType| ptr_index(p) < i && #[trigger] flagged(a, ptr_index(p) as int, provided(overlay, trigger, name, p))
}

proof fn lemma_flagged_step(a: ScriptAnalysis, overlay: Seq<String>, trigger: Seq<char>, name: Seq<char>, i: nat)
    requires
        i < 22,
    ensures
        flagged_below(a, overlay, trigger, name, i + 1int) == (flagged_below(a, overlay, trigger, name, i as int)
            || flagged(a, i as int, provided(overlay, trigger, name, crate::pointer::ptr_at(i)))),
        flagged_below(a, overlay, trigger, name, 22) == exists|p: PointerType| #[trigger] flagged(a, ptr_index(p) as int, provided(overlay, trigger, name, p)),
{
    crate::pointer::lemma_ptr_at(i);
    let q = crate::pointer::ptr_at(i);
    if flagged(a, i as int, provided(overlay, trigger, name, q)) {
        assert(ptr_index(q) < i + 1 && flagged(a, ptr_index(q) as int, provided(overlay, trigger, name, q)));
    }
    if flagged_below(a, overlay, trigger, name, i + 1int) {
        let p = choose|p: PointerType| ptr_index(p) < i + 1 && #[trigger] flagged(a, ptr_index(p) as int, provided(overlay, trigger, name, p));
        crate::pointer::lemma_ptr_index(p);
        if ptr_index(p) == i {
            assert(p == q);
        }
    }
    if exists|p: PointerType| #[trigger] flagged(a, ptr_index(p) as int, provided(overlay, trigger, name, p)) {
        let p = choose|p: PointerType| #[trigger] flagged(a, ptr_index(p) as int, provided(overlay, trigger, name, p));
        crate::pointer::lemma_ptr_index(p);
    }
}

proof fn lemma_warns_concat(old_s: Seq<Diagnostic>, mid: Seq<Diagnostic>, new_s: Seq<Diagnostic>, from: int)
    requires
        0 <= from <= mid.len() <= new_s.len(),
        new_s.subrange(0, mid.len() as int) == mid,
    ensures
        warns_from(new_s, from) == (warns_from(mid, from) || warns_from(new_s, mid.len() as int)),
{
    if warns_from(mid, from) {
        let k = choose|k: int| from <= k < mid.len() && (#[trigger] mid[k]).severity == Severity::Warning;
        assert(new_s.subrange(0, mid.len() as int)[k] == mid[k]);
        assert(new_s[k] == mid[k]);
    }
    if warns_from(new_s, from) && !warns_from(new_s, mid.len() as int) {
        let k = choose|k: int| from <= k < new_s.len() && (#[trigger] new_s[k]).severity == Severity::Warning;
        assert(new_s.subrange(0, mid.len() as int)[k] == mid[k]);
        assert(mid[k].severity == Severity::Warning);
    }
}

proof fn lemma_findings_concat(mid: Seq<Diagnostic>, new_s: Seq<Diagnostic>, from: int, path: Seq<char>)
    requires
        0 <= from <= mid.len() <= new_s.len(),
        new_s.subrange(0, mid.len() as int) == mid,
        pointer_findings(mid, from, path),
        pointer_findings(new_s, mid.len() as int, path),
    ensures
        pointer_findings(new_s, from, path),
{
    assert forall|k: int| from <= k < new_s.len() implies (#[trigger] new_s[k]).phase == Phase::PointerCheck
        && new_s[k].severity != Severity::Error && new_s[k].file@ == path by {
        if k < mid.len() {
            assert(new_s.subrange(0, mid.len() as int)[k] == mid[k]);
        }
    }
}

impl<'a> PointerChecker<'a> {
    /// Checks every pointer of the first script named `script_name`.
    #[verifier::rlimit(60)]
    fn validate_script(&mut self, script_name: &str, diagnostics: &mut DiagnosticsCollector)
        requires
            old(self).wf(),
        ensures
            final(self).wf(),
            Self::same_pending(old(self), final(self)),
            final(diagnostics)@.len() >= old(diagnostics)@.len(),
            final(diagnostics)@.subrange(0, old(diagnostics)@.len() as int) == old(diagnostics)@,
            script_findings(final(diagnostics)@, old(diagnostics)@.len() as int, old(self).scripts@),
            (first_named(old(self).scripts@, script_name@) is Some && !pending_in(old(self).pending_analyses@, script_name@))
                ==> final(self).script_analyses@.contains_key(script_name@),
            (first_named(old(self).scripts@, script_name@) matches Some(i) && !pending_in(old(self).pending_analyses@, script_name@))
                ==> {
                let script = old(self).scripts@[first_named(old(self).scripts@, script_name@)->Some_0];
                let a = final(self).script_analyses@[script_name@];
                &&& (warns_from(final(diagnostics)@, old(diagnostics)@.len() as int) <==> exists|p: PointerType| #[trigger] flagged(
                    a,
                    ptr_index(p) as int,
                    provided(final(self).overlay_interfaces@, script.trigger@, script_name@, p),
                ))
                &&& forall|p: PointerType| #[trigger] flagged(
                    a,
                    ptr_index(p) as int,
                    provided(final(self).overlay_interfaces@, script.trigger@, script_name@, p),
                ) ==> warns_about(final(diagnostics)@, old(diagnostics)@.len() as int, p)
            },
            warnings_about_pointers(final(diagnostics)@, old(diagnostics)@.len() as int),
    {
        let ghost old_d = diagnostics@;
        let script_idx = match position_of_name(self.scripts, script_name) {
            Some(i) => i,
            None => {
                proof {
                    assert(diagnostics@.subrange(0, old_d.len() as int) == old_d);
                }
                return;
            },
        };
        let scripts: &'a [CompiledScript] = self.scripts;
        let trigger = scripts[script_idx].trigger.as_str();
        let source_path = scripts[script_idx].source_path.as_str();
        let trigger_set = crate::pointer::trigger_pointers(trigger);
        self.ensure_analysis(script_name);
        let all = PointerType::all_types();
        let ghost has_analysis = self.script_analyses@.contains_key(script_name@);
        let mut i: usize = 0;
        while i < 22
            invariant
                i <= 22,
                all@.len() == 22,
                forall|k: int| 0 <= k < 22 ==> all@[k] == crate::pointer::ptr_at(k as nat),
                self.wf(),
                Self::same_pending(old(self), self),
                scripts == self.scripts,
                script_idx < scripts@.len(),
                trigger@ == scripts@[script_idx as int].trigger@,
                source_path@ == scripts@[script_idx as int].source_path@,
                trigger_set@ == crate::pointer::trigger_pointer_set(trigger@),
                has_analysis == self.script_analyses@.contains_key(script_name@),
                diagnostics@.len() >= old_d.len(),
                diagnostics@.subrange(0, old_d.len() as int) == old_d,
                pointer_findings(diagnostics@, old_d.len() as int, source_path@),
                has_analysis ==> (warns_from(diagnostics@, old_d.len() as int) == flagged_below(
                    self.script_analyses@[script_name@],
                    self.overlay_interfaces@,
                    trigger@,
                    script_name@,
                    i as int,
                )),
                warnings_about_pointers(diagnostics@, old_d.len() as int),
                has_analysis ==> forall|q: PointerType|
                    ptr_index(q) < i && #[trigger] flagged(
                        self.script_analyses@[script_name@],
                        ptr_index(q) as int,
                        provided(self.overlay_interfaces@, trigger@, script_name@, q),
                    ) ==> warns_about(diagnostics@, old_d.len() as int, q),
            decreases 22 - i,
        {
            let ptr = all[i];
            proof {
                crate::pointer::lemma_ptr_at(i as nat);
            }
            let analysis = match self.script_analyses.get(script_name) {
                Some(a) => a,
                None => {
                    i += 1;
                    continue;
                },
            };
            let provides = if trigger_set.contains(ptr) {
                true
            } else if ptr == PointerType::PActivePlayer {
                self.interface_trigger_grants_protected(trigger, script_name)
            } else {
                false
            };
            let ghost mid = diagnostics@;
            self.check_pointer(ptr, analysis, provides, source_path, diagnostics);
            proof {
                assert(provides == provided(self.overlay_interfaces@, trigger@, script_name@, ptr));
                lemma_flagged_step(*analysis, self.overlay_interfaces@, trigger@, script_name@, i as nat);
                lemma_warns_concat(old_d, mid, diagnostics@, old_d.len() as int);
                lemma_findings_concat(mid, diagnostics@, old_d.len() as int, source_path@);
                assert(diagnostics@.subrange(0, old_d.len() as int) =~= mid.subrange(0, old_d.len() as int));
                assert forall|k: int| mid.len() <= k < diagnostics@.len() && (#[trigger] diagnostics@[k]).severity
                    == Severity::Warning implies exists|q: PointerType| pointer_warning(diagnostics@[k].message@, q) by {
                    assert(pointer_warning(diagnostics@[k].message@, ptr));
                }
                lemma_warnings_concat(mid, diagnostics@, old_d.len() as int);
                let a = self.script_analyses@[script_name@];
                assert forall|q: PointerType|
                    ptr_index(q) < i + 1 && #[trigger] flagged(
                        a,
                        ptr_index(q) as int,
                        provided(self.overlay_interfaces@, trigger@, script_name@, q),
                    ) implies warns_about(diagnostics@, old_d.len() as int, q) by {
                    crate::pointer::lemma_ptr_index(q);
                    if ptr_index(q) < i {
                        lemma_warns_about_extend(mid, diagnostics@, old_d.len() as int, q);
                    } else {
                        crate::pointer::lemma_ptr_index(ptr);
                        assert(q == ptr);
                        let k = choose|k: int| mid.len() <= k < diagnostics@.len() && (#[trigger] diagnostics@[k]).severity
                            == Severity::Warning && pointer_warning(diagnostics@[k].message@, ptr);
                        assert(old_d.len() <= k);
                    }
                }
            }
            i += 1;
        }
        proof {
            assert forall|k: int| old_d.len() <= k < diagnostics@.len() implies (#[trigger] diagnostics@[k]).phase == Phase::PointerCheck
                && diagnostics@[k].severity != Severity::Error && exists|j: int| 0 <= j < scripts@.len() && diagnostics@[k].file@ == (#[trigger] scripts@[j]).source_path@ by {
                assert(diagnostics@[k].file@ == scripts@[script_idx as int].source_path@);
            }
            if has_analysis {
                lemma_flagged_step(self.script_analyses@[script_name@], self.overlay_interfaces@, trigger@, script_name@, 0);
            }
            if first_named(old(self).scripts@, script_name@) is Some && !pending_in(old(self).pending_analyses@, script_name@) {
                assert(has_analysis);
                assert(first_named(old(self).scripts@, script_name@)->Some_0 == script_idx);
                assert(warns_from(diagnostics@, old_d.len() as int) == flagged_below(
                    self.script_analyses@[script_name@],
                    self.overlay_interfaces@,
                    trigger@,
                    script_name@,
                    22,
                ));
            }
        }
    }

    /// Checks every script, in order, and returns the findings: warnings and
    /// info notes of the pointer-check phase, never errors.
    proof fn lemma_run_step(&self, before: &Self, i: int, mid: Seq<Diagnostic>, now: Seq<Diagnostic>)
        requires
            0 <= i < before.scripts@.len(),
            Self::same_pending(before, self),
            now.len() >= mid.len(),
            now.subrange(0, mid.len() as int) == mid,
            script_findings(mid, 0, before.scripts@),
            script_findings(now, mid.len() as int, before.scripts@),
            warnings_about_pointers(mid, 0),
            warnings_about_pointers(now, mid.len() as int),
            before.fresh() ==> forall|j: int| 0 <= j < i ==> before.script_analyses@.contains_key(#[trigger] before.scripts@[j].name@),
            before.fresh() ==> (warns_from(mid, 0) <==> exists|j: int| 0 <= j < i && #[trigger] before.script_flagged(j)),
            before.fresh() ==> forall|j: int, p: PointerType|
                0 <= j < i && #[trigger] before.script_flags(j, p) ==> warns_about(mid, 0, p),
            before.fresh() ==> self.script_analyses@.contains_key(before.scripts@[i].name@),
            before.fresh() ==> (self.script_flagged(i) <==> warns_from(now, mid.len() as int)),
            before.fresh() ==> forall|p: PointerType| #[trigger] self.script_flags(i, p) ==> warns_about(now, mid.len() as int, p),
        ensures
            script_findings(now, 0, before.scripts@),
            warnings_about_pointers(now, 0),
            before.fresh() ==> forall|j: int| 0 <= j < i + 1 ==> self.script_analyses@.contains_key(#[trigger] before.scripts@[j].name@),
            before.fresh() ==> (warns_from(now, 0) <==> exists|j: int| 0 <= j < i + 1 && #[trigger] self.script_flagged(j)),
            before.fresh() ==> forall|j: int, p: PointerType|
                0 <= j < i + 1 && #[trigger] self.script_flags(j, p) ==> warns_about(now, 0, p),
    {
        lemma_warnings_concat(mid, now, 0);
        lemma_findings_prefix(mid, now, before.scripts@);
        if before.fresh() {
            self.lemma_run_flagged(before, i, mid, now);
            self.lemma_run_flags(before, i, mid, now);
        }
    }

    #[verifier::spinoff_prover]
    #[verifier::rlimit(100)]
    proof fn lemma_run_flagged(&self, before: &Self, i: int, mid: Seq<Diagnostic>, now: Seq<Diagnostic>)
        requires
            0 <= i < before.scripts@.len(),
            Self::same_pending(before, self),
            now.len() >= mid.len(),
            now.subrange(0, mid.len() as int) == mid,
            forall|j: int| 0 <= j < i ==> before.script_analyses@.contains_key(#[trigger] before.scripts@[j].name@),
            (warns_from(mid, 0) <==> exists|j: int| 0 <= j < i && #[trigger] before.script_flagged(j)),
            self.script_analyses@.contains_key(before.scripts@[i].name@),
            (self.script_flagged(i) <==> warns_from(now, mid.len() as int)),
        ensures
            forall|j: int| 0 <= j < i + 1 ==> self.script_analyses@.contains_key(#[trigger] before.scripts@[j].name@),
            (warns_from(now, 0) <==> exists|j: int| 0 <= j < i + 1 && #[trigger] self.script_flagged(j)),
    {
        assert forall|j: int| 0 <= j < i + 1 implies self.script_analyses@.contains_key(#[trigger] before.scripts@[j].name@) by {
            if j < i {
                assert(before.script_analyses@.contains_key(before.scripts@[j].name@));
            }
        }
        self.lemma_flagged_kept(before, i);
        lemma_warns_concat(Seq::empty(), mid, now, 0);
        if exists|j: int| 0 <= j < i + 1 && #[trigger] self.script_flagged(j) {
            let j = choose|j: int| 0 <= j < i + 1 && #[trigger] self.script_flagged(j);
            if j < i {
                assert(before.script_flagged(j));
            }
        }
        if exists|j: int| 0 <= j < i && #[trigger] before.script_flagged(j) {
            let j = choose|j: int| 0 <= j < i && #[trigger] before.script_flagged(j);
            assert(self.script_flagged(j));
        }
    }

    #[verifier::spinoff_prover]
    #[verifier::rlimit(100)]
    proof fn lemma_flagged_kept(&self, before: &Self, i: int)
        requires
            0 <= i <= before.scripts@.len(),
            Self::same_pending(before, self),
            forall|j: int| 0 <= j < i ==> before.script_analyses@.contains_key(#[trigger] before.scripts@[j].name@),
        ensures
            forall|j: int| 0 <= j < i ==> #[trigger] self.script_flagged(j) == before.script_flagged(j),
    {
        let scripts = before.scripts@;
        reveal(PointerChecker::script_flagged);
        assert forall|j: int| 0 <= j < i implies #[trigger] self.script_flagged(j) == before.script_flagged(j) by {
            assert(before.script_analyses@.contains_key(scripts[j].name@));
        }
    }

    #[verifier::spinoff_prover]
    #[verifier::rlimit(100)]
    proof fn lemma_run_flags(&self, before: &Self, i: int, mid: Seq<Diagnostic>, now: Seq<Diagnostic>)
        requires
            0 <= i < before.scripts@.len(),
            Self::same_pending(before, self),
            now.len() >= mid.len(),
            now.subrange(0, mid.len() as int) == mid,
            forall|j: int| 0 <= j < i ==> before.script_analyses@.contains_key(#[trigger] before.scripts@[j].name@),
            forall|j: int, p: PointerType| 0 <= j < i && #[trigger] before.script_flags(j, p) ==> warns_about(mid, 0, p),
            forall|p: PointerType| #[trigger] self.script_flags(i, p) ==> warns_about(now, mid.len() as int, p),
        ensures
            forall|j: int, p: PointerType| 0 <= j < i + 1 && #[trigger] self.script_flags(j, p) ==> warns_about(now, 0, p),
    {
        let scripts = before.scripts@;
        assert forall|j: int, p: PointerType| 0 <= j < i + 1 && #[trigger] self.script_flags(j, p) implies warns_about(now, 0, p) by {
            if j < i {
                assert(before.script_analyses@.contains_key(scripts[j].name@));
                assert(before.script_flags(j, p));
                lemma_warns_about_extend(mid, now, 0, p);
            } else {
                assert(warns_about(now, mid.len() as int, p));
                let k = choose|k: int| mid.len() <= k < now.len() && (#[trigger] now[k]).severity == Severity::Warning
                    && pointer_warning(now[k].message@, p);
                assert(0 <= k);
            }
        }
    }

    /// Checks the pointers of script `i`.
    #[verifier::rlimit(60)]
    fn validate_at(&mut self, i: usize, diagnostics: &mut DiagnosticsCollector)
        requires
            old(self).wf(),
            i < old(self).scripts@.len(),
        ensures
            final(self).wf(),
            Self::same_pending(old(self), final(self)),
            final(diagnostics)@.len() >= old(diagnostics)@.len(),
            final(diagnostics)@.subrange(0, old(diagnostics)@.len() as int) == old(diagnostics)@,
            script_findings(final(diagnostics)@, old(diagnostics)@.len() as int, old(self).scripts@),
            warnings_about_pointers(final(diagnostics)@, old(diagnostics)@.len() as int),
            old(self).fresh() ==> final(self).script_analyses@.contains_key(old(self).scripts@[i as int].name@),
            old(self).fresh() ==> (final(self).script_flagged(i as int) <==> warns_from(
                final(diagnostics)@,
                old(diagnostics)@.len() as int,
            )),
            old(self).fresh() ==> forall|p: PointerType|
                #[trigger] final(self).script_flags(i as int, p) ==> warns_about(
                    final(diagnostics)@,
                    old(diagnostics)@.len() as int,
                    p,
                ),
    {
        let ghost before = *self;
        self.validate_script(self.scripts[i].name.as_str(), diagnostics);
        proof {
            reveal(PointerChecker::script_flagged);
            if before.fresh() {
                let name = before.scripts@[i as int].name@;
                assert(first_named(before.scripts@, name) is Some) by {
                    assert(before.scripts@[i as int].name@ == name);
                }
                assert(!pending_in(before.pending_analyses@, name));
                assert forall|p: PointerType| #[trigger] self.script_flags(i as int, p) implies warns_about(
                    diagnostics@,
                    old(diagnostics)@.len() as int,
                    p,
                ) by {}
            }
        }
    }

    #[verifier::spinoff_prover]
    #[verifier::rlimit(100)]
    pub fn run(&mut self) -> (d: DiagnosticsCollector)
        requires
            old(self).wf(),
        ensures
            final(self).wf(),
            script_findings(d@, 0, old(self).checked_scripts()),
            final(self).checked_scripts() == old(self).checked_scripts(),
            old(self).fresh() ==> (warns_from(d@, 0) <==> final(self).any_flagged()),
            old(self).fresh() ==> forall|j: int|
                0 <= j < old(self).checked_scripts().len() ==> final(self).analyzed(
                    #[trigger] old(self).checked_scripts()[j].name@,
                ) && final(self).records_var_reads(old(self).checked_scripts()[j].name@),
            old(self).fresh() ==> forall|j: int, p: PointerType|
                0 <= j < old(self).checked_scripts().len() && #[trigger] final(self).script_flags(j, p) ==> warns_about(
                    d@,
                    0,
                    p,
                ),
            warnings_about_pointers(d@, 0),
    {
        let mut diagnostics = DiagnosticsCollector::new();
        let scripts: &'a [CompiledScript] = self.scripts;
        let ghost fresh = old(self).fresh();
        let mut i: usize = 0;
        while i < scripts.len()
            invariant
                i <= scripts@.len(),
                scripts == self.scripts,
                scripts == old(self).scripts,
                self.wf(),
                script_findings(diagnostics@, 0, scripts@),
                warnings_about_pointers(diagnostics@, 0),
                fresh == old(self).fresh(),
                Self::same_pending(old(self), self),
                fresh ==> forall|j: int| 0 <= j < i ==> self.script_analyses@.contains_key(#[trigger] scripts@[j].name@),
                fresh ==> (warns_from(diagnostics@, 0) <==> exists|j: int| 0 <= j < i && #[trigger] self.script_flagged(j)),
                fresh ==> forall|j: int, p: PointerType|
                    0 <= j < i && #[trigger] self.script_flags(j, p) ==> warns_about(diagnostics@, 0, p),
            decreases scripts@.len() - i,
        {
            let ghost mid = diagnostics@;
            let ghost before = *self;
            self.validate_at(i, &mut diagnostics);
            proof {
                assert(fresh ==> before.fresh());
                self.lemma_run_step(&before, i as int, mid, diagnostics@);
            }
            i += 1;
        }
        proof {
            if fresh {
                assert(forall|j: int| 0 <= j < scripts@.len() && #[trigger] self.script_flagged(j) ==> 0 <= j < i);
            }
        }
        diagnostics
    }
}

} // verus!
