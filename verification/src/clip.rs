//! Ear clipping of the outline ring: the rule that cuts one ear (a corner
//! whose triangle holds no other node) at a time, until a triangle is left.
//!
//! The ring is the list of nodes with its prev/next links; cutting the ear at
//! `curr` links its neighbours to each other. The queue holds the convex
//! corners still to try, in order; a corner whose triangle holds another node
//! goes to the back of the queue.
use vstd::prelude::*;
use crate::geometry::{Position, spec_turn_cross};
use crate::nodes::{Connection, Node, Turn, links_in_range, spec_turn_changed};

verus! {

/// The state of the ear clipping.
pub struct ClipState {
    /// The ring.
    pub nodes: Seq<Node>,
    /// The corners still to try.
    pub queue: Seq<usize>,
    /// A node of the ring where walks around it start.
    pub start: usize,
    /// The number of nodes left in the ring.
    pub count: usize,
    /// The indices of the ear triangles cut so far.
    pub out: Seq<u32>,
}

/// The node reached from `start` after `k` steps along the next links.
pub open spec fn spec_walk(nodes: Seq<Node>, start: usize, k: nat) -> usize
    decreases k,
{
    if k == 0 {
        start
    } else {
        nodes[spec_walk(nodes, start, (k - 1) as nat) as int].connection.next
    }
}

/// `pn` lies in the closed triangle `p1`, `p2`, `p3` wound in the convex
/// direction.
pub open spec fn spec_inside(
    p1: Position,
    p2: Position,
    p3: Position,
    pn: Position,
    convex: Turn,
) -> bool {
    if convex == Turn::Clockwise {
        &&& spec_turn_cross(p1, p2, pn) >= 0
        &&& spec_turn_cross(p2, p3, pn) >= 0
        &&& spec_turn_cross(p3, p1, pn) >= 0
    } else {
        &&& spec_turn_cross(p1, p2, pn) <= 0
        &&& spec_turn_cross(p2, p3, pn) <= 0
        &&& spec_turn_cross(p3, p1, pn) <= 0
    }
}

/// Node `n`, which is none of the ear's three corners, lies in the ear.
pub open spec fn spec_blocks(
    nodes: Seq<Node>,
    prev: usize,
    curr: usize,
    next: usize,
    n: usize,
    convex: Turn,
) -> bool {
    &&& n != prev
    &&& n != curr
    &&& n != next
    &&& spec_inside(
        nodes[prev as int].position,
        nodes[curr as int].position,
        nodes[next as int].position,
        nodes[n as int].position,
        convex,
    )
}

/// No node of the `count` nodes walked from `start` lies in the ear.
pub open spec fn spec_ear_is_empty(
    nodes: Seq<Node>,
    start: usize,
    count: usize,
    prev: usize,
    curr: usize,
    next: usize,
    convex: Turn,
) -> bool {
    forall|k: nat|
        k < count ==> !spec_blocks(
            nodes,
            prev,
            curr,
            next,
            #[trigger] spec_walk(nodes, start, k),
            convex,
        )
}

/// The index of the top vertex of node `i` (each node has six vertices).
pub open spec fn top_vertex(i: usize) -> u32 {
    (6 * i) as u32
}

/// The index of the bottom vertex of node `i`.
pub open spec fn bottom_vertex(i: usize) -> u32 {
    (6 * i + 5) as u32
}

/// A triangle of the top face.
pub open spec fn spec_top(i0: usize, i1: usize, i2: usize) -> Seq<u32> {
    seq![top_vertex(i0), top_vertex(i1), top_vertex(i2)]
}

/// A triangle of the bottom face.
pub open spec fn spec_bottom(i0: usize, i1: usize, i2: usize) -> Seq<u32> {
    seq![bottom_vertex(i0), bottom_vertex(i1), bottom_vertex(i2)]
}

/// The top and the bottom triangle of an ear, wound so that both faces
/// point outwards.
pub open spec fn spec_ear(prev: usize, curr: usize, next: usize, convex: Turn) -> Seq<u32> {
    if convex == Turn::Clockwise {
        spec_top(prev, next, curr) + spec_bottom(prev, curr, next)
    } else {
        spec_top(prev, curr, next) + spec_bottom(prev, next, curr)
    }
}

/// The ring after every one of the `k` nodes walked from `cur` had
/// `is_turn_changed` applied, in walking order.
pub open spec fn spec_refresh(nodes: Seq<Node>, cur: usize, k: nat) -> Seq<Node>
    decreases k,
{
    if k == 0 {
        nodes
    } else {
        spec_refresh(spec_turn_changed(nodes, cur as int).0, nodes[cur as int].connection.next, (k - 1) as nat)
    }
}

/// The ring after the ear at `curr` is cut: its neighbours are linked.
pub open spec fn spec_unlink(nodes: Seq<Node>, prev: usize, curr: usize, next: usize) -> Seq<Node> {
    let n1 = nodes.update(
        prev as int,
        Node {
            connection: Connection {
                next: nodes[curr as int].connection.next,
                ..nodes[prev as int].connection
            },
            ..nodes[prev as int]
        },
    );
    n1.update(
        next as int,
        Node {
            connection: Connection { prev: n1[curr as int].connection.prev, ..n1[next as int].connection },
            ..n1[next as int]
        },
    )
}

/// A neighbour of a cut ear that is not convex is checked again; if its
/// turn changed (it became convex) it is queued.
pub open spec fn spec_recheck(nodes: Seq<Node>, queue: Seq<usize>, i: usize, convex: Turn) -> (
    Seq<Node>,
    Seq<usize>,
) {
    if nodes[i as int].turn != convex {
        let (n2, changed) = spec_turn_changed(nodes, i as int);
        if changed {
            (n2, queue.push(i))
        } else {
            (n2, queue)
        }
    } else {
        (nodes, queue)
    }
}

/// One step of the ear clipping.
///
/// - With three nodes or fewer left, nothing changes.
/// - With an empty queue, the turns of the ring's nodes are checked again.
/// - Otherwise the first queued corner is taken; if its ear is empty the ear
///   is cut (its triangles are output, its neighbours linked and checked
///   again, the walk start moved off it), else it goes to the back.
pub open spec fn spec_clip_step(s: ClipState, convex: Turn) -> ClipState {
    if s.count <= 3 {
        s
    } else if s.queue.len() == 0 {
        ClipState { nodes: spec_refresh(s.nodes, s.start, s.count as nat), ..s }
    } else {
        let curr = s.queue[0];
        let rest = s.queue.drop_first();
        let prev = s.nodes[curr as int].connection.prev;
        let next = s.nodes[curr as int].connection.next;
        if spec_ear_is_empty(s.nodes, s.start, s.count, prev, curr, next, convex) {
            let n2 = spec_unlink(s.nodes, prev, curr, next);
            let (n3, q1) = spec_recheck(n2, rest, prev, convex);
            let (n4, q2) = spec_recheck(n3, q1, next, convex);
            ClipState {
                nodes: n4,
                queue: q2,
                start: if curr == s.start {
                    n4[curr as int].connection.next
                } else {
                    s.start
                },
                count: (s.count - 1) as usize,
                out: s.out + spec_ear(prev, curr, next, convex),
            }
        } else {
            ClipState { queue: rest.push(curr), ..s }
        }
    }
}

/// The state after `k` steps.
pub open spec fn spec_clip_iter(s: ClipState, convex: Turn, k: nat) -> ClipState
    decreases k,
{
    if k == 0 {
        s
    } else {
        spec_clip_iter(spec_clip_step(s, convex), convex, (k - 1) as nat)
    }
}

/// Some number of steps leaves three nodes or fewer.
pub open spec fn spec_clip_finishes(s: ClipState, convex: Turn) -> bool {
    exists|k: nat| (#[trigger] spec_clip_iter(s, convex, k)).count <= 3
}

/// The state in which the clipping ends, when it does.
pub open spec fn spec_clip_result(s: ClipState, convex: Turn) -> ClipState {
    spec_clip_iter(s, convex, choose|k: nat| (#[trigger] spec_clip_iter(s, convex, k)).count <= 3)
}

/// The two triangles of the last three nodes, around the walk start.
pub open spec fn spec_last_triangle(s: ClipState, convex: Turn) -> Seq<u32> {
    let sp = s.nodes[s.start as int].connection.prev;
    let sn = s.nodes[s.start as int].connection.next;
    if convex == Turn::Clockwise {
        spec_top(s.start, sp, sn) + spec_bottom(s.start, sn, sp)
    } else {
        spec_top(s.start, sn, sp) + spec_bottom(s.start, sp, sn)
    }
}

/// All triangles of the top and the bottom face: the cut ears, then the last
/// triangle.
pub open spec fn spec_clip_output(s: ClipState, convex: Turn) -> Seq<u32> {
    let r = spec_clip_result(s, convex);
    r.out + spec_last_triangle(r, convex)
}

/// A clip state over a ring of `n` nodes: every link, queued corner and the
/// walk start are node indices; `count` nodes are left, at least three; and
/// each cut node has added six top/bottom vertex indices.
pub open spec fn clip_wf(s: ClipState, n: nat) -> bool {
    &&& s.nodes.len() == n
    &&& links_in_range(s.nodes)
    &&& forall|k: int| 0 <= k < s.queue.len() ==> (#[trigger] s.queue[k]) < n
    &&& s.start < n
    &&& 3 <= s.count <= n
    &&& s.out.len() == 6 * (n - s.count)
    &&& forall|k: int| 0 <= k < s.out.len() ==> (#[trigger] s.out[k]) < 6 * n
}

// ---------------------------------------------------------------------------
// Lemmas

pub proof fn lemma_walk_in_range(nodes: Seq<Node>, start: usize, k: nat)
    requires
        links_in_range(nodes),
        start < nodes.len(),
    ensures
        spec_walk(nodes, start, k) < nodes.len(),
    decreases k,
{
    if k > 0 {
        lemma_walk_in_range(nodes, start, (k - 1) as nat);
    }
}

proof fn lemma_turn_changed_links(nodes: Seq<Node>, i: int)
    requires
        0 <= i < nodes.len(),
    ensures
        spec_turn_changed(nodes, i).0.len() == nodes.len(),
        forall|j: int|
            0 <= j < nodes.len() ==> (#[trigger] spec_turn_changed(nodes, i).0[j]).connection
                == nodes[j].connection && spec_turn_changed(nodes, i).0[j].position
                == nodes[j].position,
{
}

proof fn lemma_refresh_links(nodes: Seq<Node>, cur: usize, k: nat)
    requires
        links_in_range(nodes),
        cur < nodes.len(),
    ensures
        spec_refresh(nodes, cur, k).len() == nodes.len(),
        forall|j: int|
            0 <= j < nodes.len() ==> (#[trigger] spec_refresh(nodes, cur, k)[j]).connection
                == nodes[j].connection,
    decreases k,
{
    if k > 0 {
        let n2 = spec_turn_changed(nodes, cur as int).0;
        lemma_turn_changed_links(nodes, cur as int);
        assert(links_in_range(n2)) by {
            assert forall|j: int| 0 <= j < n2.len() implies {
                &&& (#[trigger] n2[j]).connection.prev < n2.len()
                &&& n2[j].connection.next < n2.len()
            } by {
                assert(n2[j].connection == nodes[j].connection);
            }
        }
        lemma_refresh_links(n2, nodes[cur as int].connection.next, (k - 1) as nat);
    }
}

proof fn lemma_recheck(nodes: Seq<Node>, queue: Seq<usize>, i: usize, convex: Turn)
    requires
        links_in_range(nodes),
        i < nodes.len(),
        forall|k: int| 0 <= k < queue.len() ==> (#[trigger] queue[k]) < nodes.len(),
    ensures
        ({
            let (n2, q2) = spec_recheck(nodes, queue, i, convex);
            &&& n2.len() == nodes.len()
            &&& links_in_range(n2)
            &&& forall|j: int|
                0 <= j < nodes.len() ==> (#[trigger] n2[j]).connection == nodes[j].connection
            &&& forall|k: int| 0 <= k < q2.len() ==> (#[trigger] q2[k]) < nodes.len()
            &&& q2.len() <= queue.len() + 1
        }),
{
    lemma_turn_changed_links(nodes, i as int);
    let (n2, q2) = spec_recheck(nodes, queue, i, convex);
    assert forall|j: int| 0 <= j < n2.len() implies {
        &&& (#[trigger] n2[j]).connection.prev < n2.len()
        &&& n2[j].connection.next < n2.len()
    } by {
        assert(n2[j].connection == nodes[j].connection);
    }
}

/// Every step keeps a clip state well formed and never adds nodes back.
pub proof fn lemma_step_wf(s: ClipState, convex: Turn, n: nat)
    requires
        clip_wf(s, n),
    ensures
        clip_wf(spec_clip_step(s, convex), n),
        spec_clip_step(s, convex).count <= s.count,
        spec_clip_step(s, convex).count >= s.count - 1,
{
    if s.count <= 3 {
    } else if s.queue.len() == 0 {
        lemma_refresh_links(s.nodes, s.start, s.count as nat);
        let r = spec_refresh(s.nodes, s.start, s.count as nat);
        assert forall|j: int| 0 <= j < r.len() implies {
            &&& (#[trigger] r[j]).connection.prev < r.len()
            &&& r[j].connection.next < r.len()
        } by {
            assert(r[j].connection == s.nodes[j].connection);
        }
    } else {
        let curr = s.queue[0];
        let rest = s.queue.drop_first();
        let prev = s.nodes[curr as int].connection.prev;
        let next = s.nodes[curr as int].connection.next;
        if spec_ear_is_empty(s.nodes, s.start, s.count, prev, curr, next, convex) {
            let n2 = spec_unlink(s.nodes, prev, curr, next);
            assert(links_in_range(n2)) by {
                assert forall|j: int| 0 <= j < n2.len() implies {
                    &&& (#[trigger] n2[j]).connection.prev < n2.len()
                    &&& n2[j].connection.next < n2.len()
                } by {
                    assert(s.nodes[j].connection.prev < n);
                }
            }
            assert forall|k: int| 0 <= k < rest.len() implies (#[trigger] rest[k]) < n by {
                assert(rest[k] == s.queue[k + 1]);
            }
            lemma_recheck(n2, rest, prev, convex);
            let (n3, q1) = spec_recheck(n2, rest, prev, convex);
            lemma_recheck(n3, q1, next, convex);
            let (n4, q2) = spec_recheck(n3, q1, next, convex);
            let t = spec_clip_step(s, convex);
            let e = spec_ear(prev, curr, next, convex);
            assert(e.len() == 6);
            assert forall|k: int| 0 <= k < e.len() implies (#[trigger] e[k]) < 6 * n by {
                assert(prev < n && curr < n && next < n);
            }
            assert forall|k: int| 0 <= k < t.out.len() implies (#[trigger] t.out[k]) < 6 * n by {
                if k < s.out.len() {
                    assert(t.out[k] == s.out[k]);
                } else {
                    assert(t.out[k] == e[k - s.out.len()]);
                }
            }
            assert(n4[curr as int].connection.next < n);
        } else {
            let t = spec_clip_step(s, convex);
            assert forall|k: int| 0 <= k < t.queue.len() implies (#[trigger] t.queue[k]) < n by {
                if k < rest.len() {
                    assert(t.queue[k] == s.queue[k + 1]);
                }
            }
        }
    }
}

/// Iterating keeps a clip state well formed and the count never grows.
pub proof fn lemma_iter_wf(s: ClipState, convex: Turn, n: nat, k: nat)
    requires
        clip_wf(s, n),
    ensures
        clip_wf(spec_clip_iter(s, convex, k), n),
        spec_clip_iter(s, convex, k).count <= s.count,
    decreases k,
{
    if k > 0 {
        lemma_step_wf(s, convex, n);
        lemma_iter_wf(spec_clip_step(s, convex), convex, n, (k - 1) as nat);
    }
}

/// `a` steps then `b` steps are `a + b` steps.
pub proof fn lemma_iter_add(s: ClipState, convex: Turn, a: nat, b: nat)
    ensures
        spec_clip_iter(s, convex, a + b) == spec_clip_iter(spec_clip_iter(s, convex, a), convex, b),
    decreases a,
{
    if a > 0 {
        lemma_iter_add(spec_clip_step(s, convex), convex, (a - 1) as nat, b);
        assert((a + b) as nat - 1 == (a - 1) as nat + b);
    }
}

/// One more step is a step from the current state.
pub proof fn lemma_iter_succ(s: ClipState, convex: Turn, k: nat)
    ensures
        spec_clip_iter(s, convex, k + 1) == spec_clip_step(spec_clip_iter(s, convex, k), convex),
{
    lemma_iter_add(s, convex, k, 1);
    let t = spec_clip_iter(s, convex, k);
    assert(spec_clip_iter(spec_clip_step(t, convex), convex, 0) == spec_clip_step(t, convex));
}

/// Once three nodes or fewer are left, the state no longer changes.
pub proof fn lemma_iter_done(s: ClipState, convex: Turn, k: nat)
    requires
        s.count <= 3,
    ensures
        spec_clip_iter(s, convex, k) == s,
    decreases k,
{
    if k > 0 {
        lemma_iter_done(s, convex, (k - 1) as nat);
    }
}

/// The count never grows along the steps (without any well-formedness).
pub proof fn lemma_iter_count_mono(s: ClipState, convex: Turn, j: nat, k: nat)
    requires
        j <= k,
    ensures
        spec_clip_iter(s, convex, k).count <= spec_clip_iter(s, convex, j).count,
    decreases k - j,
{
    if j < k {
        lemma_iter_count_mono(s, convex, j, (k - 1) as nat);
        lemma_iter_succ(s, convex, (k - 1) as nat);
    }
}

/// The state in which a finishing clipping ends is the state after any
/// number of steps that leaves three nodes or fewer.
pub proof fn lemma_clip_result(s: ClipState, convex: Turn, k: nat)
    requires
        spec_clip_iter(s, convex, k).count <= 3,
    ensures
        spec_clip_finishes(s, convex),
        spec_clip_result(s, convex) == spec_clip_iter(s, convex, k),
{
    let c = choose|c: nat| (#[trigger] spec_clip_iter(s, convex, c)).count <= 3;
    if c <= k {
        lemma_iter_add(s, convex, c, (k - c) as nat);
        lemma_iter_done(spec_clip_iter(s, convex, c), convex, (k - c) as nat);
    } else {
        lemma_iter_add(s, convex, k, (c - k) as nat);
        lemma_iter_done(spec_clip_iter(s, convex, k), convex, (c - k) as nat);
    }
}

/// A state with an empty queue and more than three nodes never finishes.
pub proof fn lemma_empty_queue_stuck(s: ClipState, convex: Turn, k: nat)
    requires
        s.queue.len() == 0,
        s.count > 3,
    ensures
        spec_clip_iter(s, convex, k).queue.len() == 0,
        spec_clip_iter(s, convex, k).count == s.count,
    decreases k,
{
    if k > 0 {
        lemma_empty_queue_stuck(spec_clip_step(s, convex), convex, (k - 1) as nat);
    }
}

/// A state that comes back to itself after `period` steps, with more than
/// three nodes, keeps its count forever.
pub proof fn lemma_cycle_stuck(s: ClipState, convex: Turn, period: nat, k: nat)
    requires
        period > 0,
        spec_clip_iter(s, convex, period) == s,
        s.count > 3,
    ensures
        spec_clip_iter(s, convex, k).count == s.count,
    decreases k,
{
    if k < period {
        lemma_iter_count_mono(s, convex, k, period);
        lemma_iter_count_mono(s, convex, 0, k);
    } else {
        lemma_iter_add(s, convex, period, (k - period) as nat);
        lemma_cycle_stuck(s, convex, period, (k - period) as nat);
    }
}

/// If the state after `m` steps never finishes, neither does `s`.
pub proof fn lemma_never_finishes(s: ClipState, convex: Turn, m: nat)
    requires
        forall|k: nat|
            #![trigger spec_clip_iter(spec_clip_iter(s, convex, m), convex, k)]
            spec_clip_iter(spec_clip_iter(s, convex, m), convex, k).count > 3,
    ensures
        !spec_clip_finishes(s, convex),
{
    assert forall|k: nat| (#[trigger] spec_clip_iter(s, convex, k)).count > 3 by {
        if k <= m {
            lemma_iter_count_mono(s, convex, k, m);
            assert(spec_clip_iter(spec_clip_iter(s, convex, m), convex, 0).count > 3);
        } else {
            lemma_iter_add(s, convex, m, (k - m) as nat);
            assert(spec_clip_iter(spec_clip_iter(s, convex, m), convex, (k - m) as nat).count > 3);
        }
    }
}


/// The queue turned `m` places: its first `m` entries moved to the back.
pub open spec fn spec_rotate(q: Seq<usize>, m: int) -> Seq<usize> {
    q.skip(m) + q.take(m)
}

/// Moving the first entry of a turned queue to its back turns it one more.
pub proof fn lemma_rotate_step(q: Seq<usize>, m: int)
    requires
        0 <= m < q.len(),
    ensures
        spec_rotate(q, m).drop_first().push(spec_rotate(q, m)[0]) == spec_rotate(q, m + 1),
{
    let r = spec_rotate(q, m);
    let a = r.drop_first().push(r[0]);
    let b = spec_rotate(q, m + 1);
    assert(r[0] == q[m]);
    assert forall|i: int| 0 <= i < a.len() implies a[i] == b[i] by {
        if i < q.len() - m - 1 {
            assert(a[i] == r[i + 1]);
            assert(r[i + 1] == q[m + 1 + i]);
        } else if i < q.len() - 1 {
            assert(a[i] == r[i + 1]);
            assert(r[i + 1] == q[i + 1 - (q.len() - m)]);
        } else {
            assert(a[i] == q[m]);
        }
    }
    assert(a =~= b);
}

/// A queue turned by none or by its whole length is unchanged.
pub proof fn lemma_rotate_full(q: Seq<usize>)
    ensures
        spec_rotate(q, 0) == q,
        spec_rotate(q, q.len() as int) == q,
{
    assert(spec_rotate(q, 0) =~= q);
    assert(spec_rotate(q, q.len() as int) =~= q);
}

} // verus!
