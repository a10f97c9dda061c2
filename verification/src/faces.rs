//! The top and bottom faces that ear clipping makes of an outline: every
//! cut triangle has three different corners, the bottom triangle is the top
//! one wound the other way, and the triangles' areas add up to the area of
//! the outline.
use vstd::prelude::*;
use crate::geometry::{Position, spec_cross, spec_turn_cross};
use crate::nodes::{Node, Turn, links_in_range, spec_turn_changed};
use crate::clip::{
    ClipState, clip_wf, spec_clip_iter, spec_clip_step, spec_ear, spec_ear_is_empty, spec_recheck,
    spec_refresh, spec_unlink, spec_walk,
};

verus! {

/// Twice the signed area swept from the origin along the edge from `a` to
/// `b` (the edge's term of the shoelace formula).
pub open spec fn edge_area(a: Position, b: Position) -> int {
    spec_cross(a.x as int, a.z as int, b.x as int, b.z as int)
}

/// The shoelace terms of the first `m` edges walked from `start`.
pub open spec fn walk_area(nodes: Seq<Node>, start: usize, m: nat) -> int
    decreases m,
{
    if m == 0 {
        0
    } else {
        walk_area(nodes, start, (m - 1) as nat) + edge_area(
            nodes[spec_walk(nodes, start, (m - 1) as nat) as int].position,
            nodes[spec_walk(nodes, start, m) as int].position,
        )
    }
}

/// Twice the signed area of an outline: the shoelace sum over its ring,
/// walked from node 0 (positive where the outline runs clockwise, seen from
/// above with x to the right and z down).
pub open spec fn outline_area(nodes: Seq<Node>) -> int {
    walk_area(nodes, 0, nodes.len())
}

/// The sign that turns the outline's area into the area of the faces: the
/// top face looks up whichever way the outline runs.
pub open spec fn convex_sign(convex: Turn) -> int {
    if convex == Turn::Clockwise {
        1
    } else {
        -1
    }
}

/// The node of a top or bottom vertex index.
pub open spec fn node_of(index: u32) -> int {
    index as int / 6
}

/// Twice the area, seen from above, of the top triangle of group `g` of a
/// face index list (six indices per group: top triangle, then bottom): the
/// up component of its normal, positive where it faces up.
pub open spec fn face_up(nodes: Seq<Node>, out: Seq<u32>, g: int) -> int {
    -spec_turn_cross(
        nodes[node_of(out[6 * g])].position,
        nodes[node_of(out[6 * g + 1])].position,
        nodes[node_of(out[6 * g + 2])].position,
    )
}

/// The up areas of the first `m` top triangles.
pub open spec fn faces_up(nodes: Seq<Node>, out: Seq<u32>, m: nat) -> int
    decreases m,
{
    if m == 0 {
        0
    } else {
        faces_up(nodes, out, (m - 1) as nat) + face_up(nodes, out, m - 1)
    }
}

/// Group `g` of a face index list is a top triangle on three different
/// nodes followed by the bottom triangle on the same nodes, wound the other
/// way round.
pub open spec fn group_ok(out: Seq<u32>, g: int) -> bool {
    let a = out[6 * g];
    let b = out[6 * g + 1];
    let c = out[6 * g + 2];
    &&& a % 6 == 0
    &&& b % 6 == 0
    &&& c % 6 == 0
    &&& a != b
    &&& b != c
    &&& a != c
    &&& out[6 * g + 3] == a + 5
    &&& out[6 * g + 4] == c + 5
    &&& out[6 * g + 5] == b + 5
}

/// Every group of six indices is a top and bottom triangle pair.
pub open spec fn groups_ok(out: Seq<u32>) -> bool {
    forall|g: int| 0 <= g < out.len() / 6 ==> #[trigger] group_ok(out, g)
}

/// Node `i` is one of the `count` nodes walked from `start`.
pub open spec fn on_ring(nodes: Seq<Node>, start: usize, count: usize, i: usize) -> bool {
    exists|k: nat| k < count && spec_walk(nodes, start, k) == i
}

/// The node after the `k`-th of the walk links back to it.
pub open spec fn links_back(nodes: Seq<Node>, start: usize, k: nat) -> bool {
    nodes[spec_walk(nodes, start, k + 1) as int].connection.prev == spec_walk(nodes, start, k)
}

/// The `count` nodes walked from `start` form a ring: different nodes, each
/// linked back from the next, the last one leading back to `start`.
pub open spec fn ring_at(nodes: Seq<Node>, start: usize, count: usize) -> bool {
    &&& spec_walk(nodes, start, count as nat) == start
    &&& forall|k: nat| k < count ==> #[trigger] links_back(nodes, start, k)
    &&& forall|j: nat, k: nat|
        j < k < count ==> #[trigger] spec_walk(nodes, start, j) != #[trigger] spec_walk(
            nodes,
            start,
            k,
        )
}

/// The queued corners are different nodes of the ring, each with the convex
/// turn or none yet.
pub open spec fn queue_ok(s: ClipState, convex: Turn) -> bool {
    &&& s.queue.no_duplicates()
    &&& forall|q: int| 0 <= q < s.queue.len() ==> on_ring(s.nodes, s.start, s.count, #[trigger] s.queue[q])
    &&& forall|q: int|
        0 <= q < s.queue.len() ==> (s.nodes[#[trigger] s.queue[q] as int].turn == convex
            || s.nodes[s.queue[q] as int].turn == Turn::Undefined)
}

/// What the clipping keeps, for an outline `nodes`: the positions, the ring
/// of the nodes left, the queue, the triangle pairs cut so far, and the
/// area: the cut top triangles and the ring left make up the outline.
pub open spec fn clip_inv(s: ClipState, nodes: Seq<Node>, convex: Turn) -> bool {
    let n = nodes.len();
    &&& clip_wf(s, n)
    &&& 6 * n <= u32::MAX + 1
    &&& forall|i: int| 0 <= i < n ==> (#[trigger] s.nodes[i]).position == nodes[i].position
    &&& ring_at(s.nodes, s.start, s.count)
    &&& queue_ok(s, convex)
    &&& groups_ok(s.out)
    &&& faces_up(nodes, s.out, (n - s.count) as nat) + convex_sign(convex) * walk_area(
        s.nodes,
        s.start,
        s.count as nat,
    ) == convex_sign(convex) * outline_area(nodes)
}

// ---------------------------------------------------------------------------
// Area algebra

proof fn lemma_edge_area_swap(a: Position, b: Position)
    ensures
        edge_area(b, a) == -edge_area(a, b),
{
    assert(spec_cross(b.x as int, b.z as int, a.x as int, a.z as int) == -spec_cross(
        a.x as int,
        a.z as int,
        b.x as int,
        b.z as int,
    )) by (nonlinear_arith);
}

/// The triangle's cross product is its shoelace sum.
proof fn lemma_triangle_area(a: Position, b: Position, c: Position)
    ensures
        spec_turn_cross(a, b, c) == edge_area(a, b) + edge_area(b, c) - edge_area(a, c),
{
    let (ax, az, bx, bz, cx, cz) = (a.x as int, a.z as int, b.x as int, b.z as int, c.x as int, c.z as int);
    assert(spec_cross(bx - ax, bz - az, cx - ax, cz - az) == spec_cross(ax, az, bx, bz) + spec_cross(
        bx,
        bz,
        cx,
        cz,
    ) - spec_cross(ax, az, cx, cz)) by (nonlinear_arith);
}

// ---------------------------------------------------------------------------
// Walks

/// Walks over lists with the same links (and positions) agree.
proof fn lemma_walk_same(n1: Seq<Node>, n2: Seq<Node>, start: usize, k: nat)
    requires
        n1.len() == n2.len(),
        links_in_range(n1),
        start < n1.len(),
        forall|i: int| 0 <= i < n1.len() ==> (#[trigger] n2[i]).connection == n1[i].connection,
    ensures
        spec_walk(n2, start, k) == spec_walk(n1, start, k),
        spec_walk(n1, start, k) < n1.len(),
    decreases k,
{
    if k > 0 {
        lemma_walk_same(n1, n2, start, (k - 1) as nat);
        let w = spec_walk(n1, start, (k - 1) as nat);
        assert(n2[w as int].connection == n1[w as int].connection);
    }
}

proof fn lemma_walk_area_same(n1: Seq<Node>, n2: Seq<Node>, start: usize, m: nat)
    requires
        n1.len() == n2.len(),
        links_in_range(n1),
        start < n1.len(),
        forall|i: int|
            0 <= i < n1.len() ==> (#[trigger] n2[i]).connection == n1[i].connection && n2[i].position
                == n1[i].position,
    ensures
        walk_area(n2, start, m) == walk_area(n1, start, m),
    decreases m,
{
    if m > 0 {
        lemma_walk_area_same(n1, n2, start, (m - 1) as nat);
        lemma_walk_same(n1, n2, start, (m - 1) as nat);
        lemma_walk_same(n1, n2, start, m);
    }
}

/// A ring with the same links is the same ring.
proof fn lemma_ring_same(n1: Seq<Node>, n2: Seq<Node>, start: usize, count: usize)
    requires
        n1.len() == n2.len(),
        links_in_range(n1),
        start < n1.len(),
        forall|i: int| 0 <= i < n1.len() ==> (#[trigger] n2[i]).connection == n1[i].connection,
        ring_at(n1, start, count),
    ensures
        ring_at(n2, start, count),
        forall|i: usize| on_ring(n1, start, count, i) ==> on_ring(n2, start, count, i),
{
    lemma_walk_same(n1, n2, start, count as nat);
    assert forall|k: nat| k < count implies #[trigger] links_back(n2, start, k) by {
        assert(links_back(n1, start, k));
        lemma_walk_same(n1, n2, start, k);
        lemma_walk_same(n1, n2, start, k + 1);
        let w = spec_walk(n1, start, k + 1);
        assert(n2[w as int].connection == n1[w as int].connection);
    }
    assert forall|j: nat, k: nat| j < k < count implies #[trigger] spec_walk(n2, start, j)
        != #[trigger] spec_walk(n2, start, k) by {
        lemma_walk_same(n1, n2, start, j);
        lemma_walk_same(n1, n2, start, k);
    }
    assert forall|i: usize| on_ring(n1, start, count, i) implies on_ring(n2, start, count, i) by {
        let k = choose|k: nat| k < count && spec_walk(n1, start, k) == i;
        lemma_walk_same(n1, n2, start, k);
    }
}

/// In a ring the node before the `j`-th (walking from `start`) is the
/// `j - 1`-th, or the last one for the first.
proof fn lemma_ring_prev(nodes: Seq<Node>, start: usize, count: usize, j: nat)
    requires
        ring_at(nodes, start, count),
        j < count,
    ensures
        nodes[spec_walk(nodes, start, j) as int].connection.prev == (if j == 0 {
            spec_walk(nodes, start, (count - 1) as nat)
        } else {
            spec_walk(nodes, start, (j - 1) as nat)
        }),
{
    if j == 0 {
        assert(links_back(nodes, start, (count - 1) as nat));
    } else {
        assert(links_back(nodes, start, (j - 1) as nat));
    }
}


/// `n2` is `nodes` with `prev` and `next` linked to each other (and nothing
/// else changed but turns).
pub open spec fn relinked(nodes: Seq<Node>, n2: Seq<Node>, prev: usize, next: usize) -> bool {
    &&& n2.len() == nodes.len()
    &&& prev < nodes.len()
    &&& next < nodes.len()
    &&& forall|i: int|
        0 <= i < nodes.len() && i != prev && i != next ==> (#[trigger] n2[i]).connection
            == nodes[i].connection
    &&& forall|i: int| 0 <= i < nodes.len() ==> (#[trigger] n2[i]).position == nodes[i].position
    &&& n2[prev as int].connection.next == next
    &&& n2[prev as int].connection.prev == nodes[prev as int].connection.prev
    &&& n2[next as int].connection.prev == prev
    &&& n2[next as int].connection.next == nodes[next as int].connection.next
}

/// Cutting the `j`-th node (not the first) of the walk: the walk skips it.
proof fn lemma_mid_walk(nodes: Seq<Node>, n2: Seq<Node>, start: usize, count: usize, j: nat, k: nat)
    requires
        ring_at(nodes, start, count),
        links_in_range(nodes),
        start < nodes.len(),
        3 <= count,
        1 <= j < count,
        k < count,
        relinked(
            nodes,
            n2,
            spec_walk(nodes, start, (j - 1) as nat),
            spec_walk(nodes, start, j + 1),
        ),
    ensures
        k < j ==> spec_walk(n2, start, k) == spec_walk(nodes, start, k),
        k >= j ==> spec_walk(n2, start, k) == spec_walk(nodes, start, k + 1),
    decreases k,
{
    let prev = spec_walk(nodes, start, (j - 1) as nat);
    let next = spec_walk(nodes, start, j + 1);
    if k > 0 {
        lemma_mid_walk(nodes, n2, start, count, j, (k - 1) as nat);
        lemma_walk_same(nodes, nodes, start, (k - 1) as nat);
        lemma_walk_same(nodes, nodes, start, k);
        if k - 1 < j - 1 {
            let w = spec_walk(nodes, start, (k - 1) as nat);
            assert(w != prev);
            assert(n2[w as int].connection.next == nodes[w as int].connection.next);
        } else if k - 1 == j - 1 {
        } else {
            let w = spec_walk(nodes, start, k);
            assert(w != prev);
            assert(n2[w as int].connection.next == nodes[w as int].connection.next);
        }
    }
}

proof fn lemma_mid_prefix_area(
    nodes: Seq<Node>,
    n2: Seq<Node>,
    start: usize,
    count: usize,
    j: nat,
    m: nat,
)
    requires
        ring_at(nodes, start, count),
        links_in_range(nodes),
        start < nodes.len(),
        3 <= count,
        1 <= j < count,
        m <= j - 1,
        relinked(
            nodes,
            n2,
            spec_walk(nodes, start, (j - 1) as nat),
            spec_walk(nodes, start, j + 1),
        ),
    ensures
        walk_area(n2, start, m) == walk_area(nodes, start, m),
    decreases m,
{
    if m > 0 {
        lemma_mid_prefix_area(nodes, n2, start, count, j, (m - 1) as nat);
        lemma_mid_walk(nodes, n2, start, count, j, (m - 1) as nat);
        lemma_mid_walk(nodes, n2, start, count, j, m);
        lemma_walk_same(nodes, nodes, start, (m - 1) as nat);
        lemma_walk_same(nodes, nodes, start, m);
    }
}

/// Cutting the `j`-th node (not the first) takes its triangle off the area.
proof fn lemma_mid_area(nodes: Seq<Node>, n2: Seq<Node>, start: usize, count: usize, j: nat, m: nat)
    requires
        ring_at(nodes, start, count),
        links_in_range(nodes),
        start < nodes.len(),
        3 <= count,
        1 <= j < count,
        j <= m < count,
        relinked(
            nodes,
            n2,
            spec_walk(nodes, start, (j - 1) as nat),
            spec_walk(nodes, start, j + 1),
        ),
    ensures
        walk_area(n2, start, m) + spec_turn_cross(
            nodes[spec_walk(nodes, start, (j - 1) as nat) as int].position,
            nodes[spec_walk(nodes, start, j) as int].position,
            nodes[spec_walk(nodes, start, j + 1) as int].position,
        ) == walk_area(nodes, start, m + 1),
    decreases m,
{
    lemma_walk_same(nodes, nodes, start, (m - 1) as nat);
    lemma_walk_same(nodes, nodes, start, m);
    lemma_walk_same(nodes, nodes, start, m + 1);
    lemma_mid_walk(nodes, n2, start, count, j, (m - 1) as nat);
    lemma_mid_walk(nodes, n2, start, count, j, m);
    let w0 = spec_walk(n2, start, (m - 1) as nat);
    let w1 = spec_walk(n2, start, m);
    assert(n2[w0 as int].position == nodes[w0 as int].position);
    assert(n2[w1 as int].position == nodes[w1 as int].position);
    assert(walk_area(n2, start, m) == walk_area(n2, start, (m - 1) as nat) + edge_area(
        n2[w0 as int].position,
        n2[w1 as int].position,
    ));
    assert(walk_area(nodes, start, m + 1) == walk_area(nodes, start, m) + edge_area(
        nodes[spec_walk(nodes, start, m) as int].position,
        nodes[spec_walk(nodes, start, m + 1) as int].position,
    ));
    assert(walk_area(nodes, start, m) == walk_area(nodes, start, (m - 1) as nat) + edge_area(
        nodes[spec_walk(nodes, start, (m - 1) as nat) as int].position,
        nodes[spec_walk(nodes, start, m) as int].position,
    ));
    if m == j {
        lemma_mid_prefix_area(nodes, n2, start, count, j, (j - 1) as nat);
        lemma_triangle_area(
            nodes[spec_walk(nodes, start, (j - 1) as nat) as int].position,
            nodes[spec_walk(nodes, start, j) as int].position,
            nodes[spec_walk(nodes, start, j + 1) as int].position,
        );
    } else {
        lemma_mid_area(nodes, n2, start, count, j, (m - 1) as nat);
    }
}

/// Cutting the `j`-th node (not the first) leaves a ring of the others.
proof fn lemma_mid_ring(nodes: Seq<Node>, n2: Seq<Node>, start: usize, count: usize, j: nat)
    requires
        ring_at(nodes, start, count),
        links_in_range(nodes),
        start < nodes.len(),
        4 <= count,
        1 <= j < count,
        relinked(
            nodes,
            n2,
            spec_walk(nodes, start, (j - 1) as nat),
            spec_walk(nodes, start, j + 1),
        ),
    ensures
        ring_at(n2, start, (count - 1) as usize),
        forall|i: usize|
            on_ring(nodes, start, count, i) && i != spec_walk(nodes, start, j) ==> on_ring(
                n2,
                start,
                (count - 1) as usize,
                i,
            ),
{
    let prev = spec_walk(nodes, start, (j - 1) as nat);
    let next = spec_walk(nodes, start, j + 1);
    let c1 = (count - 1) as usize;
    lemma_mid_walk(nodes, n2, start, count, j, c1 as nat);
    assert forall|k: nat| k < c1 implies #[trigger] links_back(n2, start, k) by {
        lemma_mid_walk(nodes, n2, start, count, j, k);
        lemma_mid_walk(nodes, n2, start, count, j, k + 1);
        if k + 1 < j {
            assert(links_back(nodes, start, k));
            let w = spec_walk(nodes, start, k + 1);
            lemma_walk_same(nodes, nodes, start, k + 1);
            if j + 1 == count {
                assert(spec_walk(nodes, start, 0) != w);
            } else {
                assert(spec_walk(nodes, start, j + 1) != w);
            }
            assert(n2[w as int].connection.prev == nodes[w as int].connection.prev);
        } else if k + 1 == j {
        } else {
            assert(links_back(nodes, start, k + 1));
            let w = spec_walk(nodes, start, k + 2);
            lemma_walk_same(nodes, nodes, start, k + 2);
            if k + 2 == count {
                assert(spec_walk(nodes, start, 0) != spec_walk(nodes, start, j + 1));
            } else {
                assert(spec_walk(nodes, start, j + 1) != w);
            }
            assert(n2[w as int].connection.prev == nodes[w as int].connection.prev);
        }
    }
    assert forall|a: nat, b: nat| a < b < c1 implies #[trigger] spec_walk(n2, start, a)
        != #[trigger] spec_walk(n2, start, b) by {
        lemma_mid_walk(nodes, n2, start, count, j, a);
        lemma_mid_walk(nodes, n2, start, count, j, b);
        let a1 = if a < j { a } else { a + 1 };
        let b1 = if b < j { b } else { b + 1 };
        assert(spec_walk(nodes, start, a1) != spec_walk(nodes, start, b1));
    }
    assert forall|i: usize|
        on_ring(nodes, start, count, i) && i != spec_walk(nodes, start, j) implies on_ring(
        n2,
        start,
        c1,
        i,
    ) by {
        let k = choose|k: nat| k < count && spec_walk(nodes, start, k) == i;
        if k < j {
            lemma_mid_walk(nodes, n2, start, count, j, k);
        } else {
            assert(k > j);
            lemma_mid_walk(nodes, n2, start, count, j, (k - 1) as nat);
        }
    }
}


/// Cutting the first node of the walk: the walk from its next node runs
/// over the others and back.
proof fn lemma_first_walk(nodes: Seq<Node>, n2: Seq<Node>, start: usize, count: usize, k: nat)
    requires
        ring_at(nodes, start, count),
        links_in_range(nodes),
        start < nodes.len(),
        3 <= count,
        k < count,
        relinked(
            nodes,
            n2,
            spec_walk(nodes, start, (count - 1) as nat),
            spec_walk(nodes, start, 1),
        ),
    ensures
        k + 1 < count ==> spec_walk(n2, spec_walk(nodes, start, 1), k) == spec_walk(nodes, start, k + 1),
        k + 1 == count ==> spec_walk(n2, spec_walk(nodes, start, 1), k) == spec_walk(nodes, start, 1),
    decreases k,
{
    let s1 = spec_walk(nodes, start, 1);
    let prev = spec_walk(nodes, start, (count - 1) as nat);
    if k > 0 {
        lemma_first_walk(nodes, n2, start, count, (k - 1) as nat);
        lemma_walk_same(nodes, nodes, start, k);
        let w = spec_walk(nodes, start, k);
        if k + 1 < count {
            assert(w != prev);
            assert(n2[w as int].connection.next == nodes[w as int].connection.next);
        }
    }
}

/// Cutting the first node of the walk takes its triangle off the area.
proof fn lemma_first_area(nodes: Seq<Node>, n2: Seq<Node>, start: usize, count: usize, m: nat)
    requires
        ring_at(nodes, start, count),
        links_in_range(nodes),
        start < nodes.len(),
        3 <= count,
        m < count,
        relinked(
            nodes,
            n2,
            spec_walk(nodes, start, (count - 1) as nat),
            spec_walk(nodes, start, 1),
        ),
    ensures
        m + 1 < count ==> walk_area(n2, spec_walk(nodes, start, 1), m) + edge_area(
            nodes[start as int].position,
            nodes[spec_walk(nodes, start, 1) as int].position,
        ) == walk_area(nodes, start, m + 1),
        m + 1 == count ==> walk_area(n2, spec_walk(nodes, start, 1), m) + spec_turn_cross(
            nodes[spec_walk(nodes, start, (count - 1) as nat) as int].position,
            nodes[start as int].position,
            nodes[spec_walk(nodes, start, 1) as int].position,
        ) == walk_area(nodes, start, count as nat),
    decreases m,
{
    let s1 = spec_walk(nodes, start, 1);
    lemma_walk_same(nodes, nodes, start, 1);
    if m == 0 {
        assert(walk_area(nodes, start, 1) == walk_area(nodes, start, 0) + edge_area(
            nodes[spec_walk(nodes, start, 0) as int].position,
            nodes[spec_walk(nodes, start, 1) as int].position,
        ));
    } else {
        lemma_first_area(nodes, n2, start, count, (m - 1) as nat);
        lemma_first_walk(nodes, n2, start, count, (m - 1) as nat);
        lemma_first_walk(nodes, n2, start, count, m);
        lemma_walk_same(nodes, nodes, start, m);
        lemma_walk_same(nodes, nodes, start, m + 1);
        let w0 = spec_walk(n2, s1, (m - 1) as nat);
        let w1 = spec_walk(n2, s1, m);
        assert(n2[w0 as int].position == nodes[w0 as int].position);
        assert(n2[w1 as int].position == nodes[w1 as int].position);
        assert(walk_area(n2, s1, m) == walk_area(n2, s1, (m - 1) as nat) + edge_area(
            n2[w0 as int].position,
            n2[w1 as int].position,
        ));
        assert(walk_area(nodes, start, m + 1) == walk_area(nodes, start, m) + edge_area(
            nodes[spec_walk(nodes, start, m) as int].position,
            nodes[spec_walk(nodes, start, m + 1) as int].position,
        ));
        if m + 1 == count {
            lemma_triangle_area(
                nodes[spec_walk(nodes, start, (count - 1) as nat) as int].position,
                nodes[start as int].position,
                nodes[s1 as int].position,
            );
        }
    }
}

/// Cutting the first node of the walk leaves a ring of the others, walked
/// from its next node.
proof fn lemma_first_ring(nodes: Seq<Node>, n2: Seq<Node>, start: usize, count: usize)
    requires
        ring_at(nodes, start, count),
        links_in_range(nodes),
        start < nodes.len(),
        4 <= count,
        relinked(
            nodes,
            n2,
            spec_walk(nodes, start, (count - 1) as nat),
            spec_walk(nodes, start, 1),
        ),
    ensures
        ring_at(n2, spec_walk(nodes, start, 1), (count - 1) as usize),
        forall|i: usize|
            on_ring(nodes, start, count, i) && i != start ==> on_ring(
                n2,
                spec_walk(nodes, start, 1),
                (count - 1) as usize,
                i,
            ),
{
    let s1 = spec_walk(nodes, start, 1);
    let prev = spec_walk(nodes, start, (count - 1) as nat);
    let c1 = (count - 1) as usize;
    lemma_first_walk(nodes, n2, start, count, c1 as nat);
    lemma_first_walk(nodes, n2, start, count, 0);
    assert forall|k: nat| k < c1 implies #[trigger] links_back(n2, s1, k) by {
        lemma_first_walk(nodes, n2, start, count, k);
        lemma_first_walk(nodes, n2, start, count, k + 1);
        if k + 2 < count {
            assert(links_back(nodes, start, k + 1));
            let w = spec_walk(nodes, start, k + 2);
            lemma_walk_same(nodes, nodes, start, k + 2);
            assert(spec_walk(nodes, start, 1) != w);
            assert(n2[w as int].connection.prev == nodes[w as int].connection.prev);
        }
    }
    assert forall|a: nat, b: nat| a < b < c1 implies #[trigger] spec_walk(n2, s1, a)
        != #[trigger] spec_walk(n2, s1, b) by {
        lemma_first_walk(nodes, n2, start, count, a);
        lemma_first_walk(nodes, n2, start, count, b);
        assert(spec_walk(nodes, start, a + 1) != spec_walk(nodes, start, b + 1));
    }
    assert forall|i: usize| on_ring(nodes, start, count, i) && i != start implies on_ring(
        n2,
        s1,
        c1,
        i,
    ) by {
        let k = choose|k: nat| k < count && spec_walk(nodes, start, k) == i;
        assert(k > 0);
        lemma_first_walk(nodes, n2, start, count, (k - 1) as nat);
    }
}


/// Checking a turn again changes at most that node's turn, to the convex
/// one, and then queues it.
proof fn lemma_recheck_facts(nodes: Seq<Node>, queue: Seq<usize>, i: usize, convex: Turn)
    requires
        i < nodes.len(),
        convex != Turn::Undefined,
    ensures
        ({
            let (n2, q2) = spec_recheck(nodes, queue, i, convex);
            ||| n2 == nodes && q2 == queue
            ||| {
                &&& q2 == queue.push(i)
                &&& nodes[i as int].turn != convex
                &&& nodes[i as int].turn != Turn::Undefined
                &&& n2 == nodes.update(i as int, Node { turn: convex, ..nodes[i as int] })
            }
        }),
{
    if nodes[i as int].turn != convex {
        let (n2, changed) = spec_turn_changed(nodes, i as int);
        if changed {
            assert(n2 =~= nodes.update(i as int, Node { turn: convex, ..nodes[i as int] }));
        }
    }
}

/// Checking every turn of the ring keeps links and positions.
proof fn lemma_refresh_keeps(nodes: Seq<Node>, cur: usize, k: nat)
    requires
        links_in_range(nodes),
        cur < nodes.len(),
    ensures
        spec_refresh(nodes, cur, k).len() == nodes.len(),
        forall|j: int|
            0 <= j < nodes.len() ==> (#[trigger] spec_refresh(nodes, cur, k)[j]).connection
                == nodes[j].connection && spec_refresh(nodes, cur, k)[j].position
                == nodes[j].position,
    decreases k,
{
    if k > 0 {
        let n2 = spec_turn_changed(nodes, cur as int).0;
        assert forall|j: int| 0 <= j < nodes.len() implies (#[trigger] n2[j]).connection
            == nodes[j].connection && n2[j].position == nodes[j].position by {}
        assert(links_in_range(n2)) by {
            assert forall|j: int| 0 <= j < n2.len() implies {
                &&& (#[trigger] n2[j]).connection.prev < n2.len()
                &&& n2[j].connection.next < n2.len()
            } by {
                assert(n2[j].connection == nodes[j].connection);
            }
        }
        lemma_refresh_keeps(n2, nodes[cur as int].connection.next, (k - 1) as nat);
    }
}

/// Appending indices keeps the up areas of the groups already there.
proof fn lemma_faces_prefix(nodes: Seq<Node>, out: Seq<u32>, e: Seq<u32>, m: nat)
    requires
        6 * m <= out.len(),
    ensures
        faces_up(nodes, out + e, m) == faces_up(nodes, out, m),
    decreases m,
{
    if m > 0 {
        lemma_faces_prefix(nodes, out, e, (m - 1) as nat);
        let g = m - 1;
        assert((out + e)[6 * g] == out[6 * g]);
        assert((out + e)[6 * g + 1] == out[6 * g + 1]);
        assert((out + e)[6 * g + 2] == out[6 * g + 2]);
    }
}

/// The up area of an ear's top triangle is its turn's cross product, signed
/// by the convex turn; the ear is a top and bottom pair.
proof fn lemma_ear_face(
    nodes: Seq<Node>,
    out: Seq<u32>,
    prev: usize,
    curr: usize,
    next: usize,
    convex: Turn,
)
    requires
        out.len() % 6 == 0,
        prev < nodes.len(),
        curr < nodes.len(),
        next < nodes.len(),
        6 * nodes.len() <= u32::MAX + 1,
        prev != curr,
        curr != next,
        prev != next,
    ensures
        face_up(nodes, out + spec_ear(prev, curr, next, convex), (out.len() / 6) as int) == convex_sign(convex)
            * spec_turn_cross(
            nodes[prev as int].position,
            nodes[curr as int].position,
            nodes[next as int].position,
        ),
        group_ok(out + spec_ear(prev, curr, next, convex), (out.len() / 6) as int),
{
    let o = out + spec_ear(prev, curr, next, convex);
    let g = (out.len() / 6) as int;
    assert(6 * g == out.len());
    let (pp, pc, pn) = (nodes[prev as int].position, nodes[curr as int].position, nodes[next as int].position);
    lemma_triangle_area(pp, pc, pn);
    lemma_triangle_area(pp, pn, pc);
    lemma_edge_area_swap(pc, pn);
    assert((6 * prev) as u32 as int / 6 == prev);
    assert((6 * curr) as u32 as int / 6 == curr);
    assert((6 * next) as u32 as int / 6 == next);
    assert(o[6 * g] == (6 * prev) as u32);
    if convex == Turn::Clockwise {
        assert(o[6 * g + 1] == (6 * next) as u32);
        assert(o[6 * g + 2] == (6 * curr) as u32);
    } else {
        assert(o[6 * g + 1] == (6 * curr) as u32);
        assert(o[6 * g + 2] == (6 * next) as u32);
    }
}


/// Cutting an ear keeps what the clipping keeps.
#[verifier::rlimit(40)]
#[verifier::spinoff_prover]
proof fn lemma_cut_step(s: ClipState, nodes: Seq<Node>, convex: Turn)
    requires
        clip_inv(s, nodes, convex),
        convex != Turn::Undefined,
        s.count > 3,
        s.queue.len() > 0,
        spec_ear_is_empty(
            s.nodes,
            s.start,
            s.count,
            s.nodes[s.queue[0] as int].connection.prev,
            s.queue[0],
            s.nodes[s.queue[0] as int].connection.next,
            convex,
        ),
    ensures
        clip_inv(spec_clip_step(s, convex), nodes, convex),
{
    let n = nodes.len();
    let t = spec_clip_step(s, convex);
    crate::clip::lemma_step_wf(s, convex, n);
    let sn = s.nodes;
    let start = s.start;
    let count = s.count;
    let curr = s.queue[0];
    let rest = s.queue.drop_first();
    let prev = sn[curr as int].connection.prev;
    let next = sn[curr as int].connection.next;
    assert(on_ring(sn, start, count, s.queue[0]));
    let j = choose|k: nat| k < count && spec_walk(sn, start, k) == curr;
    lemma_ring_prev(sn, start, count, j);
    lemma_walk_same(sn, sn, start, j);
    lemma_walk_same(sn, sn, start, j + 1);
    lemma_walk_same(sn, sn, start, (count - 1) as nat);
    lemma_walk_same(sn, sn, start, 1);
    lemma_walk_same(sn, sn, start, 0);
    if j > 0 {
        lemma_walk_same(sn, sn, start, (j - 1) as nat);
    }
    assert(next == spec_walk(sn, start, j + 1));
    // the three corners are different ring nodes
    if j == 0 {
        assert(prev == spec_walk(sn, start, (count - 1) as nat));
        assert(spec_walk(sn, start, 0) != spec_walk(sn, start, (count - 1) as nat));
        assert(spec_walk(sn, start, 1) != spec_walk(sn, start, (count - 1) as nat));
        assert(spec_walk(sn, start, 0) != spec_walk(sn, start, 1));
    } else {
        assert(prev == spec_walk(sn, start, (j - 1) as nat));
        assert(spec_walk(sn, start, (j - 1) as nat) != spec_walk(sn, start, j));
        if j + 1 == count {
            assert(spec_walk(sn, start, 0) != spec_walk(sn, start, j));
            assert(spec_walk(sn, start, 0) != spec_walk(sn, start, (j - 1) as nat));
        } else {
            assert(spec_walk(sn, start, j + 1) != spec_walk(sn, start, j));
            assert(spec_walk(sn, start, j + 1) != spec_walk(sn, start, (j - 1) as nat));
        }
    }
    assert(prev != curr && curr != next && prev != next);
    let n2 = spec_unlink(sn, prev, curr, next);
    lemma_recheck_facts(n2, rest, prev, convex);
    let (n3, q1) = spec_recheck(n2, rest, prev, convex);
    lemma_recheck_facts(n3, q1, next, convex);
    let (n4, q2) = spec_recheck(n3, q1, next, convex);
    assert(t.nodes == n4);
    assert(t.queue == q2);
    assert(relinked(sn, n4, prev, next)) by {
        assert forall|i: int| 0 <= i < sn.len() implies (#[trigger] n4[i]).position == sn[i].position by {}
        assert forall|i: int|
            0 <= i < sn.len() && i != prev && i != next implies (#[trigger] n4[i]).connection
            == sn[i].connection by {}
    }
    let tri = spec_turn_cross(sn[prev as int].position, sn[curr as int].position, sn[next as int].position);
    if j == 0 {
        assert(curr == start);
        lemma_first_ring(sn, n4, start, count);
        lemma_first_area(sn, n4, start, count, (count - 1) as nat);
        assert(t.start == next);
    } else {
        assert(curr != start);
        lemma_mid_ring(sn, n4, start, count, j);
        lemma_mid_area(sn, n4, start, count, j, (count - 1) as nat);
        assert(t.start == start);
    }
    assert(walk_area(n4, t.start, t.count as nat) + tri == walk_area(sn, start, count as nat));
    // the faces
    let ear = spec_ear(prev, curr, next, convex);
    let g = (n - count) as nat;
    assert(s.out.len() == 6 * g);
    assert(nodes[prev as int].position == sn[prev as int].position);
    assert(nodes[curr as int].position == sn[curr as int].position);
    assert(nodes[next as int].position == sn[next as int].position);
    lemma_ear_face(nodes, s.out, prev, curr, next, convex);
    lemma_faces_prefix(nodes, s.out, ear, g);
    assert(t.out == s.out + ear);
    assert((n - t.count) as nat == g + 1);
    assert(faces_up(nodes, t.out, g + 1) == faces_up(nodes, s.out, g) + face_up(nodes, t.out, g as int));
    if convex == Turn::Clockwise {
        assert(convex_sign(convex) == 1);
    } else {
        assert(convex_sign(convex) == -1);
    }
    assert(groups_ok(t.out)) by {
        assert(t.out.len() / 6 == g + 1);
        assert forall|h: int| 0 <= h < t.out.len() / 6 implies #[trigger] group_ok(t.out, h) by {
            if h < g {
                assert(group_ok(s.out, h));
                assert(t.out[6 * h] == s.out[6 * h]);
                assert(t.out[6 * h + 1] == s.out[6 * h + 1]);
                assert(t.out[6 * h + 2] == s.out[6 * h + 2]);
                assert(t.out[6 * h + 3] == s.out[6 * h + 3]);
                assert(t.out[6 * h + 4] == s.out[6 * h + 4]);
                assert(t.out[6 * h + 5] == s.out[6 * h + 5]);
            }
        }
    }
    // the queue
    assert(on_ring(sn, start, count, prev)) by {
        if j == 0 {
            assert(spec_walk(sn, start, (count - 1) as nat) == prev);
        } else {
            assert(spec_walk(sn, start, (j - 1) as nat) == prev);
        }
    }
    assert(on_ring(sn, start, count, next)) by {
        if j + 1 == count {
            assert(spec_walk(sn, start, 0) == next);
        } else {
            assert(spec_walk(sn, start, j + 1) == next);
        }
    }
    lemma_cut_queue(s, convex, t);
}

/// After an ear is cut, the queue (the rest, and the neighbours whose turn
/// became convex) holds different nodes of the new ring, each with the
/// convex turn or none yet.
proof fn lemma_cut_queue(s: ClipState, convex: Turn, t: ClipState)
    requires
        convex != Turn::Undefined,
        s.count > 3,
        s.queue.len() > 0,
        queue_ok(s, convex),
        clip_wf(s, s.nodes.len()),
        ({
            let curr = s.queue[0];
            let prev = s.nodes[curr as int].connection.prev;
            let next = s.nodes[curr as int].connection.next;
            let n2 = spec_unlink(s.nodes, prev, curr, next);
            let (n3, q1) = spec_recheck(n2, s.queue.drop_first(), prev, convex);
            let (n4, q2) = spec_recheck(n3, q1, next, convex);
            &&& prev != curr && curr != next && prev != next
            &&& on_ring(s.nodes, s.start, s.count, prev)
            &&& on_ring(s.nodes, s.start, s.count, next)
            &&& t.nodes == n4
            &&& t.queue == q2
            &&& forall|i: usize|
                on_ring(s.nodes, s.start, s.count, i) && i != curr ==> on_ring(
                    n4,
                    t.start,
                    t.count,
                    i,
                )
        }),
    ensures
        queue_ok(t, convex),
{
    let sn = s.nodes;
    let curr = s.queue[0];
    let rest = s.queue.drop_first();
    let prev = sn[curr as int].connection.prev;
    let next = sn[curr as int].connection.next;
    let n2 = spec_unlink(sn, prev, curr, next);
    lemma_recheck_facts(n2, rest, prev, convex);
    let (n3, q1) = spec_recheck(n2, rest, prev, convex);
    lemma_recheck_facts(n3, q1, next, convex);
    let (n4, q2) = spec_recheck(n3, q1, next, convex);
    assert(forall|i: int| 0 <= i < sn.len() ==> (#[trigger] n2[i]).turn == sn[i].turn);
    assert(forall|i: int| 0 <= i < sn.len() ==> (#[trigger] n4[i]).turn == (if (i == prev && q1 != rest) || (i == next && q2 != q1) {
        convex
    } else {
        sn[i].turn
    }));
    assert(forall|k: int| 0 <= k < rest.len() ==> #[trigger] rest[k] == s.queue[k + 1]);
    assert forall|k: int| 0 <= k < rest.len() implies #[trigger] rest[k] != curr by {
        assert(s.queue[k + 1] != s.queue[0]);
    }
    assert forall|k: int| 0 <= k < rest.len() implies (sn[#[trigger] rest[k] as int].turn == convex
        || sn[rest[k] as int].turn == Turn::Undefined) && on_ring(sn, s.start, s.count, rest[k]) by {
        assert(s.queue[k + 1] == rest[k]);
    }
    assert(q1 != rest ==> !rest.contains(prev));
    assert(q2 != q1 ==> !q1.contains(next)) by {
        if q2 != q1 {
            assert(n3[next as int].turn == sn[next as int].turn);
            assert(!rest.contains(next));
        }
    }
    assert(rest.no_duplicates()) by {
        assert forall|a: int, b: int| 0 <= a < b < rest.len() implies rest[a] != rest[b] by {
            assert(s.queue[a + 1] != s.queue[b + 1]);
        }
    }
    assert(q1.no_duplicates()) by {
        if q1 != rest {
            assert forall|a: int, b: int| 0 <= a < b < q1.len() implies q1[a] != q1[b] by {
                if b == q1.len() - 1 {
                    assert(q1[a] == rest[a]);
                }
            }
        }
    }
    assert(q2.no_duplicates()) by {
        if q2 != q1 {
            assert forall|a: int, b: int| 0 <= a < b < q2.len() implies q2[a] != q2[b] by {
                if b == q2.len() - 1 {
                    assert(q2[a] == q1[a]);
                }
            }
        }
    }
    assert forall|q: int| 0 <= q < q2.len() implies on_ring(
        n4,
        t.start,
        t.count,
        #[trigger] q2[q],
    ) && (n4[q2[q] as int].turn == convex || n4[q2[q] as int].turn == Turn::Undefined) by {
        let x = q2[q];
        if q < rest.len() {
            assert(x == rest[q]);
            if x == prev {
                assert(rest.contains(prev));
            }
            if x == next {
                assert(rest.contains(next));
            }
        } else if q1 != rest && q == rest.len() {
            assert(x == prev);
        } else {
            assert(x == next);
        }
    }
}

/// Every step of the clipping keeps what the clipping keeps.
pub proof fn lemma_step_inv(s: ClipState, nodes: Seq<Node>, convex: Turn)
    requires
        clip_inv(s, nodes, convex),
        convex != Turn::Undefined,
    ensures
        clip_inv(spec_clip_step(s, convex), nodes, convex),
{
    let n = nodes.len();
    let t = spec_clip_step(s, convex);
    if s.count <= 3 {
    } else if s.queue.len() == 0 {
        crate::clip::lemma_step_wf(s, convex, n);
        lemma_refresh_keeps(s.nodes, s.start, s.count as nat);
        lemma_ring_same(s.nodes, t.nodes, s.start, s.count);
        lemma_walk_area_same(s.nodes, t.nodes, s.start, s.count as nat);
        assert(t.queue.len() == 0);
    } else {
        let curr = s.queue[0];
        let prev = s.nodes[curr as int].connection.prev;
        let next = s.nodes[curr as int].connection.next;
        if spec_ear_is_empty(s.nodes, s.start, s.count, prev, curr, next, convex) {
            lemma_cut_step(s, nodes, convex);
        } else {
            crate::clip::lemma_step_wf(s, convex, n);
            let rest = s.queue.drop_first();
            assert(t.queue == rest.push(curr));
            assert forall|q: int| 0 <= q < t.queue.len() implies on_ring(
                t.nodes,
                t.start,
                t.count,
                #[trigger] t.queue[q],
            ) && (t.nodes[t.queue[q] as int].turn == convex || t.nodes[t.queue[q] as int].turn
                == Turn::Undefined) by {
                if q < rest.len() {
                    assert(t.queue[q] == s.queue[q + 1]);
                } else {
                    assert(t.queue[q] == s.queue[0]);
                }
            }
            assert forall|a: int, b: int| 0 <= a < b < t.queue.len() implies t.queue[a]
                != t.queue[b] by {
                if b < rest.len() {
                    assert(s.queue[a + 1] != s.queue[b + 1]);
                } else {
                    assert(s.queue[a + 1] != s.queue[0]);
                }
            }
        }
    }
}

/// Any number of steps keeps what the clipping keeps.
pub proof fn lemma_iter_inv(s: ClipState, nodes: Seq<Node>, convex: Turn, k: nat)
    requires
        clip_inv(s, nodes, convex),
        convex != Turn::Undefined,
    ensures
        clip_inv(spec_clip_iter(s, convex, k), nodes, convex),
    decreases k,
{
    if k > 0 {
        lemma_step_inv(s, nodes, convex);
        lemma_iter_inv(spec_clip_step(s, convex), nodes, convex, (k - 1) as nat);
    }
}

/// A ring in list order, walked from node 0, visits the nodes in order.
proof fn lemma_ring_walk(nodes: Seq<Node>, k: nat)
    requires
        crate::nodes::is_ring(nodes),
        k <= nodes.len(),
    ensures
        spec_walk(nodes, 0, k) == (if k == nodes.len() { 0 } else { k }),
    decreases k,
{
    if k > 0 {
        lemma_ring_walk(nodes, (k - 1) as nat);
    }
}

/// The clipping starts out keeping what it keeps, when the queued corners
/// are different nodes, each with the convex turn or none yet.
pub proof fn lemma_start_inv(nodes: Seq<Node>, queue: Seq<usize>, convex: Turn)
    requires
        crate::nodes::is_ring(nodes),
        4 <= nodes.len(),
        6 * nodes.len() <= u32::MAX + 1,
        queue.no_duplicates(),
        forall|q: int|
            0 <= q < queue.len() ==> (#[trigger] queue[q]) < nodes.len() && (nodes[queue[q] as int].turn
                == convex || nodes[queue[q] as int].turn == Turn::Undefined),
    ensures
        clip_inv(crate::mesh::spec_clip_start(nodes, queue), nodes, convex),
{
    let n = nodes.len();
    let s = crate::mesh::spec_clip_start(nodes, queue);
    lemma_ring_walk(nodes, n);
    assert(links_in_range(nodes));
    assert forall|k: nat| k < n implies #[trigger] links_back(nodes, 0, k) by {
        lemma_ring_walk(nodes, k);
        lemma_ring_walk(nodes, k + 1);
    }
    assert forall|a: nat, b: nat| a < b < n implies #[trigger] spec_walk(nodes, 0, a)
        != #[trigger] spec_walk(nodes, 0, b) by {
        lemma_ring_walk(nodes, a);
        lemma_ring_walk(nodes, b);
    }
    assert forall|q: int| 0 <= q < queue.len() implies on_ring(nodes, 0, n as usize, #[trigger] queue[q]) by {
        lemma_ring_walk(nodes, queue[q] as nat);
    }
    assert(groups_ok(s.out));
}

/// The last triangle of a finished clipping: a top and bottom pair whose up
/// area is the ring's area left, signed by the convex turn.
proof fn lemma_last_face(s: ClipState, nodes: Seq<Node>, convex: Turn)
    requires
        clip_inv(s, nodes, convex),
        s.count == 3,
    ensures
        group_ok(s.out + crate::clip::spec_last_triangle(s, convex), (s.out.len() / 6) as int),
        face_up(nodes, s.out + crate::clip::spec_last_triangle(s, convex), (s.out.len() / 6) as int)
            == convex_sign(convex) * walk_area(s.nodes, s.start, 3),
        faces_up(nodes, s.out + crate::clip::spec_last_triangle(s, convex), (s.out.len() / 6) as nat)
            == faces_up(nodes, s.out, (s.out.len() / 6) as nat),
{
    let sn = s.nodes;
    let st = s.start;
    let o = s.out + crate::clip::spec_last_triangle(s, convex);
    let g = (s.out.len() / 6) as int;
    lemma_faces_prefix(nodes, s.out, crate::clip::spec_last_triangle(s, convex), g as nat);
    lemma_ring_prev(sn, st, 3, 0);
    lemma_walk_same(sn, sn, st, 1);
    lemma_walk_same(sn, sn, st, 2);
    lemma_walk_same(sn, sn, st, 3);
    let w1 = spec_walk(sn, st, 1);
    let w2 = spec_walk(sn, st, 2);
    assert(spec_walk(sn, st, 0) != w1);
    assert(spec_walk(sn, st, 0) != w2);
    assert(w1 != w2);
    assert(sn[st as int].connection.next == w1);
    assert(sn[st as int].connection.prev == w2);
    let (ps, p1, p2) = (sn[st as int].position, sn[w1 as int].position, sn[w2 as int].position);
    assert(nodes[st as int].position == ps);
    assert(nodes[w1 as int].position == p1);
    assert(nodes[w2 as int].position == p2);
    assert(spec_walk(sn, st, 3) == st);
    assert(spec_walk(sn, st, 0) == st);
    assert(walk_area(sn, st, 0) == 0);
    assert(walk_area(sn, st, 1) == walk_area(sn, st, 0) + edge_area(
        sn[spec_walk(sn, st, 0) as int].position,
        sn[spec_walk(sn, st, 1) as int].position,
    ));
    assert(walk_area(sn, st, 1) == edge_area(ps, p1));
    assert(walk_area(sn, st, 2) == edge_area(ps, p1) + edge_area(p1, p2));
    assert(walk_area(sn, st, 3) == edge_area(ps, p1) + edge_area(p1, p2) + edge_area(p2, ps));
    lemma_triangle_area(ps, p2, p1);
    lemma_triangle_area(ps, p1, p2);
    lemma_edge_area_swap(ps, p2);
    lemma_edge_area_swap(p1, p2);
    assert((6 * st) as u32 as int / 6 == st);
    assert((6 * w1) as u32 as int / 6 == w1);
    assert((6 * w2) as u32 as int / 6 == w2);
    assert(6 * g == s.out.len());
    assert(o[6 * g] == (6 * st) as u32);
    if convex == Turn::Clockwise {
        assert(o[6 * g + 1] == (6 * w2) as u32);
        assert(o[6 * g + 2] == (6 * w1) as u32);
    } else {
        assert(o[6 * g + 1] == (6 * w1) as u32);
        assert(o[6 * g + 2] == (6 * w2) as u32);
    }
}

/// The faces of a finished clipping, from a start that keeps what the
/// clipping keeps: `n - 2` top and bottom triangle pairs, each on three
/// different nodes with the bottom wound against the top, whose up areas add
/// up to the outline's area signed by the convex turn.
pub proof fn lemma_clip_faces(s: ClipState, nodes: Seq<Node>, convex: Turn)
    requires
        clip_inv(s, nodes, convex),
        convex != Turn::Undefined,
        s.count == nodes.len(),
        crate::clip::spec_clip_finishes(s, convex),
    ensures
        crate::clip::spec_clip_output(s, convex).len() == 6 * (nodes.len() - 2),
        groups_ok(crate::clip::spec_clip_output(s, convex)),
        faces_up(nodes, crate::clip::spec_clip_output(s, convex), (nodes.len() - 2) as nat)
            == convex_sign(convex) * outline_area(nodes),
{
    let n = nodes.len();
    let c = choose|c: nat| (#[trigger] spec_clip_iter(s, convex, c)).count <= 3;
    lemma_iter_inv(s, nodes, convex, c);
    let r = crate::clip::spec_clip_result(s, convex);
    assert(r == spec_clip_iter(s, convex, c));
    assert(r.count == 3);
    let out = crate::clip::spec_clip_output(s, convex);
    let last = crate::clip::spec_last_triangle(r, convex);
    assert(out == r.out + last);
    lemma_last_face(r, nodes, convex);
    let g = (n - 3) as nat;
    assert(r.out.len() == 6 * g);
    assert(last.len() == 6);
    assert(out.len() / 6 == g + 1);
    assert(faces_up(nodes, out, g + 1) == faces_up(nodes, out, g) + face_up(nodes, out, g as int));
    if convex == Turn::Clockwise {
        assert(convex_sign(convex) == 1);
    } else {
        assert(convex_sign(convex) == -1);
    }
    assert forall|h: int| 0 <= h < out.len() / 6 implies #[trigger] group_ok(out, h) by {
        if h < g {
            assert(group_ok(r.out, h));
            assert(out[6 * h] == r.out[6 * h]);
            assert(out[6 * h + 1] == r.out[6 * h + 1]);
            assert(out[6 * h + 2] == r.out[6 * h + 2]);
            assert(out[6 * h + 3] == r.out[6 * h + 3]);
            assert(out[6 * h + 4] == r.out[6 * h + 4]);
            assert(out[6 * h + 5] == r.out[6 * h + 5]);
        }
    }
}


/// The up areas depend on the positions alone.
pub proof fn lemma_faces_up_same(n1: Seq<Node>, n2: Seq<Node>, out: Seq<u32>, m: nat)
    requires
        n1.len() == n2.len(),
        6 * m <= out.len(),
        forall|k: int| 0 <= k < out.len() ==> (#[trigger] out[k]) < 6 * n1.len(),
        forall|i: int| 0 <= i < n1.len() ==> (#[trigger] n2[i]).position == n1[i].position,
    ensures
        faces_up(n2, out, m) == faces_up(n1, out, m),
    decreases m,
{
    if m > 0 {
        lemma_faces_up_same(n1, n2, out, (m - 1) as nat);
        let g = m - 1;
        assert(out[6 * g] < 6 * n1.len());
        assert(out[6 * g + 1] < 6 * n1.len());
        assert(out[6 * g + 2] < 6 * n1.len());
        assert(n2[node_of(out[6 * g])].position == n1[node_of(out[6 * g])].position);
        assert(n2[node_of(out[6 * g + 1])].position == n1[node_of(out[6 * g + 1])].position);
        assert(n2[node_of(out[6 * g + 2])].position == n1[node_of(out[6 * g + 2])].position);
    }
}

/// The shoelace area depends on the links and positions alone.
pub proof fn lemma_outline_area_same(n1: Seq<Node>, n2: Seq<Node>)
    requires
        n1.len() == n2.len(),
        n1.len() > 0,
        links_in_range(n1),
        forall|i: int|
            0 <= i < n1.len() ==> (#[trigger] n2[i]).connection == n1[i].connection && n2[i].position
                == n1[i].position,
    ensures
        outline_area(n2) == outline_area(n1),
{
    lemma_walk_area_same(n1, n2, 0, n1.len());
}

} // verus!
