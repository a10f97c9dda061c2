//! A builder that draws a base outline node by node with moves that alternate
//! between the x and the z axis, so that every corner is a right angle. Its
//! type tells how many nodes it has placed and along which axis it moved last.
//!
//! Geometry   | Node count
//! ---------- | -----------
//! [Empty]    | 0
//! [Point]    | 1
//! [Line]     | 2
//! [Triangle] | 3
//! [Polygon]  | >=4
use vstd::prelude::*;
use std::collections::VecDeque;
use std::marker::PhantomData;
use crate::geometry::{MIN_DISTANCE, Position, min_distance, spec_min_distance};
use crate::nodes::{
    Connection, Node, NodeList, Turn, is_ring, links_in_range, spec_node, spec_node_turn,
    spec_turn_of,
};

verus! {

/// Marks the states of the base builder.
pub trait Geometry {}

/// Marks the axis of the builder's last move.
pub trait PrevMove {
    /// The last move went along the x axis.
    spec fn along_x() -> bool;
}

/// The last move went along the x axis.
pub struct X;

impl PrevMove for X {
    open spec fn along_x() -> bool {
        true
    }
}

/// The last move went along the z axis.
pub struct Z;

impl PrevMove for Z {
    open spec fn along_x() -> bool {
        false
    }
}

/// The base builder in the state given by its geometry.
pub struct BaseBuilder<G: Geometry> {
    pub geometry: G,
}

/// No node placed yet.
pub struct Empty;

impl Geometry for Empty {}

/// One node placed.
pub struct Point {
    pub node: Position,
}

impl Geometry for Point {}

/// Two nodes placed.
pub struct Line<P: PrevMove> {
    pub nodes: NodeList,
    pub prev_move: PhantomData<P>,
}

impl<P: PrevMove> Geometry for Line<P> {}

/// Three nodes placed.
pub struct Triangle<P: PrevMove> {
    pub nodes: NodeList,
    pub prev_move: PhantomData<P>,
}

impl<P: PrevMove> Geometry for Triangle<P> {}

/// Four or more nodes placed; each node whose turn is known is listed in
/// `cw_list` or `ccw_list`.
pub struct Polygon<P: PrevMove> {
    pub nodes: NodeList,
    pub cw_list: VecDeque<usize>,
    pub ccw_list: VecDeque<usize>,
    pub prev_move: PhantomData<P>,
}

impl<P: PrevMove> Geometry for Polygon<P> {}

// ---------------------------------------------------------------------------
// Moves

/// A coordinate moved by `distance`, corrected to at least the minimum
/// distance, stays a valid coordinate.
pub open spec fn can_move(coord: int, distance: int) -> bool {
    i32::MIN <= coord + spec_min_distance(distance) <= i32::MAX
}

/// `p` moved along x by `distance`, corrected to at least the minimum distance.
pub open spec fn spec_move_x(p: Position, distance: int) -> Position {
    Position { x: (p.x + spec_min_distance(distance)) as i32, z: p.z }
}

/// `p` moved along z by `distance`, corrected to at least the minimum distance.
pub open spec fn spec_move_z(p: Position, distance: int) -> Position {
    Position { x: p.x, z: (p.z + spec_min_distance(distance)) as i32 }
}

fn move_x(p: Position, distance: i64) -> (r: Position)
    requires
        can_move(p.x as int, distance as int),
    ensures
        r == spec_move_x(p, distance as int),
{
    let d = min_distance(distance);
    Position { x: (p.x as i64 + d) as i32, z: p.z }
}

fn move_z(p: Position, distance: i64) -> (r: Position)
    requires
        can_move(p.z as int, distance as int),
    ensures
        r == spec_move_z(p, distance as int),
{
    let d = min_distance(distance);
    Position { x: p.x, z: (p.z as i64 + d) as i32 }
}

// ---------------------------------------------------------------------------
// Node lists of each state

/// Two nodes linked to each other, turns unknown.
pub open spec fn spec_line(p0: Position, p1: Position) -> Seq<Node> {
    seq![spec_node(p0, 1, 1), spec_node(p1, 0, 0)]
}

/// The line's nodes with a third node appended and linked into the ring,
/// and the turn of the middle node computed.
pub open spec fn spec_triangle(line: Seq<Node>, p: Position) -> Seq<Node> {
    let n0 = line[0];
    let n1 = line[1];
    seq![
        Node { connection: Connection { prev: 2, next: n0.connection.next }, ..n0 },
        Node {
            connection: Connection { prev: n1.connection.prev, next: 2 },
            turn: spec_turn_of(n0.position, n1.position, p),
            ..n1
        },
        spec_node(p, 1, 0),
    ]
}

/// The node list after `calc_node_turn(i)`, with the two turn lists.
pub open spec fn spec_calc_turn(
    nodes: Seq<Node>,
    cw: Seq<usize>,
    ccw: Seq<usize>,
    i: int,
) -> (Seq<Node>, Seq<usize>, Seq<usize>) {
    let t = spec_node_turn(nodes, i);
    let nodes2 = nodes.update(i, Node { turn: t, ..nodes[i] });
    if nodes[i].turn == Turn::Undefined {
        if t == Turn::Clockwise {
            (nodes2, cw.push(i as usize), ccw)
        } else {
            (nodes2, cw, ccw.push(i as usize))
        }
    } else {
        (nodes2, cw, ccw)
    }
}

/// The nodes with a node at `p` appended after the last one and linked into
/// the ring (before any turn is computed).
pub open spec fn spec_append(nodes: Seq<Node>, p: Position) -> Seq<Node> {
    let n = nodes.len();
    let last = nodes[n - 1];
    let first = nodes[0];
    nodes.push(spec_node(p, (n - 1) as usize, 0)).update(
        n - 1,
        Node { connection: Connection { next: n as usize, ..last.connection }, ..last },
    ).update(0, Node { connection: Connection { prev: n as usize, ..first.connection }, ..first })
}

/// The polygon state after appending a node at `p`: the new node's
/// predecessor gets its turn computed.
pub open spec fn spec_insert(
    nodes: Seq<Node>,
    cw: Seq<usize>,
    ccw: Seq<usize>,
    p: Position,
) -> (Seq<Node>, Seq<usize>, Seq<usize>) {
    spec_calc_turn(spec_append(nodes, p), cw, ccw, nodes.len() - 1)
}

/// The polygon state made from a triangle and a fourth node at `p`: the
/// middle node of the triangle is listed by its turn, then the third node
/// gets its turn computed.
pub open spec fn spec_from_triangle(tri: Seq<Node>, p: Position) -> (
    Seq<Node>,
    Seq<usize>,
    Seq<usize>,
) {
    let nodes = spec_append(tri, p);
    if tri[1].turn == Turn::Clockwise {
        spec_calc_turn(nodes, seq![1usize], Seq::empty(), 2)
    } else {
        spec_calc_turn(nodes, Seq::empty(), seq![1usize], 2)
    }
}

/// The edge from `a` to `b` runs along x (or along z) and is at least
/// [MIN_DISTANCE] long.
pub open spec fn edge_along(a: Position, b: Position, along_x: bool) -> bool {
    if along_x {
        &&& a.z == b.z
        &&& (b.x - a.x >= MIN_DISTANCE || a.x - b.x >= MIN_DISTANCE)
    } else {
        &&& a.x == b.x
        &&& (b.z - a.z >= MIN_DISTANCE || a.z - b.z >= MIN_DISTANCE)
    }
}

/// The edge from node `i` to node `i + 1` runs along x: both nodes share z.
pub open spec fn along_x_at(nodes: Seq<Node>, i: int) -> bool {
    nodes[i].position.z == nodes[i + 1].position.z
}

/// The edge from node `i` to node `i + 1` runs along x or along z and is at
/// least [MIN_DISTANCE] long.
pub open spec fn edge_ok(nodes: Seq<Node>, i: int) -> bool {
    edge_along(nodes[i].position, nodes[i + 1].position, along_x_at(nodes, i))
}

/// The edges after node `i` and after node `i + 1` run along different axes.
pub open spec fn alternates_at(nodes: Seq<Node>, i: int) -> bool {
    along_x_at(nodes, i) != along_x_at(nodes, i + 1)
}

/// The path through the nodes in list order (the closing edge aside) has
/// only edges along x or along z, each at least [MIN_DISTANCE] long, which
/// alternate between the two axes and end with one along x when `last_x`:
/// every corner on the path is a right angle.
#[verifier::opaque]
pub open spec fn rectilinear(nodes: Seq<Node>, last_x: bool) -> bool {
    &&& forall|i: int| 0 <= i < nodes.len() - 1 ==> #[trigger] edge_ok(nodes, i)
    &&& forall|i: int| 0 <= i < nodes.len() - 2 ==> #[trigger] alternates_at(nodes, i)
    &&& nodes.len() >= 2 ==> along_x_at(nodes, nodes.len() - 2) == last_x
}

/// A move along x keeps z and covers at least [MIN_DISTANCE].
pub proof fn lemma_move_x_edge(p: Position, distance: int)
    requires
        can_move(p.x as int, distance),
    ensures
        edge_along(p, spec_move_x(p, distance), true),
{
}

/// A move along z keeps x and covers at least [MIN_DISTANCE].
pub proof fn lemma_move_z_edge(p: Position, distance: int)
    requires
        can_move(p.z as int, distance),
    ensures
        edge_along(p, spec_move_z(p, distance), false),
{
}

/// Appending a node one edge along the other axis keeps a path rectilinear.
proof fn lemma_rectilinear_append(old: Seq<Node>, new: Seq<Node>, last_x: bool)
    requires
        rectilinear(old, last_x),
        old.len() >= 1,
        new.len() == old.len() + 1,
        forall|i: int| 0 <= i < old.len() ==> (#[trigger] new[i]).position == old[i].position,
        edge_along(old[old.len() - 1].position, new[old.len() as int].position, !last_x),
    ensures
        rectilinear(new, !last_x),
{
    reveal(rectilinear);
    let n = old.len() as int;
    assert forall|i: int| 0 <= i < new.len() - 1 implies #[trigger] edge_ok(new, i) by {
        assert(new[i].position == old[i].position);
        if i < n - 1 {
            assert(new[i + 1].position == old[i + 1].position);
            assert(edge_ok(old, i));
        }
    }
    assert forall|i: int| 0 <= i < new.len() - 2 implies #[trigger] alternates_at(new, i) by {
        assert(new[i].position == old[i].position);
        assert(new[i + 1].position == old[i + 1].position);
        if i + 1 < n - 1 {
            assert(new[i + 2].position == old[i + 2].position);
            assert(alternates_at(old, i));
        }
    }
    assert(new[n - 1].position == old[n - 1].position);
}

/// Two nodes one edge apart form a rectilinear path.
proof fn lemma_rectilinear_line(p0: Position, p1: Position, along_x: bool)
    requires
        edge_along(p0, p1, along_x),
    ensures
        rectilinear(spec_line(p0, p1), along_x),
{
    reveal(rectilinear);
    let s = spec_line(p0, p1);
    assert(edge_ok(s, 0));
}

/// Computing a turn changes no position.
proof fn lemma_calc_turn_positions(nodes: Seq<Node>, cw: Seq<usize>, ccw: Seq<usize>, i: int)
    requires
        0 <= i < nodes.len(),
    ensures
        spec_calc_turn(nodes, cw, ccw, i).0.len() == nodes.len(),
        forall|j: int|
            0 <= j < nodes.len() ==> (#[trigger] spec_calc_turn(nodes, cw, ccw, i).0[j]).position
                == nodes[j].position,
{
}

/// Inserting a node after the last one lists the old last node under the
/// turn it makes.
proof fn lemma_insert_lists(nodes: Seq<Node>, cw: Seq<usize>, ccw: Seq<usize>, p: Position)
    requires
        polygon_shape(nodes, cw, ccw),
        nodes.len() <= usize::MAX,
    ensures
        ({
            let (r, cw2, ccw2) = spec_insert(nodes, cw, ccw, p);
            lists_match(r, cw2, ccw2)
        }),
{
    let n = nodes.len();
    let a = spec_append(nodes, p);
    lemma_append_positions(nodes, p);
    assert(a[n - 1].turn == Turn::Undefined);
    assert forall|j: int| 0 <= j < n implies (#[trigger] a[j]).turn == nodes[j].turn by {}
    assert(lists_wf(a, cw, ccw)) by {
        assert forall|k: int| 0 <= k < cw.len() implies (#[trigger] cw[k]) < a.len() && a[cw[k] as int].turn
            != Turn::Undefined by {
            assert(a[cw[k] as int].turn == nodes[cw[k] as int].turn);
        }
        assert forall|k: int| 0 <= k < ccw.len() implies (#[trigger] ccw[k]) < a.len() && a[ccw[k] as int].turn
            != Turn::Undefined by {
            assert(a[ccw[k] as int].turn == nodes[ccw[k] as int].turn);
        }
        assert forall|i: int| 0 <= i < a.len() && (#[trigger] a[i]).turn != Turn::Undefined implies cw.contains(
            i as usize,
        ) || ccw.contains(i as usize) by {
            assert(nodes[i].turn == a[i].turn);
        }
    }
    assert(lists_match(a, cw, ccw)) by {
        assert forall|k: int| 0 <= k < cw.len() implies a[#[trigger] cw[k] as int].turn == Turn::Clockwise by {
            assert(a[cw[k] as int].turn == nodes[cw[k] as int].turn);
        }
        assert forall|k: int| 0 <= k < ccw.len() implies a[#[trigger] ccw[k] as int].turn
            == Turn::CounterClockwise by {
            assert(a[ccw[k] as int].turn == nodes[ccw[k] as int].turn);
        }
    }
    lemma_calc_turn_match(a, cw, ccw, n - 1);
}

/// Inserting a node after the last one keeps the turn of node `i` the one
/// its neighbours make.
proof fn lemma_insert_turn_at(nodes: Seq<Node>, cw: Seq<usize>, ccw: Seq<usize>, p: Position, i: int)
    requires
        nodes.len() >= 4,
        nodes.len() <= usize::MAX,
        is_ring(nodes),
        0 < i < nodes.len(),
        i < nodes.len() - 1 ==> nodes[i].turn == spec_node_turn(nodes, i),
    ensures
        spec_insert(nodes, cw, ccw, p).0[i].turn == spec_node_turn(spec_insert(nodes, cw, ccw, p).0, i),
        i == nodes.len() - 1 ==> spec_insert(nodes, cw, ccw, p).0[i].turn == spec_turn_of(
            nodes[nodes.len() - 2].position,
            nodes[nodes.len() - 1].position,
            p,
        ),
        spec_insert(nodes, cw, ccw, p).0.len() == nodes.len() + 1,
        spec_insert(nodes, cw, ccw, p).0[0].turn == nodes[0].turn,
        spec_insert(nodes, cw, ccw, p).0[nodes.len() as int].turn == Turn::Undefined,
{
    let n = nodes.len();
    let a = spec_append(nodes, p);
    let r = spec_insert(nodes, cw, ccw, p).0;
    assert(r == a.update(n - 1, Node { turn: spec_node_turn(a, n - 1), ..a[n - 1] }));
    if i < n - 1 {
        assert(a[i] == nodes[i]);
        assert(r[i] == nodes[i]);
        assert(nodes[i].connection.prev == i - 1 && nodes[i].connection.next == i + 1);
        assert(r[i - 1].position == nodes[i - 1].position);
        assert(r[i + 1].position == nodes[i + 1].position);
    } else {
        assert(a[n - 1].connection.prev == n - 2);
        assert(a[n - 1].connection.next == n);
        assert(r[n - 2].position == a[n - 2].position);
        assert(r[n as int].position == a[n as int].position);
    }
}

/// Inserting a node after the last one keeps every turn the one its
/// neighbours make (the old last node gets its turn from its new
/// neighbour), and leaves the first and the new last node without a turn.
proof fn lemma_insert_turns(nodes: Seq<Node>, cw: Seq<usize>, ccw: Seq<usize>, p: Position)
    requires
        nodes.len() >= 4,
        nodes.len() <= usize::MAX,
        is_ring(nodes),
        turns_hold(nodes),
        nodes[0].turn == Turn::Undefined,
        nodes[nodes.len() - 1].turn == Turn::Undefined,
    ensures
        ({
            let r = spec_insert(nodes, cw, ccw, p).0;
            let n = nodes.len();
            &&& r.len() == n + 1
            &&& turns_hold(r)
            &&& r[0].turn == Turn::Undefined
            &&& r[n as int].turn == Turn::Undefined
            &&& r[n - 1].turn == spec_turn_of(nodes[n - 2].position, nodes[n - 1].position, p)
        }),
{
    let n = nodes.len();
    let r = spec_insert(nodes, cw, ccw, p).0;
    lemma_insert_turn_at(nodes, cw, ccw, p, n - 1);
    assert(turns_hold(r)) by {
        reveal(turns_hold);
        assert forall|i: int| 0 < i < r.len() - 1 implies r[i].turn == #[trigger] spec_node_turn(r, i) by {
            assert(i < nodes.len() - 1 ==> nodes[i].turn == spec_node_turn(nodes, i));
            lemma_insert_turn_at(nodes, cw, ccw, p, i);
        }
    }
}

/// The polygon made from a triangle holds the turns its neighbours make.
proof fn lemma_from_triangle_turns(tri: Seq<Node>, p: Position)
    requires
        triangle_shape(tri),
    ensures
        turns_hold(spec_from_triangle(tri, p).0),
{
    let a = spec_append(tri, p);
    let r = spec_from_triangle(tri, p).0;
    assert(r == a.update(2, Node { turn: spec_node_turn(a, 2), ..a[2] }));
    assert(a[1] == tri[1]);
    assert(r[1] == tri[1]);
    assert(tri[1].connection.prev == 0 && tri[1].connection.next == 2);
    assert(r[0].position == tri[0].position);
    assert(r[2].position == tri[2].position);
    assert(a[2].connection.prev == 1 && a[2].connection.next == 3);
    assert(r[1].position == a[1].position);
    assert(r[3].position == a[3].position);
    assert(r[1].turn == spec_node_turn(r, 1));
    assert(r[2].turn == spec_node_turn(r, 2));
    reveal(turns_hold);
}

/// Appending a node keeps the positions before it.
proof fn lemma_append_positions(nodes: Seq<Node>, p: Position)
    requires
        nodes.len() >= 1,
    ensures
        spec_append(nodes, p).len() == nodes.len() + 1,
        spec_append(nodes, p)[nodes.len() as int].position == p,
        forall|j: int|
            0 <= j < nodes.len() ==> (#[trigger] spec_append(nodes, p)[j]).position
                == nodes[j].position,
{
}

/// A triangle drawn one edge on from a rectilinear line is rectilinear.
proof fn lemma_rectilinear_triangle(line: Seq<Node>, p: Position, last_x: bool)
    requires
        line.len() == 2,
        rectilinear(line, last_x),
        edge_along(line[1].position, p, !last_x),
    ensures
        rectilinear(spec_triangle(line, p), !last_x),
{
    lemma_rectilinear_append(line, spec_triangle(line, p), last_x);
}

/// A polygon drawn one edge on from a rectilinear triangle is rectilinear.
proof fn lemma_rectilinear_from_triangle(tri: Seq<Node>, p: Position, last_x: bool)
    requires
        tri.len() == 3,
        rectilinear(tri, last_x),
        edge_along(tri[2].position, p, !last_x),
    ensures
        rectilinear(spec_from_triangle(tri, p).0, !last_x),
{
    lemma_append_positions(tri, p);
    let a = spec_append(tri, p);
    let cw1: Seq<usize> = if tri[1].turn == Turn::Clockwise { seq![1usize] } else { Seq::empty() };
    let ccw1: Seq<usize> = if tri[1].turn == Turn::Clockwise { Seq::empty() } else { seq![1usize] };
    lemma_calc_turn_positions(a, cw1, ccw1, 2);
    lemma_rectilinear_append(tri, spec_from_triangle(tri, p).0, last_x);
}

/// A polygon drawn one edge on from a rectilinear polygon is rectilinear.
proof fn lemma_rectilinear_insert(nodes: Seq<Node>, cw: Seq<usize>, ccw: Seq<usize>, p: Position, last_x: bool)
    requires
        nodes.len() >= 2,
        rectilinear(nodes, last_x),
        edge_along(nodes[nodes.len() - 1].position, p, !last_x),
    ensures
        rectilinear(spec_insert(nodes, cw, ccw, p).0, !last_x),
{
    lemma_append_positions(nodes, p);
    lemma_calc_turn_positions(spec_append(nodes, p), cw, ccw, nodes.len() - 1);
    lemma_rectilinear_append(nodes, spec_insert(nodes, cw, ccw, p).0, last_x);
}

/// The shape of a line: two nodes in a ring, no turn known.
pub open spec fn line_shape(nodes: Seq<Node>) -> bool {
    &&& nodes.len() == 2
    &&& is_ring(nodes)
    &&& nodes[0].turn == Turn::Undefined
    &&& nodes[1].turn == Turn::Undefined
}

/// The shape of a triangle: three nodes in a ring, the middle turn known.
pub open spec fn triangle_shape(nodes: Seq<Node>) -> bool {
    &&& nodes.len() == 3
    &&& is_ring(nodes)
    &&& nodes[0].turn == Turn::Undefined
    &&& nodes[2].turn == Turn::Undefined
    &&& nodes[1].turn == spec_node_turn(nodes, 1)
}

/// The two turn lists hold node indices, none twice and none in both, and
/// they list exactly the nodes whose turn is known.
pub open spec fn lists_wf(nodes: Seq<Node>, cw: Seq<usize>, ccw: Seq<usize>) -> bool {
    &&& cw.no_duplicates()
    &&& ccw.no_duplicates()
    &&& forall|k: int|
        0 <= k < cw.len() ==> (#[trigger] cw[k]) < nodes.len() && nodes[cw[k] as int].turn
            != Turn::Undefined
    &&& forall|k: int|
        0 <= k < ccw.len() ==> (#[trigger] ccw[k]) < nodes.len() && nodes[ccw[k] as int].turn
            != Turn::Undefined
    &&& forall|a: int, b: int| 0 <= a < cw.len() && 0 <= b < ccw.len() ==> cw[a] != ccw[b]
    &&& forall|i: int|
        0 <= i < nodes.len() && (#[trigger] nodes[i]).turn != Turn::Undefined ==> cw.contains(
            i as usize,
        ) || ccw.contains(i as usize)
}

/// The corners listed under each turn make that turn.
pub open spec fn lists_match(nodes: Seq<Node>, cw: Seq<usize>, ccw: Seq<usize>) -> bool {
    &&& forall|k: int| 0 <= k < cw.len() ==> nodes[#[trigger] cw[k] as int].turn == Turn::Clockwise
    &&& forall|k: int|
        0 <= k < ccw.len() ==> nodes[#[trigger] ccw[k] as int].turn == Turn::CounterClockwise
}

/// Computing the turn of a node whose turn is not known yet lists it under
/// the turn it makes.
pub proof fn lemma_calc_turn_match(nodes: Seq<Node>, cw: Seq<usize>, ccw: Seq<usize>, i: int)
    requires
        0 <= i < nodes.len(),
        i <= usize::MAX,
        nodes[i].turn == Turn::Undefined,
        lists_wf(nodes, cw, ccw),
        lists_match(nodes, cw, ccw),
    ensures
        ({
            let (n2, cw2, ccw2) = spec_calc_turn(nodes, cw, ccw, i);
            lists_match(n2, cw2, ccw2)
        }),
{
    let (n2, cw2, ccw2) = spec_calc_turn(nodes, cw, ccw, i);
    assert forall|k: int| 0 <= k < cw2.len() implies n2[#[trigger] cw2[k] as int].turn
        == Turn::Clockwise by {
        if k < cw.len() {
            assert(cw2[k] == cw[k]);
            assert(nodes[cw[k] as int].turn != Turn::Undefined);
            assert(cw[k] as int != i);
            assert(nodes[cw[k] as int].turn == Turn::Clockwise);
            assert(n2[cw[k] as int] == nodes[cw[k] as int]);
        } else {
            assert(spec_node_turn(nodes, i) == Turn::Clockwise);
            assert(cw2[k] as int == i);
            assert(n2[i].turn == spec_node_turn(nodes, i));
        }
    }
    assert forall|k: int| 0 <= k < ccw2.len() implies n2[#[trigger] ccw2[k] as int].turn
        == Turn::CounterClockwise by {
        if k < ccw.len() {
            assert(ccw2[k] == ccw[k]);
            assert(nodes[ccw[k] as int].turn != Turn::Undefined);
            assert(ccw[k] as int != i);
            assert(nodes[ccw[k] as int].turn == Turn::CounterClockwise);
            assert(n2[ccw[k] as int] == nodes[ccw[k] as int]);
        } else {
            assert(spec_node_turn(nodes, i) != Turn::Clockwise);
            assert(ccw2[k] as int == i);
            assert(n2[i].turn == spec_node_turn(nodes, i));
        }
    }
}

/// Every node but the first and the last holds the turn its neighbours make
/// it take.
#[verifier::opaque]
pub open spec fn turns_hold(nodes: Seq<Node>) -> bool {
    forall|i: int| 0 < i < nodes.len() - 1 ==> nodes[i].turn == #[trigger] spec_node_turn(nodes, i)
}

/// The shape of a polygon: at least four nodes in a ring; every node but
/// the first and the last holds the turn its neighbours make it take, the
/// first and the last hold none yet; the turn lists are well formed and list
/// each corner under the turn it makes.
pub open spec fn polygon_shape(nodes: Seq<Node>, cw: Seq<usize>, ccw: Seq<usize>) -> bool {
    &&& nodes.len() >= 4
    &&& is_ring(nodes)
    &&& forall|i: int| 0 < i < nodes.len() - 1 ==> (#[trigger] nodes[i]).turn != Turn::Undefined
    &&& turns_hold(nodes)
    &&& nodes[0].turn == Turn::Undefined
    &&& nodes[nodes.len() - 1].turn == Turn::Undefined
    &&& lists_wf(nodes, cw, ccw)
    &&& lists_match(nodes, cw, ccw)
}

impl<P: PrevMove> Line<P> {
    pub open spec fn wf(&self) -> bool {
        &&& line_shape(self.nodes@)
        &&& rectilinear(self.nodes@, P::along_x())
    }

    /// Creates a new [Line] from the given node positions.
    pub fn from_position_pair(position0: Position, position1: Position) -> (l: Self)
        ensures
            l.nodes@ == spec_line(position0, position1),
            line_shape(l.nodes@),
    {
        let mut nodes = NodeList::with_capacity(2);
        nodes.push(Node::new(position0, 1, 1));
        nodes.push(Node::new(position1, 0, 0));
        assert(nodes@ =~= spec_line(position0, position1));
        Line { nodes, prev_move: PhantomData }
    }

    /// The last node's position.
    pub open spec fn last(&self) -> Position {
        self.nodes@[self.nodes@.len() - 1].position
    }
}

impl<To: PrevMove> Triangle<To> {
    pub open spec fn wf(&self) -> bool {
        &&& triangle_shape(self.nodes@)
        &&& rectilinear(self.nodes@, To::along_x())
    }

    /// The last node's position.
    pub open spec fn last(&self) -> Position {
        self.nodes@[self.nodes@.len() - 1].position
    }

    /// Creates a new [Triangle] from the [Line] and the node position; the
    /// turn of the middle node is computed.
    pub fn from_line<From: PrevMove>(line: Line<From>, position: Position) -> (t: Self)
        requires
            line_shape(line.nodes@),
        ensures
            t.nodes@ == spec_triangle(line.nodes@, position),
            triangle_shape(t.nodes@),
    {
        let mut nodes = line.nodes;
        nodes.push(Node::new(position, 1, 0));
        let n1 = nodes.get(1);
        nodes.set(1, Node { connection: Connection { next: 2, ..n1.connection }, ..n1 });
        let n0 = nodes.get(0);
        nodes.set(0, Node { connection: Connection { prev: 2, ..n0.connection }, ..n0 });
        let cross = nodes.cross_at(1);
        let n1 = nodes.get(1);
        if cross > 0 {
            nodes.set(1, Node { turn: Turn::Clockwise, ..n1 });
        } else {
            nodes.set(1, Node { turn: Turn::CounterClockwise, ..n1 });
        }
        assert(nodes@ =~= spec_triangle(line.nodes@, position));
        Triangle { nodes, prev_move: PhantomData }
    }
}

impl<P: PrevMove> Polygon<P> {
    pub open spec fn wf(&self) -> bool {
        &&& polygon_shape(self.nodes@, self.cw_list@, self.ccw_list@)
        &&& rectilinear(self.nodes@, P::along_x())
    }

    /// The last node's position.
    pub open spec fn last(&self) -> Position {
        self.nodes@[self.nodes@.len() - 1].position
    }

    /// Calculates the [Turn] of the node at `index` from its neighbours and
    /// lists it if its turn was not known before.
    pub fn calc_node_turn(&mut self, index: usize) -> (t: Turn)
        requires
            index < old(self).nodes@.len(),
            links_in_range(old(self).nodes@),
            lists_wf(old(self).nodes@, old(self).cw_list@, old(self).ccw_list@),
        ensures
            (final(self).nodes@, final(self).cw_list@, final(self).ccw_list@) == spec_calc_turn(
                old(self).nodes@,
                old(self).cw_list@,
                old(self).ccw_list@,
                index as int,
            ),
            t == spec_node_turn(old(self).nodes@, index as int),
            links_in_range(final(self).nodes@),
            lists_wf(final(self).nodes@, final(self).cw_list@, final(self).ccw_list@),
    {
        let ghost nodes0 = self.nodes@;
        let cross = self.nodes.cross_at(index);
        let node = self.nodes.get(index);
        let t = if cross > 0 {
            Turn::Clockwise
        } else {
            Turn::CounterClockwise
        };
        if node.turn == Turn::Undefined {
            proof {
                assert(!self.cw_list@.contains(index));
                assert(!self.ccw_list@.contains(index));
            }
            if t == Turn::Clockwise {
                self.cw_list.push_back(index);
            } else {
                self.ccw_list.push_back(index);
            }
        }
        self.nodes.set(index, Node { turn: t, ..node });
        proof {
            let n1 = self.nodes@;
            assert forall|i: int|
                0 <= i < n1.len() && (#[trigger] n1[i]).turn != Turn::Undefined implies self.cw_list@.contains(
                i as usize,
            ) || self.ccw_list@.contains(i as usize) by {
                if i != index {
                    assert(nodes0[i] == n1[i]);
                    assert(old(self).cw_list@.contains(i as usize) || old(self).ccw_list@.contains(i as usize));
                    if old(self).cw_list@.contains(i as usize) {
                        let k = choose|k: int| 0 <= k < old(self).cw_list@.len() && old(self).cw_list@[k] == i as usize;
                        assert(self.cw_list@[k] == i as usize);
                    } else {
                        let k = choose|k: int| 0 <= k < old(self).ccw_list@.len() && old(self).ccw_list@[k] == i as usize;
                        assert(self.ccw_list@[k] == i as usize);
                    }
                } else if node.turn == Turn::Undefined {
                    if t == Turn::Clockwise {
                        assert(self.cw_list@[self.cw_list@.len() - 1] == index);
                    } else {
                        assert(self.ccw_list@[self.ccw_list@.len() - 1] == index);
                    }
                }
            }
        }
        t
    }

    /// Appends a node at `position` after the last node, links it into the
    /// ring, and computes the turn of the node before it.
    pub fn insert_node(&mut self, position: Position)
        requires
            polygon_shape(old(self).nodes@, old(self).cw_list@, old(self).ccw_list@),
        ensures
            (final(self).nodes@, final(self).cw_list@, final(self).ccw_list@) == spec_insert(
                old(self).nodes@,
                old(self).cw_list@,
                old(self).ccw_list@,
                position,
            ),
            polygon_shape(final(self).nodes@, final(self).cw_list@, final(self).ccw_list@),
            final(self).nodes@.len() == old(self).nodes@.len() + 1,
            forall|i: int|
                0 <= i < old(self).nodes@.len() ==> (#[trigger] final(self).nodes@[i]).position
                    == old(self).nodes@[i].position,
            final(self).nodes@[old(self).nodes@.len() as int].position == position,
            final(self).nodes@[old(self).nodes@.len() - 1].turn == spec_turn_of(
                old(self).nodes@[old(self).nodes@.len() - 2].position,
                old(self).nodes@[old(self).nodes@.len() - 1].position,
                position,
            ),
    {
        let new_i = self.nodes.len();
        self.nodes.push(Node::new(position, new_i - 1, 0));
        let last = self.nodes.get(new_i - 1);
        self.nodes.set(
            new_i - 1,
            Node { connection: Connection { next: new_i, ..last.connection }, ..last },
        );
        let first = self.nodes.get(0);
        self.nodes.set(0, Node { connection: Connection { prev: new_i, ..first.connection }, ..first });
        proof {
            assert(self.nodes@ =~= spec_append(old(self).nodes@, position));
            let s = self.nodes@;
            assert(is_ring(s)) by {
                assert forall|i: int| 0 <= i < s.len() implies {
                    &&& (#[trigger] s[i]).connection.next == (if i + 1 == s.len() { 0 } else { i + 1 })
                    &&& s[i].connection.prev == (if i == 0 { s.len() - 1 } else { i - 1 })
                } by {
                    if i < new_i - 1 && i > 0 {
                        assert(s[i] == old(self).nodes@[i]);
                    }
                }
            }
            assert forall|k: int| 0 <= k < self.cw_list@.len() implies (#[trigger] self.cw_list@[k]) < s.len()
                && s[self.cw_list@[k] as int].turn != Turn::Undefined by {
                assert(old(self).nodes@[self.cw_list@[k] as int].turn != Turn::Undefined);
            }
            assert forall|k: int| 0 <= k < self.ccw_list@.len() implies (#[trigger] self.ccw_list@[k]) < s.len()
                && s[self.ccw_list@[k] as int].turn != Turn::Undefined by {
                assert(old(self).nodes@[self.ccw_list@[k] as int].turn != Turn::Undefined);
            }
            assert forall|i: int|
                0 <= i < s.len() && (#[trigger] s[i]).turn != Turn::Undefined implies self.cw_list@.contains(
                i as usize,
            ) || self.ccw_list@.contains(i as usize) by {
                assert(old(self).nodes@[i].turn == s[i].turn);
            }
        }
        let prev = self.nodes.get(new_i).connection.prev;
        self.calc_node_turn(prev);
        proof {
            lemma_insert_turns(old(self).nodes@, old(self).cw_list@, old(self).ccw_list@, position);
            lemma_insert_lists(old(self).nodes@, old(self).cw_list@, old(self).ccw_list@, position);
            lemma_append_positions(old(self).nodes@, position);
            let s = self.nodes@;
            assert forall|i: int| 0 < i < s.len() - 1 implies (#[trigger] s[i]).turn != Turn::Undefined by {
                if i < new_i - 1 {
                    assert(old(self).nodes@[i].turn == s[i].turn);
                }
            }
            assert(is_ring(s)) by {
                assert forall|i: int| 0 <= i < s.len() implies {
                    &&& (#[trigger] s[i]).connection.next == (if i + 1 == s.len() { 0 } else { i + 1 })
                    &&& s[i].connection.prev == (if i == 0 { s.len() - 1 } else { i - 1 })
                } by {
                    if i != new_i - 1 {
                        assert(s[i] == spec_append(old(self).nodes@, position)[i]);
                    }
                }
            }
        }
    }
}


impl<To: PrevMove> Polygon<To> {
    /// Creates a new [Polygon] from the [Triangle] and a fourth node at
    /// `position`; the triangle's middle node is listed by its turn and the
    /// turn of the third node is computed and listed.
    pub fn from_triangle<From: PrevMove>(triangle: Triangle<From>, position: Position) -> (p: Self)
        requires
            triangle_shape(triangle.nodes@),
        ensures
            (p.nodes@, p.cw_list@, p.ccw_list@) == spec_from_triangle(triangle.nodes@, position),
            polygon_shape(p.nodes@, p.cw_list@, p.ccw_list@),
    {
        let ghost tri = triangle.nodes@;
        let mut polygon = Polygon {
            nodes: triangle.nodes,
            cw_list: VecDeque::new(),
            ccw_list: VecDeque::new(),
            prev_move: PhantomData,
        };
        polygon.nodes.push(Node::new(position, 2, 0));
        let n2 = polygon.nodes.get(2);
        polygon.nodes.set(2, Node { connection: Connection { next: 3, ..n2.connection }, ..n2 });
        let n0 = polygon.nodes.get(0);
        polygon.nodes.set(0, Node { connection: Connection { prev: 3, ..n0.connection }, ..n0 });
        if polygon.nodes.get(1).turn == Turn::Clockwise {
            polygon.cw_list.push_back(1);
        } else {
            polygon.ccw_list.push_back(1);
        }
        proof {
            let s = polygon.nodes@;
            assert(s =~= spec_append(tri, position));
            assert(is_ring(s)) by {
                assert forall|i: int| 0 <= i < s.len() implies {
                    &&& (#[trigger] s[i]).connection.next == (if i + 1 == s.len() { 0 } else { i + 1 })
                    &&& s[i].connection.prev == (if i == 0 { s.len() - 1 } else { i - 1 })
                } by {
                    if i == 1 {
                        assert(s[1] == tri[1]);
                    }
                }
            }
            assert(polygon.cw_list@.len() + polygon.ccw_list@.len() == 1);
            assert forall|i: int|
                0 <= i < s.len() && (#[trigger] s[i]).turn != Turn::Undefined implies polygon.cw_list@.contains(
                i as usize,
            ) || polygon.ccw_list@.contains(i as usize) by {
                assert(i == 1);
                if tri[1].turn == Turn::Clockwise {
                    assert(polygon.cw_list@[0] == 1);
                } else {
                    assert(polygon.ccw_list@[0] == 1);
                }
            }
        }
        polygon.calc_node_turn(2);
        proof {
            lemma_from_triangle_turns(tri, position);
            let s = polygon.nodes@;
            assert(is_ring(s)) by {
                assert forall|i: int| 0 <= i < s.len() implies {
                    &&& (#[trigger] s[i]).connection.next == (if i + 1 == s.len() { 0 } else { i + 1 })
                    &&& s[i].connection.prev == (if i == 0 { s.len() - 1 } else { i - 1 })
                } by {
                    if i != 2 {
                        assert(s[i] == spec_append(tri, position)[i]);
                    }
                }
            }
        }
        polygon
    }
}

/// The base outline and the turn of its convex corners.
pub struct Base {
    pub nodes: NodeList,
    pub convex_turn: Turn,
}

impl Base {
    /// A builder with no node placed yet.
    pub fn builder() -> (b: BaseBuilder<Empty>) {
        BaseBuilder { geometry: Empty }
    }
}

impl BaseBuilder<Empty> {
    /// Places the starting node.
    pub fn start_point(self, x: i32, z: i32) -> (b: BaseBuilder<Point>)
        ensures
            b.geometry.node == (Position { x, z }),
    {
        BaseBuilder { geometry: Point { node: Position::new(x, z) } }
    }
}

impl BaseBuilder<Point> {
    /// Places a new node at the given x, with the previous node's z.
    ///
    /// A move shorter than [MIN_DISTANCE](crate::geometry::MIN_DISTANCE) is
    /// lengthened to it in its own direction.
    pub fn move_x_to(self, x: i32) -> (b: BaseBuilder<Line<X>>)
        requires
            can_move(self.geometry.node.x as int, x - self.geometry.node.x),
        ensures
            b.geometry.nodes@ == spec_line(
                self.geometry.node,
                spec_move_x(self.geometry.node, x - self.geometry.node.x),
            ),
            b.geometry.wf(),
    {
        let p = self.geometry.node;
        let next = move_x(p, x as i64 - p.x as i64);
        proof {
            lemma_move_x_edge(p, x - p.x);
            lemma_rectilinear_line(p, next, true);
        }
        BaseBuilder { geometry: Line::from_position_pair(p, next) }
    }

    /// Places a new node `distance` away along x, with the previous node's z.
    pub fn move_x_with(self, distance: i32) -> (b: BaseBuilder<Line<X>>)
        requires
            can_move(self.geometry.node.x as int, distance as int),
        ensures
            b.geometry.nodes@ == spec_line(
                self.geometry.node,
                spec_move_x(self.geometry.node, distance as int),
            ),
            b.geometry.wf(),
    {
        let p = self.geometry.node;
        let next = move_x(p, distance as i64);
        proof {
            lemma_move_x_edge(p, distance as int);
            lemma_rectilinear_line(p, next, true);
        }
        BaseBuilder { geometry: Line::from_position_pair(p, next) }
    }

    /// Places a new node at the given z, with the previous node's x.
    pub fn move_z_to(self, z: i32) -> (b: BaseBuilder<Line<Z>>)
        requires
            can_move(self.geometry.node.z as int, z - self.geometry.node.z),
        ensures
            b.geometry.nodes@ == spec_line(
                self.geometry.node,
                spec_move_z(self.geometry.node, z - self.geometry.node.z),
            ),
            b.geometry.wf(),
    {
        let p = self.geometry.node;
        let next = move_z(p, z as i64 - p.z as i64);
        proof {
            lemma_move_z_edge(p, z - p.z);
            lemma_rectilinear_line(p, next, false);
        }
        BaseBuilder { geometry: Line::from_position_pair(p, next) }
    }

    /// Places a new node `distance` away along z, with the previous node's x.
    pub fn move_z_with(self, distance: i32) -> (b: BaseBuilder<Line<Z>>)
        requires
            can_move(self.geometry.node.z as int, distance as int),
        ensures
            b.geometry.nodes@ == spec_line(
                self.geometry.node,
                spec_move_z(self.geometry.node, distance as int),
            ),
            b.geometry.wf(),
    {
        let p = self.geometry.node;
        let next = move_z(p, distance as i64);
        proof {
            lemma_move_z_edge(p, distance as int);
            lemma_rectilinear_line(p, next, false);
        }
        BaseBuilder { geometry: Line::from_position_pair(p, next) }
    }
}

impl BaseBuilder<Line<X>> {
    /// Places a new node at the given z, with the last node's x.
    pub fn move_z_to(self, z: i32) -> (b: BaseBuilder<Triangle<Z>>)
        requires
            self.geometry.wf(),
            can_move(self.geometry.last().z as int, z - self.geometry.last().z),
        ensures
            b.geometry.nodes@ == spec_triangle(
                self.geometry.nodes@,
                spec_move_z(self.geometry.last(), z - self.geometry.last().z),
            ),
            b.geometry.wf(),
    {
        let middle = self.geometry.nodes.len() - 1;
        let p = self.geometry.nodes.get(middle).position;
        let next = move_z(p, z as i64 - p.z as i64);
        proof {
            lemma_move_z_edge(p, z - p.z);
            lemma_rectilinear_triangle(self.geometry.nodes@, next, true);
        }
        BaseBuilder { geometry: Triangle::from_line(self.geometry, next) }
    }

    /// Places a new node `distance` away along z, with the last node's x.
    pub fn move_z_with(self, distance: i32) -> (b: BaseBuilder<Triangle<Z>>)
        requires
            self.geometry.wf(),
            can_move(self.geometry.last().z as int, distance as int),
        ensures
            b.geometry.nodes@ == spec_triangle(
                self.geometry.nodes@,
                spec_move_z(self.geometry.last(), distance as int),
            ),
            b.geometry.wf(),
    {
        let middle = self.geometry.nodes.len() - 1;
        let p = self.geometry.nodes.get(middle).position;
        let next = move_z(p, distance as i64);
        proof {
            lemma_move_z_edge(p, distance as int);
            lemma_rectilinear_triangle(self.geometry.nodes@, next, true);
        }
        BaseBuilder { geometry: Triangle::from_line(self.geometry, next) }
    }
}

impl BaseBuilder<Line<Z>> {
    /// Places a new node at the given x, with the last node's z.
    pub fn move_x_to(self, x: i32) -> (b: BaseBuilder<Triangle<X>>)
        requires
            self.geometry.wf(),
            can_move(self.geometry.last().x as int, x - self.geometry.last().x),
        ensures
            b.geometry.nodes@ == spec_triangle(
                self.geometry.nodes@,
                spec_move_x(self.geometry.last(), x - self.geometry.last().x),
            ),
            b.geometry.wf(),
    {
        let middle = self.geometry.nodes.len() - 1;
        let p = self.geometry.nodes.get(middle).position;
        let next = move_x(p, x as i64 - p.x as i64);
        proof {
            lemma_move_x_edge(p, x - p.x);
            lemma_rectilinear_triangle(self.geometry.nodes@, next, false);
        }
        BaseBuilder { geometry: Triangle::from_line(self.geometry, next) }
    }

    /// Places a new node `distance` away along x, with the last node's z.
    pub fn move_x_with(self, distance: i32) -> (b: BaseBuilder<Triangle<X>>)
        requires
            self.geometry.wf(),
            can_move(self.geometry.last().x as int, distance as int),
        ensures
            b.geometry.nodes@ == spec_triangle(
                self.geometry.nodes@,
                spec_move_x(self.geometry.last(), distance as int),
            ),
            b.geometry.wf(),
    {
        let middle = self.geometry.nodes.len() - 1;
        let p = self.geometry.nodes.get(middle).position;
        let next = move_x(p, distance as i64);
        proof {
            lemma_move_x_edge(p, distance as int);
            lemma_rectilinear_triangle(self.geometry.nodes@, next, false);
        }
        BaseBuilder { geometry: Triangle::from_line(self.geometry, next) }
    }
}

impl BaseBuilder<Triangle<X>> {
    /// Places a new node at the given z, with the last node's x.
    pub fn move_z_to(self, z: i32) -> (b: BaseBuilder<Polygon<Z>>)
        requires
            self.geometry.wf(),
            can_move(self.geometry.last().z as int, z - self.geometry.last().z),
        ensures
            (b.geometry.nodes@, b.geometry.cw_list@, b.geometry.ccw_list@) == spec_from_triangle(
                self.geometry.nodes@,
                spec_move_z(self.geometry.last(), z - self.geometry.last().z),
            ),
            b.geometry.wf(),
    {
        let middle = self.geometry.nodes.len() - 1;
        let p = self.geometry.nodes.get(middle).position;
        let next = move_z(p, z as i64 - p.z as i64);
        proof {
            lemma_move_z_edge(p, z - p.z);
            lemma_rectilinear_from_triangle(self.geometry.nodes@, next, true);
        }
        BaseBuilder { geometry: Polygon::from_triangle(self.geometry, next) }
    }

    /// Places a new node `distance` away along z, with the last node's x.
    pub fn move_z_with(self, distance: i32) -> (b: BaseBuilder<Polygon<Z>>)
        requires
            self.geometry.wf(),
            can_move(self.geometry.last().z as int, distance as int),
        ensures
            (b.geometry.nodes@, b.geometry.cw_list@, b.geometry.ccw_list@) == spec_from_triangle(
                self.geometry.nodes@,
                spec_move_z(self.geometry.last(), distance as int),
            ),
            b.geometry.wf(),
    {
        let middle = self.geometry.nodes.len() - 1;
        let p = self.geometry.nodes.get(middle).position;
        let next = move_z(p, distance as i64);
        proof {
            lemma_move_z_edge(p, distance as int);
            lemma_rectilinear_from_triangle(self.geometry.nodes@, next, true);
        }
        BaseBuilder { geometry: Polygon::from_triangle(self.geometry, next) }
    }
}

impl BaseBuilder<Triangle<Z>> {
    /// Places a new node at the given x, with the last node's z.
    pub fn move_x_to(self, x: i32) -> (b: BaseBuilder<Polygon<X>>)
        requires
            self.geometry.wf(),
            can_move(self.geometry.last().x as int, x - self.geometry.last().x),
        ensures
            (b.geometry.nodes@, b.geometry.cw_list@, b.geometry.ccw_list@) == spec_from_triangle(
                self.geometry.nodes@,
                spec_move_x(self.geometry.last(), x - self.geometry.last().x),
            ),
            b.geometry.wf(),
    {
        let middle = self.geometry.nodes.len() - 1;
        let p = self.geometry.nodes.get(middle).position;
        let next = move_x(p, x as i64 - p.x as i64);
        proof {
            lemma_move_x_edge(p, x - p.x);
            lemma_rectilinear_from_triangle(self.geometry.nodes@, next, false);
        }
        BaseBuilder { geometry: Polygon::from_triangle(self.geometry, next) }
    }

    /// Places a new node `distance` away along x, with the last node's z.
    pub fn move_x_with(self, distance: i32) -> (b: BaseBuilder<Polygon<X>>)
        requires
            self.geometry.wf(),
            can_move(self.geometry.last().x as int, distance as int),
        ensures
            (b.geometry.nodes@, b.geometry.cw_list@, b.geometry.ccw_list@) == spec_from_triangle(
                self.geometry.nodes@,
                spec_move_x(self.geometry.last(), distance as int),
            ),
            b.geometry.wf(),
    {
        let middle = self.geometry.nodes.len() - 1;
        let p = self.geometry.nodes.get(middle).position;
        let next = move_x(p, distance as i64);
        proof {
            lemma_move_x_edge(p, distance as int);
            lemma_rectilinear_from_triangle(self.geometry.nodes@, next, false);
        }
        BaseBuilder { geometry: Polygon::from_triangle(self.geometry, next) }
    }
}

impl BaseBuilder<Polygon<X>> {
    /// Places a new node at the given z, with the last node's x.
    pub fn move_z_to(self, z: i32) -> (b: BaseBuilder<Polygon<Z>>)
        requires
            self.geometry.wf(),
            can_move(self.geometry.last().z as int, z - self.geometry.last().z),
        ensures
            (b.geometry.nodes@, b.geometry.cw_list@, b.geometry.ccw_list@) == spec_insert(
                self.geometry.nodes@,
                self.geometry.cw_list@,
                self.geometry.ccw_list@,
                spec_move_z(self.geometry.last(), z - self.geometry.last().z),
            ),
            b.geometry.wf(),
    {
        let mut geometry = self.geometry;
        let middle = geometry.nodes.len() - 1;
        let p = geometry.nodes.get(middle).position;
        let next = move_z(p, z as i64 - p.z as i64);
        proof {
            lemma_move_z_edge(p, z - p.z);
            lemma_rectilinear_insert(geometry.nodes@, geometry.cw_list@, geometry.ccw_list@, next, true);
        }
        geometry.insert_node(next);
        BaseBuilder {
            geometry: Polygon {
                nodes: geometry.nodes,
                cw_list: geometry.cw_list,
                ccw_list: geometry.ccw_list,
                prev_move: PhantomData,
            },
        }
    }

    /// Places a new node `distance` away along z, with the last node's x.
    pub fn move_z_with(self, distance: i32) -> (b: BaseBuilder<Polygon<Z>>)
        requires
            self.geometry.wf(),
            can_move(self.geometry.last().z as int, distance as int),
        ensures
            (b.geometry.nodes@, b.geometry.cw_list@, b.geometry.ccw_list@) == spec_insert(
                self.geometry.nodes@,
                self.geometry.cw_list@,
                self.geometry.ccw_list@,
                spec_move_z(self.geometry.last(), distance as int),
            ),
            b.geometry.wf(),
    {
        let mut geometry = self.geometry;
        let middle = geometry.nodes.len() - 1;
        let p = geometry.nodes.get(middle).position;
        let next = move_z(p, distance as i64);
        proof {
            lemma_move_z_edge(p, distance as int);
            lemma_rectilinear_insert(geometry.nodes@, geometry.cw_list@, geometry.ccw_list@, next, true);
        }
        geometry.insert_node(next);
        BaseBuilder {
            geometry: Polygon {
                nodes: geometry.nodes,
                cw_list: geometry.cw_list,
                ccw_list: geometry.ccw_list,
                prev_move: PhantomData,
            },
        }
    }
}

impl BaseBuilder<Polygon<Z>> {
    /// Places a new node at the given x, with the last node's z.
    pub fn move_x_to(self, x: i32) -> (b: BaseBuilder<Polygon<X>>)
        requires
            self.geometry.wf(),
            can_move(self.geometry.last().x as int, x - self.geometry.last().x),
        ensures
            (b.geometry.nodes@, b.geometry.cw_list@, b.geometry.ccw_list@) == spec_insert(
                self.geometry.nodes@,
                self.geometry.cw_list@,
                self.geometry.ccw_list@,
                spec_move_x(self.geometry.last(), x - self.geometry.last().x),
            ),
            b.geometry.wf(),
    {
        let mut geometry = self.geometry;
        let middle = geometry.nodes.len() - 1;
        let p = geometry.nodes.get(middle).position;
        let next = move_x(p, x as i64 - p.x as i64);
        proof {
            lemma_move_x_edge(p, x - p.x);
            lemma_rectilinear_insert(geometry.nodes@, geometry.cw_list@, geometry.ccw_list@, next, false);
        }
        geometry.insert_node(next);
        BaseBuilder {
            geometry: Polygon {
                nodes: geometry.nodes,
                cw_list: geometry.cw_list,
                ccw_list: geometry.ccw_list,
                prev_move: PhantomData,
            },
        }
    }

    /// Places a new node `distance` away along x, with the last node's z.
    pub fn move_x_with(self, distance: i32) -> (b: BaseBuilder<Polygon<X>>)
        requires
            self.geometry.wf(),
            can_move(self.geometry.last().x as int, distance as int),
        ensures
            (b.geometry.nodes@, b.geometry.cw_list@, b.geometry.ccw_list@) == spec_insert(
                self.geometry.nodes@,
                self.geometry.cw_list@,
                self.geometry.ccw_list@,
                spec_move_x(self.geometry.last(), distance as int),
            ),
            b.geometry.wf(),
    {
        let mut geometry = self.geometry;
        let middle = geometry.nodes.len() - 1;
        let p = geometry.nodes.get(middle).position;
        let next = move_x(p, distance as i64);
        proof {
            lemma_move_x_edge(p, distance as int);
            lemma_rectilinear_insert(geometry.nodes@, geometry.cw_list@, geometry.ccw_list@, next, false);
        }
        geometry.insert_node(next);
        BaseBuilder {
            geometry: Polygon {
                nodes: geometry.nodes,
                cw_list: geometry.cw_list,
                ccw_list: geometry.ccw_list,
                prev_move: PhantomData,
            },
        }
    }
}

} // verus!
