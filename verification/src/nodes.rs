//! The nodes of a base outline: their position, the indices of their two
//! neighbours along the outline, and the turn that the outline makes at them.
use vstd::prelude::*;
use crate::geometry::{Position, spec_turn_cross, turn_cross};

verus! {

/// Describes the turn that the outline makes at a node.
///
/// ```text
/// Clockwise        Counter Clockwise
/// (Right)          (Left)
///
/// 0--->1           1<---0
///      |           |
///      v           v
///      2           2
/// ```
#[derive(Clone, Copy, Debug, PartialEq, Eq, Structural)]
pub enum Turn {
    Undefined,
    Clockwise,
    CounterClockwise,
}

/// The opposite turn; an undefined turn stays undefined.
pub open spec fn spec_not(t: Turn) -> Turn {
    match t {
        Turn::Undefined => Turn::Undefined,
        Turn::Clockwise => Turn::CounterClockwise,
        Turn::CounterClockwise => Turn::Clockwise,
    }
}

impl Turn {
    /// The opposite turn; an undefined turn stays undefined.
    pub fn not(self) -> (t: Turn)
        ensures
            t == spec_not(self),
    {
        match self {
            Turn::Undefined => Turn::Undefined,
            Turn::Clockwise => Turn::CounterClockwise,
            Turn::CounterClockwise => Turn::Clockwise,
        }
    }
}

/// Turning a turn around twice gives it back.
pub proof fn lemma_not_involution(t: Turn)
    ensures
        spec_not(spec_not(t)) == t,
        t != Turn::Undefined ==> spec_not(t) != t,
{
}

/// The turn at `p1` of the path `p0`, `p1`, `p2`: clockwise when the cross
/// product of `p1 - p0` and `p2 - p0` is positive, counter clockwise
/// otherwise (a straight or reversed path counts as counter clockwise).
pub open spec fn spec_turn_of(p0: Position, p1: Position, p2: Position) -> Turn {
    if spec_turn_cross(p0, p1, p2) > 0 {
        Turn::Clockwise
    } else {
        Turn::CounterClockwise
    }
}

/// The indices of the previous and the next node along the outline.
#[derive(Clone, Copy, Debug, PartialEq, Eq, Structural)]
pub struct Connection {
    pub prev: usize,
    pub next: usize,
}

/// A corner of the base outline.
#[derive(Clone, Copy, Debug, PartialEq, Eq, Structural)]
pub struct Node {
    pub connection: Connection,
    pub position: Position,
    pub turn: Turn,
}

/// A node at `position` with the given neighbours and an undefined turn.
pub open spec fn spec_node(position: Position, prev: usize, next: usize) -> Node {
    Node { connection: Connection { prev, next }, position, turn: Turn::Undefined }
}

impl Node {
    /// Creates a new [Node] at the given [Position], with [Turn::Undefined]
    /// and the given previous/next indices.
    pub fn new(position: Position, prev: usize, next: usize) -> (n: Node)
        ensures
            n == spec_node(position, prev, next),
    {
        Node { connection: Connection { prev, next }, position, turn: Turn::Undefined }
    }

    /// The x coordinate of the node.
    pub fn x(&self) -> (r: i32)
        ensures
            r == self.position.x,
    {
        self.position.x
    }

    /// The z coordinate of the node.
    pub fn z(&self) -> (r: i32)
        ensures
            r == self.position.z,
    {
        self.position.z
    }

    /// The index of the previous node.
    pub fn prev(&self) -> (r: usize)
        ensures
            r == self.connection.prev,
    {
        self.connection.prev
    }

    /// The index of the next node.
    pub fn next(&self) -> (r: usize)
        ensures
            r == self.connection.next,
    {
        self.connection.next
    }
}

/// Every neighbour index of every node is an index of the list.
pub open spec fn links_in_range(nodes: Seq<Node>) -> bool {
    forall|i: int|
        0 <= i < nodes.len() ==> {
            &&& (#[trigger] nodes[i]).connection.prev < nodes.len()
            &&& nodes[i].connection.next < nodes.len()
        }
}

/// The nodes are linked in list order into a closed ring: the next of the
/// last node is the first one.
pub open spec fn is_ring(nodes: Seq<Node>) -> bool {
    &&& nodes.len() >= 2
    &&& forall|i: int|
        0 <= i < nodes.len() ==> {
            &&& (#[trigger] nodes[i]).connection.next == (if i + 1 == nodes.len() {
                0
            } else {
                i + 1
            })
            &&& nodes[i].connection.prev == (if i == 0 {
                nodes.len() - 1
            } else {
                i - 1
            })
        }
}

/// The turn at node `i` computed from its neighbours' positions.
pub open spec fn spec_node_turn(nodes: Seq<Node>, i: int) -> Turn {
    spec_turn_of(
        nodes[nodes[i].connection.prev as int].position,
        nodes[i].position,
        nodes[nodes[i].connection.next as int].position,
    )
}

/// The node list after `is_turn_changed(i)`: a counter clockwise node whose
/// cross product became positive turns clockwise, a clockwise node whose cross
/// product became negative turns counter clockwise; nothing else changes.
pub open spec fn spec_turn_changed(nodes: Seq<Node>, i: int) -> (Seq<Node>, bool) {
    let c = spec_turn_cross(
        nodes[nodes[i].connection.prev as int].position,
        nodes[i].position,
        nodes[nodes[i].connection.next as int].position,
    );
    if c > 0 && nodes[i].turn == Turn::CounterClockwise {
        (nodes.update(i, Node { turn: Turn::Clockwise, ..nodes[i] }), true)
    } else if c < 0 && nodes[i].turn == Turn::Clockwise {
        (nodes.update(i, Node { turn: Turn::CounterClockwise, ..nodes[i] }), true)
    } else {
        (nodes, false)
    }
}

/// The nodes of an outline.
pub struct NodeList(pub Vec<Node>);

impl View for NodeList {
    type V = Seq<Node>;

    open spec fn view(&self) -> Seq<Node> {
        self.0@
    }
}

impl NodeList {
    /// Creates an empty [NodeList] with the given capacity.
    pub fn with_capacity(capacity: usize) -> (l: NodeList)
        ensures
            l@ == Seq::<Node>::empty(),
    {
        NodeList(Vec::with_capacity(capacity))
    }

    /// The number of nodes.
    pub fn len(&self) -> (r: usize)
        ensures
            r == self@.len(),
    {
        self.0.len()
    }

    /// Appends a node.
    pub fn push(&mut self, node: Node)
        ensures
            final(self)@ == old(self)@.push(node),
    {
        self.0.push(node);
    }

    /// The node at `index`.
    pub fn get(&self, index: usize) -> (n: Node)
        requires
            index < self@.len(),
        ensures
            n == self@[index as int],
    {
        self.0[index]
    }

    /// Replaces the node at `index`.
    pub fn set(&mut self, index: usize, node: Node)
        requires
            index < old(self)@.len(),
        ensures
            final(self)@ == old(self)@.update(index as int, node),
    {
        self.0.set(index, node);
    }

    /// A copy of the node list.
    pub fn duplicate(&self) -> (l: NodeList)
        ensures
            l@ == self@,
    {
        let mut v: Vec<Node> = Vec::with_capacity(self.0.len());
        let mut i: usize = 0;
        while i < self.0.len()
            invariant
                i <= self@.len(),
                v@ == self@.take(i as int),
            decreases self@.len() - i,
        {
            v.push(self.0[i]);
            i = i + 1;
            assert(v@ =~= self@.take(i as int));
        }
        assert(self@.take(self@.len() as int) =~= self@);
        NodeList(v)
    }

    /// The positions of the nodes, in list order.
    pub fn positions(&self) -> (v: Vec<Position>)
        ensures
            v@.len() == self@.len(),
            forall|i: int| 0 <= i < v@.len() ==> #[trigger] v@[i] == self@[i].position,
    {
        let mut v: Vec<Position> = Vec::with_capacity(self.0.len());
        let mut i: usize = 0;
        while i < self.0.len()
            invariant
                i <= self@.len(),
                v@.len() == i,
                forall|k: int| 0 <= k < i ==> #[trigger] v@[k] == self@[k].position,
            decreases self@.len() - i,
        {
            v.push(self.0[i].position);
            i = i + 1;
        }
        v
    }

    /// The cross product at node `index`: of the vectors from its previous
    /// node to itself and from its previous node to its next node.
    pub fn cross_at(&self, index: usize) -> (c: i128)
        requires
            index < self@.len(),
            links_in_range(self@),
        ensures
            c == spec_turn_cross(
                self@[self@[index as int].connection.prev as int].position,
                self@[index as int].position,
                self@[self@[index as int].connection.next as int].position,
            ),
    {
        let node = self.0[index];
        let p_1 = self.0[node.connection.prev].position;
        let p_3 = self.0[node.connection.next].position;
        turn_cross(p_1, node.position, p_3)
    }

    /// Returns true if the [Turn] of the node at `index` changed, and then
    /// also stores the new turn.
    pub fn is_turn_changed(&mut self, index: usize) -> (changed: bool)
        requires
            index < old(self)@.len(),
            links_in_range(old(self)@),
        ensures
            (final(self)@, changed) == spec_turn_changed(old(self)@, index as int),
    {
        let cross = self.cross_at(index);
        let node = self.0[index];
        if cross > 0 && node.turn == Turn::CounterClockwise {
            self.0.set(index, Node { turn: Turn::Clockwise, ..node });
            return true;
        }
        if cross < 0 && node.turn == Turn::Clockwise {
            self.0.set(index, Node { turn: Turn::CounterClockwise, ..node });
            return true;
        }
        false
    }
}

} // verus!
