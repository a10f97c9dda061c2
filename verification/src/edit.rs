//! The rules of editing a base outline: picking a node, picking the axis to
//! move it along (which decides the neighbouring node that moves with it),
//! entering the new coordinate with the mouse or the keyboard, keeping it at
//! least the minimum distance from the nodes around, and saving or undoing
//! the move.
use vstd::prelude::*;
use crate::geometry::MIN_DISTANCE;
use crate::nodes::{Node, NodeList, is_ring, links_in_range};

verus! {

/// A world axis.
#[derive(Clone, Copy, Debug, PartialEq, Eq, Structural)]
pub enum Axis3d {
    X,
    Y,
    Z,
}

/// Where a new coordinate comes from.
#[derive(Clone, Copy, Debug, PartialEq, Eq, Structural)]
pub enum InputMode {
    Mouse,
    Keyboard,
}

/// The steps of editing a base.
#[derive(Clone, Copy, Debug, PartialEq, Eq, Structural)]
pub enum EditBaseState {
    PickingNode,
    PickingAxis,
    Reposition,
}

impl Default for EditBaseState {
    fn default() -> (s: Self)
        ensures
            s == EditBaseState::PickingNode,
    {
        EditBaseState::PickingNode
    }
}

/// The smallest coordinate (mm) of a node.
pub const NODE_MIN: i32 = i32::MIN;

/// The largest coordinate (mm) of a node.
pub const NODE_MAX: i32 = i32::MAX;

/// The two nodes that limit the move of an edge.
#[derive(Clone, Copy, Debug, PartialEq, Eq, Structural)]
pub struct LimitNodes(pub usize, pub usize);

/// A neighbour of a node, the axis along which it moves together with the
/// node, and the two nodes that limit that move.
#[derive(Clone, Copy, Debug, PartialEq, Eq, Structural)]
pub struct NodeEdge {
    pub index: usize,
    pub axis: Axis3d,
    pub limit_nodes: LimitNodes,
}

/// A node and its two edges: to the previous and to the next node.
#[derive(Clone, Copy, Debug, PartialEq, Eq, Structural)]
pub struct NodeEdgeConnection {
    pub index: usize,
    pub prev: NodeEdge,
    pub next: NodeEdge,
}

/// The edges of node `curr`. The edge to the previous node moves along x,
/// the one to the next node along z, unless the node and its previous node
/// share a z (their edge runs along x, so it moves along z), in which case
/// the axes swap. Each edge's move is limited by the nodes on either side of
/// the edge's two ends.
pub open spec fn spec_node_edges(nodes: Seq<Node>, curr: int) -> NodeEdgeConnection {
    let prev_i = nodes[curr].connection.prev;
    let next_i = nodes[curr].connection.next;
    let prev2_i = nodes[prev_i as int].connection.prev;
    let next2_i = nodes[next_i as int].connection.next;
    let along_x = nodes[curr].position.z == nodes[prev_i as int].position.z;
    NodeEdgeConnection {
        index: curr as usize,
        prev: NodeEdge {
            index: prev_i,
            axis: if along_x {
                Axis3d::Z
            } else {
                Axis3d::X
            },
            limit_nodes: LimitNodes(prev2_i, next_i),
        },
        next: NodeEdge {
            index: next_i,
            axis: if along_x {
                Axis3d::X
            } else {
                Axis3d::Z
            },
            limit_nodes: LimitNodes(prev_i, next2_i),
        },
    }
}

/// The edges of node `curr_i`.
pub fn node_edge_connection(nodes: &NodeList, curr_i: usize) -> (c: NodeEdgeConnection)
    requires
        links_in_range(nodes@),
        curr_i < nodes@.len(),
    ensures
        c == spec_node_edges(nodes@, curr_i as int),
{
    let curr = nodes.get(curr_i);
    let prev_i = curr.connection.prev;
    let next_i = curr.connection.next;
    let prev2_i = nodes.get(prev_i).connection.prev;
    let next2_i = nodes.get(next_i).connection.next;
    let mut prev = NodeEdge { index: prev_i, axis: Axis3d::X, limit_nodes: LimitNodes(prev2_i, next_i) };
    let mut next = NodeEdge { index: next_i, axis: Axis3d::Z, limit_nodes: LimitNodes(prev_i, next2_i) };
    if curr.position.z == nodes.get(prev_i).position.z {
        prev.axis = Axis3d::Z;
        next.axis = Axis3d::X;
    }
    NodeEdgeConnection { index: curr_i, prev, next }
}

/// The edges of every node, in node order.
pub fn node_edge_connections(nodes: &NodeList) -> (v: Vec<NodeEdgeConnection>)
    requires
        links_in_range(nodes@),
    ensures
        v@.len() == nodes@.len(),
        forall|i: int| 0 <= i < v@.len() ==> #[trigger] v@[i] == spec_node_edges(nodes@, i),
{
    let n = nodes.len();
    let mut v: Vec<NodeEdgeConnection> = Vec::with_capacity(n);
    let mut i: usize = 0;
    while i < n
        invariant
            n == nodes@.len(),
            links_in_range(nodes@),
            i <= n,
            v@.len() == i,
            forall|k: int| 0 <= k < i ==> #[trigger] v@[k] == spec_node_edges(nodes@, k),
        decreases n - i,
    {
        v.push(node_edge_connection(nodes, i));
        i = i + 1;
    }
    v
}

/// A position (mm) being edited in the ground plane.
#[derive(Clone, Copy, Debug, PartialEq, Eq, Structural)]
pub struct EditPosition {
    pub x: i128,
    pub z: i128,
}

/// The coordinate of `p` along `axis` (x for [Axis3d::Y] too, which is never
/// asked for).
pub open spec fn edit_coord(p: EditPosition, axis: Axis3d) -> i128 {
    match axis {
        Axis3d::Z => p.z,
        _ => p.x,
    }
}

/// `p` with its coordinate along `axis` set to `v` (unchanged for
/// [Axis3d::Y]).
pub open spec fn with_coord(p: EditPosition, axis: Axis3d, v: i128) -> EditPosition {
    match axis {
        Axis3d::X => EditPosition { x: v, ..p },
        Axis3d::Y => p,
        Axis3d::Z => EditPosition { z: v, ..p },
    }
}

/// What the editor remembers: the picked node, its picked edge, where new
/// coordinates come from, the node's position before the move and the
/// position being entered.
#[derive(Clone, Copy, Debug)]
pub struct EditBaseContext {
    pub selected_node: Option<usize>,
    pub edge_node: Option<NodeEdge>,
    pub input_mode: InputMode,
    pub original_position: EditPosition,
    pub new_position: EditPosition,
}

/// Nothing picked, mouse input, both positions at the origin.
pub open spec fn spec_default_context() -> EditBaseContext {
    EditBaseContext {
        selected_node: None,
        edge_node: None,
        input_mode: InputMode::Mouse,
        original_position: EditPosition { x: 0, z: 0 },
        new_position: EditPosition { x: 0, z: 0 },
    }
}

impl Default for EditBaseContext {
    fn default() -> (c: Self)
        ensures
            c == spec_default_context(),
    {
        EditBaseContext {
            selected_node: None,
            edge_node: None,
            input_mode: InputMode::Mouse,
            original_position: EditPosition { x: 0, z: 0 },
            new_position: EditPosition { x: 0, z: 0 },
        }
    }
}

/// The keys pressed in a frame that the editor reads.
#[derive(Clone, Copy, Debug)]
pub struct KeyPresses {
    /// Whether the digit key of each digit 0..9 was pressed.
    pub digits: [bool; 10],
    pub backspace: bool,
    pub minus: bool,
}

/// The first pressed digit from `i` on.
pub open spec fn spec_first_digit(digits: Seq<bool>, i: int) -> Option<int>
    decreases 10 - i,
{
    if i >= 10 || i < 0 {
        None
    } else if digits[i] {
        Some(i)
    } else {
        spec_first_digit(digits, i + 1)
    }
}

/// `value` with each pressed digit among the first `k` appended in digit
/// order (each multiplies by ten and adds the digit).
pub open spec fn spec_append_digits(value: int, digits: Seq<bool>, k: nat) -> int
    decreases k,
{
    if k == 0 {
        value
    } else {
        let v = spec_append_digits(value, digits, (k - 1) as nat);
        if digits[k - 1] {
            v * 10 + (k - 1)
        } else {
            v
        }
    }
}

/// `a` divided by ten, rounded toward zero.
pub open spec fn spec_div10(a: int) -> int {
    if a >= 0 {
        a / 10
    } else {
        -((-a) / 10)
    }
}

/// A coordinate is a node coordinate.
pub open spec fn in_node_range(v: int) -> bool {
    NODE_MIN <= v <= NODE_MAX
}

/// The context after the keys of a frame, while repositioning along the
/// edge's axis. In mouse mode a pressed digit replaces the coordinate (the
/// smallest one pressed) and switches to keyboard mode. In keyboard mode,
/// backspace drops the last digit, or, at zero, switches back to mouse mode;
/// otherwise each pressed digit is appended and minus flips the sign.
pub open spec fn spec_keyboard(ctx: EditBaseContext, keys: KeyPresses) -> EditBaseContext {
    match ctx.edge_node {
        None => ctx,
        Some(edge) => {
            if edge.axis == Axis3d::Y {
                ctx
            } else {
                let v = edit_coord(ctx.new_position, edge.axis);
                match ctx.input_mode {
                    InputMode::Mouse => match spec_first_digit(keys.digits@, 0) {
                        Some(d) => EditBaseContext {
                            new_position: with_coord(ctx.new_position, edge.axis, d as i128),
                            input_mode: InputMode::Keyboard,
                            ..ctx
                        },
                        None => ctx,
                    },
                    InputMode::Keyboard => {
                        if keys.backspace {
                            if v == 0 {
                                EditBaseContext { input_mode: InputMode::Mouse, ..ctx }
                            } else {
                                EditBaseContext {
                                    new_position: with_coord(
                                        ctx.new_position,
                                        edge.axis,
                                        spec_div10(v as int) as i128,
                                    ),
                                    ..ctx
                                }
                            }
                        } else {
                            let a = spec_append_digits(v as int, keys.digits@, 10);
                            let b = if keys.minus {
                                -a
                            } else {
                                a
                            };
                            EditBaseContext {
                                new_position: with_coord(ctx.new_position, edge.axis, b as i128),
                                ..ctx
                            }
                        }
                    },
                }
            }
        },
    }
}

/// The bound on a value after appending `i` digits to a node coordinate.
pub open spec fn digit_bound(i: nat) -> int
    decreases i,
{
    if i == 0 {
        0x1_0000_0000
    } else {
        10 * digit_bound((i - 1) as nat) + 10
    }
}

proof fn lemma_digit_bound(i: nat)
    requires
        i <= 10,
    ensures
        0 < digit_bound(i) <= digit_bound(10),
        digit_bound(10) < 0x1_0000_0000_0000_0000_0000_0000,
    decreases 10 - i,
{
    reveal_with_fuel(digit_bound, 11);
    if i < 10 {
        lemma_digit_bound(i + 1);
    }
}

/// The nodes limiting a move along `axis` (x or z) from `old`, starting from
/// the bounds `min`, `max`: a limit below `old` above `min` raises `min` to
/// the minimum distance above it; a limit at or above `old` below `max`
/// lowers `max` to the minimum distance below it.
pub open spec fn spec_apply_limit(limit: int, old: int, min: int, max: int) -> (int, int) {
    if limit < old {
        if limit > min {
            (limit + MIN_DISTANCE, max)
        } else {
            (min, max)
        }
    } else {
        if limit < max {
            (min, limit - MIN_DISTANCE)
        } else {
            (min, max)
        }
    }
}

/// The coordinate of node `i` along `axis` (x or z).
pub open spec fn node_coord(nodes: Seq<Node>, i: usize, axis: Axis3d) -> int {
    match axis {
        Axis3d::Z => nodes[i as int].position.z as int,
        _ => nodes[i as int].position.x as int,
    }
}

/// The range a move of `edge` from `old` is kept in.
pub open spec fn spec_bounds(nodes: Seq<Node>, edge: NodeEdge, old: int) -> (int, int) {
    let (min1, max1) = spec_apply_limit(
        node_coord(nodes, edge.limit_nodes.0, edge.axis),
        old,
        NODE_MIN as int,
        NODE_MAX as int,
    );
    spec_apply_limit(node_coord(nodes, edge.limit_nodes.1, edge.axis), old, min1, max1)
}

/// `v` clamped into `[min, max]`.
pub open spec fn spec_clamp(v: int, min: int, max: int) -> int {
    if v < min {
        min
    } else if v > max {
        max
    } else {
        v
    }
}

/// The edge's limit nodes are nodes of the list, and the range they leave
/// for a move along x or z is not empty.
pub open spec fn check_ok(ctx: EditBaseContext, nodes: Seq<Node>) -> bool {
    match ctx.edge_node {
        None => true,
        Some(edge) => edge.axis == Axis3d::Y || {
            let old = edit_coord(ctx.original_position, edge.axis) as int;
            &&& edge.limit_nodes.0 < nodes.len()
            &&& edge.limit_nodes.1 < nodes.len()
            &&& spec_bounds(nodes, edge, old).0 <= spec_bounds(nodes, edge, old).1
        },
    }
}

/// The context after the new coordinate is kept in its range.
pub open spec fn spec_check(ctx: EditBaseContext, nodes: Seq<Node>) -> EditBaseContext {
    match ctx.edge_node {
        None => ctx,
        Some(edge) => {
            if edge.axis == Axis3d::Y {
                ctx
            } else {
                let old = edit_coord(ctx.original_position, edge.axis) as int;
                let (min, max) = spec_bounds(nodes, edge, old);
                let v = spec_clamp(edit_coord(ctx.new_position, edge.axis) as int, min, max);
                EditBaseContext { new_position: with_coord(ctx.new_position, edge.axis, v as i128), ..ctx }
            }
        },
    }
}

/// `nodes` with the coordinate along `axis` of node `i` set to `v` (nothing
/// changes for [Axis3d::Y]).
pub open spec fn set_node_coord(nodes: Seq<Node>, i: usize, axis: Axis3d, v: i32) -> Seq<Node> {
    let n = nodes[i as int];
    match axis {
        Axis3d::X => nodes.update(i as int, Node { position: crate::geometry::Position { x: v, ..n.position }, ..n }),
        Axis3d::Y => nodes,
        Axis3d::Z => nodes.update(i as int, Node { position: crate::geometry::Position { z: v, ..n.position }, ..n }),
    }
}

/// The nodes after the picked node and its edge node take the new coordinate.
pub open spec fn spec_reposition(ctx: EditBaseContext, nodes: Seq<Node>) -> Seq<Node> {
    match (ctx.selected_node, ctx.edge_node) {
        (Some(sel), Some(edge)) => {
            let v = edit_coord(ctx.new_position, edge.axis) as i32;
            set_node_coord(set_node_coord(nodes, sel, edge.axis, v), edge.index, edge.axis, v)
        },
        _ => nodes,
    }
}

/// The nodes after a cancelled move: the picked node gets back both its
/// coordinates, the edge node its coordinate along the edge's axis (z unless
/// the axis is x).
pub open spec fn spec_restore(ctx: EditBaseContext, nodes: Seq<Node>) -> Seq<Node> {
    match (ctx.selected_node, ctx.edge_node) {
        (Some(sel), Some(edge)) => {
            let ox = ctx.original_position.x as i32;
            let oz = ctx.original_position.z as i32;
            let n1 = set_node_coord(set_node_coord(nodes, sel, Axis3d::X, ox), sel, Axis3d::Z, oz);
            if edge.axis == Axis3d::X {
                set_node_coord(n1, edge.index, Axis3d::X, ox)
            } else {
                set_node_coord(n1, edge.index, Axis3d::Z, oz)
            }
        },
        _ => nodes,
    }
}

fn set_node_x(nodes: &mut NodeList, i: usize, v: i32)
    requires
        i < old(nodes)@.len(),
    ensures
        final(nodes)@ == set_node_coord(old(nodes)@, i, Axis3d::X, v),
{
    let n = nodes.get(i);
    nodes.set(i, Node { position: crate::geometry::Position { x: v, ..n.position }, ..n });
}

fn set_node_z(nodes: &mut NodeList, i: usize, v: i32)
    requires
        i < old(nodes)@.len(),
    ensures
        final(nodes)@ == set_node_coord(old(nodes)@, i, Axis3d::Z, v),
{
    let n = nodes.get(i);
    nodes.set(i, Node { position: crate::geometry::Position { z: v, ..n.position }, ..n });
}

impl EditBaseContext {
    /// The index of the picked node.
    pub fn node_index(&self) -> (r: Option<usize>)
        ensures
            r == self.selected_node,
    {
        self.selected_node
    }

    /// The axis of the picked edge.
    pub fn axis(&self) -> (r: Option<Axis3d>)
        ensures
            r == (match self.edge_node {
                Some(e) => Some(e.axis),
                None => None,
            }),
    {
        match &self.edge_node {
            Some(edge_node) => Some(edge_node.axis),
            None => None,
        }
    }

    /// Where new coordinates come from.
    pub fn input_mode(&self) -> (r: &InputMode)
        ensures
            *r == self.input_mode,
    {
        &self.input_mode
    }

    /// The picked node's position before the move.
    pub fn original_pos(&self) -> (r: &EditPosition)
        ensures
            *r == self.original_position,
    {
        &self.original_position
    }

    /// The position being entered.
    pub fn new_pos(&self) -> (r: &EditPosition)
        ensures
            *r == self.new_position,
    {
        &self.new_position
    }

    /// Starts picking a node: everything is forgotten. Returns the node that
    /// was picked before, if any.
    pub fn enter_picking_node(&mut self) -> (r: Option<usize>)
        ensures
            r == old(self).selected_node,
            *final(self) == spec_default_context(),
    {
        let r = self.selected_node;
        *self = EditBaseContext::default();
        r
    }

    /// Picks node `index` at `position`.
    pub fn pick_node(&mut self, index: usize, position: EditPosition)
        ensures
            *final(self) == (EditBaseContext {
                original_position: position,
                selected_node: Some(index),
                ..*old(self)
            }),
    {
        self.original_position = position;
        self.selected_node = Some(index);
    }

    /// The next step once a node is picked: picking its axis.
    pub fn transition_picking_node(&self) -> (r: Option<EditBaseState>)
        ensures
            r == (if self.selected_node is Some {
                Some(EditBaseState::PickingAxis)
            } else {
                None
            }),
    {
        if self.selected_node.is_some() {
            Some(EditBaseState::PickingAxis)
        } else {
            None
        }
    }

    /// Starts picking an axis: no edge is picked.
    pub fn enter_picking_axis(&mut self)
        ensures
            *final(self) == (EditBaseContext { edge_node: None, ..*old(self) }),
    {
        self.edge_node = None;
    }

    /// Picks the axis `axis` of the picked node, whose edges are
    /// `connection`: the edge that moves along that axis if the previous
    /// edge does, else the next edge. Nothing happens without a picked node.
    pub fn pick_axis(&mut self, connection: &NodeEdgeConnection, axis: Axis3d)
        ensures
            *final(self) == (if old(self).selected_node is None {
                *old(self)
            } else if connection.prev.axis == axis {
                EditBaseContext { edge_node: Some(connection.prev), ..*old(self) }
            } else {
                EditBaseContext { edge_node: Some(connection.next), ..*old(self) }
            }),
    {
        if self.selected_node.is_none() {
            return;
        }
        if connection.prev.axis == axis {
            self.edge_node = Some(connection.prev);
        } else {
            self.edge_node = Some(connection.next);
        }
    }

    /// The next step while picking an axis: back to picking a node when
    /// cancelled, on to repositioning once an edge is picked.
    pub fn transition_picking_axis(&self, cancel: bool) -> (r: Option<EditBaseState>)
        ensures
            r == (if cancel {
                Some(EditBaseState::PickingNode)
            } else if self.edge_node is Some {
                Some(EditBaseState::Reposition)
            } else {
                None
            }),
    {
        if cancel {
            return Some(EditBaseState::PickingNode);
        }
        if self.edge_node.is_some() {
            Some(EditBaseState::Reposition)
        } else {
            None
        }
    }

    /// In mouse mode, takes the coordinate under the mouse (already moved
    /// back by the handle offset, rounded toward zero) along the edge's axis.
    pub fn reposition_with_mouse(&mut self, value: i128)
        ensures
            *final(self) == (if old(self).input_mode == InputMode::Keyboard {
                *old(self)
            } else {
                match old(self).edge_node {
                    None => *old(self),
                    Some(edge) => EditBaseContext {
                        new_position: with_coord(old(self).new_position, edge.axis, value),
                        ..*old(self)
                    },
                }
            }),
    {
        if self.input_mode == InputMode::Keyboard {
            return;
        }
        match self.edge_node {
            None => {},
            Some(edge) => match edge.axis {
                Axis3d::X => {
                    self.new_position.x = value;
                },
                Axis3d::Y => {},
                Axis3d::Z => {
                    self.new_position.z = value;
                },
            },
        }
    }

    /// Applies the keys of a frame to the coordinate being entered. In
    /// keyboard mode that coordinate is one a check left in the node range.
    pub fn reposition_with_keyboard(&mut self, keys: &KeyPresses)
        requires
            old(self).input_mode == InputMode::Keyboard ==> match old(self).edge_node {
                Some(edge) => edge.axis != Axis3d::Y ==> in_node_range(
                    edit_coord(old(self).new_position, edge.axis) as int,
                ),
                None => true,
            },
        ensures
            *final(self) == spec_keyboard(*old(self), *keys),
    {
        let edge = match self.edge_node {
            None => {
                return;
            },
            Some(edge) => edge,
        };
        if edge.axis == Axis3d::Y {
            return;
        }
        let v = if edge.axis == Axis3d::X {
            self.new_position.x
        } else {
            self.new_position.z
        };
        let ghost digits = keys.digits@;
        match self.input_mode {
            InputMode::Mouse => {
                let mut index: usize = 0;
                while index < 10
                    invariant
                        index <= 10,
                        digits == keys.digits@,
                        spec_first_digit(digits, 0) == spec_first_digit(digits, index as int),
                        *self == *old(self),
                        self.edge_node == Some(edge),
                        edge.axis != Axis3d::Y,
                        self.input_mode == InputMode::Mouse,
                    decreases 10 - index,
                {
                    proof {
                        assert(digits.len() == 10);
                    }
                    if keys.digits[index] {
                        let d = index as i128;
                        if edge.axis == Axis3d::X {
                            self.new_position.x = d;
                        } else {
                            self.new_position.z = d;
                        }
                        self.input_mode = InputMode::Keyboard;
                        return;
                    }
                    index = index + 1;
                }
                proof {
                    assert(spec_first_digit(digits, 10) is None);
                }
            },
            InputMode::Keyboard => {
                let nv = if keys.backspace {
                    if v == 0 {
                        self.input_mode = InputMode::Mouse;
                        return;
                    }
                    v / 10
                } else {
                    let mut a = v;
                    let mut index: usize = 0;
                    proof {
                        lemma_digit_bound(0);
                    }
                    while index < 10
                        invariant
                            index <= 10,
                            digits == keys.digits@,
                            a == spec_append_digits(v as int, digits, index as nat),
                            -digit_bound(index as nat) <= a <= digit_bound(index as nat),
                        decreases 10 - index,
                    {
                        proof {
                            lemma_digit_bound(index as nat);
                            lemma_digit_bound((index + 1) as nat);
                        }
                        if keys.digits[index] {
                            a = a * 10 + index as i128;
                        }
                        index = index + 1;
                    }
                    if keys.minus {
                        -a
                    } else {
                        a
                    }
                };
                if edge.axis == Axis3d::X {
                    self.new_position.x = nv;
                } else {
                    self.new_position.z = nv;
                }
            },
        }
    }

    /// The range that the edge's limit nodes leave for the coordinate being
    /// entered; `None` without an edge along x or z, or when a limit node is
    /// not a node of the list.
    pub fn reposition_bounds(&self, nodes: &NodeList) -> (r: Option<(i128, i128)>)
        ensures
            r == (match self.edge_node {
                Some(edge) => if edge.axis != Axis3d::Y && edge.limit_nodes.0 < nodes@.len()
                    && edge.limit_nodes.1 < nodes@.len() {
                    let b = spec_bounds(nodes@, edge, edit_coord(self.original_position, edge.axis) as int);
                    Some((b.0 as i128, b.1 as i128))
                } else {
                    None
                },
                None => None,
            }),
    {
        let edge = match self.edge_node {
            None => {
                return None;
            },
            Some(edge) => edge,
        };
        if edge.axis == Axis3d::Y || edge.limit_nodes.0 >= nodes.len() || edge.limit_nodes.1 >= nodes.len() {
            return None;
        }
        let old_position = if edge.axis == Axis3d::X {
            self.original_position.x
        } else {
            self.original_position.z
        };
        let l0 = node_coordinate(nodes, edge.limit_nodes.0, edge.axis);
        let (min, max) = apply_limit(l0, old_position, NODE_MIN as i128, NODE_MAX as i128);
        let l1 = node_coordinate(nodes, edge.limit_nodes.1, edge.axis);
        let (min, max) = apply_limit(l1, old_position, min, max);
        Some((min, max))
    }

    /// Keeps the coordinate being entered in the range that the edge's limit
    /// nodes leave.
    pub fn reposition_check(&mut self, nodes: &NodeList)
        requires
            check_ok(*old(self), nodes@),
        ensures
            *final(self) == spec_check(*old(self), nodes@),
    {
        let edge = match self.edge_node {
            None => {
                return;
            },
            Some(edge) => edge,
        };
        let axis = edge.axis;
        let (old_position, new_position) = match axis {
            Axis3d::X => (self.original_position.x, self.new_position.x),
            Axis3d::Y => {
                return;
            },
            Axis3d::Z => (self.original_position.z, self.new_position.z),
        };
        let mut min: i128 = NODE_MIN as i128;
        let mut max: i128 = NODE_MAX as i128;
        let l0 = node_coordinate(nodes, edge.limit_nodes.0, axis);
        let (a, b) = apply_limit(l0, old_position, min, max);
        min = a;
        max = b;
        let l1 = node_coordinate(nodes, edge.limit_nodes.1, axis);
        let (a, b) = apply_limit(l1, old_position, min, max);
        min = a;
        max = b;
        let v = if new_position < min {
            min
        } else if new_position > max {
            max
        } else {
            new_position
        };
        if axis == Axis3d::X {
            self.new_position.x = v;
        } else {
            self.new_position.z = v;
        }
    }

    /// Moves the picked node and its edge node to the coordinate entered,
    /// along the edge's axis.
    pub fn reposition_node(&self, nodes: &mut NodeList)
        requires
            match (self.selected_node, self.edge_node) {
                (Some(sel), Some(edge)) => {
                    &&& sel < old(nodes)@.len()
                    &&& edge.index < old(nodes)@.len()
                    &&& in_node_range(edit_coord(self.new_position, edge.axis) as int)
                },
                _ => true,
            },
        ensures
            final(nodes)@ == spec_reposition(*self, old(nodes)@),
    {
        let sel = match self.selected_node {
            None => {
                return;
            },
            Some(s) => s,
        };
        let edge = match self.edge_node {
            None => {
                return;
            },
            Some(e) => e,
        };
        match edge.axis {
            Axis3d::X => {
                let v = self.new_position.x as i32;
                set_node_x(nodes, sel, v);
                set_node_x(nodes, edge.index, v);
            },
            Axis3d::Y => {},
            Axis3d::Z => {
                let v = self.new_position.z as i32;
                set_node_z(nodes, sel, v);
                set_node_z(nodes, edge.index, v);
            },
        }
    }

    /// The next step while repositioning. Cancelling puts the picked node
    /// back at its original position, and its edge node back at the original
    /// coordinate along the edge's axis; saving makes the entered position
    /// the original one. Either goes back to picking an axis.
    pub fn transition_reposition(&mut self, nodes: &mut NodeList, cancel: bool, save: bool) -> (r:
        Option<EditBaseState>)
        requires
            cancel ==> match (old(self).selected_node, old(self).edge_node) {
                (Some(sel), Some(edge)) => {
                    &&& sel < old(nodes)@.len()
                    &&& edge.index < old(nodes)@.len()
                    &&& in_node_range(old(self).original_position.x as int)
                    &&& in_node_range(old(self).original_position.z as int)
                },
                _ => true,
            },
        ensures
            cancel ==> {
                &&& *final(self) == *old(self)
                &&& final(nodes)@ == spec_restore(*old(self), old(nodes)@)
                &&& r == (if old(self).selected_node is Some && old(self).edge_node is Some {
                    Some(EditBaseState::PickingAxis)
                } else {
                    None
                })
            },
            !cancel && save ==> {
                &&& *final(self) == (EditBaseContext {
                    original_position: old(self).new_position,
                    ..*old(self)
                })
                &&& final(nodes)@ == old(nodes)@
                &&& r == Some(EditBaseState::PickingAxis)
            },
            !cancel && !save ==> {
                &&& *final(self) == *old(self)
                &&& final(nodes)@ == old(nodes)@
                &&& r is None
            },
    {
        if cancel {
            let sel = match self.selected_node {
                None => {
                    return None;
                },
                Some(s) => s,
            };
            let edge = match self.edge_node {
                None => {
                    return None;
                },
                Some(e) => e,
            };
            let ox = self.original_position.x as i32;
            let oz = self.original_position.z as i32;
            set_node_x(nodes, sel, ox);
            set_node_z(nodes, sel, oz);
            if edge.axis == Axis3d::X {
                set_node_x(nodes, edge.index, ox);
            } else {
                set_node_z(nodes, edge.index, oz);
            }
            Some(EditBaseState::PickingAxis)
        } else if save {
            self.original_position = self.new_position;
            Some(EditBaseState::PickingAxis)
        } else {
            None
        }
    }
}

fn node_coordinate(nodes: &NodeList, i: usize, axis: Axis3d) -> (r: i128)
    requires
        i < nodes@.len(),
    ensures
        r == node_coord(nodes@, i, axis),
{
    let p = nodes.get(i).position;
    match axis {
        Axis3d::Z => p.z as i128,
        _ => p.x as i128,
    }
}

fn apply_limit(limit: i128, old: i128, min: i128, max: i128) -> (r: (i128, i128))
    requires
        in_node_range(limit as int),
        NODE_MIN <= min,
        max <= NODE_MAX,
    ensures
        (r.0 as int, r.1 as int) == spec_apply_limit(limit as int, old as int, min as int, max as int),
        NODE_MIN <= r.0,
        r.1 <= NODE_MAX,
{
    if limit < old {
        if limit > min {
            (limit + MIN_DISTANCE as i128, max)
        } else {
            (min, max)
        }
    } else {
        if limit < max {
            (min, limit - MIN_DISTANCE as i128)
        } else {
            (min, max)
        }
    }
}

/// The coordinate kept in range lies in the range the limit nodes leave, which is
/// within the node coordinates, and checking it again changes nothing.
pub proof fn lemma_check_in_range(ctx: EditBaseContext, nodes: Seq<Node>)
    requires
        check_ok(ctx, nodes),
        ctx.edge_node matches Some(edge) && edge.axis != Axis3d::Y,
    ensures
        ({
            let edge = ctx.edge_node->Some_0;
            let (min, max) = spec_bounds(nodes, edge, edit_coord(ctx.original_position, edge.axis) as int);
            let v = edit_coord(spec_check(ctx, nodes).new_position, edge.axis) as int;
            &&& min <= v <= max
            &&& in_node_range(v)
        }),
        spec_check(spec_check(ctx, nodes), nodes) == spec_check(ctx, nodes),
{
    let edge = ctx.edge_node->Some_0;
    let old = edit_coord(ctx.original_position, edge.axis) as int;
    let (min1, max1) = spec_apply_limit(
        node_coord(nodes, edge.limit_nodes.0, edge.axis),
        old,
        NODE_MIN as int,
        NODE_MAX as int,
    );
    assert(NODE_MIN <= min1 && max1 <= NODE_MAX);
}

/// At node `i` the two edges are square: one keeps x, the other keeps z,
/// and neither has zero length.
pub open spec fn square_at(nodes: Seq<Node>, i: int) -> bool {
    let p = nodes[nodes[i].connection.prev as int].position;
    let c = nodes[i].position;
    let n = nodes[nodes[i].connection.next as int].position;
    ||| p.x == c.x && p.z != c.z && c.z == n.z && c.x != n.x
    ||| p.z == c.z && p.x != c.x && c.x == n.x && c.z != n.z
}

/// Every corner of the outline is square.
pub open spec fn square_corners(nodes: Seq<Node>) -> bool {
    forall|i: int| 0 <= i < nodes.len() ==> #[trigger] square_at(nodes, i)
}

/// The edge from node `i` to its next node runs along x or along z.
pub open spec fn on_axis_at(nodes: Seq<Node>, i: int) -> bool {
    let c = nodes[i].position;
    let n = nodes[nodes[i].connection.next as int].position;
    c.x == n.x || c.z == n.z
}

/// Every edge of the outline runs along x or along z.
pub open spec fn edges_on_axes(nodes: Seq<Node>) -> bool {
    forall|i: int| 0 <= i < nodes.len() ==> #[trigger] on_axis_at(nodes, i)
}

/// A move keeps every edge on an axis: in an outline whose corners are all
/// square, moving the picked node and the far end of one of its edges (as
/// the editor offers them) to a common coordinate along the edge's axis
/// leaves every edge running along x or along z.
pub proof fn lemma_reposition_keeps_axes(ctx: EditBaseContext, nodes: Seq<Node>, sel: usize)
    requires
        is_ring(nodes),
        nodes.len() >= 4,
        square_corners(nodes),
        sel < nodes.len(),
        ctx.selected_node == Some(sel),
        ctx.edge_node == Some(spec_node_edges(nodes, sel as int).prev) || ctx.edge_node == Some(
            spec_node_edges(nodes, sel as int).next,
        ),
    ensures
        edges_on_axes(spec_reposition(ctx, nodes)),
{
    let n = nodes.len();
    let s = sel as int;
    let edge = ctx.edge_node->0;
    let e = edge.index as int;
    let a = edge.axis;
    let v = edit_coord(ctx.new_position, a) as i32;
    let r = spec_reposition(ctx, nodes);
    let ps = nodes[s].connection.prev as int;
    let ns = nodes[s].connection.next as int;
    assert(square_at(nodes, s));
    assert(square_at(nodes, ps));
    assert(square_at(nodes, ns));
    assert(a != Axis3d::Y);
    assert(r.len() == n);
    assert forall|j: int| 0 <= j < n implies {
        &&& (#[trigger] r[j]).connection == nodes[j].connection
        &&& r[j].position == (if j == s || j == e {
            if a == Axis3d::X {
                crate::geometry::Position { x: v, ..nodes[j].position }
            } else {
                crate::geometry::Position { z: v, ..nodes[j].position }
            }
        } else {
            nodes[j].position
        })
    } by {}
    assert forall|i: int| 0 <= i < n implies #[trigger] on_axis_at(r, i) by {
        assert(square_at(nodes, i));
        let j = nodes[i].connection.next as int;
        assert(r[i].connection.next == j);
        assert(nodes[j].connection.prev == i);
        assert(square_at(nodes, j));
    }
}

/// The edges the editor offers at node `i` of a ring: the edge to the
/// previous node and the edge to the next node, moving along different
/// axes. Each edge's move is limited by the two nodes just outside it along
/// the ring: the node before its first end and the node after its last end.
/// Where the corner at `i` is square, each edge runs square to the axis it
/// moves along: its two ends share their coordinate on that axis.
pub proof fn lemma_node_edges_shape(nodes: Seq<Node>, i: int)
    requires
        is_ring(nodes),
        nodes.len() >= 4,
        0 <= i < nodes.len(),
    ensures
        ({
            let c = spec_node_edges(nodes, i);
            let n = nodes.len() as int;
            let prev = if i == 0 { n - 1 } else { i - 1 };
            let next = if i + 1 == n { 0 } else { i + 1 };
            &&& c.index == i
            &&& c.prev.index == prev
            &&& c.next.index == next
            &&& c.prev.axis != c.next.axis
            &&& c.prev.axis != Axis3d::Y && c.next.axis != Axis3d::Y
            &&& c.prev.limit_nodes.0 == (if i < 2 { i + n - 2 } else { i - 2 })
            &&& c.prev.limit_nodes.1 == next
            &&& c.next.limit_nodes.0 == prev
            &&& c.next.limit_nodes.1 == (if i + 2 >= n { i + 2 - n } else { i + 2 })
            &&& square_at(nodes, i) ==> {
                &&& node_coord(nodes, i as usize, c.prev.axis) == node_coord(nodes, c.prev.index, c.prev.axis)
                &&& node_coord(nodes, i as usize, c.next.axis) == node_coord(nodes, c.next.index, c.next.axis)
            }
        }),
{
    let prev = nodes[i].connection.prev as int;
    let next = nodes[i].connection.next as int;
    assert(nodes[prev].connection.prev == nodes[prev].connection.prev);
    assert(nodes[next].connection.next == nodes[next].connection.next);
}

/// The check keeps the entered coordinate in the node range, never past a
/// limit node, and [MIN_DISTANCE] clear of the first limit node on either
/// side of the original coordinate; a second limit node on the same side is
/// kept as clear too unless it lies within [MIN_DISTANCE] beyond the first
/// (then the first one's bound already keeps the move short of it). An
/// entered coordinate already clear of both limit nodes is kept. Nothing
/// else of the context changes.
pub proof fn lemma_check_clears_limits(ctx: EditBaseContext, nodes: Seq<Node>)
    requires
        check_ok(ctx, nodes),
        ctx.edge_node is Some,
        ctx.edge_node->0.axis != Axis3d::Y,
    ensures
        ({
            let e = ctx.edge_node->0;
            let r = spec_check(ctx, nodes);
            let old = if e.axis == Axis3d::X { ctx.original_position.x as int } else { ctx.original_position.z as int };
            let v = if e.axis == Axis3d::X { r.new_position.x as int } else { r.new_position.z as int };
            let l0 = if e.axis == Axis3d::X {
                nodes[e.limit_nodes.0 as int].position.x as int
            } else {
                nodes[e.limit_nodes.0 as int].position.z as int
            };
            let l1 = if e.axis == Axis3d::X {
                nodes[e.limit_nodes.1 as int].position.x as int
            } else {
                nodes[e.limit_nodes.1 as int].position.z as int
            };
            &&& in_node_range(v)
            &&& l0 < old ==> v >= l0
            &&& l0 >= old ==> v <= l0
            &&& l1 < old ==> v >= l1
            &&& l1 >= old ==> v <= l1
            &&& l0 < old && l0 > NODE_MIN ==> v >= l0 + MIN_DISTANCE
            &&& l0 >= old && l0 < NODE_MAX ==> v <= l0 - MIN_DISTANCE
            &&& l1 < old && l1 > NODE_MIN && !(l0 < old && l1 <= l0 + MIN_DISTANCE) ==> v >= l1
                + MIN_DISTANCE
            &&& l1 >= old && l1 < NODE_MAX && !(l0 >= old && l1 >= l0 - MIN_DISTANCE) ==> v <= l1
                - MIN_DISTANCE
            &&& r.selected_node == ctx.selected_node
            &&& r.edge_node == ctx.edge_node
            &&& r.input_mode == ctx.input_mode
            &&& r.original_position == ctx.original_position
            &&& e.axis == Axis3d::X ==> r.new_position.z == ctx.new_position.z
            &&& e.axis == Axis3d::Z ==> r.new_position.x == ctx.new_position.x
            &&& ({
                let u = if e.axis == Axis3d::X { ctx.new_position.x as int } else { ctx.new_position.z as int };
                &&& in_node_range(u)
                &&& l0 < old ==> u >= l0 + MIN_DISTANCE
                &&& l0 >= old ==> u <= l0 - MIN_DISTANCE
                &&& l1 < old ==> u >= l1 + MIN_DISTANCE
                &&& l1 >= old ==> u <= l1 - MIN_DISTANCE
            }) ==> v == (if e.axis == Axis3d::X { ctx.new_position.x as int } else { ctx.new_position.z as int })
        }),
{
}

/// A digit typed in mouse mode starts keyboard entry with it: the smallest
/// digit pressed becomes the coordinate along the edge's axis, and the
/// other coordinate and everything else picked stay.
pub proof fn lemma_typed_digit_replaces(ctx: EditBaseContext, keys: KeyPresses, d: int)
    requires
        ctx.input_mode == InputMode::Mouse,
        ctx.edge_node is Some,
        ctx.edge_node->0.axis != Axis3d::Y,
        0 <= d < 10,
        keys.digits@[d],
        forall|k: int| 0 <= k < d ==> !keys.digits@[k],
    ensures
        ({
            let r = spec_keyboard(ctx, keys);
            let axis = ctx.edge_node->0.axis;
            &&& r.input_mode == InputMode::Keyboard
            &&& axis == Axis3d::X ==> r.new_position.x == d && r.new_position.z == ctx.new_position.z
            &&& axis == Axis3d::Z ==> r.new_position.z == d && r.new_position.x == ctx.new_position.x
            &&& r.selected_node == ctx.selected_node
            &&& r.edge_node == ctx.edge_node
            &&& r.original_position == ctx.original_position
        }),
{
    assert forall|j: int| 0 <= j <= d implies spec_first_digit(keys.digits@, j) == Some(d) by {
        lemma_first_digit_from(keys.digits@, j, d);
    }
}

proof fn lemma_first_digit_from(digits: Seq<bool>, j: int, d: int)
    requires
        0 <= j <= d < 10,
        digits[d],
        forall|k: int| 0 <= k < d ==> !digits[k],
    ensures
        spec_first_digit(digits, j) == Some(d),
    decreases d - j,
{
    if j < d {
        lemma_first_digit_from(digits, j + 1, d);
    }
}

proof fn lemma_append_one_digit(v: int, digits: Seq<bool>, d: int, k: nat)
    requires
        0 <= d < 10,
        k <= 10,
        digits.len() == 10,
        digits[d],
        forall|j: int| 0 <= j < 10 && j != d ==> !digits[j],
    ensures
        spec_append_digits(v, digits, k) == (if k > d { 10 * v + d } else { v }),
    decreases k,
{
    if k > 0 {
        lemma_append_one_digit(v, digits, d, (k - 1) as nat);
        if k - 1 == d {
            assert(v * 10 + d == 10 * v + d) by (nonlinear_arith);
        }
    }
}

/// Keyboard entry, one key at a time: a digit `d` typed after the value `v`
/// gives `10 v + d` (then negated if minus is pressed too); minus alone
/// negates; backspace drops the last digit, rounding toward zero, and at
/// zero goes back to mouse input.
pub proof fn lemma_keyboard_entry(ctx: EditBaseContext, keys: KeyPresses)
    requires
        ctx.input_mode == InputMode::Keyboard,
        ctx.edge_node is Some,
        ctx.edge_node->0.axis != Axis3d::Y,
        in_node_range(edit_coord(ctx.new_position, ctx.edge_node->0.axis) as int),
    ensures
        ({
            let axis = ctx.edge_node->0.axis;
            let r = spec_keyboard(ctx, keys);
            let v = if axis == Axis3d::X { ctx.new_position.x as int } else { ctx.new_position.z as int };
            let w = if axis == Axis3d::X { r.new_position.x as int } else { r.new_position.z as int };
            let digits = keys.digits@;
            &&& keys.backspace && v == 0 ==> r.input_mode == InputMode::Mouse && w == v
            &&& keys.backspace && v > 0 ==> r.input_mode == InputMode::Keyboard && 0 <= v - 10 * w < 10
            &&& keys.backspace && v < 0 ==> r.input_mode == InputMode::Keyboard && -10 < v - 10 * w <= 0
            &&& !keys.backspace ==> r.input_mode == InputMode::Keyboard
            &&& !keys.backspace && (forall|j: int| 0 <= j < 10 ==> !#[trigger] digits[j]) ==> w == (
            if keys.minus {
                -v
            } else {
                v
            })
            &&& forall|d: int|
                #![trigger digits[d]]
                0 <= d < 10 && digits[d] && (forall|j: int| 0 <= j < 10 && j != d ==> !digits[j])
                    && !keys.backspace ==> w == (if keys.minus {
                    -(10 * v + d)
                } else {
                    10 * v + d
                })
        }),
{
    let axis = ctx.edge_node->0.axis;
    let v = if axis == Axis3d::X { ctx.new_position.x as int } else { ctx.new_position.z as int };
    let digits = keys.digits@;
    assert(digits.len() == 10);
    assert(edit_coord(ctx.new_position, axis) == v);
    if keys.backspace && v != 0 {
        let w = spec_div10(v);
        if v > 0 {
            assert(0 <= v - 10 * (v / 10) < 10) by (nonlinear_arith)
                requires
                    v > 0,
            ;
        } else {
            assert(0 <= (-v) - 10 * ((-v) / 10) < 10) by (nonlinear_arith)
                requires
                    v < 0,
            ;
        }
    }
    if !keys.backspace {
        if forall|j: int| 0 <= j < 10 ==> !#[trigger] digits[j] {
            lemma_no_digit(v, digits, 10);
        }
        assert forall|d: int|
            #![trigger digits[d]]
            0 <= d < 10 && digits[d] && (forall|j: int| 0 <= j < 10 && j != d ==> !digits[j]) implies
            spec_append_digits(v, digits, 10) == 10 * v + d by {
            lemma_append_one_digit(v, digits, d, 10);
        }
    }
}

proof fn lemma_no_digit(v: int, digits: Seq<bool>, k: nat)
    requires
        k <= 10,
        digits.len() == 10,
        forall|j: int| 0 <= j < 10 ==> !#[trigger] digits[j],
    ensures
        spec_append_digits(v, digits, k) == v,
    decreases k,
{
    if k > 0 {
        lemma_no_digit(v, digits, (k - 1) as nat);
    }
}

/// Keys only ever change the coordinate along the edge's axis and the input
/// mode: the other coordinate, the picked node, its edge and its original
/// position stay.
pub proof fn lemma_keys_keep_other_coordinate(ctx: EditBaseContext, keys: KeyPresses)
    ensures
        ({
            let r = spec_keyboard(ctx, keys);
            &&& r.selected_node == ctx.selected_node
            &&& r.edge_node == ctx.edge_node
            &&& r.original_position == ctx.original_position
            &&& (ctx.edge_node matches Some(e) && e.axis == Axis3d::X) ==> r.new_position.z
                == ctx.new_position.z
            &&& (ctx.edge_node matches Some(e) && e.axis == Axis3d::Z) ==> r.new_position.x
                == ctx.new_position.x
            &&& (ctx.edge_node is None || ctx.edge_node->0.axis == Axis3d::Y) ==> r == ctx
        }),
{
}

/// A move puts the picked node and its edge node at the entered coordinate
/// along the edge's axis, keeps their other coordinate, and leaves every
/// other node, every link and every turn as it was.
pub proof fn lemma_reposition_moves(ctx: EditBaseContext, nodes: Seq<Node>)
    requires
        ctx.selected_node is Some,
        ctx.edge_node is Some,
        ctx.selected_node->0 < nodes.len(),
        ctx.edge_node->0.index < nodes.len(),
        ctx.edge_node->0.axis != Axis3d::Y,
        in_node_range(edit_coord(ctx.new_position, ctx.edge_node->0.axis) as int),
    ensures
        ({
            let r = spec_reposition(ctx, nodes);
            let s = ctx.selected_node->0 as int;
            let e = ctx.edge_node->0.index as int;
            let axis = ctx.edge_node->0.axis;
            &&& r.len() == nodes.len()
            &&& axis == Axis3d::X ==> {
                &&& r[s].position.x == ctx.new_position.x
                &&& r[e].position.x == ctx.new_position.x
                &&& r[s].position.z == nodes[s].position.z
                &&& r[e].position.z == nodes[e].position.z
            }
            &&& axis == Axis3d::Z ==> {
                &&& r[s].position.z == ctx.new_position.z
                &&& r[e].position.z == ctx.new_position.z
                &&& r[s].position.x == nodes[s].position.x
                &&& r[e].position.x == nodes[e].position.x
            }
            &&& forall|j: int| 0 <= j < nodes.len() && j != s && j != e ==> #[trigger] r[j] == nodes[j]
            &&& forall|j: int|
                0 <= j < nodes.len() ==> (#[trigger] r[j]).connection == nodes[j].connection
                    && r[j].turn == nodes[j].turn
        }),
{
}

/// Cancelling a move puts the nodes back: when the picked node stands at
/// the original position and its edge node shares the original coordinate
/// along the edge's axis, moving both and then cancelling gives the nodes
/// as they were.
pub proof fn lemma_cancel_undoes_reposition(ctx: EditBaseContext, nodes: Seq<Node>)
    requires
        ctx.selected_node matches Some(sel) && sel < nodes.len(),
        ctx.edge_node matches Some(edge) && edge.index < nodes.len() && edge.axis != Axis3d::Y,
        in_node_range(edit_coord(ctx.new_position, ctx.edge_node->Some_0.axis) as int),
        nodes[ctx.selected_node->Some_0 as int].position.x == ctx.original_position.x,
        nodes[ctx.selected_node->Some_0 as int].position.z == ctx.original_position.z,
        node_coord(nodes, ctx.edge_node->Some_0.index, ctx.edge_node->Some_0.axis) == edit_coord(
            ctx.original_position,
            ctx.edge_node->Some_0.axis,
        ),
    ensures
        spec_restore(ctx, spec_reposition(ctx, nodes)) == nodes,
{
    let sel = ctx.selected_node->Some_0;
    let edge = ctx.edge_node->Some_0;
    let r = spec_restore(ctx, spec_reposition(ctx, nodes));
    assert forall|i: int| 0 <= i < nodes.len() implies r[i] == nodes[i] by {
        if i == sel as int || i == edge.index as int {
            assert(r[i].position == nodes[i].position);
        }
    }
    assert(r =~= nodes);
}

/// Appending no digit keeps the value.
proof fn lemma_append_none(v: int, digits: Seq<bool>, k: nat)
    requires
        k <= 10,
        forall|i: int| 0 <= i < 10 ==> !(#[trigger] digits[i]),
    ensures
        spec_append_digits(v, digits, k) == v,
    decreases k,
{
    if k > 0 {
        lemma_append_none(v, digits, (k - 1) as nat);
    }
}

/// Appending the one pressed digit `d`.
proof fn lemma_append_one(v: int, digits: Seq<bool>, d: int, k: nat)
    requires
        k <= 10,
        0 <= d < 10,
        forall|i: int| 0 <= i < 10 ==> (#[trigger] digits[i]) == (i == d),
    ensures
        spec_append_digits(v, digits, k) == (if k > d {
            v * 10 + d
        } else {
            v
        }),
    decreases k,
{
    if k > 0 {
        lemma_append_one(v, digits, d, (k - 1) as nat);
    }
}

/// The keys of a frame in which only minus is pressed.
pub open spec fn only_minus(keys: KeyPresses) -> bool {
    &&& forall|i: int| 0 <= i < 10 ==> !(#[trigger] keys.digits@[i])
    &&& !keys.backspace
    &&& keys.minus
}

/// In keyboard mode, pressing minus in two frames gives the value back.
pub proof fn lemma_minus_twice(ctx: EditBaseContext, keys: KeyPresses)
    requires
        ctx.input_mode == InputMode::Keyboard,
        only_minus(keys),
        in_node_range(ctx.new_position.x as int),
        in_node_range(ctx.new_position.z as int),
    ensures
        spec_keyboard(spec_keyboard(ctx, keys), keys) == ctx,
{
    match ctx.edge_node {
        None => {},
        Some(edge) => {
            if edge.axis != Axis3d::Y {
                let v = edit_coord(ctx.new_position, edge.axis) as int;
                lemma_append_none(v, keys.digits@, 10);
                lemma_append_none(-v, keys.digits@, 10);
            }
        },
    }
}

/// In keyboard mode, typing a digit and then pressing backspace gives a
/// non-negative value back (unless both are zero: backspace at zero switches
/// to mouse mode). A negative value does not come back: -12, then 3, gives
/// -117, and backspace gives -11.
pub proof fn lemma_digit_then_backspace(
    ctx: EditBaseContext,
    digit_keys: KeyPresses,
    d: int,
    back_keys: KeyPresses,
)
    requires
        ctx.input_mode == InputMode::Keyboard,
        ctx.edge_node matches Some(edge) && edge.axis != Axis3d::Y,
        0 <= d < 10,
        forall|i: int| 0 <= i < 10 ==> (#[trigger] digit_keys.digits@[i]) == (i == d),
        !digit_keys.backspace,
        !digit_keys.minus,
        back_keys.backspace,
        edit_coord(ctx.new_position, ctx.edge_node->Some_0.axis) >= 0,
        edit_coord(ctx.new_position, ctx.edge_node->Some_0.axis) > 0 || d > 0,
        edit_coord(ctx.new_position, ctx.edge_node->Some_0.axis) * 10 + d <= i128::MAX,
    ensures
        spec_keyboard(spec_keyboard(ctx, digit_keys), back_keys) == ctx,
{
    let edge = ctx.edge_node->Some_0;
    let v = edit_coord(ctx.new_position, edge.axis) as int;
    lemma_append_one(v, digit_keys.digits@, d, 10);
    assert(spec_div10(v * 10 + d) == v);
}

/// Whether the axis handle along `handle` is hidden while repositioning
/// along `edge`: the handle of the other horizontal axis is.
pub fn hides_axis_handle(handle: Axis3d, edge: Axis3d) -> (r: bool)
    ensures
        r == ((handle == Axis3d::Z && edge == Axis3d::X) || (handle == Axis3d::X && edge
            == Axis3d::Z)),
{
    match (handle, edge) {
        (Axis3d::Z, Axis3d::X) => true,
        (Axis3d::X, Axis3d::Z) => true,
        _ => false,
    }
}

/// The extent of a list of nodes.
#[derive(Clone, Copy, Debug, PartialEq, Eq, Structural)]
pub struct Bounds {
    pub min_x: i32,
    pub max_x: i32,
    pub min_z: i32,
    pub max_z: i32,
}

/// `b` is the extent of `nodes`: every node lies within it and each of its
/// four sides is touched by a node.
pub open spec fn is_bounds(nodes: Seq<Node>, b: Bounds) -> bool {
    &&& forall|i: int|
        0 <= i < nodes.len() ==> {
            &&& b.min_x <= (#[trigger] nodes[i]).position.x <= b.max_x
            &&& b.min_z <= nodes[i].position.z <= b.max_z
        }
    &&& exists|i: int| 0 <= i < nodes.len() && (#[trigger] nodes[i]).position.x == b.min_x
    &&& exists|i: int| 0 <= i < nodes.len() && (#[trigger] nodes[i]).position.x == b.max_x
    &&& exists|i: int| 0 <= i < nodes.len() && (#[trigger] nodes[i]).position.z == b.min_z
    &&& exists|i: int| 0 <= i < nodes.len() && (#[trigger] nodes[i]).position.z == b.max_z
}

/// The extent of the nodes, whose center the camera targets after an edit;
/// `None` for no nodes.
pub fn camera_target_bounds(nodes: &NodeList) -> (r: Option<Bounds>)
    ensures
        r is None <==> nodes@.len() == 0,
        r matches Some(b) ==> is_bounds(nodes@, b),
{
    let n = nodes.len();
    if n == 0 {
        return None;
    }
    let p0 = nodes.get(0).position;
    let mut b = Bounds { min_x: p0.x, max_x: p0.x, min_z: p0.z, max_z: p0.z };
    let mut i: usize = 1;
    proof {
        let t = nodes@.take(1);
        assert(t[0] == nodes@[0]);
    }
    while i < n
        invariant
            n == nodes@.len(),
            1 <= i <= n,
            is_bounds(nodes@.take(i as int), b),
        decreases n - i,
    {
        let p = nodes.get(i).position;
        let ghost old_b = b;
        let ghost s = nodes@.take(i as int);
        let ghost t = nodes@.take((i + 1) as int);
        if p.x < b.min_x {
            b.min_x = p.x;
        }
        if p.z < b.min_z {
            b.min_z = p.z;
        }
        if p.x > b.max_x {
            b.max_x = p.x;
        }
        if p.z > b.max_z {
            b.max_z = p.z;
        }
        proof {
            assert forall|k: int| 0 <= k < t.len() implies {
                &&& b.min_x <= (#[trigger] t[k]).position.x <= b.max_x
                &&& b.min_z <= t[k].position.z <= b.max_z
            } by {
                if k < i {
                    assert(t[k] == s[k]);
                }
            }
            if b.min_x == old_b.min_x {
                let k = choose|k: int| 0 <= k < s.len() && (#[trigger] s[k]).position.x == old_b.min_x;
                assert(t[k] == s[k]);
            } else {
                assert(t[i as int].position.x == b.min_x);
            }
            if b.max_x == old_b.max_x {
                let k = choose|k: int| 0 <= k < s.len() && (#[trigger] s[k]).position.x == old_b.max_x;
                assert(t[k] == s[k]);
            } else {
                assert(t[i as int].position.x == b.max_x);
            }
            if b.min_z == old_b.min_z {
                let k = choose|k: int| 0 <= k < s.len() && (#[trigger] s[k]).position.z == old_b.min_z;
                assert(t[k] == s[k]);
            } else {
                assert(t[i as int].position.z == b.min_z);
            }
            if b.max_z == old_b.max_z {
                let k = choose|k: int| 0 <= k < s.len() && (#[trigger] s[k]).position.z == old_b.max_z;
                assert(t[k] == s[k]);
            } else {
                assert(t[i as int].position.z == b.max_z);
            }
        }
        i = i + 1;
    }
    proof {
        assert(nodes@.take(n as int) =~= nodes@);
    }
    Some(b)
}

} // verus!
