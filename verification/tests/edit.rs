use rooft::edit::{
    camera_target_bounds, hides_axis_handle, node_edge_connections, Axis3d, Bounds, EditBaseContext,
    EditBaseState, EditPosition, InputMode, KeyPresses, LimitNodes,
};
use rooft::shape::BaseShape;

fn keys_digit(d: usize) -> KeyPresses {
    let mut digits = [false; 10];
    digits[d] = true;
    KeyPresses { digits, backspace: false, minus: false }
}

fn keys_backspace() -> KeyPresses {
    KeyPresses { digits: [false; 10], backspace: true, minus: false }
}

fn keys_minus() -> KeyPresses {
    KeyPresses { digits: [false; 10], backspace: false, minus: true }
}

#[test]
fn edges_of_rectangle_nodes() {
    let (base, _) = BaseShape::Rectangle.create().unwrap();
    let edges = node_edge_connections(base.nodes());
    assert_eq!(edges.len(), 4);
    // node 0 at (-7500, -5000): its previous node 3 is at (-7500, 5000)
    let e0 = edges[0];
    assert_eq!(e0.index, 0);
    assert_eq!(e0.prev.index, 3);
    assert_eq!(e0.prev.axis, Axis3d::X);
    assert_eq!(e0.prev.limit_nodes, LimitNodes(2, 1));
    assert_eq!(e0.next.index, 1);
    assert_eq!(e0.next.axis, Axis3d::Z);
    assert_eq!(e0.next.limit_nodes, LimitNodes(3, 2));
    // node 1 at (7500, -5000) shares z with node 0: the axes swap
    let e1 = edges[1];
    assert_eq!(e1.prev.index, 0);
    assert_eq!(e1.prev.axis, Axis3d::Z);
    assert_eq!(e1.next.axis, Axis3d::X);
}

fn picked_context() -> (EditBaseContext, rooft::builder::Base) {
    let (base, _) = BaseShape::Rectangle.create().unwrap();
    let edges = node_edge_connections(base.nodes());
    let mut ctx = EditBaseContext::default();
    assert_eq!(ctx.transition_picking_node(), None);
    ctx.pick_node(0, EditPosition { x: -7500, z: -5000 });
    assert_eq!(ctx.node_index(), Some(0));
    assert_eq!(ctx.transition_picking_node(), Some(EditBaseState::PickingAxis));
    ctx.enter_picking_axis();
    assert_eq!(ctx.transition_picking_axis(false), None);
    ctx.pick_axis(&edges[0], Axis3d::X);
    assert_eq!(ctx.axis(), Some(Axis3d::X));
    assert_eq!(ctx.transition_picking_axis(false), Some(EditBaseState::Reposition));
    (ctx, base)
}

#[test]
fn picking_and_cancelling_axis() {
    let (ctx, _) = picked_context();
    assert_eq!(ctx.transition_picking_axis(true), Some(EditBaseState::PickingNode));
}

#[test]
fn reposition_with_mouse_is_clamped() {
    let (mut ctx, mut base) = picked_context();
    ctx.reposition_with_mouse(2000);
    ctx.reposition_check(base.nodes());
    assert_eq!(ctx.new_pos().x, 2000);
    // nodes 1 and 2 at x = 7500 limit the move to 7500 - 300
    ctx.reposition_with_mouse(9000);
    ctx.reposition_check(base.nodes());
    assert_eq!(ctx.new_pos().x, 7200);
    ctx.reposition_node(&mut base.nodes);
    assert_eq!(base.node(0).x(), 7200);
    assert_eq!(base.node(3).x(), 7200);
    assert_eq!(base.node(3).z(), 5000);
    // cancel puts both nodes back
    let next = ctx.transition_reposition(&mut base.nodes, true, false);
    assert_eq!(next, Some(EditBaseState::PickingAxis));
    assert_eq!(base.node(0).x(), -7500);
    assert_eq!(base.node(0).z(), -5000);
    assert_eq!(base.node(3).x(), -7500);
    assert_eq!(base.node(3).z(), 5000);
}

#[test]
fn save_makes_new_position_original() {
    let (mut ctx, mut base) = picked_context();
    ctx.reposition_with_mouse(-1000);
    ctx.reposition_check(base.nodes());
    ctx.reposition_node(&mut base.nodes);
    assert_eq!(ctx.transition_reposition(&mut base.nodes, false, false), None);
    assert_eq!(ctx.transition_reposition(&mut base.nodes, false, true), Some(EditBaseState::PickingAxis));
    assert_eq!(ctx.original_pos().x, -1000);
    // the untouched axis of the entered position was never set
    assert_eq!(ctx.original_pos().z, 0);
    assert_eq!(base.node(0).x(), -1000);
    let mesh = base.update().expect("the edited outline triangulates");
    assert_eq!(mesh.indices.len(), 36);
}

#[test]
fn keyboard_entry() {
    let (mut ctx, base) = picked_context();
    ctx.reposition_with_keyboard(&keys_digit(5));
    assert_eq!(*ctx.input_mode(), InputMode::Keyboard);
    assert_eq!(ctx.new_pos().x, 5);
    // the mouse no longer moves the node
    ctx.reposition_with_mouse(3000);
    assert_eq!(ctx.new_pos().x, 5);
    ctx.reposition_with_keyboard(&keys_digit(1));
    assert_eq!(ctx.new_pos().x, 51);
    ctx.reposition_with_keyboard(&keys_minus());
    assert_eq!(ctx.new_pos().x, -51);
    ctx.reposition_with_keyboard(&keys_backspace());
    assert_eq!(ctx.new_pos().x, -5);
    ctx.reposition_with_keyboard(&keys_backspace());
    assert_eq!(ctx.new_pos().x, 0);
    assert_eq!(*ctx.input_mode(), InputMode::Keyboard);
    ctx.reposition_with_keyboard(&keys_backspace());
    assert_eq!(*ctx.input_mode(), InputMode::Mouse);
    ctx.reposition_check(base.nodes());
    assert_eq!(ctx.new_pos().x, 0);
}

#[test]
fn several_digits_in_one_frame_append_in_digit_order() {
    let (mut ctx, _) = picked_context();
    ctx.reposition_with_keyboard(&keys_digit(7));
    let mut digits = [false; 10];
    digits[2] = true;
    digits[9] = true;
    ctx.reposition_with_keyboard(&KeyPresses { digits, backspace: false, minus: false });
    assert_eq!(ctx.new_pos().x, 729);
}

#[test]
fn minus_twice_gives_value_back() {
    let (mut ctx, _) = picked_context();
    ctx.reposition_with_keyboard(&keys_digit(4));
    ctx.reposition_with_keyboard(&keys_digit(2));
    let before = *ctx.new_pos();
    ctx.reposition_with_keyboard(&keys_minus());
    ctx.reposition_with_keyboard(&keys_minus());
    assert_eq!(*ctx.new_pos(), before);
}

#[test]
fn digit_then_backspace_gives_value_back() {
    let (mut ctx, _) = picked_context();
    ctx.reposition_with_keyboard(&keys_digit(1));
    ctx.reposition_with_keyboard(&keys_digit(2));
    assert_eq!(ctx.new_pos().x, 12);
    ctx.reposition_with_keyboard(&keys_digit(3));
    ctx.reposition_with_keyboard(&keys_backspace());
    assert_eq!(ctx.new_pos().x, 12);
    // not for a negative value
    ctx.reposition_with_keyboard(&keys_minus());
    ctx.reposition_with_keyboard(&keys_digit(3));
    assert_eq!(ctx.new_pos().x, -117);
    ctx.reposition_with_keyboard(&keys_backspace());
    assert_eq!(ctx.new_pos().x, -11);
}

#[test]
fn check_is_idempotent() {
    let (mut ctx, base) = picked_context();
    ctx.reposition_with_mouse(123456);
    ctx.reposition_check(base.nodes());
    let once = *ctx.new_pos();
    ctx.reposition_check(base.nodes());
    assert_eq!(*ctx.new_pos(), once);
    assert_eq!(once.x, 7200);
}

#[test]
fn entering_picking_node_forgets_everything() {
    let (mut ctx, _) = picked_context();
    assert_eq!(ctx.enter_picking_node(), Some(0));
    assert_eq!(ctx.node_index(), None);
    assert_eq!(ctx.axis(), None);
    assert_eq!(*ctx.input_mode(), InputMode::Mouse);
    assert_eq!(EditBaseState::default(), EditBaseState::PickingNode);
}

#[test]
fn axis_handles_hidden_while_repositioning() {
    assert!(hides_axis_handle(Axis3d::Z, Axis3d::X));
    assert!(hides_axis_handle(Axis3d::X, Axis3d::Z));
    assert!(!hides_axis_handle(Axis3d::X, Axis3d::X));
    assert!(!hides_axis_handle(Axis3d::Z, Axis3d::Z));
}

#[test]
fn camera_target_of_shapes() {
    let (base, _) = BaseShape::L.create().unwrap();
    assert_eq!(
        camera_target_bounds(base.nodes()),
        Some(Bounds { min_x: -7500, max_x: 7500, min_z: -5000, max_z: 5000 })
    );
    let empty = rooft::nodes::NodeList::with_capacity(0);
    assert_eq!(camera_target_bounds(&empty), None);
}

fn edges_on_axes(base: &rooft::builder::Base) -> bool {
    let p = base.nodes().positions();
    (0..p.len()).all(|i| {
        let q = p[(i + 1) % p.len()];
        p[i].x == q.x || p[i].z == q.z
    })
}

#[test]
fn moves_keep_edges_on_axes() {
    let (base, _) = BaseShape::N.create().unwrap();
    let edges = node_edge_connections(base.nodes());
    for sel in 0..edges.len() {
        for (edge, axis) in [(edges[sel].prev, edges[sel].prev.axis), (edges[sel].next, edges[sel].next.axis)] {
            let (mut moved, _) = BaseShape::N.create().unwrap();
            let mut ctx = EditBaseContext::default();
            let p = base.node(sel).position;
            ctx.pick_node(sel, EditPosition { x: p.x as i128, z: p.z as i128 });
            ctx.pick_axis(&edges[sel], axis);
            assert_eq!(ctx.axis(), Some(edge.axis));
            ctx.reposition_with_mouse(123);
            ctx.reposition_node(&mut moved.nodes);
            assert!(edges_on_axes(&moved), "node {} along {:?}", sel, axis);
        }
    }
}

#[test]
fn typing_replaces_an_out_of_range_mouse_coordinate() {
    let (mut ctx, _) = picked_context();
    ctx.reposition_with_mouse(i128::MAX);
    ctx.reposition_with_keyboard(&keys_digit(4));
    assert_eq!(*ctx.input_mode(), InputMode::Keyboard);
    assert_eq!(ctx.new_pos().x, 4);
}
