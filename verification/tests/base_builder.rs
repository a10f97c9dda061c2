use rooft::builder::Base;
use rooft::geometry::{Position, MIN_DISTANCE};

#[test]
fn test_base_builder() {
    let x = 10000;
    let z = 1234;

    // -x,-z      x, -z
    // 0----------3
    // |          |
    // |     x    |
    // |          |
    // 1----------2
    // -x,z       x, z

    let base_ccw = Base::builder()
        .start_point(-x, -z)
        .move_z_to(z)
        .move_x_to(x)
        .move_z_to(-z);

    assert_eq!(
        base_ccw.geometry.nodes.positions(),
        vec![
            Position::new(-x, -z),
            Position::new(-x, z),
            Position::new(x, z),
            Position::new(x, -z),
        ]
    );
    assert_eq!(base_ccw.geometry.cw_list.len(), 0);
    assert_eq!(base_ccw.geometry.ccw_list.len(), 2);

    let x = MIN_DISTANCE / 2;
    let z = MIN_DISTANCE / 2;

    // -x,-z      x, -z
    // 0----------1
    // |          |
    // |     x    |
    // |          |
    // 3----------2
    // -x,z       x, z

    // Since the move distance is less than MIN_DISTANCE it should correct
    // the new node to have at least the minimum distance
    let mut base_cw = Base::builder()
        .start_point(-x, -z)
        .move_x_to(0)
        .move_z_with(z)
        .move_x_with(-x);

    base_cw.geometry.calc_node_turn(0);
    base_cw.geometry.calc_node_turn(3);

    assert_eq!(
        base_cw.geometry.nodes.positions(),
        vec![
            Position::new(-x, -z),
            Position::new(x, -z),
            Position::new(x, z),
            Position::new(-x, z),
        ]
    );
    assert_eq!(base_cw.geometry.cw_list.len(), 4);
    assert_eq!(base_cw.geometry.ccw_list.len(), 0);
}
