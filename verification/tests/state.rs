use rooft::actions::{action_list, initial_que, ActionQue, ActionState, Actions};
use rooft::camera::{CameraLock, CameraView};
use rooft::geometry::{min_distance, turn_cross, Position, MIN_DISTANCE};
use rooft::nodes::Turn;
use rooft::ui::{Dropdown, PanelEvent, ToggleLeftPanelButton, Unit};

#[test]
fn action_queue_is_first_in_first_out() {
    let mut que = initial_que();
    assert_eq!(que.current(), ActionState::SpawnBase);
    que.add(ActionState::EditBase);
    assert_eq!(que.current(), ActionState::SpawnBase);
    que.next();
    assert_eq!(que.current(), ActionState::EditBase);
    que.next();
    assert_eq!(que.current(), ActionState::Idle);
    que.next();
    assert_eq!(que.current(), ActionState::Idle);
    let empty = ActionQue::new();
    assert_eq!(empty.current(), ActionState::default());
}

#[test]
fn action_labels() {
    assert_eq!(action_list(), vec![Actions::AddBase, Actions::ResizeBaze]);
    assert_eq!(Actions::AddBase.to_string(), "Add Base");
    assert_eq!(Actions::ResizeBaze.to_string(), "Resize Base");
}

#[test]
fn camera_views() {
    assert_eq!(CameraView::default(), CameraView::Free);
    assert_eq!(CameraLock::default(), CameraLock::Unlocked);
    let names: Vec<String> = CameraView::list().iter().map(|v| v.to_string()).collect();
    assert_eq!(names, vec!["Free", "Top", "Left", "Right", "Front", "Back"]);
    assert_eq!(CameraView::LEN, 6);
    assert_eq!(
        CameraView::Top.others(),
        vec![CameraView::Free, CameraView::Left, CameraView::Right, CameraView::Front, CameraView::Back]
    );
    assert!(!CameraView::Free.is_orthographic());
    assert!(CameraView::Back.is_orthographic());
}

#[test]
fn unit_names() {
    assert_eq!(Unit::default().name(), "");
    assert_eq!(Unit::Millimeter.name(), "mm");
    assert_eq!(Unit::Meter.name(), "m");
}

#[test]
fn left_panel_toggle() {
    let mut b = ToggleLeftPanelButton::default();
    assert_eq!(b.press(), PanelEvent::HideLeftPanel);
    assert_eq!(b, ToggleLeftPanelButton::Hidden);
    assert_eq!(b.press(), PanelEvent::ShowLeftPanel);
    assert_eq!(b, ToggleLeftPanelButton::Visible);
}

#[test]
fn dropdown_toggle() {
    let d = Dropdown::default();
    assert_eq!(d.toggled(), Dropdown::Expanded);
    assert_eq!(d.toggled().toggled(), d);
}

#[test]
fn min_distance_values() {
    assert_eq!(min_distance(0), 300);
    assert_eq!(min_distance(150), 300);
    assert_eq!(min_distance(-1), -300);
    assert_eq!(min_distance(-299), -300);
    assert_eq!(min_distance(300), 300);
    assert_eq!(min_distance(-12345), -12345);
    assert_eq!(min_distance(min_distance(5)), min_distance(5));
    assert_eq!(MIN_DISTANCE, 300);
}

#[test]
fn position_arithmetic() {
    let a = Position::new(3, -4);
    let b = Position::new(10, 20);
    assert_eq!(a.add(b), Position::new(13, 16));
    assert_eq!(a.mul(b), Position::new(30, -80));
    let d = b.sub(a);
    assert_eq!((d.x, d.z), (7, 24));
    assert_eq!(d.cross(a.sub(b)), 0);
    // (1,0) then (0,1) turns clockwise seen from above with z down
    assert_eq!(turn_cross(Position::new(0, 0), Position::new(1, 0), Position::new(1, 1)), 1);
    assert_eq!(turn_cross(Position::new(0, 0), Position::new(1, 0), Position::new(2, 0)), 0);
}

#[test]
fn turn_negation() {
    assert_eq!(Turn::Clockwise.not(), Turn::CounterClockwise);
    assert_eq!(Turn::CounterClockwise.not(), Turn::Clockwise);
    assert_eq!(Turn::Undefined.not(), Turn::Undefined);
    assert_eq!(Turn::Clockwise.not().not(), Turn::Clockwise);
}
