use graphite_plot::mouse::{MouseButton, MouseEvent, MouseTracker, WindowEvent};

fn press(button: MouseButton) -> WindowEvent {
    WindowEvent::MouseInput { pressed: true, button }
}

fn lift(button: MouseButton) -> WindowEvent {
    WindowEvent::MouseInput { pressed: false, button }
}

#[test]
fn new_tracker_holds_nothing() {
    let t = MouseTracker::new();
    assert!(t.is_cursor_in_window());
    for b in [MouseButton::Left, MouseButton::Right, MouseButton::Middle, MouseButton::Other(3)] {
        assert!(!t.is_button_down(b));
    }
}

#[test]
fn buttons_are_tracked_one_by_one() {
    let mut t = MouseTracker::new();
    assert_eq!(t.translate_event(&press(MouseButton::Left)), Some(MouseEvent::ButtonPressed(MouseButton::Left)));
    assert_eq!(t.translate_event(&press(MouseButton::Other(4))), Some(MouseEvent::ButtonPressed(MouseButton::Other(4))));
    assert!(t.is_button_down(MouseButton::Left));
    assert!(t.is_button_down(MouseButton::Other(4)));
    assert!(!t.is_button_down(MouseButton::Other(5)));
    assert!(!t.is_button_down(MouseButton::Right));
    assert_eq!(t.translate_event(&lift(MouseButton::Left)), Some(MouseEvent::ButtonReleased(MouseButton::Left)));
    assert!(!t.is_button_down(MouseButton::Left));
    assert!(t.is_button_down(MouseButton::Other(4)));
}

#[test]
fn pressing_twice_holds_once() {
    let mut t = MouseTracker::new();
    t.translate_event(&press(MouseButton::Right));
    t.translate_event(&press(MouseButton::Right));
    assert!(t.is_button_down(MouseButton::Right));
    assert_eq!(t.translate_event(&lift(MouseButton::Right)), Some(MouseEvent::ButtonReleased(MouseButton::Right)));
    assert!(!t.is_button_down(MouseButton::Right));
}

#[test]
fn releasing_a_button_that_is_not_held_is_still_reported() {
    let mut t = MouseTracker::new();
    assert_eq!(t.translate_event(&lift(MouseButton::Middle)), Some(MouseEvent::ButtonReleased(MouseButton::Middle)));
    assert!(!t.is_button_down(MouseButton::Middle));
}

#[test]
fn movement_is_a_drag_while_a_button_is_held() {
    let mut t = MouseTracker::new();
    assert_eq!(t.translate_event(&WindowEvent::CursorMoved), Some(MouseEvent::CursorMoved));
    t.translate_event(&press(MouseButton::Right));
    assert_eq!(t.translate_event(&WindowEvent::CursorMoved), Some(MouseEvent::CursorDragged(MouseButton::Right)));
    t.translate_event(&press(MouseButton::Left));
    assert_eq!(t.translate_event(&WindowEvent::CursorMoved), Some(MouseEvent::CursorDragged(MouseButton::Left)));
    t.translate_event(&lift(MouseButton::Left));
    assert_eq!(t.translate_event(&WindowEvent::CursorMoved), Some(MouseEvent::CursorDragged(MouseButton::Right)));
    t.translate_event(&lift(MouseButton::Right));
    t.translate_event(&press(MouseButton::Middle));
    assert_eq!(t.translate_event(&WindowEvent::CursorMoved), Some(MouseEvent::CursorMoved));
}

#[test]
fn the_cursor_enters_and_leaves() {
    let mut t = MouseTracker::new();
    assert_eq!(t.translate_event(&WindowEvent::CursorLeft), Some(MouseEvent::CursorExited));
    assert!(!t.is_cursor_in_window());
    assert_eq!(t.translate_event(&WindowEvent::CursorEntered), Some(MouseEvent::CursorEntered));
    assert!(t.is_cursor_in_window());
}

#[test]
fn the_wheel_and_other_events() {
    let mut t = MouseTracker::new();
    t.translate_event(&press(MouseButton::Left));
    assert_eq!(t.translate_event(&WindowEvent::MouseWheel), Some(MouseEvent::WheelScrolled));
    assert_eq!(t.translate_event(&WindowEvent::Other), None);
    assert!(t.is_button_down(MouseButton::Left));
    assert!(t.is_cursor_in_window());
}
