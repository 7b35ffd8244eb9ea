//! Pointer events: what the window reports, and what the plot acts on.

use vstd::prelude::*;

verus! {

/// A button of the pointer device.
#[derive(Clone, Copy, Debug, PartialEq, Eq, Structural)]
pub enum MouseButton {
    Left,
    Right,
    Middle,
    Back,
    Forward,
    Other(u16),
}

/// What the pointer did, as the plot sees it.
#[derive(Clone, Copy, Debug, PartialEq, Eq, Structural)]
pub enum MouseEvent {
    ButtonPressed(MouseButton),
    ButtonReleased(MouseButton),
    CursorMoved,
    /// The cursor moved while this button was held.
    CursorDragged(MouseButton),
    CursorEntered,
    CursorExited,
    WheelScrolled,
}

/// A window event, reduced to what concerns the pointer.
#[derive(Clone, Copy, Debug, PartialEq, Eq, Structural)]
pub enum WindowEvent {
    MouseInput { pressed: bool, button: MouseButton },
    MouseWheel,
    CursorEntered,
    CursorLeft,
    CursorMoved,
    /// Any event that is not the pointer's.
    Other,
}

/// A key that the plot has a command for.
#[derive(Clone, Copy, Debug, PartialEq, Eq, Structural)]
pub enum Key {
    Space,
    KeyZ,
    KeyC,
    /// Any other key.
    Other,
}

/// What a mouse tracker knows, as a mathematical value.
pub struct MouseTrackerView {
    /// The buttons that are held down.
    pub down: Set<MouseButton>,
    pub cursor_in_window: bool,
}

impl MouseTrackerView {
    /// What a cursor movement means: a drag with the left button if it is
    /// held, else with the right button if that is held, else a plain move.
    pub open spec fn moved(self) -> MouseEvent {
        if self.down.contains(MouseButton::Left) {
            MouseEvent::CursorDragged(MouseButton::Left)
        } else if self.down.contains(MouseButton::Right) {
            MouseEvent::CursorDragged(MouseButton::Right)
        } else {
            MouseEvent::CursorMoved
        }
    }

    /// The tracker after `event`.
    pub open spec fn after(self, event: WindowEvent) -> MouseTrackerView {
        match event {
            WindowEvent::MouseInput { pressed, button } => MouseTrackerView {
                down: if pressed {
                    self.down.insert(button)
                } else {
                    self.down.remove(button)
                },
                ..self
            },
            WindowEvent::CursorEntered => MouseTrackerView { cursor_in_window: true, ..self },
            WindowEvent::CursorLeft => MouseTrackerView { cursor_in_window: false, ..self },
            _ => self,
        }
    }

    /// What `event` means for the plot, if anything.
    pub open spec fn translate(self, event: WindowEvent) -> Option<MouseEvent> {
        match event {
            WindowEvent::MouseInput { pressed, button } => Some(
                if pressed {
                    MouseEvent::ButtonPressed(button)
                } else {
                    MouseEvent::ButtonReleased(button)
                },
            ),
            WindowEvent::MouseWheel => Some(MouseEvent::WheelScrolled),
            WindowEvent::CursorEntered => Some(MouseEvent::CursorEntered),
            WindowEvent::CursorLeft => Some(MouseEvent::CursorExited),
            WindowEvent::CursorMoved => Some(self.moved()),
            WindowEvent::Other => None,
        }
    }
}

/// Follows the pointer's buttons and whether the cursor is in the window,
/// and turns window events into mouse events.
pub struct MouseTracker {
    mouse_down: Vec<MouseButton>,
    cursor_in_window: bool,
}

impl View for MouseTracker {
    type V = MouseTrackerView;

    closed spec fn view(&self) -> MouseTrackerView {
        MouseTrackerView {
            down: self.mouse_down@.to_set(),
            cursor_in_window: self.cursor_in_window,
        }
    }
}

impl MouseTracker {
    /// No held button is listed twice.
    pub closed spec fn wf(&self) -> bool {
        self.mouse_down@.no_duplicates()
    }

    /// A tracker with no button held and the cursor in the window.
    pub fn new() -> (t: MouseTracker)
        ensures
            t.wf(),
            t@ == (MouseTrackerView { down: Set::empty(), cursor_in_window: true }),
    {
        let t = MouseTracker { mouse_down: Vec::new(), cursor_in_window: true };
        assert(t@.down =~= Set::empty());
        t
    }

    /// Where `button` stands in the list of held buttons.
    fn position(&self, button: MouseButton) -> (r: Option<usize>)
        ensures
            match r {
                Some(i) => i < self.mouse_down@.len() && self.mouse_down@[i as int] == button,
                None => !self.mouse_down@.contains(button),
            },
    {
        let mut i: usize = 0;
        while i < self.mouse_down.len()
            invariant
                i <= self.mouse_down@.len(),
                forall|j: int| 0 <= j < i ==> self.mouse_down@[j] != button,
            decreases self.mouse_down@.len() - i,
        {
            if self.mouse_down[i] == button {
                return Some(i);
            }
            i += 1;
        }
        None
    }

    /// Whether `button` is held down.
    pub fn is_button_down(&self, button: MouseButton) -> (b: bool)
        ensures
            b == self@.down.contains(button),
    {
        self.position(button).is_some()
    }

    /// Whether the cursor is in the window.
    pub fn is_cursor_in_window(&self) -> (b: bool)
        ensures
            b == self@.cursor_in_window,
    {
        self.cursor_in_window
    }

    /// Takes one window event, updates what is held, and says what the
    /// event means for the plot.
    pub fn translate_event(&mut self, event: &WindowEvent) -> (r: Option<MouseEvent>)
        requires
            old(self).wf(),
        ensures
            final(self).wf(),
            final(self)@ == old(self)@.after(*event),
            r == old(self)@.translate(*event),
    {
        match *event {
            WindowEvent::MouseInput { pressed, button } => {
                let at = self.position(button);
                if pressed {
                    if at.is_none() {
                        self.mouse_down.push(button);
                        proof {
                            let before = old(self).mouse_down@;
                            assert(self.mouse_down@ == before.push(button));
                            assert(self.mouse_down@[before.len() as int] == button);
                            assert forall|b: MouseButton| self.mouse_down@.contains(b) <==> (
                            before.contains(b) || b == button) by {
                                if before.contains(b) {
                                    let j = choose|j: int| 0 <= j < before.len() && before[j] == b;
                                    assert(self.mouse_down@[j] == b);
                                }
                            }
                        }
                    }
                    assert(self@.down =~= old(self)@.down.insert(button));
                    Some(MouseEvent::ButtonPressed(button))
                } else {
                    match at {
                        Some(i) => {
                            self.mouse_down.remove(i);
                            proof {
                                let before = old(self).mouse_down@;
                                let after = self.mouse_down@;
                                assert(after == before.remove(i as int));
                                assert forall|b: MouseButton| after.contains(b) <==> (
                                before.contains(b) && b != button) by {
                                    if after.contains(b) {
                                        let j = choose|j: int| 0 <= j < after.len() && after[j] == b;
                                        if j < i {
                                            assert(before[j] == b);
                                        } else {
                                            assert(before[j + 1] == b);
                                        }
                                    }
                                    if before.contains(b) && b != button {
                                        let j = choose|j: int| 0 <= j < before.len() && before[j] == b;
                                        if j < i {
                                            assert(after[j] == b);
                                        } else {
                                            assert(after[j - 1] == b);
                                        }
                                    }
                                }
                            }
                        },
                        None => {},
                    }
                    assert(self@.down =~= old(self)@.down.remove(button));
                    Some(MouseEvent::ButtonReleased(button))
                }
            },
            WindowEvent::MouseWheel => Some(MouseEvent::WheelScrolled),
            WindowEvent::CursorEntered => {
                self.cursor_in_window = true;
                Some(MouseEvent::CursorEntered)
            },
            WindowEvent::CursorLeft => {
                self.cursor_in_window = false;
                Some(MouseEvent::CursorExited)
            },
            WindowEvent::CursorMoved => {
                if self.is_button_down(MouseButton::Left) {
                    Some(MouseEvent::CursorDragged(MouseButton::Left))
                } else if self.is_button_down(MouseButton::Right) {
                    Some(MouseEvent::CursorDragged(MouseButton::Right))
                } else {
                    Some(MouseEvent::CursorMoved)
                }
            },
            WindowEvent::Other => None,
        }
    }
}

} // verus!
