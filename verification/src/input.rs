//! Input events: mouse buttons, and which kind of event an engine input event becomes.

use vstd::prelude::*;

verus! {

/// Plugin that turns Godot input events into ECS events.
#[derive(Debug, Clone, Copy, Default)]
pub struct GodotInputEventPlugin;

/// Mouse button types.
#[derive(Debug, Clone, Copy, PartialEq, Eq, Hash)]
pub enum MouseButton {
    Left,
    Right,
    Middle,
    WheelUp,
    WheelDown,
    WheelLeft,
    WheelRight,
    Extra1,
    Extra2,
}

/// The button for the engine's mouse button number: 1 to 9 are left, right, middle, wheel up,
/// wheel down, wheel left, wheel right, extra 1 and extra 2; any other number falls back to left.
pub open spec fn mouse_button_spec(index: i32) -> MouseButton {
    if index == 2 {
        MouseButton::Right
    } else if index == 3 {
        MouseButton::Middle
    } else if index == 4 {
        MouseButton::WheelUp
    } else if index == 5 {
        MouseButton::WheelDown
    } else if index == 6 {
        MouseButton::WheelLeft
    } else if index == 7 {
        MouseButton::WheelRight
    } else if index == 8 {
        MouseButton::Extra1
    } else if index == 9 {
        MouseButton::Extra2
    } else {
        MouseButton::Left
    }
}

impl MouseButton {
    /// The button for the engine's mouse button number (see [`mouse_button_spec`]).
    pub fn from_button_index(index: i32) -> (b: MouseButton)
        ensures
            b == mouse_button_spec(index),
    {
        match index {
            1 => MouseButton::Left,
            2 => MouseButton::Right,
            3 => MouseButton::Middle,
            4 => MouseButton::WheelUp,
            5 => MouseButton::WheelDown,
            6 => MouseButton::WheelLeft,
            7 => MouseButton::WheelRight,
            8 => MouseButton::Extra1,
            9 => MouseButton::Extra2,
            _ => MouseButton::Left,
        }
    }
}

/// Whether an input event reached the input or the unhandled input callback.
#[derive(Debug, Clone, Copy, PartialEq, Eq)]
pub enum InputEventType {
    Normal,
    Unhandled,
}

/// The event an engine input event becomes, besides the action events that any input event
/// may produce.
#[derive(Debug, Clone, Copy, PartialEq, Eq)]
pub enum InputEventKind {
    Keyboard,
    MouseButton,
    MouseMotion,
    Touch,
    Other,
}

/// An input event that is several of these at once counts as the first of key, mouse button,
/// mouse motion and screen touch.
pub open spec fn input_event_kind(
    is_key: bool,
    is_mouse_button: bool,
    is_mouse_motion: bool,
    is_touch: bool,
) -> InputEventKind {
    if is_key {
        InputEventKind::Keyboard
    } else if is_mouse_button {
        InputEventKind::MouseButton
    } else if is_mouse_motion {
        InputEventKind::MouseMotion
    } else if is_touch {
        InputEventKind::Touch
    } else {
        InputEventKind::Other
    }
}

/// The kind of event to produce from what an input event is (see [`input_event_kind`]).
pub fn classify_input_event(
    is_key: bool,
    is_mouse_button: bool,
    is_mouse_motion: bool,
    is_touch: bool,
) -> (k: InputEventKind)
    ensures
        k == input_event_kind(is_key, is_mouse_button, is_mouse_motion, is_touch),
{
    if is_key {
        InputEventKind::Keyboard
    } else if is_mouse_button {
        InputEventKind::MouseButton
    } else if is_mouse_motion {
        InputEventKind::MouseMotion
    } else if is_touch {
        InputEventKind::Touch
    } else {
        InputEventKind::Other
    }
}

} // verus!
