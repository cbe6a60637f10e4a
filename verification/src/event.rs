//! Engine-neutral key events, and the normalization of native driver
//! events into them. The native side is carried as plain values: a
//! recognized-or-other key code and raw modifier bits.

use vstd::prelude::*;

verus! {

/// An engine key code: the recognized keys, a printable character, or a
/// code the engine does not interpret.
#[derive(Clone, Copy, PartialEq, Eq, Structural, Debug)]
pub enum KeyCode {
    Left,
    Right,
    Up,
    Down,
    Char(char),
    NotImplemented,
}

/// The modifier held during a key event; exactly one is reported.
#[derive(Clone, Copy, PartialEq, Eq, Structural, Debug)]
pub enum KeyModifiers {
    CONTROL,
    SHIFT,
    NONE,
}

/// One normalized key event: a code with its modifier.
#[derive(Clone, Copy, PartialEq, Eq, Structural, Debug)]
pub struct KeyEvent {
    pub code: KeyCode,
    pub modifiers: KeyModifiers,
}

impl KeyEvent {
    /// A key event without modifiers.
    pub fn new(code: KeyCode) -> (e: KeyEvent)
        ensures
            e.code == code,
            e.modifiers == KeyModifiers::NONE,
    {
        KeyEvent { code, modifiers: KeyModifiers::NONE }
    }

    /// A key event with an explicit modifier.
    pub fn new_with_modifiers(code: KeyCode, modifiers: KeyModifiers) -> (e: KeyEvent)
        ensures
            e.code == code,
            e.modifiers == modifiers,
    {
        KeyEvent { code, modifiers }
    }
}

/// An engine event; key events are the only kind the engine interprets.
#[derive(Clone, Copy, PartialEq, Eq, Structural, Debug)]
pub enum Event {
    Key(KeyEvent),
}

/// A key code as a backend can offer it to the engine.
pub trait EngineKeyCode {
    fn to_key(&self) -> KeyCode;
}

/// A native key code as the normalizer reads it: one of the recognized
/// driver codes, or anything else.
#[derive(Clone, Copy, PartialEq, Eq, Structural, Debug)]
pub enum NativeKeyCode {
    Up,
    Down,
    Left,
    Right,
    Char(char),
    Other,
}

/// A native input event: a key code with its raw modifier bits, or any
/// other kind of driver event.
#[derive(Clone, Copy, PartialEq, Eq, Structural, Debug)]
pub enum NativeEvent {
    Key(NativeKeyCode, u8),
    Other,
}

/// The driver's modifier bit for shift.
pub const SHIFT_BITS: u8 = 1;

/// The driver's modifier bit for control.
pub const CONTROL_BITS: u8 = 2;

/// What a native key code normalizes to: the recognized codes map
/// across, characters keep their payload, everything else degrades to
/// `NotImplemented` rather than failing.
pub open spec fn normalized_code(n: NativeKeyCode) -> KeyCode {
    match n {
        NativeKeyCode::Up => KeyCode::Up,
        NativeKeyCode::Down => KeyCode::Down,
        NativeKeyCode::Left => KeyCode::Left,
        NativeKeyCode::Right => KeyCode::Right,
        NativeKeyCode::Char(c) => KeyCode::Char(c),
        NativeKeyCode::Other => KeyCode::NotImplemented,
    }
}

/// What raw modifier bits normalize to: exactly the shift bit alone, or
/// the control bit alone; any other combination reads as no modifier.
pub open spec fn normalized_modifiers(bits: u8) -> KeyModifiers {
    if bits == SHIFT_BITS {
        KeyModifiers::SHIFT
    } else if bits == CONTROL_BITS {
        KeyModifiers::CONTROL
    } else {
        KeyModifiers::NONE
    }
}

/// Normalizes a native key code.
pub fn key_code_from_native(n: NativeKeyCode) -> (k: KeyCode)
    ensures
        k == normalized_code(n),
{
    match n {
        NativeKeyCode::Up => KeyCode::Up,
        NativeKeyCode::Down => KeyCode::Down,
        NativeKeyCode::Left => KeyCode::Left,
        NativeKeyCode::Right => KeyCode::Right,
        NativeKeyCode::Char(c) => KeyCode::Char(c),
        NativeKeyCode::Other => KeyCode::NotImplemented,
    }
}

/// Normalizes raw modifier bits.
pub fn modifiers_from_bits(bits: u8) -> (m: KeyModifiers)
    ensures
        m == normalized_modifiers(bits),
{
    if bits == SHIFT_BITS {
        KeyModifiers::SHIFT
    } else if bits == CONTROL_BITS {
        KeyModifiers::CONTROL
    } else {
        KeyModifiers::NONE
    }
}

/// Normalizes a native key code and its modifier bits into one event.
pub fn key_event_from_native(n: NativeKeyCode, bits: u8) -> (e: KeyEvent)
    ensures
        e.code == normalized_code(n),
        e.modifiers == normalized_modifiers(bits),
{
    KeyEvent::new_with_modifiers(key_code_from_native(n), modifiers_from_bits(bits))
}

/// Normalizes any native event. A non-key event degrades to a
/// `NotImplemented` key without modifiers; the normalizer never rejects
/// an event.
pub fn event_from_native(ev: NativeEvent) -> (e: Event)
    ensures
        e == (match ev {
            NativeEvent::Key(n, bits) => Event::Key(
                KeyEvent { code: normalized_code(n), modifiers: normalized_modifiers(bits) },
            ),
            NativeEvent::Other => Event::Key(
                KeyEvent { code: KeyCode::NotImplemented, modifiers: KeyModifiers::NONE },
            ),
        }),
{
    match ev {
        NativeEvent::Key(n, bits) => Event::Key(key_event_from_native(n, bits)),
        NativeEvent::Other => Event::Key(KeyEvent::new(KeyCode::NotImplemented)),
    }
}

} // verus!
