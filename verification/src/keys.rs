//! Key handling: which key events are acted on, how modifiers are read,
//! how a key press is named for the configuration's key bindings, and which
//! URLs may be opened.
use vstd::prelude::*;
use vstd::string::StrSliceExecFns;
use vstd::string::StringSliceAdditionalSpecFns;

use crate::platform::{ElementState, ModifiersState};
use crate::text::{debug_quoted, debug_str, push_str, to_uppercase, uppercase};

verus! {

/// Only presses (and their repeats) are acted on; releases are ignored.
pub fn should_handle_key_event(state: ElementState, repeat: bool) -> (r: bool)
    ensures
        r == (state == ElementState::Pressed),
{
    state == ElementState::Pressed
}

/// Forgets every held modifier, as when the window loses the focus.
pub fn clear_modifier_state(modifiers: &mut ModifiersState, alt_graph_active: &mut bool)
    ensures
        final(modifiers).bits() == 0,
        !*final(alt_graph_active),
{
    *modifiers = ModifiersState::empty();
    *alt_graph_active = false;
}

/// The modifiers to act on: while AltGr is held, the control and alt that it
/// reports are a layout shift, not modifiers.
pub fn effective_modifiers(modifiers: ModifiersState, alt_graph_active: bool) -> (r: ModifiersState)
    ensures
        r.bits() == if alt_graph_active {
            modifiers.bits() & !6u8
        } else {
            modifiers.bits()
        },
{
    let mut modifiers = modifiers;
    if alt_graph_active {
        let both = ModifiersState::control() | ModifiersState::alt();
        proof {
            assert(2u8 | 4u8 == 6u8) by (bit_vector);
        }
        modifiers.remove(both);
    }
    modifiers
}

/// The modifiers of a key press as flags.
#[derive(Clone, Copy, Debug, PartialEq, Eq, Structural)]
pub struct KeyModifiers {
    pub shift: bool,
    pub control: bool,
    pub alt: bool,
    pub super_key: bool,
}

impl Default for KeyModifiers {
    fn default() -> (m: KeyModifiers)
        ensures
            !m.shift && !m.control && !m.alt && !m.super_key,
    {
        KeyModifiers { shift: false, control: false, alt: false, super_key: false }
    }
}

/// Reads the held modifiers as flags.
pub fn key_modifiers(modifiers: ModifiersState) -> (r: KeyModifiers)
    ensures
        r.shift == modifiers.spec_shift(),
        r.control == modifiers.spec_control(),
        r.alt == modifiers.spec_alt(),
        r.super_key == modifiers.spec_super(),
{
    KeyModifiers {
        shift: modifiers.shift_key(),
        control: modifiers.control_key(),
        alt: modifiers.alt_key(),
        super_key: modifiers.super_key(),
    }
}

/// The platforms' conventions for shortcut modifiers.
#[derive(Clone, Copy, Debug, PartialEq, Eq, Structural)]
pub enum ShortcutPlatform {
    MacOs,
    LinuxOrWindows,
}

/// Whether the modifier that opens links is held: command on macOS,
/// control elsewhere.
pub fn has_link_modifier(modifiers: ModifiersState, platform: ShortcutPlatform) -> (r: bool)
    ensures
        r == match platform {
            ShortcutPlatform::MacOs => modifiers.spec_super(),
            ShortcutPlatform::LinuxOrWindows => modifiers.spec_control(),
        },
{
    match platform {
        ShortcutPlatform::MacOs => modifiers.super_key(),
        ShortcutPlatform::LinuxOrWindows => modifiers.control_key(),
    }
}

/// The named keys that the terminal handles.
#[derive(Clone, Copy, Debug, PartialEq, Eq, Structural)]
pub enum NamedKey {
    ArrowDown,
    ArrowLeft,
    ArrowRight,
    ArrowUp,
    Backspace,
    Delete,
    End,
    Enter,
    Escape,
    F1,
    F10,
    F11,
    F12,
    F2,
    F3,
    F4,
    F5,
    F6,
    F7,
    F8,
    F9,
    Home,
    Insert,
    PageDown,
    PageUp,
    Space,
    Tab,
}

/// The meaning of a key press in the active layout.
#[derive(Clone, Debug, PartialEq, Eq)]
pub enum Key {
    Named(NamedKey),
    Character(String),
    Unidentified,
}

/// The binding name of a named key.
pub open spec fn named_key_label(key: NamedKey) -> Seq<char> {
    match key {
        NamedKey::Enter => "ENTER"@,
        NamedKey::Backspace => "BACKSPACE"@,
        NamedKey::Tab => "TAB"@,
        NamedKey::Escape => "ESCAPE"@,
        NamedKey::Space => "SPACE"@,
        NamedKey::ArrowUp => "UP"@,
        NamedKey::ArrowDown => "DOWN"@,
        NamedKey::ArrowLeft => "LEFT"@,
        NamedKey::ArrowRight => "RIGHT"@,
        NamedKey::Home => "HOME"@,
        NamedKey::End => "END"@,
        NamedKey::PageUp => "PAGEUP"@,
        NamedKey::PageDown => "PAGEDOWN"@,
        NamedKey::Insert => "INSERT"@,
        NamedKey::Delete => "DELETE"@,
        NamedKey::F1 => "F1"@,
        NamedKey::F2 => "F2"@,
        NamedKey::F3 => "F3"@,
        NamedKey::F4 => "F4"@,
        NamedKey::F5 => "F5"@,
        NamedKey::F6 => "F6"@,
        NamedKey::F7 => "F7"@,
        NamedKey::F8 => "F8"@,
        NamedKey::F9 => "F9"@,
        NamedKey::F10 => "F10"@,
        NamedKey::F11 => "F11"@,
        NamedKey::F12 => "F12"@,
    }
}

/// The name under which bindings refer to a named key.
pub fn keybinding_named_key(key: &NamedKey) -> (r: Option<&'static str>)
    ensures
        r matches Some(name) && name@ == named_key_label(*key),
{
    Some(
        match key {
            NamedKey::Enter => "ENTER",
            NamedKey::Backspace => "BACKSPACE",
            NamedKey::Tab => "TAB",
            NamedKey::Escape => "ESCAPE",
            NamedKey::Space => "SPACE",
            NamedKey::ArrowUp => "UP",
            NamedKey::ArrowDown => "DOWN",
            NamedKey::ArrowLeft => "LEFT",
            NamedKey::ArrowRight => "RIGHT",
            NamedKey::Home => "HOME",
            NamedKey::End => "END",
            NamedKey::PageUp => "PAGEUP",
            NamedKey::PageDown => "PAGEDOWN",
            NamedKey::Insert => "INSERT",
            NamedKey::Delete => "DELETE",
            NamedKey::F1 => "F1",
            NamedKey::F2 => "F2",
            NamedKey::F3 => "F3",
            NamedKey::F4 => "F4",
            NamedKey::F5 => "F5",
            NamedKey::F6 => "F6",
            NamedKey::F7 => "F7",
            NamedKey::F8 => "F8",
            NamedKey::F9 => "F9",
            NamedKey::F10 => "F10",
            NamedKey::F11 => "F11",
            NamedKey::F12 => "F12",
        },
    )
}

/// The name of the logical key for bindings: characters in upper case,
/// named keys by their binding name.
pub open spec fn logical_key_label(key: Key) -> Option<Seq<char>> {
    match key {
        Key::Character(text) => if text@.len() > 0 {
            Some(uppercase(text@))
        } else {
            None
        },
        Key::Named(named) => Some(named_key_label(named)),
        Key::Unidentified => None,
    }
}

/// Names the logical key of a press for the binding resolver.
pub fn logical_binding_key(logical_key: &Key) -> (r: Option<String>)
    ensures
        match logical_key_label(*logical_key) {
            Some(label) => r matches Some(s) && s@ == label,
            None => r is None,
        },
{
    match logical_key {
        Key::Character(text) => {
            if text.as_str().unicode_len() > 0 {
                Some(to_uppercase(text.as_str()))
            } else {
                None
            }
        },
        Key::Named(named) => {
            let name = keybinding_named_key(named).unwrap();
            let mut s = String::new();
            push_str(&mut s, name);
            Some(s)
        },
        Key::Unidentified => None,
    }
}

/// The key of a binding: a physical key code or a logical key name.
#[derive(Clone, Debug, PartialEq, Eq)]
pub enum BindingKey {
    Physical(String),
    Logical(String),
}

/// The canonical name of a chord: the held modifiers in the order control,
/// alt, shift, super, each followed by `+`, then the key; a physical key is
/// written `PHYSICAL:` and its code in upper case.
pub open spec fn chord_label(key: BindingKey, modifiers: KeyModifiers) -> Seq<char> {
    (if modifiers.control {
        "CTRL+"@
    } else {
        Seq::empty()
    }) + (if modifiers.alt {
        "ALT+"@
    } else {
        Seq::empty()
    }) + (if modifiers.shift {
        "SHIFT+"@
    } else {
        Seq::empty()
    }) + (if modifiers.super_key {
        "SUPER+"@
    } else {
        Seq::empty()
    }) + match key {
        BindingKey::Physical(code) => "PHYSICAL:"@ + uppercase(code@),
        BindingKey::Logical(name) => name@,
    }
}

/// Writes the canonical name of a chord.
pub fn chord_name(key: &BindingKey, modifiers: KeyModifiers) -> (r: String)
    ensures
        r@ == chord_label(*key, modifiers),
{
    let mut s = String::new();
    if modifiers.control {
        push_str(&mut s, "CTRL+");
    }
    if modifiers.alt {
        push_str(&mut s, "ALT+");
    }
    if modifiers.shift {
        push_str(&mut s, "SHIFT+");
    }
    if modifiers.super_key {
        push_str(&mut s, "SUPER+");
    }
    match key {
        BindingKey::Physical(code) => {
            push_str(&mut s, "PHYSICAL:");
            let upper = to_uppercase(code.as_str());
            push_str(&mut s, upper.as_str());
        },
        BindingKey::Logical(name) => {
            push_str(&mut s, name.as_str());
        },
    }
    proof {
        assert(s@ =~= chord_label(*key, modifiers));
    }
    s
}

/// The binding names to try for a key press, most specific first: the
/// physical key, then the logical key, and for a shifted symbol also the
/// logical key without shift.
pub open spec fn candidate_labels(
    physical: Option<String>,
    logical: Option<String>,
    modifiers: KeyModifiers,
    shifted_symbol: bool,
) -> Seq<Seq<char>> {
    (match physical {
        Some(code) => seq![chord_label(BindingKey::Physical(code), modifiers)],
        None => Seq::empty(),
    }) + match logical {
        Some(name) => seq![chord_label(BindingKey::Logical(name), modifiers)] + if shifted_symbol {
            seq![chord_label(BindingKey::Logical(name), KeyModifiers { shift: false, ..modifiers })]
        } else {
            Seq::empty()
        },
        None => Seq::empty(),
    }
}

/// Lists the binding names to try for a key press.
pub fn binding_candidates(
    physical: Option<String>,
    logical: Option<String>,
    modifiers: KeyModifiers,
    shifted_symbol: bool,
) -> (r: Vec<String>)
    ensures
        r@.map_values(|s: String| s@) == candidate_labels(
            physical,
            logical,
            modifiers,
            shifted_symbol,
        ),
{
    let mut candidates: Vec<String> = Vec::new();
    match physical {
        Some(code) => {
            candidates.push(chord_name(&BindingKey::Physical(code), modifiers));
        },
        None => {},
    }
    match logical {
        Some(name) => {
            let key = BindingKey::Logical(name);
            candidates.push(chord_name(&key, modifiers));
            if shifted_symbol {
                candidates.push(chord_name(&key, KeyModifiers { shift: false, ..modifiers }));
            }
        },
        None => {},
    }
    proof {
        assert(candidates@.map_values(|s: String| s@) =~= candidate_labels(
            physical,
            logical,
            modifiers,
            shifted_symbol,
        ));
    }
    candidates
}

/// The binding name of a logical key with the held modifiers.
pub fn keybinding_name(logical_key: &Key, modifiers: ModifiersState) -> (r: Option<String>)
    ensures
        match logical_key_label(*logical_key) {
            Some(label) => r matches Some(s) && exists|name: String|
                name@ == label && s@ == chord_label(
                    BindingKey::Logical(name),
                    KeyModifiers {
                        shift: modifiers.spec_shift(),
                        control: modifiers.spec_control(),
                        alt: modifiers.spec_alt(),
                        super_key: modifiers.spec_super(),
                    },
                ),
            None => r is None,
        },
{
    let key = match logical_binding_key(logical_key) {
        Some(key) => key,
        None => return None,
    };
    let binding = BindingKey::Logical(key);
    Some(chord_name(&binding, key_modifiers(modifiers)))
}

/// A key's position on the keyboard, whatever the layout.
#[derive(Clone, Copy, Debug, PartialEq, Eq, Structural)]
pub enum KeyCode {
    KeyA,
    KeyB,
    KeyC,
    KeyD,
    KeyE,
    KeyF,
    KeyG,
    KeyH,
    KeyI,
    KeyJ,
    KeyK,
    KeyL,
    KeyM,
    KeyN,
    KeyO,
    KeyP,
    KeyQ,
    KeyR,
    KeyS,
    KeyT,
    KeyU,
    KeyV,
    KeyW,
    KeyX,
    KeyY,
    KeyZ,
    Digit0,
    Digit1,
    Digit2,
    Digit3,
    Digit4,
    Digit5,
    Digit6,
    Digit7,
    Digit8,
    Digit9,
    Numpad0,
    Numpad1,
    Numpad2,
    Numpad3,
    Numpad4,
    Numpad5,
    Numpad6,
    Numpad7,
    Numpad8,
    Numpad9,
    NumpadAdd,
    NumpadSubtract,
    NumpadMultiply,
    NumpadDivide,
    NumpadDecimal,
    NumpadComma,
    NumpadEqual,
    NumpadEnter,
    ShiftLeft,
    ShiftRight,
    ControlLeft,
    ControlRight,
    AltLeft,
    AltRight,
    SuperLeft,
    SuperRight,
    Other,
}

/// The physical key of a press, when the platform identifies it.
#[derive(Clone, Copy, Debug, PartialEq, Eq, Structural)]
pub enum PhysicalKey {
    Code(KeyCode),
    Unidentified,
}

/// A key of the numeric keypad.
#[derive(Clone, Copy, Debug, PartialEq, Eq, Structural)]
pub enum KeypadKey {
    Digit(u8),
    Add,
    Subtract,
    Multiply,
    Divide,
    Decimal,
    Comma,
    Equal,
    Enter,
}

/// The keypad key at a physical position, if it is one.
pub open spec fn spec_keypad_key(key: PhysicalKey) -> Option<KeypadKey> {
    match key {
        PhysicalKey::Code(KeyCode::Numpad0) => Some(KeypadKey::Digit(0)),
        PhysicalKey::Code(KeyCode::Numpad1) => Some(KeypadKey::Digit(1)),
        PhysicalKey::Code(KeyCode::Numpad2) => Some(KeypadKey::Digit(2)),
        PhysicalKey::Code(KeyCode::Numpad3) => Some(KeypadKey::Digit(3)),
        PhysicalKey::Code(KeyCode::Numpad4) => Some(KeypadKey::Digit(4)),
        PhysicalKey::Code(KeyCode::Numpad5) => Some(KeypadKey::Digit(5)),
        PhysicalKey::Code(KeyCode::Numpad6) => Some(KeypadKey::Digit(6)),
        PhysicalKey::Code(KeyCode::Numpad7) => Some(KeypadKey::Digit(7)),
        PhysicalKey::Code(KeyCode::Numpad8) => Some(KeypadKey::Digit(8)),
        PhysicalKey::Code(KeyCode::Numpad9) => Some(KeypadKey::Digit(9)),
        PhysicalKey::Code(KeyCode::NumpadAdd) => Some(KeypadKey::Add),
        PhysicalKey::Code(KeyCode::NumpadSubtract) => Some(KeypadKey::Subtract),
        PhysicalKey::Code(KeyCode::NumpadMultiply) => Some(KeypadKey::Multiply),
        PhysicalKey::Code(KeyCode::NumpadDivide) => Some(KeypadKey::Divide),
        PhysicalKey::Code(KeyCode::NumpadDecimal) => Some(KeypadKey::Decimal),
        PhysicalKey::Code(KeyCode::NumpadComma) => Some(KeypadKey::Comma),
        PhysicalKey::Code(KeyCode::NumpadEqual) => Some(KeypadKey::Equal),
        PhysicalKey::Code(KeyCode::NumpadEnter) => Some(KeypadKey::Enter),
        _ => None,
    }
}

/// Reads keypad keys by position, whatever the layout and num-lock say.
pub fn keypad_key(physical_key: PhysicalKey) -> (r: Option<KeypadKey>)
    ensures
        r == spec_keypad_key(physical_key),
{
    match physical_key {
        PhysicalKey::Code(KeyCode::Numpad0) => Some(KeypadKey::Digit(0)),
        PhysicalKey::Code(KeyCode::Numpad1) => Some(KeypadKey::Digit(1)),
        PhysicalKey::Code(KeyCode::Numpad2) => Some(KeypadKey::Digit(2)),
        PhysicalKey::Code(KeyCode::Numpad3) => Some(KeypadKey::Digit(3)),
        PhysicalKey::Code(KeyCode::Numpad4) => Some(KeypadKey::Digit(4)),
        PhysicalKey::Code(KeyCode::Numpad5) => Some(KeypadKey::Digit(5)),
        PhysicalKey::Code(KeyCode::Numpad6) => Some(KeypadKey::Digit(6)),
        PhysicalKey::Code(KeyCode::Numpad7) => Some(KeypadKey::Digit(7)),
        PhysicalKey::Code(KeyCode::Numpad8) => Some(KeypadKey::Digit(8)),
        PhysicalKey::Code(KeyCode::Numpad9) => Some(KeypadKey::Digit(9)),
        PhysicalKey::Code(KeyCode::NumpadAdd) => Some(KeypadKey::Add),
        PhysicalKey::Code(KeyCode::NumpadSubtract) => Some(KeypadKey::Subtract),
        PhysicalKey::Code(KeyCode::NumpadMultiply) => Some(KeypadKey::Multiply),
        PhysicalKey::Code(KeyCode::NumpadDivide) => Some(KeypadKey::Divide),
        PhysicalKey::Code(KeyCode::NumpadDecimal) => Some(KeypadKey::Decimal),
        PhysicalKey::Code(KeyCode::NumpadComma) => Some(KeypadKey::Comma),
        PhysicalKey::Code(KeyCode::NumpadEqual) => Some(KeypadKey::Equal),
        PhysicalKey::Code(KeyCode::NumpadEnter) => Some(KeypadKey::Enter),
        _ => None,
    }
}

/// The letter of a letter key on a US layout.
pub open spec fn spec_base_layout_key(key: PhysicalKey) -> Option<char> {
    match key {
        PhysicalKey::Code(KeyCode::KeyA) => Some('a'),
        PhysicalKey::Code(KeyCode::KeyB) => Some('b'),
        PhysicalKey::Code(KeyCode::KeyC) => Some('c'),
        PhysicalKey::Code(KeyCode::KeyD) => Some('d'),
        PhysicalKey::Code(KeyCode::KeyE) => Some('e'),
        PhysicalKey::Code(KeyCode::KeyF) => Some('f'),
        PhysicalKey::Code(KeyCode::KeyG) => Some('g'),
        PhysicalKey::Code(KeyCode::KeyH) => Some('h'),
        PhysicalKey::Code(KeyCode::KeyI) => Some('i'),
        PhysicalKey::Code(KeyCode::KeyJ) => Some('j'),
        PhysicalKey::Code(KeyCode::KeyK) => Some('k'),
        PhysicalKey::Code(KeyCode::KeyL) => Some('l'),
        PhysicalKey::Code(KeyCode::KeyM) => Some('m'),
        PhysicalKey::Code(KeyCode::KeyN) => Some('n'),
        PhysicalKey::Code(KeyCode::KeyO) => Some('o'),
        PhysicalKey::Code(KeyCode::KeyP) => Some('p'),
        PhysicalKey::Code(KeyCode::KeyQ) => Some('q'),
        PhysicalKey::Code(KeyCode::KeyR) => Some('r'),
        PhysicalKey::Code(KeyCode::KeyS) => Some('s'),
        PhysicalKey::Code(KeyCode::KeyT) => Some('t'),
        PhysicalKey::Code(KeyCode::KeyU) => Some('u'),
        PhysicalKey::Code(KeyCode::KeyV) => Some('v'),
        PhysicalKey::Code(KeyCode::KeyW) => Some('w'),
        PhysicalKey::Code(KeyCode::KeyX) => Some('x'),
        PhysicalKey::Code(KeyCode::KeyY) => Some('y'),
        PhysicalKey::Code(KeyCode::KeyZ) => Some('z'),
        _ => None,
    }
}

/// The letter of a letter key on a US layout, used when a layout reports
/// another character.
pub fn base_layout_key(key: PhysicalKey) -> (r: Option<char>)
    ensures
        r == spec_base_layout_key(key),
{
    Some(
        match key {
            PhysicalKey::Code(KeyCode::KeyA) => 'a',
            PhysicalKey::Code(KeyCode::KeyB) => 'b',
            PhysicalKey::Code(KeyCode::KeyC) => 'c',
            PhysicalKey::Code(KeyCode::KeyD) => 'd',
            PhysicalKey::Code(KeyCode::KeyE) => 'e',
            PhysicalKey::Code(KeyCode::KeyF) => 'f',
            PhysicalKey::Code(KeyCode::KeyG) => 'g',
            PhysicalKey::Code(KeyCode::KeyH) => 'h',
            PhysicalKey::Code(KeyCode::KeyI) => 'i',
            PhysicalKey::Code(KeyCode::KeyJ) => 'j',
            PhysicalKey::Code(KeyCode::KeyK) => 'k',
            PhysicalKey::Code(KeyCode::KeyL) => 'l',
            PhysicalKey::Code(KeyCode::KeyM) => 'm',
            PhysicalKey::Code(KeyCode::KeyN) => 'n',
            PhysicalKey::Code(KeyCode::KeyO) => 'o',
            PhysicalKey::Code(KeyCode::KeyP) => 'p',
            PhysicalKey::Code(KeyCode::KeyQ) => 'q',
            PhysicalKey::Code(KeyCode::KeyR) => 'r',
            PhysicalKey::Code(KeyCode::KeyS) => 's',
            PhysicalKey::Code(KeyCode::KeyT) => 't',
            PhysicalKey::Code(KeyCode::KeyU) => 'u',
            PhysicalKey::Code(KeyCode::KeyV) => 'v',
            PhysicalKey::Code(KeyCode::KeyW) => 'w',
            PhysicalKey::Code(KeyCode::KeyX) => 'x',
            PhysicalKey::Code(KeyCode::KeyY) => 'y',
            PhysicalKey::Code(KeyCode::KeyZ) => 'z',
            _ => return None,
        },
    )
}

/// A mouse button as the window system reports it.
#[derive(Clone, Copy, Debug, PartialEq, Eq, Structural)]
pub enum MouseButton {
    Left,
    Middle,
    Right,
    Back,
    Forward,
    Other(u16),
}

/// A mouse button that terminal applications can be told about.
#[derive(Clone, Copy, Debug, PartialEq, Eq, Structural)]
pub enum TerminalMouseButton {
    Left,
    Middle,
    Right,
}

/// The terminal's name for a mouse button; the others are not reported.
pub fn terminal_mouse_button(button: MouseButton) -> (r: Option<TerminalMouseButton>)
    ensures
        r == match button {
            MouseButton::Left => Some(TerminalMouseButton::Left),
            MouseButton::Middle => Some(TerminalMouseButton::Middle),
            MouseButton::Right => Some(TerminalMouseButton::Right),
            _ => None::<TerminalMouseButton>,
        },
{
    match button {
        MouseButton::Left => Some(TerminalMouseButton::Left),
        MouseButton::Middle => Some(TerminalMouseButton::Middle),
        MouseButton::Right => Some(TerminalMouseButton::Right),
        _ => None,
    }
}

/// Whether `c` is a control character (general category Cc).
pub open spec fn is_control_char(c: char) -> bool {
    (c as u32) <= 0x1f || (0x7f <= (c as u32) && (c as u32) <= 0x9f)
}

/// `c` with ASCII upper-case letters made lower case.
pub open spec fn ascii_lower(c: char) -> char {
    if 'A' <= c && c <= 'Z' {
        (((c as u8) + 32) as u8) as char
    } else {
        c
    }
}

/// The position of the first `:` in `s`.
pub open spec fn first_colon(s: Seq<char>) -> Option<int>
    decreases s.len(),
{
    if s.len() == 0 {
        None
    } else if s[0] == ':' {
        Some(0)
    } else {
        match first_colon(s.drop_first()) {
            Some(i) => Some(i + 1),
            None => None,
        }
    }
}

/// Whether a URL scheme, ignoring ASCII case, is one that may be opened.
pub open spec fn allowed_scheme(scheme: Seq<char>) -> bool {
    let lower = scheme.map_values(|c: char| ascii_lower(c));
    lower == "http"@ || lower == "https"@ || lower == "mailto"@
}

/// Whether a URL may be opened, and why not: it must be short, hold no
/// control characters and use the http, https or mailto scheme.
pub open spec fn url_verdict(url: Seq<char>, byte_len: nat) -> Result<(), Seq<char>> {
    if byte_len > 2048 || exists|i: int| 0 <= i < url.len() && is_control_char(#[trigger] url[i]) {
        Err("URL is invalid or too long"@)
    } else {
        match first_colon(url) {
            None => Err("URL has no scheme"@),
            Some(i) => if allowed_scheme(url.take(i)) {
                Ok(())
            } else {
                Err("URL scheme "@ + debug_quoted(url.take(i)) + " is not allowed"@)
            },
        }
    }
}

fn lower_ascii_char(c: char) -> (r: char)
    ensures
        r == ascii_lower(c),
{
    if 'A' <= c && c <= 'Z' {
        ((c as u8) + 32) as char
    } else {
        c
    }
}

/// Checks that a URL may be opened.
pub fn validate_allowed_url(url: &str) -> (r: Result<(), String>)
    ensures
        match url_verdict(url@, url.spec_bytes().len()) {
            Ok(()) => r is Ok,
            Err(m) => r matches Err(e) && e@ == m,
        },
{
    let n = url.unicode_len();
    let byte_len = url.as_bytes().len();
    if byte_len > 2048 {
        return Err("URL is invalid or too long".to_owned());
    }
    let mut i: usize = 0;
    while i < n
        invariant
            n == url@.len(),
            url.spec_bytes().len() <= 2048,
            i <= n,
            forall|j: int| 0 <= j < i ==> !is_control_char(#[trigger] url@[j]),
        decreases n - i,
    {
        let c = url.get_char(i);
        if (c as u32) <= 0x1f || (0x7f <= (c as u32) && (c as u32) <= 0x9f) {
            return Err("URL is invalid or too long".to_owned());
        }
        i = i + 1;
    }
    let mut colon: usize = 0;
    proof {
        assert(url@.skip(0) =~= url@);
    }
    while colon < n && url.get_char(colon) != ':'
        invariant
            n == url@.len(),
            url.spec_bytes().len() <= 2048,
            forall|j: int| 0 <= j < n ==> !is_control_char(#[trigger] url@[j]),
            colon <= n,
            first_colon(url@) == match first_colon(url@.skip(colon as int)) {
                Some(k) => Some(k + colon),
                None => None::<int>,
            },
        decreases n - colon,
    {
        proof {
            assert(url@.skip(colon as int)[0] == url@[colon as int]);
            assert(url@.skip(colon as int).drop_first() =~= url@.skip(colon + 1));
        }
        colon = colon + 1;
    }
    if colon == n {
        proof {
            assert(url@.skip(colon as int) =~= Seq::<char>::empty());
            assert(first_colon(url@) is None);
        }
        return Err("URL has no scheme".to_owned());
    }
    proof {
        assert(url@.skip(colon as int)[0] == ':');
        assert(first_colon(url@) == Some(colon as int));
    }
    let scheme = url.substring_char(0, colon);
    let mut lower: Vec<char> = Vec::new();
    let mut k: usize = 0;
    while k < colon
        invariant
            url.spec_bytes().len() <= 2048,
            forall|j: int| 0 <= j < n ==> !is_control_char(#[trigger] url@[j]),
            first_colon(url@) == Some(colon as int),
            k <= colon,
            colon < n,
            n == url@.len(),
            scheme@ == url@.take(colon as int),
            lower@ == scheme@.take(k as int).map_values(|c: char| ascii_lower(c)),
        decreases colon - k,
    {
        lower.push(lower_ascii_char(scheme.get_char(k)));
        k = k + 1;
        proof {
            assert(lower@ =~= scheme@.take(k as int).map_values(|c: char| ascii_lower(c)));
        }
    }
    proof {
        assert(scheme@.take(k as int) =~= scheme@);
        reveal_strlit("http");
        reveal_strlit("https");
        reveal_strlit("mailto");
    }
    let allowed = chars_are(&lower, "http") || chars_are(&lower, "https") || chars_are(
        &lower,
        "mailto",
    );
    proof {
        assert(lower@ == url@.take(colon as int).map_values(|c: char| ascii_lower(c)));
        assert(allowed == allowed_scheme(url@.take(colon as int)));
    }
    if !allowed {
        let mut message = String::new();
        push_str(&mut message, "URL scheme ");
        let quoted = debug_str(scheme);
        push_str(&mut message, quoted.as_str());
        push_str(&mut message, " is not allowed");
        return Err(message);
    }
    Ok(())
}

/// Whether `chars` spell `word`.
fn chars_are(chars: &Vec<char>, word: &str) -> (r: bool)
    ensures
        r == (chars@ == word@),
{
    let n = word.unicode_len();
    if chars.len() != n {
        return false;
    }
    let mut i: usize = 0;
    while i < n
        invariant
            n == word@.len(),
            chars@.len() == n,
            i <= n,
            forall|j: int| 0 <= j < i ==> chars@[j] == word@[j],
        decreases n - i,
    {
        if chars[i] != word.get_char(i) {
            return false;
        }
        i = i + 1;
    }
    proof {
        assert(chars@ =~= word@);
    }
    true
}

} // verus!
