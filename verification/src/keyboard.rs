//! What a key press looks like to the terminal: the key, where it sits, the
//! modifiers held with it and the modes the focused program asked for.
use vstd::prelude::*;
use vstd::string::*;

use crate::text::{
    ascii_lower, decimal, lowercase, lowercase_text, owned, push_decimal, same,
};

verus! {

/// Modifier state relevant for keybindings.
#[derive(Clone, Copy, PartialEq, Eq, Hash, Debug, Structural)]
pub struct Mods {
    pub ctrl: bool,
    pub shift: bool,
    pub alt: bool,
    pub super_: bool,
}

impl Default for Mods {
    fn default() -> (r: Mods)
        ensures
            r == Mods::none(),
    {
        Mods { ctrl: false, shift: false, alt: false, super_: false }
    }
}

impl Mods {
    /// No modifier held.
    pub open spec fn none() -> Mods {
        Mods { ctrl: false, shift: false, alt: false, super_: false }
    }

    /// The modifiers held, from the four key states.
    pub fn from_state(ctrl: bool, shift: bool, alt: bool, super_: bool) -> (r: Mods)
        ensures
            r == (Mods { ctrl, shift, alt, super_ }),
    {
        Mods { ctrl, shift, alt, super_ }
    }

    /// Whether no modifier is held.
    pub fn is_empty(self) -> (r: bool)
        ensures
            r == (self == Mods::none()),
    {
        !self.ctrl && !self.shift && !self.alt && !self.super_
    }

    /// The modifiers with shift let go.
    pub open spec fn spec_without_shift(self) -> Mods {
        Mods { shift: false, ..self }
    }

    /// The modifiers with shift let go.
    pub fn without_shift(self) -> (r: Mods)
        ensures
            r == self.spec_without_shift(),
    {
        Mods { ctrl: self.ctrl, shift: false, alt: self.alt, super_: self.super_ }
    }
}

/// A key that does not type a character of its own.
#[derive(Clone, PartialEq, Eq, Debug)]
pub enum NamedKey {
    ArrowUp,
    ArrowDown,
    ArrowLeft,
    ArrowRight,
    PageUp,
    PageDown,
    Home,
    End,
    Enter,
    Tab,
    Escape,
    Backspace,
    Delete,
    Insert,
    Space,
    /// A function key, by its number.
    F(u8),
    Shift,
    Control,
    Alt,
    Super,
    Hyper,
    Meta,
    CapsLock,
    NumLock,
    ScrollLock,
    PrintScreen,
    Pause,
    ContextMenu,
    /// Any other key, by the name that the windowing layer gives it.
    Other(String),
}

/// What a key means under the current keyboard layout.
#[derive(Clone, PartialEq, Eq, Debug)]
pub enum Key {
    Named(NamedKey),
    /// The text that the key types.
    Character(String),
    /// A dead key, or one that the layout does not know.
    Other,
}

/// A position on the keyboard, named after the US layout.
#[derive(Clone, PartialEq, Eq, Debug)]
pub enum KeyCode {
    /// A letter key, by its lowercase letter.
    Letter(char),
    /// A digit of the row above the letters.
    Digit(u8),
    ArrowUp,
    ArrowDown,
    ArrowLeft,
    ArrowRight,
    PageUp,
    PageDown,
    Home,
    End,
    Enter,
    Tab,
    Escape,
    Backspace,
    Delete,
    Insert,
    Space,
    Equal,
    Minus,
    BracketRight,
    BracketLeft,
    /// A function key, by its number.
    F(u8),
    /// Any other key, by the name that the windowing layer gives it.
    Other(String),
}

/// The physical key behind an event, where the platform reports one.
#[derive(Clone, PartialEq, Eq, Debug)]
pub enum PhysicalKey {
    Code(KeyCode),
    Unidentified,
}

/// Which of several keys with the same meaning was used.
#[derive(Clone, Copy, PartialEq, Eq, Debug, Structural)]
pub enum KeyLocation {
    Standard,
    Left,
    Right,
    Numpad,
}

/// Whether a key or button went down or up.
#[derive(Clone, Copy, PartialEq, Eq, Debug, Structural)]
pub enum ElementState {
    Pressed,
    Released,
}

/// One keyboard event.
#[derive(Clone, PartialEq, Eq, Debug)]
pub struct KeyEvent {
    pub logical_key: Key,
    pub physical_key: PhysicalKey,
    /// The text the key press types, if any.
    pub text: Option<String>,
    pub location: KeyLocation,
    pub state: ElementState,
    /// Sent by the platform because the key is held down.
    pub repeat: bool,
    /// What the key means with no modifier held.
    pub key_without_modifiers: Key,
}

/// The modes of a terminal that decide how input is encoded.
#[derive(Clone, Copy, PartialEq, Eq, Debug, Structural)]
pub struct TermMode {
    pub app_cursor: bool,
    pub alt_screen: bool,
    pub disambiguate_esc_codes: bool,
    pub report_event_types: bool,
    pub report_alternate_keys: bool,
    pub report_all_keys_as_esc: bool,
    pub report_associated_text: bool,
    pub mouse_report_click: bool,
    pub mouse_motion: bool,
    pub mouse_drag: bool,
    pub sgr_mouse: bool,
    pub utf8_mouse: bool,
}

impl TermMode {
    /// Every mode off.
    pub open spec fn none() -> TermMode {
        TermMode {
            app_cursor: false,
            alt_screen: false,
            disambiguate_esc_codes: false,
            report_event_types: false,
            report_alternate_keys: false,
            report_all_keys_as_esc: false,
            report_associated_text: false,
            mouse_report_click: false,
            mouse_motion: false,
            mouse_drag: false,
            sgr_mouse: false,
            utf8_mouse: false,
        }
    }

    /// Every mode off.
    pub fn empty() -> (r: TermMode)
        ensures
            r == TermMode::none(),
    {
        TermMode {
            app_cursor: false,
            alt_screen: false,
            disambiguate_esc_codes: false,
            report_event_types: false,
            report_alternate_keys: false,
            report_all_keys_as_esc: false,
            report_associated_text: false,
            mouse_report_click: false,
            mouse_motion: false,
            mouse_drag: false,
            sgr_mouse: false,
            utf8_mouse: false,
        }
    }
}

/// The modifiers at the front of a binding string, each followed by a `+`:
/// ctrl, alt, super and shift, in this order.
pub open spec fn mods_prefix(mods: Mods) -> Seq<char> {
    (if mods.ctrl {
        "ctrl+"@
    } else {
        seq![]
    }) + (if mods.alt {
        "alt+"@
    } else {
        seq![]
    }) + (if mods.super_ {
        "super+"@
    } else {
        seq![]
    }) + (if mods.shift {
        "shift+"@
    } else {
        seq![]
    })
}

/// The binding string of a key name under some modifiers.
pub fn join_mods(mods: Mods, name: &str) -> (r: String)
    ensures
        r@ == mods_prefix(mods) + name@,
{
    let mut out = String::new();
    if mods.ctrl {
        out.append("ctrl+");
    }
    if mods.alt {
        out.append("alt+");
    }
    if mods.super_ {
        out.append("super+");
    }
    if mods.shift {
        out.append("shift+");
    }
    out.append(name);
    assert(out@ =~= mods_prefix(mods) + name@);
    out
}

/// The name of a key in binding strings.
pub open spec fn named_key_name(key: NamedKey) -> Seq<char> {
    match key {
        NamedKey::ArrowUp => "up"@,
        NamedKey::ArrowDown => "down"@,
        NamedKey::ArrowLeft => "left"@,
        NamedKey::ArrowRight => "right"@,
        NamedKey::PageUp => "pageup"@,
        NamedKey::PageDown => "pagedown"@,
        NamedKey::Home => "home"@,
        NamedKey::End => "end"@,
        NamedKey::Enter => "enter"@,
        NamedKey::Tab => "tab"@,
        NamedKey::Escape => "escape"@,
        NamedKey::Backspace => "backspace"@,
        NamedKey::Delete => "delete"@,
        NamedKey::Insert => "insert"@,
        NamedKey::Space => "space"@,
        NamedKey::F(n) => "f"@ + decimal(n as nat),
        NamedKey::Shift => "shift"@,
        NamedKey::Control => "control"@,
        NamedKey::Alt => "alt"@,
        NamedKey::Super => "super"@,
        NamedKey::Hyper => "hyper"@,
        NamedKey::Meta => "meta"@,
        NamedKey::CapsLock => "capslock"@,
        NamedKey::NumLock => "numlock"@,
        NamedKey::ScrollLock => "scrolllock"@,
        NamedKey::PrintScreen => "printscreen"@,
        NamedKey::Pause => "pause"@,
        NamedKey::ContextMenu => "contextmenu"@,
        NamedKey::Other(name) => lowercase_text(name@),
    }
}

/// The name of a typed text in binding strings: a few symbols have names, any
/// other text stands for itself in lowercase.
pub open spec fn character_name(ch: Seq<char>) -> Seq<char> {
    if ch == " "@ {
        "space"@
    } else if ch == "+"@ {
        "plus"@
    } else if ch == "-"@ {
        "minus"@
    } else if ch == "="@ {
        "equal"@
    } else if ch == "["@ {
        "["@
    } else if ch == "]"@ {
        "]"@
    } else {
        lowercase_text(ch)
    }
}

/// The name of what a key means, or `None` for a key without a meaning.
pub open spec fn key_name(key: Key) -> Option<Seq<char>> {
    match key {
        Key::Named(named) => Some(named_key_name(named)),
        Key::Character(ch) => Some(character_name(ch@)),
        Key::Other => None,
    }
}

/// The name of a keyboard position in binding strings.
pub open spec fn code_name(code: KeyCode) -> Seq<char> {
    match code {
        KeyCode::Letter(c) => seq![c],
        KeyCode::Digit(d) => decimal(d as nat),
        KeyCode::ArrowUp => "up"@,
        KeyCode::ArrowDown => "down"@,
        KeyCode::ArrowLeft => "left"@,
        KeyCode::ArrowRight => "right"@,
        KeyCode::PageUp => "pageup"@,
        KeyCode::PageDown => "pagedown"@,
        KeyCode::Home => "home"@,
        KeyCode::End => "end"@,
        KeyCode::Enter => "enter"@,
        KeyCode::Tab => "tab"@,
        KeyCode::Escape => "escape"@,
        KeyCode::Backspace => "backspace"@,
        KeyCode::Delete => "delete"@,
        KeyCode::Insert => "insert"@,
        KeyCode::Space => "space"@,
        KeyCode::Equal => "equal"@,
        KeyCode::Minus => "minus"@,
        KeyCode::BracketRight => "]"@,
        KeyCode::BracketLeft => "["@,
        KeyCode::F(n) => "f"@ + decimal(n as nat),
        KeyCode::Other(name) => lowercase_text(name@),
    }
}

/// The name of the physical key; the meaning of the key stands in where the
/// platform reports no position.
pub open spec fn physical_key_name(key: Key, physical: PhysicalKey) -> Option<Seq<char>> {
    match physical {
        PhysicalKey::Code(code) => Some(code_name(code)),
        PhysicalKey::Unidentified => key_name(key),
    }
}

/// The name of function key `n`.
fn function_key_name(n: u8) -> (r: String)
    ensures
        r@ == "f"@ + decimal(n as nat),
{
    let mut out = owned("f");
    push_decimal(&mut out, n as u64);
    out
}

/// Logical key name used in binding strings.
pub fn logical_name(key: &Key) -> (r: Option<String>)
    ensures
        match r {
            Some(name) => key_name(*key) == Some(name@),
            None => key_name(*key) is None,
        },
{
    match key {
        Key::Named(named) => {
            let name: &str = match named {
                NamedKey::ArrowUp => "up",
                NamedKey::ArrowDown => "down",
                NamedKey::ArrowLeft => "left",
                NamedKey::ArrowRight => "right",
                NamedKey::PageUp => "pageup",
                NamedKey::PageDown => "pagedown",
                NamedKey::Home => "home",
                NamedKey::End => "end",
                NamedKey::Enter => "enter",
                NamedKey::Tab => "tab",
                NamedKey::Escape => "escape",
                NamedKey::Backspace => "backspace",
                NamedKey::Delete => "delete",
                NamedKey::Insert => "insert",
                NamedKey::Space => "space",
                NamedKey::F(n) => return Some(function_key_name(*n)),
                NamedKey::Shift => "shift",
                NamedKey::Control => "control",
                NamedKey::Alt => "alt",
                NamedKey::Super => "super",
                NamedKey::Hyper => "hyper",
                NamedKey::Meta => "meta",
                NamedKey::CapsLock => "capslock",
                NamedKey::NumLock => "numlock",
                NamedKey::ScrollLock => "scrolllock",
                NamedKey::PrintScreen => "printscreen",
                NamedKey::Pause => "pause",
                NamedKey::ContextMenu => "contextmenu",
                NamedKey::Other(name) => return Some(lowercase(name.as_str())),
            };
            Some(owned(name))
        },
        Key::Character(ch) => {
            let ch: &str = ch.as_str();
            if same(ch, " ") {
                Some(owned("space"))
            } else if same(ch, "+") {
                Some(owned("plus"))
            } else if same(ch, "-") {
                Some(owned("minus"))
            } else if same(ch, "=") {
                Some(owned("equal"))
            } else if same(ch, "[") {
                Some(owned("["))
            } else if same(ch, "]") {
                Some(owned("]"))
            } else {
                Some(lowercase(ch))
            }
        },
        Key::Other => None,
    }
}

/// Physical key name used for shifted-symbol disambiguation (e.g. `1` for `!`).
pub fn physical_name(key: &Key, physical: &PhysicalKey) -> (r: Option<String>)
    ensures
        match r {
            Some(name) => physical_key_name(*key, *physical) == Some(name@),
            None => physical_key_name(*key, *physical) is None,
        },
{
    let code = match physical {
        PhysicalKey::Code(code) => code,
        PhysicalKey::Unidentified => return logical_name(key),
    };
    let name: &str = match code {
        KeyCode::Letter(c) => {
            let mut out = String::new();
            out.push(*c);
            assert(out@ =~= seq![*c]);
            return Some(out);
        },
        KeyCode::Digit(d) => {
            let mut out = String::new();
            push_decimal(&mut out, *d as u64);
            assert(out@ =~= decimal(*d as nat));
            return Some(out);
        },
        KeyCode::ArrowUp => "up",
        KeyCode::ArrowDown => "down",
        KeyCode::ArrowLeft => "left",
        KeyCode::ArrowRight => "right",
        KeyCode::PageUp => "pageup",
        KeyCode::PageDown => "pagedown",
        KeyCode::Home => "home",
        KeyCode::End => "end",
        KeyCode::Enter => "enter",
        KeyCode::Tab => "tab",
        KeyCode::Escape => "escape",
        KeyCode::Backspace => "backspace",
        KeyCode::Delete => "delete",
        KeyCode::Insert => "insert",
        KeyCode::Space => "space",
        KeyCode::Equal => "equal",
        KeyCode::Minus => "minus",
        KeyCode::BracketRight => "]",
        KeyCode::BracketLeft => "[",
        KeyCode::F(n) => return Some(function_key_name(*n)),
        KeyCode::Other(name) => return Some(lowercase(name.as_str())),
    };
    Some(owned(name))
}

// ---------------------------------------------------------------------------
// Laws
// ---------------------------------------------------------------------------

/// The names of the keys that type no character of their own.
pub proof fn law_named_key_names(n: u8)
    ensures
        key_name(Key::Named(NamedKey::ArrowUp)) == Some("up"@),
        key_name(Key::Named(NamedKey::ArrowDown)) == Some("down"@),
        key_name(Key::Named(NamedKey::ArrowLeft)) == Some("left"@),
        key_name(Key::Named(NamedKey::ArrowRight)) == Some("right"@),
        key_name(Key::Named(NamedKey::PageUp)) == Some("pageup"@),
        key_name(Key::Named(NamedKey::PageDown)) == Some("pagedown"@),
        key_name(Key::Named(NamedKey::Home)) == Some("home"@),
        key_name(Key::Named(NamedKey::End)) == Some("end"@),
        key_name(Key::Named(NamedKey::Enter)) == Some("enter"@),
        key_name(Key::Named(NamedKey::Tab)) == Some("tab"@),
        key_name(Key::Named(NamedKey::Escape)) == Some("escape"@),
        key_name(Key::Named(NamedKey::Backspace)) == Some("backspace"@),
        key_name(Key::Named(NamedKey::Delete)) == Some("delete"@),
        key_name(Key::Named(NamedKey::Insert)) == Some("insert"@),
        key_name(Key::Named(NamedKey::Space)) == Some("space"@),
        key_name(Key::Named(NamedKey::Shift)) == Some("shift"@),
        key_name(Key::Named(NamedKey::Control)) == Some("control"@),
        key_name(Key::Named(NamedKey::Alt)) == Some("alt"@),
        key_name(Key::Named(NamedKey::Super)) == Some("super"@),
        key_name(Key::Named(NamedKey::Hyper)) == Some("hyper"@),
        key_name(Key::Named(NamedKey::Meta)) == Some("meta"@),
        key_name(Key::Named(NamedKey::CapsLock)) == Some("capslock"@),
        key_name(Key::Named(NamedKey::NumLock)) == Some("numlock"@),
        key_name(Key::Named(NamedKey::ScrollLock)) == Some("scrolllock"@),
        key_name(Key::Named(NamedKey::PrintScreen)) == Some("printscreen"@),
        key_name(Key::Named(NamedKey::Pause)) == Some("pause"@),
        key_name(Key::Named(NamedKey::ContextMenu)) == Some("contextmenu"@),
        key_name(Key::Named(NamedKey::F(n))) == Some(seq!['f'] + decimal(n as nat)),
        key_name(Key::Other) is None,
{
    reveal_strlit("f");
    assert("f"@ =~= seq!['f']);
}

/// A place on the keyboard has the name of the key that is there on the US layout,
/// and where the platform reports no place, the meaning of the key stands in.
pub proof fn law_places_are_named_after_keys(key: Key, n: u8, c: char)
    ensures
        Some(code_name(KeyCode::ArrowUp)) == key_name(Key::Named(NamedKey::ArrowUp)),
        Some(code_name(KeyCode::ArrowDown)) == key_name(Key::Named(NamedKey::ArrowDown)),
        Some(code_name(KeyCode::ArrowLeft)) == key_name(Key::Named(NamedKey::ArrowLeft)),
        Some(code_name(KeyCode::ArrowRight)) == key_name(Key::Named(NamedKey::ArrowRight)),
        Some(code_name(KeyCode::PageUp)) == key_name(Key::Named(NamedKey::PageUp)),
        Some(code_name(KeyCode::PageDown)) == key_name(Key::Named(NamedKey::PageDown)),
        Some(code_name(KeyCode::Home)) == key_name(Key::Named(NamedKey::Home)),
        Some(code_name(KeyCode::End)) == key_name(Key::Named(NamedKey::End)),
        Some(code_name(KeyCode::Enter)) == key_name(Key::Named(NamedKey::Enter)),
        Some(code_name(KeyCode::Tab)) == key_name(Key::Named(NamedKey::Tab)),
        Some(code_name(KeyCode::Escape)) == key_name(Key::Named(NamedKey::Escape)),
        Some(code_name(KeyCode::Backspace)) == key_name(Key::Named(NamedKey::Backspace)),
        Some(code_name(KeyCode::Delete)) == key_name(Key::Named(NamedKey::Delete)),
        Some(code_name(KeyCode::Insert)) == key_name(Key::Named(NamedKey::Insert)),
        Some(code_name(KeyCode::Space)) == key_name(Key::Named(NamedKey::Space)),
        Some(code_name(KeyCode::F(n))) == key_name(Key::Named(NamedKey::F(n))),
        code_name(KeyCode::Letter(c)) == seq![c],
        code_name(KeyCode::Digit(n)) == decimal(n as nat),
        code_name(KeyCode::Equal) == "equal"@,
        code_name(KeyCode::Minus) == "minus"@,
        code_name(KeyCode::BracketRight) == seq![']'],
        code_name(KeyCode::BracketLeft) == seq!['['],
        physical_key_name(key, PhysicalKey::Unidentified) == key_name(key),
        physical_key_name(key, PhysicalKey::Code(KeyCode::Letter(c))) == Some(seq![c]),
{
    reveal_strlit("]");
    reveal_strlit("[");
    assert("]"@ =~= seq![']']);
    assert("["@ =~= seq!['[']);
}

/// A typed symbol with a name goes by it, and any other text by its lowercase
/// form; the symbols with names are the blank, plus, minus and equals.
pub proof fn law_typed_text_names(c: char, text: Seq<char>)
    ensures
        character_name(seq![' ']) == "space"@,
        character_name(seq!['+']) == "plus"@,
        character_name(seq!['-']) == "minus"@,
        character_name(seq!['=']) == "equal"@,
        'a' <= c <= 'z' ==> character_name(seq![c]) == seq![c],
        'A' <= c <= 'Z' ==> character_name(seq![c]) == seq![(c as u32 + 32) as char],
        '0' <= c <= '9' || c == '[' || c == ']' ==> character_name(seq![c]) == seq![c],
        text.len() != 1 ==> character_name(text) == lowercase_text(text),
{
    reveal_strlit(" ");
    reveal_strlit("+");
    reveal_strlit("-");
    reveal_strlit("=");
    reveal_strlit("[");
    reveal_strlit("]");
    assert(" "@ =~= seq![' ']);
    assert("+"@ =~= seq!['+']);
    assert("-"@ =~= seq!['-']);
    assert("="@ =~= seq!['=']);
    assert("["@ =~= seq!['[']);
    assert("]"@ =~= seq![']']);
    assert(seq![' '][0] == ' ');
    assert(seq!['+'][0] == '+');
    assert(seq!['-'][0] == '-');
    assert(seq!['='][0] == '=');
    assert(seq!['['][0] == '[');
    assert(seq![']'][0] == ']');
    assert(seq![c][0] == c);
    if c as u32 <= 0x7f {
        assert(lowercase_text(seq![c]) =~= seq![ascii_lower(c)]);
    }
}

/// The modifiers stand in front of a key as ctrl, alt, super and shift, in this
/// order and each with a plus behind it.
pub proof fn law_modifiers_in_front(mods: Mods)
    ensures
        mods_prefix(Mods::none()) == Seq::<char>::empty(),
        mods_prefix(Mods { ctrl: true, ..mods }) == "ctrl+"@ + mods_prefix(
            Mods { ctrl: false, ..mods },
        ),
        !mods.ctrl ==> mods_prefix(Mods { alt: true, ..mods }) == "alt+"@ + mods_prefix(
            Mods { alt: false, ..mods },
        ),
        !mods.ctrl && !mods.alt ==> mods_prefix(Mods { super_: true, ..mods }) == "super+"@
            + mods_prefix(Mods { super_: false, ..mods }),
        !mods.ctrl && !mods.alt && !mods.super_ ==> mods_prefix(Mods { shift: true, ..mods })
            == "shift+"@,
{
    assert(mods_prefix(Mods::none()) =~= Seq::<char>::empty());
    assert(mods_prefix(Mods { ctrl: true, ..mods }) =~= "ctrl+"@ + mods_prefix(
        Mods { ctrl: false, ..mods },
    ));
    if !mods.ctrl {
        assert(mods_prefix(Mods { alt: true, ..mods }) =~= "alt+"@ + mods_prefix(
            Mods { alt: false, ..mods },
        ));
        if !mods.alt {
            assert(mods_prefix(Mods { super_: true, ..mods }) =~= "super+"@ + mods_prefix(
                Mods { super_: false, ..mods },
            ));
            if !mods.super_ {
                assert(mods_prefix(Mods { shift: true, ..mods }) =~= "shift+"@);
            }
        }
    }
}

} // verus!
