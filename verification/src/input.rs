//! Keyboard and mouse input: keybinding resolution and terminal encoding.
use vstd::prelude::*;
use vstd::string::*;
use vstd::utf8::*;

use crate::bindings::Bindings;
use crate::keyboard::{
    join_mods, key_name, logical_name, mods_prefix, physical_key_name, physical_name,
    ElementState, Key, KeyEvent, KeyLocation, NamedKey, TermMode,
};
use crate::text::{
    chars_of, decimal, is_digit, lemma_decimal_digits, lemma_decimal_injective,
    lemma_parts_at_separator, lowercase_char, lowercase_first, opt_text, owned, push_decimal, same,
    texts,
};

pub use crate::keyboard::Mods;

verus! {

// ---------------------------------------------------------------------------
// Keybindings
// ---------------------------------------------------------------------------

/// A key binding lookup result.
#[derive(Debug, PartialEq, Eq)]
pub enum BindingResult {
    /// The key combination resolved to a configured action.
    Action(String),
    /// No binding matched; the key should be forwarded to the terminal.
    Passthrough,
}

/// The characters whose typing already requires shift to be held.
pub open spec fn shifted_symbol(ch: Seq<char>) -> bool {
    ch.len() == 1 && {
        let c = ch[0];
        ||| c == '!' || c == '@' || c == '#' || c == '$' || c == '%' || c == '^' || c == '&'
        ||| c == '*' || c == '(' || c == ')' || c == '_' || c == '+' || c == '{' || c == '}'
        ||| c == ':' || c == '"' || c == '|' || c == '<' || c == '>' || c == '?' || c == '~'
    }
}

/// Characters whose typing already requires shift to be held.
pub fn is_shifted_symbol(ch: &str) -> (r: bool)
    ensures
        r == shifted_symbol(ch@),
{
    let v = chars_of(ch);
    if v.len() != 1 {
        return false;
    }
    let c = v[0];
    c == '!' || c == '@' || c == '#' || c == '$' || c == '%' || c == '^' || c == '&' || c == '*'
        || c == '(' || c == ')' || c == '_' || c == '+' || c == '{' || c == '}' || c == ':' || c
        == '"' || c == '|' || c == '<' || c == '>' || c == '?' || c == '~'
}

/// The binding strings that a key event may be bound under, from most to least
/// specific.
///
/// First come the modifiers and the meaning of the key. Shift is absorbed into
/// a shifted symbol, so that `ctrl+shift+=` counts as `ctrl+plus`. The physical
/// key comes last, which resolves `shift+1` to `1`.
pub open spec fn candidates(
    event: KeyEvent,
    mods: Mods,
    logical: Seq<char>,
    physical: Option<Seq<char>>,
) -> Seq<Seq<char>> {
    let absorbed = match event.logical_key {
        Key::Character(ch) => mods.shift && shifted_symbol(ch@),
        _ => false,
    };
    let no_shift = mods.spec_without_shift();
    seq![mods_prefix(mods) + logical] + (if absorbed {
        seq![mods_prefix(no_shift) + logical]
    } else {
        seq![]
    }) + (match physical {
        Some(name) => if name == logical {
            seq![]
        } else {
            seq![mods_prefix(mods) + name] + (if mods.shift && (name == "equal"@ || name
                == "minus"@ || name == "bracketright"@ || name == "bracketleft"@) {
                seq![mods_prefix(no_shift) + name]
            } else {
                seq![]
            })
        },
        None => seq![],
    })
}

/// The action of the first binding string that is bound.
pub open spec fn first_bound(
    names: Seq<Seq<char>>,
    table: Map<Seq<char>, Seq<char>>,
) -> Option<Seq<char>>
    decreases names.len(),
{
    if names.len() == 0 {
        None
    } else if table.contains_key(names[0]) {
        Some(table[names[0]])
    } else {
        first_bound(names.drop_first(), table)
    }
}

/// What a key event is bound to.
pub open spec fn resolved(
    event: KeyEvent,
    mods: Mods,
    table: Map<Seq<char>, Seq<char>>,
) -> Option<Seq<char>> {
    match key_name(event.logical_key) {
        Some(logical) => first_bound(
            candidates(
                event,
                mods,
                logical,
                physical_key_name(event.logical_key, event.physical_key),
            ),
            table,
        ),
        None => None,
    }
}

/// Build the candidate binding strings for a key event, from most to least
/// specific, given the names of what the key means and of the physical key.
pub fn binding_candidates(
    event: &KeyEvent,
    mods: Mods,
    logical: &str,
    physical: &Option<String>,
) -> (r: Vec<String>)
    ensures
        texts(r@) == candidates(*event, mods, logical@, opt_text(*physical)),
{
    let mut out: Vec<String> = Vec::new();
    out.push(join_mods(mods, logical));
    let absorbed = match &event.logical_key {
        Key::Character(ch) => mods.shift && is_shifted_symbol(ch.as_str()),
        _ => false,
    };
    if absorbed {
        out.push(join_mods(mods.without_shift(), logical));
    }
    if let Some(name) = physical {
        if !same(name.as_str(), logical) {
            out.push(join_mods(mods, name.as_str()));
            if mods.shift && (same(name.as_str(), "equal") || same(name.as_str(), "minus") || same(
                name.as_str(),
                "bracketright",
            ) || same(name.as_str(), "bracketleft")) {
                out.push(join_mods(mods.without_shift(), name.as_str()));
            }
        }
    }
    assert(texts(out@) =~= candidates(*event, mods, logical@, opt_text(*physical)));
    out
}

/// The action of the first of several binding strings that is bound.
pub fn first_action(names: &Vec<String>, bindings: &Bindings) -> (r: BindingResult)
    ensures
        match r {
            BindingResult::Action(action) => first_bound(texts(names@), bindings@) == Some(action@),
            BindingResult::Passthrough => first_bound(texts(names@), bindings@) is None,
        },
{
    let ghost all = texts(names@);
    let mut i: usize = 0;
    assert(all.skip(0) =~= all);
    while i < names.len()
        invariant
            i <= names@.len(),
            all == texts(names@),
            first_bound(all.skip(i as int), bindings@) == first_bound(all, bindings@),
        decreases names@.len() - i,
    {
        assert(all.skip(i as int)[0] == names@[i as int]@);
        if let Some(action) = bindings.get(names[i].as_str()) {
            return BindingResult::Action(action);
        }
        assert(all.skip(i as int).drop_first() =~= all.skip(i + 1));
        i += 1;
    }
    BindingResult::Passthrough
}

/// Resolve a key event against the configured bindings.
pub fn resolve(event: &KeyEvent, mods: Mods, bindings: &Bindings) -> (r: BindingResult)
    ensures
        match r {
            BindingResult::Action(action) => resolved(*event, mods, bindings@) == Some(action@),
            BindingResult::Passthrough => resolved(*event, mods, bindings@) is None,
        },
{
    let logical = match logical_name(&event.logical_key) {
        Some(name) => name,
        None => return BindingResult::Passthrough,
    };
    let physical = physical_name(&event.logical_key, &event.physical_key);
    let names = binding_candidates(event, mods, logical.as_str(), &physical);
    first_action(&names, bindings)
}

// ---------------------------------------------------------------------------
// Classic key encoding
// ---------------------------------------------------------------------------

/// The number that stands for ctrl, alt and shift in a classic sequence; one
/// means that none of them is held.
pub open spec fn classic_modifier(mods: Mods) -> nat {
    (1 + (if mods.shift {
        1int
    } else {
        0
    }) + (if mods.alt {
        2int
    } else {
        0
    }) + (if mods.ctrl {
        4int
    } else {
        0
    })) as nat
}

/// The sequence of a key that ends in a letter: `CSI A`, or `CSI 1;5A` with the
/// modifier number in front of the letter if a modifier is held.
pub open spec fn csi_letter_text(letter: Seq<char>, mods: Mods) -> Seq<char> {
    if classic_modifier(mods) == 1 {
        "\x1b["@ + letter
    } else {
        "\x1b[1;"@ + decimal(classic_modifier(mods)) + letter
    }
}

/// The sequence of a key that has a number: `CSI 5~`, or `CSI 5;5~` with the
/// modifier number behind it if a modifier is held.
pub open spec fn csi_number_text(number: nat, mods: Mods) -> Seq<char> {
    if classic_modifier(mods) == 1 {
        "\x1b["@ + decimal(number) + "~"@
    } else {
        "\x1b["@ + decimal(number) + ";"@ + decimal(classic_modifier(mods)) + "~"@
    }
}

/// The classic sequence of a cursor key: application mode changes the
/// introducer unless a modifier is held.
pub open spec fn cursor_key_text(letter: Seq<char>, mods: Mods, app_cursor: bool) -> Seq<char> {
    if classic_modifier(mods) == 1 && app_cursor {
        "\x1bO"@ + letter
    } else {
        csi_letter_text(letter, mods)
    }
}

/// The classic sequence of a named key, for the keys that have one.
pub open spec fn named_text(named: NamedKey, mods: Mods, app_cursor: bool) -> Option<Seq<char>> {
    match named {
        NamedKey::Enter => Some("\r"@),
        NamedKey::Tab => Some(
            if mods.shift {
                "\x1b[Z"@
            } else {
                "\t"@
            },
        ),
        NamedKey::Escape => Some("\x1b"@),
        NamedKey::Backspace => Some("\x7f"@),
        NamedKey::Space => Some(" "@),
        NamedKey::ArrowUp => Some(cursor_key_text("A"@, mods, app_cursor)),
        NamedKey::ArrowDown => Some(cursor_key_text("B"@, mods, app_cursor)),
        NamedKey::ArrowRight => Some(cursor_key_text("C"@, mods, app_cursor)),
        NamedKey::ArrowLeft => Some(cursor_key_text("D"@, mods, app_cursor)),
        NamedKey::PageUp => Some(csi_number_text(5, mods)),
        NamedKey::PageDown => Some(csi_number_text(6, mods)),
        NamedKey::Home => Some(csi_letter_text("H"@, mods)),
        NamedKey::End => Some(csi_letter_text("F"@, mods)),
        NamedKey::Insert => Some(csi_number_text(2, mods)),
        NamedKey::Delete => Some(csi_number_text(3, mods)),
        NamedKey::F(n) => if n == 1 {
            Some("\x1bOP"@)
        } else if n == 2 {
            Some("\x1bOQ"@)
        } else if n == 3 {
            Some("\x1bOR"@)
        } else if n == 4 {
            Some("\x1bOS"@)
        } else if n == 5 {
            Some(csi_number_text(15, mods))
        } else if 6 <= n <= 10 {
            Some(csi_number_text((n + 11) as nat, mods))
        } else if n == 11 {
            Some(csi_number_text(23, mods))
        } else if n == 12 {
            Some(csi_number_text(24, mods))
        } else {
            None
        },
        _ => None,
    }
}

/// The control character that ctrl makes of an ASCII character.
pub open spec fn control_code(c: char) -> Option<char> {
    if c == ' ' || c == '2' {
        Some('\0')
    } else if c == '[' {
        Some('\x1b')
    } else if c == '\\' {
        Some('\x1c')
    } else if c == ']' {
        Some('\x1d')
    } else if c == '^' {
        Some('\x1e')
    } else if c == '_' {
        Some('\x1f')
    } else if 'a' <= c <= 'z' {
        Some((c as u32 - 96) as char)
    } else if 'A' <= c <= 'Z' {
        Some((c as u32 - 64) as char)
    } else {
        None
    }
}

/// What typing a text sends in the classic encoding. A single ASCII character
/// under ctrl becomes a control character where there is one, and under alt
/// gets an escape in front; any other text goes out as it is unless ctrl or alt
/// is held.
pub open spec fn typed_text(ch: Seq<char>, mods: Mods) -> Seq<char> {
    if ch.len() == 1 && ch[0] as u32 <= 0x7f {
        if mods.ctrl && control_code(ch[0]) is Some {
            seq![control_code(ch[0])->0]
        } else if mods.alt {
            seq!['\x1b', ch[0]]
        } else {
            ch
        }
    } else if !mods.ctrl && !mods.alt {
        ch
    } else {
        seq![]
    }
}

/// What a pressed key sends in the classic encoding.
pub open spec fn classic_text(event: KeyEvent, mods: Mods, mode: TermMode) -> Seq<char> {
    match event.logical_key {
        Key::Named(named) => match named_text(named, mods, mode.app_cursor) {
            Some(text) => text,
            None => seq![],
        },
        Key::Character(ch) => typed_text(ch@, mods),
        Key::Other => seq![],
    }
}

/// The number that stands for ctrl, alt and shift in a classic sequence.
fn classic_modifier_number(mods: Mods) -> (r: u64)
    ensures
        r == classic_modifier(mods),
{
    let mut n: u64 = 1;
    if mods.shift {
        n += 1;
    }
    if mods.alt {
        n += 2;
    }
    if mods.ctrl {
        n += 4;
    }
    n
}

/// The sequence of a key that ends in a letter.
fn csi_letter(letter: &str, mods: Mods) -> (r: String)
    ensures
        r@ == csi_letter_text(letter@, mods),
{
    let modifier = classic_modifier_number(mods);
    if modifier == 1 {
        let mut out = owned("\x1b[");
        out.append(letter);
        out
    } else {
        let mut out = owned("\x1b[1;");
        push_decimal(&mut out, modifier);
        out.append(letter);
        out
    }
}

/// The sequence of a key that has a number.
fn csi_number(number: u64, mods: Mods) -> (r: String)
    ensures
        r@ == csi_number_text(number as nat, mods),
{
    let modifier = classic_modifier_number(mods);
    let mut out = owned("\x1b[");
    push_decimal(&mut out, number);
    if modifier != 1 {
        out.append(";");
        push_decimal(&mut out, modifier);
    }
    out.append("~");
    out
}

/// The classic sequence of a cursor key.
fn cursor_key(letter: &str, mods: Mods, app_cursor: bool) -> (r: String)
    ensures
        r@ == cursor_key_text(letter@, mods, app_cursor),
{
    if app_cursor && classic_modifier_number(mods) == 1 {
        let mut out = owned("\x1bO");
        out.append(letter);
        out
    } else {
        csi_letter(letter, mods)
    }
}

/// The classic sequence of a named key, for the keys that have one.
pub fn named_sequence(named: &NamedKey, mods: Mods, app_cursor: bool) -> (r: Option<String>)
    ensures
        match r {
            Some(text) => named_text(*named, mods, app_cursor) == Some(text@),
            None => named_text(*named, mods, app_cursor) is None,
        },
{
    match named {
        NamedKey::Enter => Some(owned("\r")),
        NamedKey::Tab => if mods.shift {
            Some(owned("\x1b[Z"))
        } else {
            Some(owned("\t"))
        },
        NamedKey::Escape => Some(owned("\x1b")),
        NamedKey::Backspace => Some(owned("\x7f")),
        NamedKey::Space => Some(owned(" ")),
        NamedKey::ArrowUp => Some(cursor_key("A", mods, app_cursor)),
        NamedKey::ArrowDown => Some(cursor_key("B", mods, app_cursor)),
        NamedKey::ArrowRight => Some(cursor_key("C", mods, app_cursor)),
        NamedKey::ArrowLeft => Some(cursor_key("D", mods, app_cursor)),
        NamedKey::PageUp => Some(csi_number(5, mods)),
        NamedKey::PageDown => Some(csi_number(6, mods)),
        NamedKey::Home => Some(csi_letter("H", mods)),
        NamedKey::End => Some(csi_letter("F", mods)),
        NamedKey::Insert => Some(csi_number(2, mods)),
        NamedKey::Delete => Some(csi_number(3, mods)),
        NamedKey::F(n) => {
            let n: u8 = *n;
            if n == 1 {
                Some(owned("\x1bOP"))
            } else if n == 2 {
                Some(owned("\x1bOQ"))
            } else if n == 3 {
                Some(owned("\x1bOR"))
            } else if n == 4 {
                Some(owned("\x1bOS"))
            } else if n == 5 {
                Some(csi_number(15, mods))
            } else if 6 <= n && n <= 10 {
                Some(csi_number(n as u64 + 11, mods))
            } else if n == 11 {
                Some(csi_number(23, mods))
            } else if n == 12 {
                Some(csi_number(24, mods))
            } else {
                None
            }
        },
        _ => None,
    }
}

/// The control character that ctrl makes of an ASCII character.
fn control_character(c: char) -> (r: Option<char>)
    ensures
        r == control_code(c),
{
    if c == ' ' || c == '2' {
        Some('\0')
    } else if c == '[' {
        Some('\x1b')
    } else if c == '\\' {
        Some('\x1c')
    } else if c == ']' {
        Some('\x1d')
    } else if c == '^' {
        Some('\x1e')
    } else if c == '_' {
        Some('\x1f')
    } else if 'a' <= c && c <= 'z' {
        Some((c as u8 - 96) as char)
    } else if 'A' <= c && c <= 'Z' {
        Some((c as u8 - 64) as char)
    } else {
        None
    }
}

/// Classic (pre-kitty) key encoding: control characters, ESC-prefixed Alt,
/// and DEC-style sequences for named keys.
pub fn encode_classic(event: &KeyEvent, mods: Mods, mode: TermMode) -> (r: String)
    ensures
        r@ == classic_text(*event, mods, mode),
{
    match &event.logical_key {
        Key::Named(named) => match named_sequence(named, mods, mode.app_cursor) {
            Some(text) => text,
            None => String::new(),
        },
        Key::Character(ch) => {
            let v = chars_of(ch.as_str());
            if v.len() == 1 && v[0] as u32 <= 0x7f {
                let c = v[0];
                if mods.ctrl {
                    if let Some(code) = control_character(c) {
                        let mut out = String::new();
                        out.push(code);
                        assert(out@ =~= seq![code]);
                        return out;
                    }
                }
                if mods.alt {
                    let mut out = String::new();
                    out.push('\x1b');
                    out.push(c);
                    assert(out@ =~= seq!['\x1b', c]);
                    return out;
                }
                return owned(ch.as_str());
            }
            if !mods.ctrl && !mods.alt {
                owned(ch.as_str())
            } else {
                String::new()
            }
        },
        Key::Other => String::new(),
    }
}

// ---------------------------------------------------------------------------
// The kitty keyboard protocol
// ---------------------------------------------------------------------------

/// The key code of a sequence, the code of the shifted key beside it, and the
/// character that ends the sequence.
#[derive(Clone, Copy, PartialEq, Eq, Debug, Structural)]
pub struct SequenceBase {
    /// `None` leaves the code out, as in `CSI A`.
    pub code: Option<u32>,
    pub alternate: Option<u32>,
    pub terminator: char,
}

/// A sequence with a plain key code.
pub open spec fn base(code: u32, terminator: char) -> SequenceBase {
    SequenceBase { code: Some(code), alternate: None, terminator }
}

/// Whether a terminal asked for the kitty protocol.
pub open spec fn kitty_mode(mode: TermMode) -> bool {
    mode.report_all_keys_as_esc || mode.disambiguate_esc_codes || mode.report_event_types
}

/// The named keys that type a text of their own.
pub open spec fn types_text(named: NamedKey) -> bool {
    named is Enter || named is Backspace || named is Tab || named is Space || named is Escape
}

/// The text of a key event, empty where it has none.
pub open spec fn event_text(event: KeyEvent) -> Seq<char> {
    match event.text {
        Some(text) => text@,
        None => seq![],
    }
}

/// Whether alt goes out as an escape in front of the text of a key.
pub open spec fn alt_as_escape(event: KeyEvent, text: Seq<char>) -> bool {
    match event.logical_key {
        Key::Named(named) => types_text(named),
        Key::Character(_) => text.len() == 1,
        Key::Other => false,
    }
}

/// The modifiers that a sequence reports: alt is left out where it goes out as
/// an escape.
pub open spec fn reported_mods(event: KeyEvent, mods: Mods) -> Mods {
    if alt_as_escape(event, event_text(event)) {
        Mods { alt: false, ..mods }
    } else {
        mods
    }
}

/// Whether a pressed key goes out as an escape sequence rather than as text.
pub open spec fn needs_sequence(
    event: KeyEvent,
    text: Seq<char>,
    mode: TermMode,
    mods: Mods,
) -> bool {
    let key = event.logical_key;
    let only_shift = mods == (Mods { shift: true, ..Mods::none() });
    let disambiguate = mode.disambiguate_esc_codes && {
        ||| key matches Key::Named(named) && named is Escape
        ||| event.location == KeyLocation::Numpad
        ||| mods != Mods::none() && !only_shift
        ||| only_shift && (key matches Key::Named(named) && (named is Tab || named is Enter
            || named is Backspace))
    };
    mode.report_all_keys_as_esc || disambiguate || match key {
        Key::Named(named) => !types_text(named),
        _ => text.len() == 0,
    }
}

/// The code of a key on the number pad.
pub open spec fn numpad_code(key: Key) -> Option<u32> {
    match key {
        Key::Character(ch) => if ch@.len() != 1 {
            None
        } else if is_digit(ch@[0]) {
            Some((57399 + (ch@[0] as u32 - 48)) as u32)
        } else if ch@[0] == '.' {
            Some(57409)
        } else if ch@[0] == '/' {
            Some(57410)
        } else if ch@[0] == '*' {
            Some(57411)
        } else if ch@[0] == '-' {
            Some(57412)
        } else if ch@[0] == '+' {
            Some(57413)
        } else if ch@[0] == '=' {
            Some(57415)
        } else {
            None
        },
        Key::Named(named) => match named {
            NamedKey::Enter => Some(57414),
            NamedKey::ArrowLeft => Some(57417),
            NamedKey::ArrowRight => Some(57418),
            NamedKey::ArrowUp => Some(57419),
            NamedKey::ArrowDown => Some(57420),
            NamedKey::PageUp => Some(57421),
            NamedKey::PageDown => Some(57422),
            NamedKey::Home => Some(57423),
            NamedKey::End => Some(57424),
            NamedKey::Insert => Some(57425),
            NamedKey::Delete => Some(57426),
            _ => None,
        },
        Key::Other => None,
    }
}

/// The code of a key that has no classic sequence. F3 is among them because its
/// classic sequence could be taken for a cursor report.
pub open spec fn named_code(key: Key) -> Option<u32> {
    match key {
        Key::Named(named) => match named {
            NamedKey::F(n) => if n == 3 {
                Some(13)
            } else if 13 <= n <= 35 {
                Some((57363 + n) as u32)
            } else {
                None
            },
            NamedKey::ScrollLock => Some(57359),
            NamedKey::PrintScreen => Some(57361),
            NamedKey::Pause => Some(57362),
            NamedKey::ContextMenu => Some(57363),
            _ => None,
        },
        _ => None,
    }
}

/// The classic sequences that the protocol keeps. The code of a letter sequence
/// is written out only when something follows it: `CSI A`, but `CSI 1;5A`.
pub open spec fn legacy_base(key: Key, explicit: bool) -> Option<SequenceBase> {
    let one: Option<u32> = if explicit {
        Some(1)
    } else {
        None
    };
    match key {
        Key::Named(named) => match named {
            NamedKey::PageUp => Some(base(5, '~')),
            NamedKey::PageDown => Some(base(6, '~')),
            NamedKey::Insert => Some(base(2, '~')),
            NamedKey::Delete => Some(base(3, '~')),
            NamedKey::Home => Some(
                SequenceBase { code: one, alternate: None, terminator: 'H' },
            ),
            NamedKey::End => Some(SequenceBase { code: one, alternate: None, terminator: 'F' }),
            NamedKey::ArrowLeft => Some(
                SequenceBase { code: one, alternate: None, terminator: 'D' },
            ),
            NamedKey::ArrowRight => Some(
                SequenceBase { code: one, alternate: None, terminator: 'C' },
            ),
            NamedKey::ArrowUp => Some(
                SequenceBase { code: one, alternate: None, terminator: 'A' },
            ),
            NamedKey::ArrowDown => Some(
                SequenceBase { code: one, alternate: None, terminator: 'B' },
            ),
            NamedKey::F(n) => if 1 <= n <= 4 {
                Some(
                    SequenceBase {
                        code: one,
                        alternate: None,
                        terminator: (79 + n) as char,
                    },
                )
            } else if n == 5 {
                Some(base(15, '~'))
            } else if 6 <= n <= 10 {
                Some(base((n + 11) as u32, '~'))
            } else if n == 11 || n == 12 {
                Some(base((n + 12) as u32, '~'))
            } else {
                None
            },
            _ => None,
        },
        _ => None,
    }
}

/// The code of a control key.
pub open spec fn control_key_code(named: NamedKey) -> Option<u32> {
    match named {
        NamedKey::Tab => Some(9),
        NamedKey::Enter => Some(13),
        NamedKey::Escape => Some(27),
        NamedKey::Space => Some(32),
        NamedKey::Backspace => Some(127),
        _ => None,
    }
}

/// The code of a modifier or lock key. The left one of a pair has a code of its
/// own.
pub open spec fn modifier_key_code(named: NamedKey, left: bool) -> Option<u32> {
    match named {
        NamedKey::Shift => Some(
            if left {
                57441
            } else {
                57447
            },
        ),
        NamedKey::Control => Some(
            if left {
                57442
            } else {
                57448
            },
        ),
        NamedKey::Alt => Some(
            if left {
                57443
            } else {
                57449
            },
        ),
        NamedKey::Super => Some(
            if left {
                57444
            } else {
                57450
            },
        ),
        NamedKey::Hyper => Some(
            if left {
                57445
            } else {
                57451
            },
        ),
        NamedKey::Meta => Some(
            if left {
                57446
            } else {
                57452
            },
        ),
        NamedKey::CapsLock => Some(57358),
        NamedKey::NumLock => Some(57360),
        _ => None,
    }
}

/// The modifiers after a modifier key itself has gone down or up.
pub open spec fn mods_after(named: NamedKey, pressed: bool, mods: Mods) -> Mods {
    match named {
        NamedKey::Shift => Mods { shift: pressed, ..mods },
        NamedKey::Control => Mods { ctrl: pressed, ..mods },
        NamedKey::Alt => Mods { alt: pressed, ..mods },
        NamedKey::Super => Mods { super_: pressed, ..mods },
        NamedKey::Hyper => Mods { super_: pressed, ..mods },
        NamedKey::Meta => Mods { super_: pressed, ..mods },
        _ => mods,
    }
}

/// The code of a control or modifier key, where the protocol was asked for.
/// Modifier keys are reported only when every key is, and their own state counts
/// among the modifiers.
pub open spec fn control_or_modifier(event: KeyEvent, mods: Mods, mode: TermMode) -> Option<
    (u32, Mods),
> {
    match event.logical_key {
        Key::Named(named) => match control_key_code(named) {
            Some(code) => if kitty_mode(mode) {
                Some((code, mods))
            } else {
                None
            },
            None => match modifier_key_code(named, event.location == KeyLocation::Left) {
                Some(code) => if mode.report_all_keys_as_esc {
                    Some((code, mods_after(named, event.state == ElementState::Pressed, mods)))
                } else {
                    None
                },
                None => None,
            },
        },
        _ => None,
    }
}

/// The code of a key that types one character, given the lowercase form of that
/// character. Shift is taken back: an uppercase letter has the code of the
/// lowercase one, and a symbol that shift makes has the code of the symbol on
/// the unshifted key.
pub open spec fn typed_code(ch: char, lower: char, unmodified: Key, shift: bool) -> u32 {
    if !shift {
        ch as u32
    } else if lower != ch {
        lower as u32
    } else {
        match unmodified {
            Key::Character(text) => if text@.len() > 0 {
                text@[0] as u32
            } else {
                ch as u32
            },
            _ => ch as u32,
        }
    }
}

/// The code of a key that types one character, with the code of the shifted key
/// beside it where that is asked for and differs.
pub open spec fn typed_base(
    ch: char,
    lower: char,
    unmodified: Key,
    shift: bool,
    alternates: bool,
) -> SequenceBase {
    let code = typed_code(ch, lower, unmodified, shift);
    SequenceBase {
        code: Some(code),
        alternate: if alternates && code != ch as u32 {
            Some(ch as u32)
        } else {
            None
        },
        terminator: 'u',
    }
}

/// The code of a key that types text. A text of several characters has no code;
/// it is reported as text alone, when every key is reported.
pub open spec fn textual_base(
    event: KeyEvent,
    mode: TermMode,
    shift: bool,
    has_text: bool,
) -> Option<SequenceBase> {
    match event.logical_key {
        Key::Character(ch) => if ch@.len() == 1 {
            Some(
                typed_base(
                    ch@[0],
                    lowercase_first(ch@[0]),
                    event.key_without_modifiers,
                    shift,
                    mode.report_alternate_keys,
                ),
            )
        } else if mode.report_all_keys_as_esc && has_text {
            Some(base(0, 'u'))
        } else {
            None
        },
        _ => None,
    }
}

/// A text that is one ASCII control character.
pub open spec fn control_text(text: Seq<char>) -> bool {
    text.len() == 1 && (text[0] < ' ' || text[0] == '\x7f')
}

/// The text reported beside a key, where that is asked for.
pub open spec fn associated_text(event: KeyEvent, mode: TermMode) -> Option<Seq<char>> {
    match event.text {
        Some(text) => if mode.report_associated_text && event.state == ElementState::Pressed
            && text@.len() > 0 && !control_text(text@) {
            Some(text@)
        } else {
            None
        },
        None => None,
    }
}

/// Whether the kind of event is reported: plain presses go without.
pub open spec fn reports_event(event: KeyEvent, mode: TermMode) -> bool {
    mode.report_event_types && (event.repeat || event.state == ElementState::Released)
}

/// The number of the held modifiers in the protocol: a bit each.
pub open spec fn kitty_modifier(mods: Mods) -> nat {
    ((if mods.shift {
        1int
    } else {
        0
    }) + (if mods.alt {
        2int
    } else {
        0
    }) + (if mods.ctrl {
        4int
    } else {
        0
    }) + (if mods.super_ {
        8int
    } else {
        0
    })) as nat
}

/// The sequence base of a key and the modifiers to report with it: the number
/// pad comes first, then keys with codes of their own, classic sequences,
/// control and modifier keys, and text.
pub open spec fn sequence_base(event: KeyEvent, mods: Mods, mode: TermMode) -> Option<
    (SequenceBase, Mods),
> {
    let has_text = associated_text(event, mode) is Some;
    let explicit = mods != Mods::none() || reports_event(event, mode) || has_text;
    if event.location == KeyLocation::Numpad && numpad_code(event.logical_key) is Some {
        Some((base(numpad_code(event.logical_key)->0, 'u'), mods))
    } else if named_code(event.logical_key) is Some {
        Some((base(named_code(event.logical_key)->0, 'u'), mods))
    } else if legacy_base(event.logical_key, explicit) is Some {
        Some((legacy_base(event.logical_key, explicit)->0, mods))
    } else {
        match control_or_modifier(event, mods, mode) {
            Some((code, after)) => Some((base(code, 'u'), after)),
            None => match textual_base(event, mode, mods.shift, has_text) {
                Some(b) => Some((b, mods)),
                None => None,
            },
        }
    }
}

/// The code points of a text in decimal, with colons between them.
pub open spec fn code_points(text: Seq<char>) -> Seq<char>
    decreases text.len(),
{
    if text.len() == 0 {
        seq![]
    } else if text.len() == 1 {
        decimal(text[0] as nat)
    } else {
        code_points(text.drop_last()) + ":"@ + decimal(text.last() as nat)
    }
}

/// The key code of a sequence base and the alternate code behind a colon.
pub open spec fn base_text(b: SequenceBase) -> Seq<char> {
    (match b.code {
        Some(code) => decimal(code as nat),
        None => seq![],
    }) + (match b.alternate {
        Some(code) => ":"@ + decimal(code as nat),
        None => seq![],
    })
}

/// The modifiers of a sequence behind a semicolon, where anything needs them.
pub open spec fn modifier_part(mods: Mods, event: KeyEvent, mode: TermMode) -> Seq<char> {
    if reports_event(event, mode) || mods != Mods::none() || associated_text(event, mode) is Some {
        ";"@ + decimal(kitty_modifier(mods) + 1)
    } else {
        seq![]
    }
}

/// The kind of event behind a colon: 2 for a repeat, 3 for a release.
pub open spec fn event_part(event: KeyEvent, mode: TermMode) -> Seq<char> {
    if !reports_event(event, mode) {
        seq![]
    } else if event.repeat {
        ":2"@
    } else {
        ":3"@
    }
}

/// The code points of the reported text behind a semicolon.
pub open spec fn text_part(event: KeyEvent, mode: TermMode) -> Seq<char> {
    match associated_text(event, mode) {
        Some(text) => ";"@ + code_points(text),
        None => seq![],
    }
}

/// A sequence of the protocol: the code, the modifiers, the kind of event, the
/// text and the terminator. Fields that say nothing are left out.
pub open spec fn sequence_text(
    b: SequenceBase,
    mods: Mods,
    event: KeyEvent,
    mode: TermMode,
) -> Seq<char> {
    "\x1b["@ + base_text(b) + modifier_part(mods, event, mode) + event_part(event, mode)
        + text_part(event, mode) + seq![b.terminator]
}

/// The sequence of a key event, empty for a key that has none.
pub open spec fn kitty_text(event: KeyEvent, mods: Mods, mode: TermMode) -> Seq<char> {
    match sequence_base(event, mods, mode) {
        Some((b, reported)) => sequence_text(b, reported, event, mode),
        None => seq![],
    }
}

/// What a pressed key sends under the protocol.
pub open spec fn pressed_text(event: KeyEvent, mods: Mods, mode: TermMode) -> Seq<char> {
    let text = event_text(event);
    let reported = reported_mods(event, mods);
    if needs_sequence(event, text, mode, reported) {
        kitty_text(event, reported, mode)
    } else if mods.alt {
        seq!['\x1b'] + text
    } else {
        text
    }
}

/// What a released key sends under the protocol. Enter, tab and backspace stay
/// silent unless every key is reported.
pub open spec fn released_text(event: KeyEvent, mods: Mods, mode: TermMode) -> Seq<char> {
    if !mode.report_all_keys_as_esc && (event.logical_key matches Key::Named(named) && (
    named is Enter || named is Tab || named is Backspace)) {
        seq![]
    } else {
        kitty_text(event, reported_mods(event, mods), mode)
    }
}

/// What a key event sends to the terminal.
pub open spec fn key_text(event: KeyEvent, mods: Mods, mode: TermMode) -> Seq<char> {
    if event.state == ElementState::Pressed {
        if kitty_mode(mode) {
            pressed_text(event, mods, mode)
        } else {
            classic_text(event, mods, mode)
        }
    } else if kitty_mode(mode) && mode.report_event_types {
        released_text(event, mods, mode)
    } else {
        seq![]
    }
}

/// Whether the terminal asked for the kitty protocol.
pub fn kitty_active(mode: TermMode) -> (r: bool)
    ensures
        r == kitty_mode(mode),
{
    mode.report_all_keys_as_esc || mode.disambiguate_esc_codes || mode.report_event_types
}

/// Whether a named key types a text of its own.
fn has_own_text(named: &NamedKey) -> (r: bool)
    ensures
        r == types_text(*named),
{
    match named {
        NamedKey::Enter => true,
        NamedKey::Backspace => true,
        NamedKey::Tab => true,
        NamedKey::Space => true,
        NamedKey::Escape => true,
        _ => false,
    }
}

/// The text of a key event, empty where it has none.
fn text_or_empty(event: &KeyEvent) -> (r: String)
    ensures
        r@ == event_text(*event),
{
    match &event.text {
        Some(text) => owned(text.as_str()),
        None => String::new(),
    }
}

/// Whether alt should be encoded as an escape in front of the text rather than
/// as a modifier.
pub fn alt_send_esc(event: &KeyEvent, text: &str) -> (r: bool)
    ensures
        r == alt_as_escape(*event, text@),
{
    match &event.logical_key {
        Key::Named(named) => has_own_text(named),
        Key::Character(_) => chars_of(text).len() == 1,
        Key::Other => false,
    }
}

/// The modifiers that a sequence reports.
fn mods_to_report(event: &KeyEvent, mods: Mods) -> (r: Mods)
    ensures
        r == reported_mods(*event, mods),
{
    let text = text_or_empty(event);
    if alt_send_esc(event, text.as_str()) {
        Mods { ctrl: mods.ctrl, shift: mods.shift, alt: false, super_: mods.super_ }
    } else {
        mods
    }
}

/// Decide whether a key should be emitted as an escape sequence or as raw text.
pub fn should_build_sequence(event: &KeyEvent, text: &str, mode: TermMode, mods: Mods) -> (r: bool)
    ensures
        r == needs_sequence(*event, text@, mode, mods),
{
    if mode.report_all_keys_as_esc {
        return true;
    }
    let only_shift = mods.shift && !mods.ctrl && !mods.alt && !mods.super_;
    let is_escape = match &event.logical_key {
        Key::Named(NamedKey::Escape) => true,
        _ => false,
    };
    let is_editing = match &event.logical_key {
        Key::Named(NamedKey::Tab) => true,
        Key::Named(NamedKey::Enter) => true,
        Key::Named(NamedKey::Backspace) => true,
        _ => false,
    };
    if mode.disambiguate_esc_codes && (is_escape || event.location == KeyLocation::Numpad || (
    !mods.is_empty() && (!only_shift || is_editing))) {
        return true;
    }
    match &event.logical_key {
        Key::Named(named) => !has_own_text(named),
        _ => chars_of(text).len() == 0,
    }
}

/// A sequence with a plain key code.
fn plain(code: u32, terminator: char) -> (r: SequenceBase)
    ensures
        r == base(code, terminator),
{
    SequenceBase { code: Some(code), alternate: None, terminator }
}

/// Map a key on the number pad to its code.
pub fn kitty_numpad(event: &KeyEvent) -> (r: Option<SequenceBase>)
    ensures
        r == (if event.location == KeyLocation::Numpad {
            match numpad_code(event.logical_key) {
                Some(code) => Some(base(code, 'u')),
                None => None,
            }
        } else {
            None
        }),
{
    if event.location != KeyLocation::Numpad {
        return None;
    }
    let code: u32 = match &event.logical_key {
        Key::Character(ch) => {
            let v = chars_of(ch.as_str());
            if v.len() != 1 {
                return None;
            }
            let c = v[0];
            if '0' <= c && c <= '9' {
                57399 + (c as u32 - 48)
            } else if c == '.' {
                57409
            } else if c == '/' {
                57410
            } else if c == '*' {
                57411
            } else if c == '-' {
                57412
            } else if c == '+' {
                57413
            } else if c == '=' {
                57415
            } else {
                return None;
            }
        },
        Key::Named(named) => match named {
            NamedKey::Enter => 57414,
            NamedKey::ArrowLeft => 57417,
            NamedKey::ArrowRight => 57418,
            NamedKey::ArrowUp => 57419,
            NamedKey::ArrowDown => 57420,
            NamedKey::PageUp => 57421,
            NamedKey::PageDown => 57422,
            NamedKey::Home => 57423,
            NamedKey::End => 57424,
            NamedKey::Insert => 57425,
            NamedKey::Delete => 57426,
            _ => return None,
        },
        Key::Other => return None,
    };
    Some(plain(code, 'u'))
}

/// Key codes for keys that do not map to a classic sequence.
pub fn kitty_named_key(event: &KeyEvent) -> (r: Option<SequenceBase>)
    ensures
        r == (match named_code(event.logical_key) {
            Some(code) => Some(base(code, 'u')),
            None => None,
        }),
{
    let named = match &event.logical_key {
        Key::Named(named) => named,
        _ => return None,
    };
    let code: u32 = match named {
        NamedKey::F(n) => if *n == 3 {
            13
        } else if 13 <= *n && *n <= 35 {
            57363 + *n as u32
        } else {
            return None;
        },
        NamedKey::ScrollLock => 57359,
        NamedKey::PrintScreen => 57361,
        NamedKey::Pause => 57362,
        NamedKey::ContextMenu => 57363,
        _ => return None,
    };
    Some(plain(code, 'u'))
}

/// Classic sequences reused by the kitty protocol (e.g. `CSI 5~`, `CSI 1;5A`).
pub fn kitty_named_legacy(event: &KeyEvent, explicit: bool) -> (r: Option<SequenceBase>)
    ensures
        r == legacy_base(event.logical_key, explicit),
{
    let named = match &event.logical_key {
        Key::Named(named) => named,
        _ => return None,
    };
    let terminator: char = match named {
        NamedKey::PageUp => return Some(plain(5, '~')),
        NamedKey::PageDown => return Some(plain(6, '~')),
        NamedKey::Insert => return Some(plain(2, '~')),
        NamedKey::Delete => return Some(plain(3, '~')),
        NamedKey::Home => 'H',
        NamedKey::End => 'F',
        NamedKey::ArrowLeft => 'D',
        NamedKey::ArrowRight => 'C',
        NamedKey::ArrowUp => 'A',
        NamedKey::ArrowDown => 'B',
        NamedKey::F(n) => {
            let n: u8 = *n;
            if 1 <= n && n <= 4 {
                (79 + n) as char
            } else if n == 5 {
                return Some(plain(15, '~'));
            } else if 6 <= n && n <= 10 {
                return Some(plain(n as u32 + 11, '~'));
            } else if n == 11 || n == 12 {
                return Some(plain(n as u32 + 12, '~'));
            } else {
                return None;
            }
        },
        _ => return None,
    };
    let code: Option<u32> = if explicit {
        Some(1)
    } else {
        None
    };
    Some(SequenceBase { code, alternate: None, terminator })
}

/// Control keys and modifier keys under the kitty protocol, with the modifiers
/// as they are once a modifier key has changed state.
pub fn kitty_control_or_modifier(event: &KeyEvent, mods: Mods, mode: TermMode) -> (r: Option<
    (SequenceBase, Mods),
>)
    ensures
        r == (match control_or_modifier(*event, mods, mode) {
            Some((code, after)) => Some((base(code, 'u'), after)),
            None => None,
        }),
{
    let named = match &event.logical_key {
        Key::Named(named) => named,
        _ => return None,
    };
    if !kitty_active(mode) {
        return None;
    }
    let control: Option<u32> = match named {
        NamedKey::Tab => Some(9),
        NamedKey::Enter => Some(13),
        NamedKey::Escape => Some(27),
        NamedKey::Space => Some(32),
        NamedKey::Backspace => Some(127),
        _ => None,
    };
    if let Some(code) = control {
        return Some((plain(code, 'u'), mods));
    }
    if !mode.report_all_keys_as_esc {
        return None;
    }
    let pressed = event.state == ElementState::Pressed;
    let side: u32 = if event.location == KeyLocation::Left {
        0
    } else {
        6
    };
    let mut after = mods;
    let code: u32 = match named {
        NamedKey::Shift => {
            after.shift = pressed;
            57441 + side
        },
        NamedKey::Control => {
            after.ctrl = pressed;
            57442 + side
        },
        NamedKey::Alt => {
            after.alt = pressed;
            57443 + side
        },
        NamedKey::Super => {
            after.super_ = pressed;
            57444 + side
        },
        NamedKey::Hyper => {
            after.super_ = pressed;
            57445 + side
        },
        NamedKey::Meta => {
            after.super_ = pressed;
            57446 + side
        },
        NamedKey::CapsLock => 57358,
        NamedKey::NumLock => 57360,
        _ => return None,
    };
    Some((plain(code, 'u'), after))
}

/// The code of a key that types one character, given the lowercase form of that
/// character.
pub fn typed_sequence_base(
    ch: char,
    lower: char,
    unmodified: &Key,
    shift: bool,
    alternates: bool,
) -> (r: SequenceBase)
    ensures
        r == typed_base(ch, lower, *unmodified, shift, alternates),
{
    let mut code: u32 = ch as u32;
    if shift {
        if lower != ch {
            code = lower as u32;
        } else if let Key::Character(text) = unmodified {
            let v = chars_of(text.as_str());
            if v.len() > 0 {
                code = v[0] as u32;
            }
        }
    }
    let alternate: Option<u32> = if alternates && code != ch as u32 {
        Some(ch as u32)
    } else {
        None
    };
    SequenceBase { code: Some(code), alternate, terminator: 'u' }
}

/// Printable text keys under the kitty protocol.
pub fn kitty_textual(event: &KeyEvent, mode: TermMode, shift: bool, has_text: bool) -> (r: Option<
    SequenceBase,
>)
    ensures
        r == textual_base(*event, mode, shift, has_text),
{
    let character = match &event.logical_key {
        Key::Character(ch) => ch,
        _ => return None,
    };
    let v = chars_of(character.as_str());
    if v.len() != 1 {
        return if mode.report_all_keys_as_esc && has_text {
            Some(plain(0, 'u'))
        } else {
            None
        };
    }
    let ch = v[0];
    let lower = lowercase_char(ch);
    Some(
        typed_sequence_base(
            ch,
            lower,
            &event.key_without_modifiers,
            shift,
            mode.report_alternate_keys,
        ),
    )
}

/// The number of the held modifiers in the kitty protocol.
pub fn kitty_modifiers(mods: Mods) -> (r: u8)
    ensures
        r == kitty_modifier(mods),
{
    let mut bits: u8 = 0;
    if mods.shift {
        bits += 1;
    }
    if mods.alt {
        bits += 2;
    }
    if mods.ctrl {
        bits += 4;
    }
    if mods.super_ {
        bits += 8;
    }
    bits
}

/// Whether a text is one ASCII control character.
pub fn is_control_character(text: &str) -> (r: bool)
    ensures
        r == control_text(text@),
{
    let v = chars_of(text);
    v.len() == 1 && (v[0] < ' ' || v[0] == '\x7f')
}

/// The text reported beside a key, where that is asked for.
fn text_to_report(event: &KeyEvent, mode: TermMode) -> (r: Option<String>)
    ensures
        opt_text(r) == associated_text(*event, mode),
{
    match &event.text {
        Some(text) => {
            if mode.report_associated_text && event.state == ElementState::Pressed && chars_of(
                text.as_str(),
            ).len() > 0 && !is_control_character(text.as_str()) {
                Some(owned(text.as_str()))
            } else {
                None
            }
        },
        None => None,
    }
}

/// The code point of a character.
fn code_point(c: char) -> (r: u64)
    ensures
        r == c as nat,
{
    c as u32 as u64
}

/// Append the code points of a text in decimal, with colons between them.
fn push_code_points(out: &mut String, text: &str)
    ensures
        final(out)@ == old(out)@ + code_points(text@),
{
    let ghost start = out@;
    let v = chars_of(text);
    let mut i: usize = 0;
    while i < v.len()
        invariant
            i <= v@.len(),
            v@ == text@,
            out@ == start + code_points(text@.take(i as int)),
        decreases v@.len() - i,
    {
        if i > 0 {
            out.append(":");
        }
        let c = v[i];
        push_decimal(out, code_point(c));
        proof {
            let next = text@.take(i + 1);
            assert(next.drop_last() =~= text@.take(i as int));
            assert(next.last() == c);
            if i == 0 {
                assert(next[0] == c);
                assert(out@ =~= start + decimal(c as nat));
            } else {
                assert(out@ =~= start + (code_points(text@.take(i as int)) + ":"@ + decimal(
                    c as nat,
                )));
            }
        }
        i += 1;
    }
    assert(text@.take(i as int) =~= text@);
}

/// The sequence base of a key and the modifiers to report with it.
fn find_base(event: &KeyEvent, mods: Mods, mode: TermMode, has_text: bool, event_type: bool) -> (r:
    Option<(SequenceBase, Mods)>)
    requires
        has_text == (associated_text(*event, mode) is Some),
        event_type == reports_event(*event, mode),
    ensures
        r == sequence_base(*event, mods, mode),
{
    if let Some(b) = kitty_numpad(event) {
        return Some((b, mods));
    }
    if let Some(b) = kitty_named_key(event) {
        return Some((b, mods));
    }
    let explicit = !mods.is_empty() || event_type || has_text;
    if let Some(b) = kitty_named_legacy(event, explicit) {
        return Some((b, mods));
    }
    if let Some((b, after)) = kitty_control_or_modifier(event, mods, mode) {
        return Some((b, after));
    }
    match kitty_textual(event, mode, mods.shift, has_text) {
        Some(b) => Some((b, mods)),
        None => None,
    }
}

/// Append the key code of a sequence base and the alternate code.
fn push_base(out: &mut String, b: SequenceBase)
    ensures
        final(out)@ == old(out)@ + base_text(b),
{
    let ghost start = out@;
    if let Some(code) = b.code {
        push_decimal(out, code as u64);
    }
    if let Some(code) = b.alternate {
        out.append(":");
        push_decimal(out, code as u64);
    }
    assert(out@ =~= start + base_text(b));
}

/// Append the modifiers of a sequence, if they are wanted.
fn push_modifiers(out: &mut String, mods: Mods, wanted: bool)
    ensures
        final(out)@ == old(out)@ + (if wanted {
            ";"@ + decimal(kitty_modifier(mods) + 1)
        } else {
            seq![]
        }),
{
    let ghost start = out@;
    if wanted {
        out.append(";");
        push_decimal(out, kitty_modifiers(mods) as u64 + 1);
        assert(out@ =~= start + (";"@ + decimal(kitty_modifier(mods) + 1)));
    } else {
        assert(out@ =~= start + seq![]);
    }
}

/// Append the kind of event, if it is wanted.
fn push_event_type(out: &mut String, event: &KeyEvent, wanted: bool)
    ensures
        final(out)@ == old(out)@ + (if !wanted {
            seq![]
        } else if event.repeat {
            ":2"@
        } else {
            ":3"@
        }),
{
    if !wanted {
        assert(out@ =~= out@ + seq![]);
    } else if event.repeat {
        out.append(":2");
    } else {
        out.append(":3");
    }
}

/// Build a kitty keyboard protocol (CSI `u`) sequence for `event`.
pub fn build_kitty_sequence(event: &KeyEvent, mods: Mods, mode: TermMode) -> (r: String)
    ensures
        r@ == kitty_text(*event, mods, mode),
{
    let event_type = mode.report_event_types && (event.repeat || event.state
        == ElementState::Released);
    let shown = text_to_report(event, mode);
    let (b, reported) = match find_base(event, mods, mode, shown.is_some(), event_type) {
        Some(found) => found,
        None => return String::new(),
    };
    let mut out = owned("\x1b[");
    push_base(&mut out, b);
    push_modifiers(&mut out, reported, event_type || !reported.is_empty() || shown.is_some());
    push_event_type(&mut out, event, event_type);
    if let Some(text) = &shown {
        out.append(";");
        push_code_points(&mut out, text.as_str());
    }
    out.push(b.terminator);
    assert(out@ =~= sequence_text(b, reported, *event, mode));
    out
}

/// Encode a key press under the kitty keyboard protocol.
///
/// Alt on keys with text is sent as an escape in front of it, so it is masked
/// out of the modifiers; alt on keys without text stays a modifier.
pub fn encode_pressed_kitty(event: &KeyEvent, mods: Mods, mode: TermMode) -> (r: String)
    ensures
        r@ == pressed_text(*event, mods, mode),
{
    let text = text_or_empty(event);
    let reported = mods_to_report(event, mods);
    if should_build_sequence(event, text.as_str(), mode, reported) {
        build_kitty_sequence(event, reported, mode)
    } else {
        let mut out = String::new();
        if mods.alt {
            out.push('\x1b');
        }
        out.append(text.as_str());
        assert(out@ =~= pressed_text(*event, mods, mode));
        out
    }
}

/// Encode a key release under the kitty keyboard protocol.
pub fn encode_released(event: &KeyEvent, mods: Mods, mode: TermMode) -> (r: String)
    ensures
        r@ == released_text(*event, mods, mode),
{
    let silent = match &event.logical_key {
        Key::Named(NamedKey::Enter) => true,
        Key::Named(NamedKey::Tab) => true,
        Key::Named(NamedKey::Backspace) => true,
        _ => false,
    };
    if silent && !mode.report_all_keys_as_esc {
        return String::new();
    }
    let reported = mods_to_report(event, mods);
    build_kitty_sequence(event, reported, mode)
}

/// Convert a key event into bytes for the terminal.
///
/// `mode` holds the modes of the focused pane. They select between the kitty
/// keyboard protocol and the classic encoding, and decide how cursor keys are
/// sent. The result is empty when the key produces no output: a release is
/// reported only when the kitty protocol was asked for event types.
pub fn encode_key(event: &KeyEvent, mods: Mods, mode: TermMode) -> (r: Vec<u8>)
    ensures
        r@ == encode_utf8(key_text(*event, mods, mode)),
{
    let text = if event.state == ElementState::Pressed {
        if kitty_active(mode) {
            encode_pressed_kitty(event, mods, mode)
        } else {
            encode_classic(event, mods, mode)
        }
    } else if kitty_active(mode) && mode.report_event_types {
        encode_released(event, mods, mode)
    } else {
        String::new()
    };
    assert(text@ =~= key_text(*event, mods, mode));
    text.into_bytes()
}

/// A released key sends nothing unless the program asked for event types.
pub proof fn law_release_is_silent(event: KeyEvent, mods: Mods, mode: TermMode)
    requires
        event.state == ElementState::Released,
        !mode.report_event_types,
    ensures
        key_text(event, mods, mode) == Seq::<char>::empty(),
{
}

/// Plain typing sends the typed text as it is, unless the program asked for the
/// kitty protocol.
pub proof fn law_plain_typing(event: KeyEvent, mode: TermMode)
    requires
        event.state == ElementState::Pressed,
        event.logical_key is Character,
        !kitty_mode(mode),
    ensures
        key_text(event, Mods::none(), mode) == event.logical_key->Character_0@,
{
}

// ---------------------------------------------------------------------------
// Mouse reports
// ---------------------------------------------------------------------------

/// Button code that marks a button release (any button).
pub const MOUSE_RELEASE: u16 = 3;

/// Button code for motion with no button held.
pub const MOUSE_MOTION: u16 = 32;

/// Button code for motion with a button held.
pub const MOUSE_DRAG: u16 = 35;

/// What the held modifiers add to the button code of a mouse report.
pub open spec fn mouse_flags(mods: Mods) -> nat {
    ((if mods.shift {
        4int
    } else {
        0
    }) + (if mods.alt {
        8int
    } else {
        0
    }) + (if mods.ctrl {
        16int
    } else {
        0
    })) as nat
}

/// A mouse report. The SGR form is `CSI < code ; column ; row M` with the
/// position counted from one; the older form gives each number as one byte,
/// offset by 32 and cut to eight bits.
pub open spec fn mouse_report(button: u16, col: usize, row: usize, mods: Mods, sgr: bool) -> Seq<
    u8,
> {
    let code = button as nat + mouse_flags(mods);
    if sgr {
        encode_utf8(
            "\x1b[<"@ + decimal(code) + ";"@ + decimal((col + 1) as nat) + ";"@ + decimal(
                (row + 1) as nat,
            ) + "M"@,
        )
    } else {
        seq![
            27u8,
            91u8,
            77u8,
            ((code + 32) % 256) as u8,
            ((col + 33) % 256) as u8,
            ((row + 33) % 256) as u8,
        ]
    }
}

/// Modifier flags folded into the button code: shift 4, alt 8, ctrl 16.
pub fn mouse_modifier_flags(mods: Mods) -> (r: u16)
    ensures
        r == mouse_flags(mods),
{
    let mut bits: u16 = 0;
    if mods.shift {
        bits += 4;
    }
    if mods.alt {
        bits += 8;
    }
    if mods.ctrl {
        bits += 16;
    }
    bits
}

/// The low byte of a number.
fn low_byte(n: u64) -> (r: u8)
    ensures
        r == n % 256,
{
    (n % 256) as u8
}

/// Encode one mouse event as SGR or X10 bytes for the terminal.
///
/// * `button`: the button code (0 left, 1 middle, 2 right, 3 release, 64 to 67
///   wheel up, down, left and right, 32 and 35 motion and drag).
/// * `col` and `row`: the grid position, counted from zero.
/// * `mods`: the modifiers folded into the button code.
/// * `sgr`: use the SGR form instead of the older X10 form.
pub fn encode_mouse(button: u16, col: usize, row: usize, mods: Mods, sgr: bool) -> (r: Vec<u8>)
    requires
        sgr ==> button + mouse_flags(mods) <= u16::MAX && col < usize::MAX && row < usize::MAX,
        !sgr ==> button + mouse_flags(mods) + 32 <= u16::MAX && col + 33 <= usize::MAX && row + 33
            <= usize::MAX,
    ensures
        r@ == mouse_report(button, col, row, mods, sgr),
{
    let code: u16 = button + mouse_modifier_flags(mods);
    if sgr {
        let mut out = owned("\x1b[<");
        push_decimal(&mut out, code as u64);
        out.append(";");
        push_decimal(&mut out, (col + 1) as u64);
        out.append(";");
        push_decimal(&mut out, (row + 1) as u64);
        out.append("M");
        assert(out@ =~= "\x1b[<"@ + decimal(code as nat) + ";"@ + decimal((col + 1) as nat) + ";"@
            + decimal((row + 1) as nat) + "M"@);
        out.into_bytes()
    } else {
        let mut out: Vec<u8> = Vec::new();
        out.push(27);
        out.push(91);
        out.push(77);
        out.push(low_byte((code + 32) as u64));
        out.push(low_byte((col + 33) as u64));
        out.push(low_byte((row + 33) as u64));
        assert(out@ =~= mouse_report(button, col, row, mods, sgr));
        out
    }
}

/// A sequence of bytes, `n` times over.
pub open spec fn repeated(bytes: Seq<u8>, n: nat) -> Seq<u8>
    decreases n,
{
    if n == 0 {
        seq![]
    } else {
        repeated(bytes, (n - 1) as nat) + bytes
    }
}

/// Scrolling in two goes reports what scrolling at once does.
pub proof fn law_wheel_steps_add(bytes: Seq<u8>, a: nat, b: nat)
    ensures
        repeated(bytes, a) + repeated(bytes, b) == repeated(bytes, a + b),
    decreases b,
{
    if b > 0 {
        law_wheel_steps_add(bytes, a, (b - 1) as nat);
        assert(repeated(bytes, a) + repeated(bytes, b) =~= repeated(bytes, a) + repeated(
            bytes,
            (b - 1) as nat,
        ) + bytes);
    } else {
        assert(repeated(bytes, a) + repeated(bytes, 0) =~= repeated(bytes, a));
    }
}

/// Encode a wheel scroll of `steps` whole lines as mouse reports: one report
/// for each line, so that programs see single wheel steps. `up` scrolls toward
/// older content.
pub fn encode_mouse_wheel(
    steps: usize,
    up: bool,
    col: usize,
    row: usize,
    mods: Mods,
    sgr: bool,
) -> (r: Vec<u8>)
    requires
        steps > 0 && sgr ==> col < usize::MAX && row < usize::MAX,
        steps > 0 && !sgr ==> col + 33 <= usize::MAX && row + 33 <= usize::MAX,
    ensures
        r@ == repeated(
            mouse_report(
                if up {
                    64
                } else {
                    65
                },
                col,
                row,
                mods,
                sgr,
            ),
            steps as nat,
        ),
{
    let button: u16 = if up {
        64
    } else {
        65
    };
    let mut out: Vec<u8> = Vec::new();
    let mut i: usize = 0;
    while i < steps
        invariant
            i <= steps,
            button == 64 || button == 65,
            steps > 0 && sgr ==> col < usize::MAX && row < usize::MAX,
            steps > 0 && !sgr ==> col + 33 <= usize::MAX && row + 33 <= usize::MAX,
            out@ == repeated(mouse_report(button, col, row, mods, sgr), i as nat),
        decreases steps - i,
    {
        let mut report = encode_mouse(button, col, row, mods, sgr);
        out.append(&mut report);
        i += 1;
    }
    out
}

/// Two SGR reports are the same only for the same button code and the same
/// position, however far out it is.
pub proof fn law_sgr_reports_are_distinct(
    b1: u16,
    c1: usize,
    r1: usize,
    m1: Mods,
    b2: u16,
    c2: usize,
    r2: usize,
    m2: Mods,
)
    ensures
        mouse_report(b1, c1, r1, m1, true) == mouse_report(b2, c2, r2, m2, true) <==> b1
            + mouse_flags(m1) == b2 + mouse_flags(m2) && c1 == c2 && r1 == r2,
{
    let code1 = b1 as nat + mouse_flags(m1);
    let code2 = b2 as nat + mouse_flags(m2);
    let (col1, col2) = ((c1 + 1) as nat, (c2 + 1) as nat);
    let (row1, row2) = ((r1 + 1) as nat, (r2 + 1) as nat);
    let last1 = decimal(row1) + "M"@;
    let last2 = decimal(row2) + "M"@;
    let rest1 = decimal(col1) + seq![';'] + last1;
    let rest2 = decimal(col2) + seq![';'] + last2;
    let body1 = decimal(code1) + seq![';'] + rest1;
    let body2 = decimal(code2) + seq![';'] + rest2;
    let all1 = "\x1b[<"@ + body1;
    let all2 = "\x1b[<"@ + body2;
    reveal_strlit(";");
    assert(";"@ =~= seq![';']);
    assert(all1 =~= "\x1b[<"@ + decimal(code1) + ";"@ + decimal(col1) + ";"@ + decimal(row1)
        + "M"@);
    assert(all2 =~= "\x1b[<"@ + decimal(code2) + ";"@ + decimal(col2) + ";"@ + decimal(row2)
        + "M"@);
    if encode_utf8(all1) == encode_utf8(all2) {
        encode_utf8_decode_utf8(all1);
        encode_utf8_decode_utf8(all2);
        let n = "\x1b[<"@.len() as int;
        assert(body1 =~= all1.skip(n));
        assert(body2 =~= all2.skip(n));
        lemma_decimal_digits(code1);
        lemma_decimal_digits(code2);
        lemma_decimal_digits(col1);
        lemma_decimal_digits(col2);
        lemma_parts_at_separator(decimal(code1), rest1, decimal(code2), rest2, ';');
        lemma_parts_at_separator(decimal(col1), last1, decimal(col2), last2, ';');
        assert(decimal(row1) =~= last1.take(last1.len() - "M"@.len()));
        assert(decimal(row2) =~= last2.take(last2.len() - "M"@.len()));
        lemma_decimal_injective(code1, code2);
        lemma_decimal_injective(col1, col2);
        lemma_decimal_injective(row1, row2);
    }
}

/// A wheel report is empty exactly where there is no step, and grows by one
/// report with each.
pub proof fn law_wheel_reports_every_step(
    steps: nat,
    button: u16,
    col: usize,
    row: usize,
    mods: Mods,
    sgr: bool,
)
    ensures
        ({
            let one = mouse_report(button, col, row, mods, sgr);
            &&& repeated(one, steps + 1) == repeated(one, steps) + one
            &&& (repeated(one, steps).len() == 0 <==> steps == 0)
        }),
{
    let one = mouse_report(button, col, row, mods, sgr);
    if sgr {
        reveal_strlit("\x1b[<");
        let text = "\x1b[<"@ + decimal(button as nat + mouse_flags(mods)) + ";"@ + decimal(
            (col + 1) as nat,
        ) + ";"@ + decimal((row + 1) as nat) + "M"@;
        assert(text.len() > 0);
        assert(one == encode_utf8(text));
        encode_utf8_decode_utf8(text);
        if one.len() == 0 {
            assert(one =~= encode_utf8(seq![]));
            encode_utf8_decode_utf8(seq![]);
        }
    }
}

/// Whether the terminal is in any mouse-reporting mode.
pub fn mouse_reporting_active(mode: TermMode) -> (r: bool)
    ensures
        r == (mode.mouse_report_click || mode.mouse_motion || mode.mouse_drag || mode.sgr_mouse
            || mode.utf8_mouse),
{
    mode.mouse_report_click || mode.mouse_motion || mode.mouse_drag || mode.sgr_mouse
        || mode.utf8_mouse
}

// ---------------------------------------------------------------------------
// Laws of key encoding
// ---------------------------------------------------------------------------

/// The digit that stands for ctrl, alt and shift in a classic sequence: `2` for
/// shift, two more for alt, four more for ctrl.
pub open spec fn modifier_digit(mods: Mods) -> char {
    match (mods.ctrl, mods.alt, mods.shift) {
        (false, false, false) => '1',
        (false, false, true) => '2',
        (false, true, false) => '3',
        (false, true, true) => '4',
        (true, false, false) => '5',
        (true, false, true) => '6',
        (true, true, false) => '7',
        (true, true, true) => '8',
    }
}

/// The numeral of a held modifier is one digit.
proof fn lemma_modifier_digit(mods: Mods)
    ensures
        decimal(classic_modifier(mods)) == seq![modifier_digit(mods)],
        classic_modifier(mods) == 1 <==> !mods.ctrl && !mods.alt && !mods.shift,
{
    assert(decimal(classic_modifier(mods)) =~= seq![modifier_digit(mods)]);
}

/// Whether a named key is the cursor key with a letter: up, down, right, left,
/// home and end.
pub open spec fn cursor_letter(key: Key, letter: char) -> bool {
    ||| key == Key::Named(NamedKey::ArrowUp) && letter == 'A'
    ||| key == Key::Named(NamedKey::ArrowDown) && letter == 'B'
    ||| key == Key::Named(NamedKey::ArrowRight) && letter == 'C'
    ||| key == Key::Named(NamedKey::ArrowLeft) && letter == 'D'
    ||| key == Key::Named(NamedKey::End) && letter == 'F'
    ||| key == Key::Named(NamedKey::Home) && letter == 'H'
}

/// Outside the kitty protocol, a cursor key sends `ESC [` and its letter; with a
/// modifier held, `ESC [ 1 ;`, the digit of the modifiers and its letter. In
/// application cursor mode an arrow without a modifier sends `ESC O` and its
/// letter.
pub proof fn law_cursor_keys(event: KeyEvent, mods: Mods, mode: TermMode, letter: char)
    requires
        event.state == ElementState::Pressed,
        !kitty_mode(mode),
        cursor_letter(event.logical_key, letter),
    ensures
        ({
            let plain = !mods.ctrl && !mods.alt && !mods.shift;
            let arrow = letter == 'A' || letter == 'B' || letter == 'C' || letter == 'D';
            let text = key_text(event, mods, mode);
            &&& plain && !(arrow && mode.app_cursor) ==> text == seq!['\x1b', '[', letter]
            &&& plain && arrow && mode.app_cursor ==> text == seq!['\x1b', 'O', letter]
            &&& !plain ==> text == seq!['\x1b', '[', '1', ';', modifier_digit(mods), letter]
        }),
{
    lemma_modifier_digit(mods);
    reveal_strlit("A");
    reveal_strlit("B");
    reveal_strlit("C");
    reveal_strlit("D");
    reveal_strlit("F");
    reveal_strlit("H");
    reveal_strlit("\x1b[");
    reveal_strlit("\x1bO");
    reveal_strlit("\x1b[1;");
    let plain = !mods.ctrl && !mods.alt && !mods.shift;
    let arrow = letter == 'A' || letter == 'B' || letter == 'C' || letter == 'D';
    let text = key_text(event, mods, mode);
    if plain && arrow && mode.app_cursor {
        assert(text =~= seq!['\x1b', 'O', letter]);
    } else if plain {
        assert(text =~= seq!['\x1b', '[', letter]);
    } else {
        assert(text =~= seq!['\x1b', '[', '1', ';', modifier_digit(mods), letter]);
    }
}

/// Whether a named key is the one with a number: the editing keys and the
/// function keys from the fifth on, which leave out 16 and 22.
pub open spec fn key_number(key: Key, number: nat) -> bool {
    ||| key == Key::Named(NamedKey::Insert) && number == 2
    ||| key == Key::Named(NamedKey::Delete) && number == 3
    ||| key == Key::Named(NamedKey::PageUp) && number == 5
    ||| key == Key::Named(NamedKey::PageDown) && number == 6
    ||| key == Key::Named(NamedKey::F(5)) && number == 15
    ||| key == Key::Named(NamedKey::F(6)) && number == 17
    ||| key == Key::Named(NamedKey::F(7)) && number == 18
    ||| key == Key::Named(NamedKey::F(8)) && number == 19
    ||| key == Key::Named(NamedKey::F(9)) && number == 20
    ||| key == Key::Named(NamedKey::F(10)) && number == 21
    ||| key == Key::Named(NamedKey::F(11)) && number == 23
    ||| key == Key::Named(NamedKey::F(12)) && number == 24
}

/// Outside the kitty protocol, a key with a number sends `ESC [`, the number and
/// `~`; with a modifier held, its digit stands behind a semicolon before the `~`.
pub proof fn law_numbered_keys(event: KeyEvent, mods: Mods, mode: TermMode, number: nat)
    requires
        event.state == ElementState::Pressed,
        !kitty_mode(mode),
        key_number(event.logical_key, number),
    ensures
        ({
            let plain = !mods.ctrl && !mods.alt && !mods.shift;
            let text = key_text(event, mods, mode);
            &&& plain ==> text == seq!['\x1b', '['] + decimal(number) + seq!['~']
            &&& !plain ==> text == seq!['\x1b', '['] + decimal(number) + seq![
                ';',
                modifier_digit(mods),
                '~',
            ]
        }),
{
    lemma_modifier_digit(mods);
    reveal_strlit("\x1b[");
    reveal_strlit(";");
    reveal_strlit("~");
    let text = key_text(event, mods, mode);
    if !mods.ctrl && !mods.alt && !mods.shift {
        assert(text =~= seq!['\x1b', '['] + decimal(number) + seq!['~']);
    } else {
        assert(text =~= seq!['\x1b', '['] + decimal(number) + seq![
            ';',
            modifier_digit(mods),
            '~',
        ]);
    }
}

/// Outside the kitty protocol, the keys that stand for a character send it, shift
/// and tab send the sequence of the back tab, and the first four function keys
/// send `ESC O` and the letters from `P` on, whatever is held.
pub proof fn law_character_keys(event: KeyEvent, mods: Mods, mode: TermMode, n: u8)
    requires
        event.state == ElementState::Pressed,
        !kitty_mode(mode),
    ensures
        ({
            let text = key_text(event, mods, mode);
            let key = event.logical_key;
            &&& key == Key::Named(NamedKey::Enter) ==> text == seq!['\r']
            &&& key == Key::Named(NamedKey::Tab) && !mods.shift ==> text == seq!['\t']
            &&& key == Key::Named(NamedKey::Tab) && mods.shift ==> text == seq!['\x1b', '[', 'Z']
            &&& key == Key::Named(NamedKey::Escape) ==> text == seq!['\x1b']
            &&& key == Key::Named(NamedKey::Backspace) ==> text == seq!['\x7f']
            &&& key == Key::Named(NamedKey::Space) ==> text == seq![' ']
            &&& key == Key::Named(NamedKey::F(1)) ==> text == seq!['\x1b', 'O', 'P']
            &&& key == Key::Named(NamedKey::F(2)) ==> text == seq!['\x1b', 'O', 'Q']
            &&& key == Key::Named(NamedKey::F(3)) ==> text == seq!['\x1b', 'O', 'R']
            &&& key == Key::Named(NamedKey::F(4)) ==> text == seq!['\x1b', 'O', 'S']
            &&& key == Key::Named(NamedKey::F(n)) && (n == 0 || n > 12) ==> text.len() == 0
            &&& key == Key::Other ==> text.len() == 0
        }),
{
    reveal_strlit("\r");
    reveal_strlit("\t");
    reveal_strlit("\x1b[Z");
    reveal_strlit("\x1b");
    reveal_strlit("\x7f");
    reveal_strlit(" ");
    reveal_strlit("\x1bOP");
    reveal_strlit("\x1bOQ");
    reveal_strlit("\x1bOR");
    reveal_strlit("\x1bOS");
    let text = key_text(event, mods, mode);
    assert("\r"@ =~= seq!['\r']);
    assert("\t"@ =~= seq!['\t']);
    assert("\x1b[Z"@ =~= seq!['\x1b', '[', 'Z']);
    assert("\x1b"@ =~= seq!['\x1b']);
    assert("\x7f"@ =~= seq!['\x7f']);
    assert(" "@ =~= seq![' ']);
    assert("\x1bOP"@ =~= seq!['\x1b', 'O', 'P']);
    assert("\x1bOQ"@ =~= seq!['\x1b', 'O', 'Q']);
    assert("\x1bOR"@ =~= seq!['\x1b', 'O', 'R']);
    assert("\x1bOS"@ =~= seq!['\x1b', 'O', 'S']);
}

/// Outside the kitty protocol, ctrl makes a letter, in either case, the control
/// character of the same place in the alphabet, and the symbols behind `Z` those
/// that follow; a blank and a `2` become the null character. Alt puts an escape
/// in front of an ASCII character.
pub proof fn law_control_and_alt(event: KeyEvent, mods: Mods, mode: TermMode, c: char)
    requires
        event.state == ElementState::Pressed,
        !kitty_mode(mode),
        event.logical_key matches Key::Character(ch) && ch@ == seq![c],
        c as u32 <= 0x7f,
    ensures
        ({
            let text = key_text(event, mods, mode);
            let letter = 'a' <= c <= 'z' || 'A' <= c <= 'Z';
            let symbol = c == '[' || c == '\\' || c == ']' || c == '^' || c == '_';
            let null = c == ' ' || c == '2';
            &&& mods.ctrl && (letter || symbol) ==> text.len() == 1 && text[0] as u32 == c as u32
                % 32
            &&& mods.ctrl && null ==> text.len() == 1 && text[0] as u32 == 0
            &&& !(mods.ctrl && (letter || symbol || null)) && mods.alt ==> text == seq!['\x1b', c]
            &&& !(mods.ctrl && (letter || symbol || null)) && !mods.alt ==> text == seq![c]
        }),
{
    let ch = event.logical_key->Character_0;
    assert(ch@[0] == c);
}

/// Outside the kitty protocol, text beyond a single ASCII character goes out as it
/// is, and not at all while ctrl or alt is held.
pub proof fn law_other_text_is_plain(event: KeyEvent, mods: Mods, mode: TermMode)
    requires
        event.state == ElementState::Pressed,
        !kitty_mode(mode),
        event.logical_key matches Key::Character(ch) && !(ch@.len() == 1 && ch@[0] as u32 <= 0x7f),
    ensures
        !mods.ctrl && !mods.alt ==> key_text(event, mods, mode)
            == event.logical_key->Character_0@,
        mods.ctrl || mods.alt ==> key_text(event, mods, mode).len() == 0,
{
}

/// A program that asks the protocol only to tell keys apart still gets the
/// classic sequence of every cursor, editing and function key from the fifth on,
/// whatever is held of ctrl, alt and shift.
pub proof fn law_protocol_keeps_classic_sequences(
    event: KeyEvent,
    mods: Mods,
    letter: char,
    number: nat,
)
    requires
        event.state == ElementState::Pressed,
        event.text is None,
        event.location != KeyLocation::Numpad,
        !mods.super_,
        cursor_letter(event.logical_key, letter) || key_number(event.logical_key, number),
    ensures
        key_text(event, mods, TermMode { disambiguate_esc_codes: true, ..TermMode::none() })
            == key_text(event, mods, TermMode::none()),
{
    let mode = TermMode { disambiguate_esc_codes: true, ..TermMode::none() };
    let text = key_text(event, mods, mode);
    lemma_modifier_digit(mods);
    assert(kitty_modifier(mods) + 1 == classic_modifier(mods));
    reveal_strlit("\x1b[");
    reveal_strlit(";");
    assert(decimal(1) =~= seq!['1']);
    let plain = !mods.ctrl && !mods.alt && !mods.shift;
    assert(plain <==> mods == Mods::none());
    if cursor_letter(event.logical_key, letter) {
        law_cursor_keys(event, mods, TermMode::none(), letter);
        if plain {
            assert(text =~= seq!['\x1b', '[', letter]);
        } else {
            assert(text =~= seq!['\x1b', '[', '1', ';', modifier_digit(mods), letter]);
        }
    } else {
        law_numbered_keys(event, mods, TermMode::none(), number);
        if plain {
            assert(text =~= seq!['\x1b', '['] + decimal(number) + seq!['~']);
        } else {
            assert(text =~= seq!['\x1b', '['] + decimal(number) + seq![
                ';',
                modifier_digit(mods),
                '~',
            ]);
        }
    }
}

/// A program that asks the protocol only to tell keys apart gets typed text as
/// text, with an escape in front where alt is held; escape itself, and a key with
/// ctrl or super held, come as sequences.
pub proof fn law_text_stays_text(event: KeyEvent, mods: Mods, c: char)
    requires
        event.state == ElementState::Pressed,
        event.location != KeyLocation::Numpad,
        event.logical_key matches Key::Character(ch) && ch@ == seq![c],
        event.text matches Some(text) && text@ == seq![c],
        !mods.shift,
    ensures
        ({
            let mode = TermMode { disambiguate_esc_codes: true, ..TermMode::none() };
            let text = key_text(event, mods, mode);
            let number = 1 + (if mods.ctrl {
                4nat
            } else {
                0
            }) + (if mods.super_ {
                8nat
            } else {
                0
            });
            &&& !mods.ctrl && !mods.super_ && !mods.alt ==> text == seq![c]
            &&& !mods.ctrl && !mods.super_ && mods.alt ==> text == seq!['\x1b', c]
            &&& mods.ctrl || mods.super_ ==> text == seq!['\x1b', '['] + decimal(c as nat)
                + seq![';'] + decimal(number) + seq!['u']
        }),
{
    let mode = TermMode { disambiguate_esc_codes: true, ..TermMode::none() };
    let text = key_text(event, mods, mode);
    let ch = event.logical_key->Character_0;
    assert(ch@[0] == c);
    reveal_strlit("\x1b[");
    reveal_strlit(";");
    if mods.ctrl || mods.super_ {
        let number = kitty_modifier(Mods { alt: false, ..mods }) + 1;
        assert(text =~= seq!['\x1b', '['] + decimal(c as nat) + seq![';'] + decimal(number) + seq![
            'u',
        ]);
    } else if mods.alt {
        assert(text =~= seq!['\x1b', c]);
    } else {
        assert(text =~= seq![c]);
    }
}

/// A program that asks for every key as a sequence gets the code of the typed
/// character. Behind it come the modifiers, one more than their sum of 1 for
/// shift, 2 for alt, 4 for ctrl and 8 for super; behind a colon the kind of event,
/// 2 for a repeat and 3 for a release; and behind another semicolon the typed
/// text. What would say nothing is left out.
pub proof fn law_key_sequence(event: KeyEvent, mods: Mods, mode: TermMode, c: char)
    requires
        mode.report_all_keys_as_esc,
        !mode.report_alternate_keys,
        event.location != KeyLocation::Numpad,
        event.logical_key matches Key::Character(ch) && ch@ == seq![c],
        event.text is None || (event.text matches Some(text) && text@ == seq![c]),
        c as u32 >= 0x20 && c as u32 != 0x7f,
        !mods.shift,
        event.text is Some ==> !mods.alt,
        event.state == ElementState::Pressed || mode.report_event_types,
    ensures
        ({
            let number = 1 + (if mods.alt {
                2nat
            } else {
                0
            }) + (if mods.ctrl {
                4nat
            } else {
                0
            }) + (if mods.super_ {
                8nat
            } else {
                0
            });
            let released = event.state == ElementState::Released;
            let kind = mode.report_event_types && (event.repeat || released);
            let typed = mode.report_associated_text && event.text is Some && !released;
            let modifiers = if number > 1 || kind || typed {
                seq![';'] + decimal(number)
            } else {
                seq![]
            };
            let event_kind = if !kind {
                seq![]
            } else if event.repeat {
                seq![':', '2']
            } else {
                seq![':', '3']
            };
            let own_text = if typed {
                seq![';'] + decimal(c as nat)
            } else {
                seq![]
            };
            key_text(event, mods, mode) == seq!['\x1b', '['] + decimal(c as nat) + modifiers
                + event_kind + own_text + seq!['u']
        }),
{
    reveal_strlit("\x1b[");
    reveal_strlit(";");
    reveal_strlit(":2");
    reveal_strlit(":3");
    assert("\x1b["@ =~= seq!['\x1b', '[']);
    assert(";"@ =~= seq![';']);
    assert(":2"@ =~= seq![':', '2']);
    assert(":3"@ =~= seq![':', '3']);
    let ch = event.logical_key->Character_0;
    assert(ch@[0] == c);
    assert(reported_mods(event, mods) == mods);
    let text = key_text(event, mods, mode);
    assert(text == kitty_text(event, mods, mode));
    let empty = Seq::<char>::empty();
    assert(decimal(c as nat) + empty =~= decimal(c as nat));
    assert(event.text is Some ==> code_points(event_text(event)) == decimal(c as nat));
}

/// Shift is taken back from an ASCII letter: the sequence has the code of the
/// lowercase letter, and that of the typed one behind a colon where alternates
/// are asked for.
pub proof fn law_shifted_letter(event: KeyEvent, mode: TermMode, c: char)
    requires
        event.state == ElementState::Pressed,
        mode.report_all_keys_as_esc,
        !mode.report_associated_text,
        !mode.report_event_types,
        event.location != KeyLocation::Numpad,
        event.logical_key matches Key::Character(ch) && ch@ == seq![c],
        'A' <= c <= 'Z',
    ensures
        ({
            let shift = Mods { shift: true, ..Mods::none() };
            let text = key_text(event, shift, mode);
            let lower = decimal((c as u32 + 32) as nat);
            &&& !mode.report_alternate_keys ==> text == seq!['\x1b', '['] + lower + seq![
                ';',
                '2',
                'u',
            ]
            &&& mode.report_alternate_keys ==> text == seq!['\x1b', '['] + lower + seq![':']
                + decimal(c as nat) + seq![';', '2', 'u']
        }),
{
    let shift = Mods { shift: true, ..Mods::none() };
    let text = key_text(event, shift, mode);
    let lower = decimal((c as u32 + 32) as nat);
    let ch = event.logical_key->Character_0;
    assert(ch@[0] == c);
    reveal_strlit("\x1b[");
    reveal_strlit(";");
    reveal_strlit(":");
    assert(decimal(2) =~= seq!['2']);
    assert(reported_mods(event, shift) == shift);
    if mode.report_alternate_keys {
        assert(text =~= seq!['\x1b', '['] + lower + seq![':'] + decimal(c as nat) + seq![
            ';',
            '2',
            'u',
        ]);
    } else {
        assert(text =~= seq!['\x1b', '['] + lower + seq![';', '2', 'u']);
    }
}

/// Under the protocol a key that stands for a character has the code of the
/// character that it sends without it.
pub proof fn law_control_key_codes(named: NamedKey, mode: TermMode, event: KeyEvent)
    requires
        named is Enter || named is Tab || named is Escape || named is Space || named is Backspace,
        event.logical_key == Key::Named(named),
        event.state == ElementState::Pressed,
    ensures
        control_key_code(named) matches Some(code) && key_text(
            event,
            Mods::none(),
            TermMode::none(),
        ) == seq![code as char],
{
    law_character_keys(event, Mods::none(), TermMode::none(), 0);
}

/// The codes of the modifier keys follow each other, shift first, then control,
/// alt, super, hyper and meta; the right ones come behind the left ones in the
/// same order. Going down or up, such a key counts as held or not.
pub proof fn law_modifier_keys(mods: Mods, left: bool, pressed: bool)
    ensures
        ({
            let first: u32 = if left {
                57441
            } else {
                57447
            };
            &&& modifier_key_code(NamedKey::Shift, left) == Some(first)
            &&& modifier_key_code(NamedKey::Control, left) == Some((first + 1) as u32)
            &&& modifier_key_code(NamedKey::Alt, left) == Some((first + 2) as u32)
            &&& modifier_key_code(NamedKey::Super, left) == Some((first + 3) as u32)
            &&& modifier_key_code(NamedKey::Hyper, left) == Some((first + 4) as u32)
            &&& modifier_key_code(NamedKey::Meta, left) == Some((first + 5) as u32)
            &&& modifier_key_code(NamedKey::CapsLock, left) == Some(57358u32)
            &&& modifier_key_code(NamedKey::NumLock, left) == Some(57360u32)
        }),
        ({
            let after = mods_after(NamedKey::Shift, pressed, mods);
            after.shift == pressed && after.ctrl == mods.ctrl && after.alt == mods.alt
                && after.super_ == mods.super_
        }),
        ({
            let after = mods_after(NamedKey::Control, pressed, mods);
            after.ctrl == pressed && after.shift == mods.shift && after.alt == mods.alt
                && after.super_ == mods.super_
        }),
        ({
            let after = mods_after(NamedKey::Alt, pressed, mods);
            after.alt == pressed && after.shift == mods.shift && after.ctrl == mods.ctrl
                && after.super_ == mods.super_
        }),
        ({
            let after = mods_after(NamedKey::Super, pressed, mods);
            after.super_ == pressed && after.shift == mods.shift && after.ctrl == mods.ctrl
                && after.alt == mods.alt
        }),
{
}

/// The keys of the number pad have codes of their own: the digits in their order,
/// and behind them the signs and the cursor and editing keys.
pub proof fn law_number_pad_codes(key: Key, c: char, d: u32)
    requires
        key matches Key::Character(ch) && ch@ == seq![c],
        d <= 9,
        c as u32 == 48 + d,
    ensures
        numpad_code(key) == Some((57399 + d) as u32),
        numpad_code(Key::Named(NamedKey::Enter)) == Some(57414u32),
        numpad_code(Key::Named(NamedKey::ArrowLeft)) == Some(57417u32),
        numpad_code(Key::Named(NamedKey::ArrowRight)) == Some(57418u32),
        numpad_code(Key::Named(NamedKey::ArrowUp)) == Some(57419u32),
        numpad_code(Key::Named(NamedKey::ArrowDown)) == Some(57420u32),
        numpad_code(Key::Named(NamedKey::PageUp)) == Some(57421u32),
        numpad_code(Key::Named(NamedKey::PageDown)) == Some(57422u32),
        numpad_code(Key::Named(NamedKey::Home)) == Some(57423u32),
        numpad_code(Key::Named(NamedKey::End)) == Some(57424u32),
        numpad_code(Key::Named(NamedKey::Insert)) == Some(57425u32),
        numpad_code(Key::Named(NamedKey::Delete)) == Some(57426u32),
{
}

/// The signs of the number pad have the codes behind its digits, in the order
/// point, slash, star, minus, plus and equals; enter stands before equals.
pub proof fn law_number_pad_signs(key: Key, i: int)
    requires
        0 <= i < 7 && i != 5,
        key matches Key::Character(ch) && ch@ == seq![seq!['.', '/', '*', '-', '+', ' ', '='][i]],
    ensures
        numpad_code(key) == Some((57409 + i) as u32),
{
}

/// The function keys behind the twelfth, and the keys above the cursor block, have
/// codes of their own; so has the third, whose classic sequence is taken.
pub proof fn law_named_key_codes(n: u8)
    ensures
        13 <= n <= 35 ==> named_code(Key::Named(NamedKey::F(n))) == Some((57376 + (n - 13)) as u32),
        n <= 12 && n != 3 ==> named_code(Key::Named(NamedKey::F(n))) is None,
        n > 35 ==> named_code(Key::Named(NamedKey::F(n))) is None,
        named_code(Key::Named(NamedKey::F(3))) == Some(13u32),
        named_code(Key::Named(NamedKey::ScrollLock)) == Some(57359u32),
        named_code(Key::Named(NamedKey::PrintScreen)) == Some(57361u32),
        named_code(Key::Named(NamedKey::Pause)) == Some(57362u32),
        named_code(Key::Named(NamedKey::ContextMenu)) == Some(57363u32),
{
}

/// A key of the number pad, one with a code of its own, and a first function key
/// go out under the protocol as a sequence with their code and what is held.
pub proof fn law_coded_keys(event: KeyEvent, mods: Mods, mode: TermMode, code: u32)
    requires
        event.state == ElementState::Pressed,
        event.text is None,
        mode.disambiguate_esc_codes,
        !mode.report_event_types,
        event.logical_key is Named,
        !types_text(event.logical_key->Named_0),
        if event.location == KeyLocation::Numpad && numpad_code(event.logical_key) is Some {
            numpad_code(event.logical_key) == Some(code)
        } else {
            named_code(event.logical_key) == Some(code)
        },
    ensures
        ({
            let number = 1 + (if mods.shift {
                1nat
            } else {
                0
            }) + (if mods.alt {
                2nat
            } else {
                0
            }) + (if mods.ctrl {
                4nat
            } else {
                0
            }) + (if mods.super_ {
                8nat
            } else {
                0
            });
            let modifiers = if number > 1 {
                seq![';'] + decimal(number)
            } else {
                seq![]
            };
            key_text(event, mods, mode) == seq!['\x1b', '['] + decimal(code as nat) + modifiers
                + seq!['u']
        }),
{
    reveal_strlit("\x1b[");
    reveal_strlit(";");
    assert("\x1b["@ =~= seq!['\x1b', '[']);
    assert(";"@ =~= seq![';']);
    let empty = Seq::<char>::empty();
    assert(decimal(code as nat) + empty =~= decimal(code as nat));
    let text = key_text(event, mods, mode);
    let number = kitty_modifier(mods) + 1;
    let modifiers = if number > 1 {
        seq![';'] + decimal(number)
    } else {
        seq![]
    };
    assert(mods == Mods::none() <==> number == 1);
    assert(text =~= seq!['\x1b', '['] + decimal(code as nat) + modifiers + seq!['u']);
}

/// Without every key being reported, releases of enter, tab and backspace stay
/// silent, so that a shell is not sent what it has not asked for; and plain
/// presses of them send what they always do.
pub proof fn law_shell_keys_stay_plain(event: KeyEvent, mode: TermMode)
    requires
        event.logical_key == Key::Named(NamedKey::Enter) || event.logical_key == Key::Named(
            NamedKey::Tab,
        ) || event.logical_key == Key::Named(NamedKey::Backspace),
        !mode.report_all_keys_as_esc,
        event.location != KeyLocation::Numpad,
    ensures
        event.state == ElementState::Released ==> key_text(event, Mods::none(), mode).len() == 0,
        event.state == ElementState::Pressed && kitty_mode(mode) ==> key_text(
            event,
            Mods::none(),
            mode,
        ) == event_text(event),
{
}

/// A mouse report in the SGR form is `ESC [ <`, the button with 4 added for shift,
/// 8 for alt and 16 for ctrl, the column and the row, both counted from one, and
/// `M`; in the older form it is six bytes, the last three offset by 32.
pub proof fn law_mouse_report_fields(button: u16, col: usize, row: usize, mods: Mods)
    ensures
        ({
            let code = button as nat + (if mods.shift {
                4nat
            } else {
                0
            }) + (if mods.alt {
                8nat
            } else {
                0
            }) + (if mods.ctrl {
                16nat
            } else {
                0
            });
            let old = mouse_report(button, col, row, mods, false);
            &&& mouse_report(button, col, row, mods, true) == encode_utf8(
                seq!['\x1b', '[', '<'] + decimal(code) + seq![';'] + decimal((col + 1) as nat)
                    + seq![';'] + decimal((row + 1) as nat) + seq!['M'],
            )
            &&& old.len() == 6 && old[0] == 0x1b && old[1] == 0x5b && old[2] == 0x4d
            &&& old[3] as int == (code + 32) % 256
            &&& old[4] as int == (col + 1 + 32) % 256
            &&& old[5] as int == (row + 1 + 32) % 256
        }),
{
    reveal_strlit("\x1b[<");
    reveal_strlit(";");
    reveal_strlit("M");
    assert("\x1b[<"@ =~= seq!['\x1b', '[', '<']);
    assert(";"@ =~= seq![';']);
    assert("M"@ =~= seq!['M']);
}

// ---------------------------------------------------------------------------
// Laws of key bindings
// ---------------------------------------------------------------------------

/// The binding of a key with just what is held comes first, whatever else is
/// bound. A symbol that shift makes is bound without shift as well, and the
/// physical key comes last.
pub proof fn law_binding_order(
    event: KeyEvent,
    mods: Mods,
    table: Map<Seq<char>, Seq<char>>,
    name: Seq<char>,
)
    requires
        key_name(event.logical_key) == Some(name),
    ensures
        ({
            let exact = mods_prefix(mods) + name;
            let loose = mods_prefix(Mods { shift: false, ..mods }) + name;
            let symbol = event.logical_key matches Key::Character(ch) && shifted_symbol(ch@);
            &&& table.contains_key(exact) ==> resolved(event, mods, table) == Some(table[exact])
            &&& !table.contains_key(exact) && mods.shift && symbol && table.contains_key(loose)
                ==> resolved(event, mods, table) == Some(table[loose])
            &&& physical_key_name(event.logical_key, event.physical_key) matches Some(place) ==> {
                let bound = mods_prefix(mods) + place;
                !table.contains_key(exact) && !(mods.shift && symbol && table.contains_key(loose))
                    && table.contains_key(bound) ==> resolved(event, mods, table) == Some(
                    table[bound],
                )
            }
        }),
{
    let physical = physical_key_name(event.logical_key, event.physical_key);
    let names = candidates(event, mods, name, physical);
    reveal_with_fuel(first_bound, 4);
    let exact = mods_prefix(mods) + name;
    assert(names[0] == exact);
    let absorbed = match event.logical_key {
        Key::Character(ch) => mods.shift && shifted_symbol(ch@),
        _ => false,
    };
    let rest = names.drop_first();
    if absorbed {
        assert(rest[0] == mods_prefix(mods.spec_without_shift()) + name);
        if physical is Some && physical->0 != name {
            assert(rest.drop_first()[0] == mods_prefix(mods) + physical->0);
        }
    } else if physical is Some && physical->0 != name {
        assert(rest[0] == mods_prefix(mods) + physical->0);
    }
}

/// Nothing is bound where neither the key nor its place is bound, with or without
/// shift.
pub proof fn law_unbound_key_passes_through(
    event: KeyEvent,
    mods: Mods,
    table: Map<Seq<char>, Seq<char>>,
)
    requires
        forall|name: Seq<char>|
            (key_name(event.logical_key) == Some(name) || physical_key_name(
                event.logical_key,
                event.physical_key,
            ) == Some(name)) ==> !table.contains_key(#[trigger] (mods_prefix(mods) + name))
                && !table.contains_key(mods_prefix(Mods { shift: false, ..mods }) + name),
    ensures
        resolved(event, mods, table) is None,
{
    reveal_with_fuel(first_bound, 6);
    if let Some(logical) = key_name(event.logical_key) {
        let physical = physical_key_name(event.logical_key, event.physical_key);
        let names = candidates(event, mods, logical, physical);
        assert(!table.contains_key(mods_prefix(mods) + logical));
        if let Some(place) = physical {
            assert(!table.contains_key(mods_prefix(mods) + place));
        }
        assert forall|i: int| 0 <= i < names.len() implies !table.contains_key(
            #[trigger] names[i],
        ) by {}
        lemma_none_bound(names, table);
    }
}

/// Where no name is bound, none is found.
proof fn lemma_none_bound(names: Seq<Seq<char>>, table: Map<Seq<char>, Seq<char>>)
    requires
        forall|i: int| 0 <= i < names.len() ==> !table.contains_key(#[trigger] names[i]),
    ensures
        first_bound(names, table) is None,
    decreases names.len(),
{
    if names.len() > 0 {
        let rest = names.drop_first();
        assert forall|i: int| 0 <= i < rest.len() implies !table.contains_key(
            #[trigger] rest[i],
        ) by {
            assert(rest[i] == names[i + 1]);
        }
        lemma_none_bound(rest, table);
    }
}

/// The bytes of the arrow keys: `ESC [` and `A`, `B`, `C`, `D` for up, down,
/// right and left, in the classic encoding and for a program that asks the
/// protocol to tell keys apart alike.
pub proof fn law_arrow_keys(event: KeyEvent)
    requires
        event.state == ElementState::Pressed,
        event.text is None,
        event.location != KeyLocation::Numpad,
    ensures
        ({
            let key = event.logical_key;
            let plain = key_text(event, Mods::none(), TermMode::none());
            let asked = TermMode { disambiguate_esc_codes: true, ..TermMode::none() };
            let arrow = key == Key::Named(NamedKey::ArrowUp) || key == Key::Named(
                NamedKey::ArrowDown,
            ) || key == Key::Named(NamedKey::ArrowRight) || key == Key::Named(NamedKey::ArrowLeft);
            &&& key == Key::Named(NamedKey::ArrowUp) ==> plain == seq!['\x1b', '[', 'A']
            &&& key == Key::Named(NamedKey::ArrowDown) ==> plain == seq!['\x1b', '[', 'B']
            &&& key == Key::Named(NamedKey::ArrowRight) ==> plain == seq!['\x1b', '[', 'C']
            &&& key == Key::Named(NamedKey::ArrowLeft) ==> plain == seq!['\x1b', '[', 'D']
            &&& arrow ==> key_text(event, Mods::none(), asked) == plain
        }),
{
    let key = event.logical_key;
    let letter = if key == Key::Named(NamedKey::ArrowUp) {
        'A'
    } else if key == Key::Named(NamedKey::ArrowDown) {
        'B'
    } else if key == Key::Named(NamedKey::ArrowRight) {
        'C'
    } else {
        'D'
    };
    if cursor_letter(key, letter) {
        law_cursor_keys(event, Mods::none(), TermMode::none(), letter);
        law_protocol_keeps_classic_sequences(event, Mods::none(), letter, 0);
    }
}

/// Under the protocol the first, second and fourth function key send `ESC [` and
/// the letter that they end in without it.
pub proof fn law_first_function_keys(event: KeyEvent)
    requires
        event.state == ElementState::Pressed,
        event.text is None,
        event.location != KeyLocation::Numpad,
    ensures
        ({
            let asked = TermMode { disambiguate_esc_codes: true, ..TermMode::none() };
            let text = key_text(event, Mods::none(), asked);
            let key = event.logical_key;
            &&& key == Key::Named(NamedKey::F(1)) ==> text == seq!['\x1b', '[', 'P']
            &&& key == Key::Named(NamedKey::F(2)) ==> text == seq!['\x1b', '[', 'Q']
            &&& key == Key::Named(NamedKey::F(4)) ==> text == seq!['\x1b', '[', 'S']
        }),
{
    reveal_strlit("\x1b[");
    let asked = TermMode { disambiguate_esc_codes: true, ..TermMode::none() };
    let text = key_text(event, Mods::none(), asked);
    let key = event.logical_key;
    if key == Key::Named(NamedKey::F(1)) {
        assert(text =~= seq!['\x1b', '[', 'P']);
    } else if key == Key::Named(NamedKey::F(2)) {
        assert(text =~= seq!['\x1b', '[', 'Q']);
    } else if key == Key::Named(NamedKey::F(4)) {
        assert(text =~= seq!['\x1b', '[', 'S']);
    }
}

/// Where every key is reported, a key that stands for a character sends the code
/// of that character, with shift, ctrl and super among the modifiers and alt
/// left out, and a modifier key its own code, with itself among the modifiers.
pub proof fn law_reported_named_keys(event: KeyEvent, mods: Mods, code: u32, own: nat)
    requires
        event.state == ElementState::Pressed,
        event.text is None,
        event.location == KeyLocation::Left,
        ({
            let key = event.logical_key;
            ||| key == Key::Named(NamedKey::Tab) && code == 9 && own == 0
            ||| key == Key::Named(NamedKey::Enter) && code == 13 && own == 0
            ||| key == Key::Named(NamedKey::Escape) && code == 27 && own == 0
            ||| key == Key::Named(NamedKey::Space) && code == 32 && own == 0
            ||| key == Key::Named(NamedKey::Backspace) && code == 127 && own == 0
            ||| key == Key::Named(NamedKey::Shift) && code == 57441 && own == 1
            ||| key == Key::Named(NamedKey::Control) && code == 57442 && own == 4
            ||| key == Key::Named(NamedKey::Super) && code == 57444 && own == 8
        }),
        !mods.alt,
    ensures
        ({
            let all = TermMode { report_all_keys_as_esc: true, ..TermMode::none() };
            let number = 1 + (if mods.shift || own == 1 {
                1nat
            } else {
                0
            }) + (if mods.ctrl || own == 4 {
                4nat
            } else {
                0
            }) + (if mods.super_ || own == 8 {
                8nat
            } else {
                0
            });
            let modifiers = if number > 1 {
                seq![';'] + decimal(number)
            } else {
                seq![]
            };
            key_text(event, mods, all) == seq!['\x1b', '['] + decimal(code as nat) + modifiers
                + seq!['u']
        }),
{
    reveal_strlit("\x1b[");
    reveal_strlit(";");
    assert("\x1b["@ =~= seq!['\x1b', '[']);
    assert(";"@ =~= seq![';']);
    let all = TermMode { report_all_keys_as_esc: true, ..TermMode::none() };
    let text = key_text(event, mods, all);
    let empty = Seq::<char>::empty();
    assert(decimal(code as nat) + empty =~= decimal(code as nat));
    let held = Mods {
        shift: mods.shift || own == 1,
        ctrl: mods.ctrl || own == 4,
        super_: mods.super_ || own == 8,
        ..mods
    };
    let number = kitty_modifier(held) + 1;
    let modifiers = if number > 1 {
        seq![';'] + decimal(number)
    } else {
        seq![]
    };
    assert(held == Mods::none() <==> number == 1);
    assert(sequence_base(event, mods, all) == Some((base(code, 'u'), held)));
    assert(text =~= seq!['\x1b', '['] + decimal(code as nat) + modifiers + seq!['u']);
}

/// A symbol that shift makes has the code of the symbol on the unshifted key.
pub proof fn law_shifted_symbol(event: KeyEvent, c: char, plain: char)
    requires
        event.state == ElementState::Pressed,
        event.location != KeyLocation::Numpad,
        event.logical_key matches Key::Character(ch) && ch@ == seq![c],
        event.key_without_modifiers matches Key::Character(text) && text@ == seq![plain],
        '!' <= c <= '@',
    ensures
        ({
            let all = TermMode { report_all_keys_as_esc: true, ..TermMode::none() };
            key_text(event, (Mods { shift: true, ..Mods::none() }), all) == seq!['\x1b', '[']
                + decimal(plain as nat) + seq![';', '2', 'u']
        }),
{
    let all = TermMode { report_all_keys_as_esc: true, ..TermMode::none() };
    let shift = Mods { shift: true, ..Mods::none() };
    let text = key_text(event, shift, all);
    let ch = event.logical_key->Character_0;
    assert(ch@[0] == c);
    let unshifted = event.key_without_modifiers->Character_0;
    assert(unshifted@[0] == plain);
    reveal_strlit("\x1b[");
    reveal_strlit(";");
    assert(decimal(2) =~= seq!['2']);
    assert(reported_mods(event, shift) == shift);
    assert(text =~= seq!['\x1b', '['] + decimal(plain as nat) + seq![';', '2', 'u']);
}

/// A composed text of two characters has no key code: where every key and its
/// text is reported, the code is zero and the text follows as its code points.
pub proof fn law_composed_text(event: KeyEvent, a: char, b: char)
    requires
        event.state == ElementState::Pressed,
        event.location != KeyLocation::Numpad,
        event.logical_key matches Key::Character(ch) && ch@ == seq![a, b],
        event.text matches Some(text) && text@ == seq![a, b],
    ensures
        ({
            let mode = TermMode {
                report_all_keys_as_esc: true,
                report_associated_text: true,
                ..TermMode::none()
            };
            key_text(event, Mods::none(), mode) == seq!['\x1b', '[', '0', ';', '1', ';'] + decimal(
                a as nat,
            ) + seq![':'] + decimal(b as nat) + seq!['u']
        }),
{
    let mode = TermMode {
        report_all_keys_as_esc: true,
        report_associated_text: true,
        ..TermMode::none()
    };
    reveal_strlit("\x1b[");
    reveal_strlit(";");
    reveal_strlit(":");
    let text = seq![a, b];
    assert(decimal(0) =~= seq!['0']);
    assert(decimal(1) =~= seq!['1']);
    assert(text.drop_last() =~= seq![a]);
    reveal_with_fuel(code_points, 2);
    assert(code_points(text) == decimal(a as nat) + ":"@ + decimal(b as nat));
    assert(key_text(event, Mods::none(), mode) =~= seq!['\x1b', '[', '0', ';', '1', ';'] + decimal(
        a as nat,
    ) + seq![':'] + decimal(b as nat) + seq!['u']);
}

/// Each further character of a reported text adds a colon and its code point.
pub proof fn law_code_points_add_up(text: Seq<char>, c: char)
    requires
        text.len() > 0,
    ensures
        code_points(text.push(c)) == code_points(text) + seq![':'] + decimal(c as nat),
        code_points(seq![c]) == decimal(c as nat),
{
    reveal_strlit(":");
    assert(":"@ =~= seq![':']);
    assert(text.push(c).drop_last() =~= text);
}

/// The keys for equals, minus and the brackets are bound without shift as well,
/// by their place.
pub proof fn law_places_bound_without_shift(
    event: KeyEvent,
    mods: Mods,
    table: Map<Seq<char>, Seq<char>>,
    name: Seq<char>,
    place: Seq<char>,
)
    requires
        key_name(event.logical_key) == Some(name),
        physical_key_name(event.logical_key, event.physical_key) == Some(place),
        place == "equal"@ || place == "minus"@ || place == "bracketright"@ || place
            == "bracketleft"@,
        place != name,
        mods.shift,
        !table.contains_key(mods_prefix(mods) + name),
        !table.contains_key(mods_prefix(Mods { shift: false, ..mods }) + name),
        !table.contains_key(mods_prefix(mods) + place),
        table.contains_key(mods_prefix(Mods { shift: false, ..mods }) + place),
    ensures
        resolved(event, mods, table) == Some(
            table[mods_prefix(Mods { shift: false, ..mods }) + place],
        ),
{
    let names = candidates(event, mods, name, Some(place));
    reveal_with_fuel(first_bound, 5);
    let absorbed = match event.logical_key {
        Key::Character(ch) => mods.shift && shifted_symbol(ch@),
        _ => false,
    };
    let plain = mods.spec_without_shift();
    assert(names[0] == mods_prefix(mods) + name);
    let rest = names.drop_first();
    if absorbed {
        assert(rest[0] == mods_prefix(plain) + name);
        assert(rest.drop_first()[0] == mods_prefix(mods) + place);
        assert(rest.drop_first().drop_first()[0] == mods_prefix(plain) + place);
    } else {
        assert(rest[0] == mods_prefix(mods) + place);
        assert(rest.drop_first()[0] == mods_prefix(plain) + place);
    }
}

/// The symbols that take shift on the US layout, and no other text.
pub proof fn law_shifted_symbols(c: char, text: Seq<char>)
    ensures
        shifted_symbol(seq![c]) <==> c == '!' || c == '@' || c == '#' || c == '$' || c == '%' || c
            == '^' || c == '&' || c == '*' || c == '(' || c == ')' || c == '_' || c == '+' || c
            == '{' || c == '}' || c == ':' || c == '"' || c == '|' || c == '<' || c == '>' || c
            == '?' || c == '~',
        text.len() != 1 ==> !shifted_symbol(text),
        'a' <= c <= 'z' || 'A' <= c <= 'Z' || '0' <= c <= '9' ==> !shifted_symbol(seq![c]),
{
    assert(seq![c][0] == c);
}

/// A program gets the protocol for any of three modes: every key as a sequence,
/// keys told apart, or kinds of events.
pub proof fn law_protocol_modes(mode: TermMode)
    ensures
        mode.report_all_keys_as_esc ==> kitty_mode(mode),
        mode.disambiguate_esc_codes ==> kitty_mode(mode),
        mode.report_event_types ==> kitty_mode(mode),
        !mode.report_all_keys_as_esc && !mode.disambiguate_esc_codes && !mode.report_event_types
            ==> !kitty_mode(mode),
{
}

/// For a program that asks the protocol to tell keys apart, escape is always a
/// sequence; enter, tab and backspace are one with shift or ctrl held, and their
/// text otherwise; a typed character with shift held is its text.
pub proof fn law_keys_told_apart(event: KeyEvent, c: char)
    requires
        event.state == ElementState::Pressed,
        event.location != KeyLocation::Numpad,
        event.text matches Some(text) && text@ == seq![c],
    ensures
        ({
            let asked = TermMode { disambiguate_esc_codes: true, ..TermMode::none() };
            let shift = Mods { shift: true, ..Mods::none() };
            let ctrl = Mods { ctrl: true, ..Mods::none() };
            let alt = Mods { alt: true, ..Mods::none() };
            let key = event.logical_key;
            &&& key == Key::Named(NamedKey::Escape) ==> key_text(event, Mods::none(), asked)
                == seq!['\x1b', '[', '2', '7', 'u']
            &&& key == Key::Named(NamedKey::Tab) ==> key_text(event, shift, asked)
                == seq!['\x1b', '[', '9', ';', '2', 'u']
            &&& key == Key::Named(NamedKey::Enter) ==> key_text(event, shift, asked)
                == seq!['\x1b', '[', '1', '3', ';', '2', 'u']
            &&& key == Key::Named(NamedKey::Backspace) ==> key_text(event, shift, asked)
                == seq!['\x1b', '[', '1', '2', '7', ';', '2', 'u']
            &&& key == Key::Named(NamedKey::Enter) ==> key_text(event, ctrl, asked)
                == seq!['\x1b', '[', '1', '3', ';', '5', 'u']
            &&& key == Key::Named(NamedKey::Enter) ==> key_text(event, Mods::none(), asked)
                == seq![c]
            &&& key == Key::Named(NamedKey::Enter) ==> key_text(event, alt, asked)
                == seq!['\x1b', c]
            &&& key == Key::Named(NamedKey::Space) ==> key_text(event, shift, asked) == seq![c]
            &&& key is Character ==> key_text(event, shift, asked) == seq![c]
        }),
{
    reveal_strlit("\x1b[");
    reveal_strlit(";");
    reveal_with_fuel(decimal, 4);
    assert(decimal(2) =~= seq!['2']);
    assert(decimal(5) =~= seq!['5']);
    assert(decimal(9) =~= seq!['9']);
    assert(decimal(13) =~= seq!['1', '3']);
    assert(decimal(27) =~= seq!['2', '7']);
    assert(decimal(127) =~= seq!['1', '2', '7']);
    let asked = TermMode { disambiguate_esc_codes: true, ..TermMode::none() };
    let shift = Mods { shift: true, ..Mods::none() };
    let ctrl = Mods { ctrl: true, ..Mods::none() };
    let alt = Mods { alt: true, ..Mods::none() };
    let key = event.logical_key;
    if key == Key::Named(NamedKey::Escape) {
        assert(key_text(event, Mods::none(), asked) =~= seq!['\x1b', '[', '2', '7', 'u']);
    } else if key == Key::Named(NamedKey::Tab) {
        assert(key_text(event, shift, asked) =~= seq!['\x1b', '[', '9', ';', '2', 'u']);
    } else if key == Key::Named(NamedKey::Enter) {
        assert(key_text(event, shift, asked) =~= seq!['\x1b', '[', '1', '3', ';', '2', 'u']);
        assert(key_text(event, ctrl, asked) =~= seq!['\x1b', '[', '1', '3', ';', '5', 'u']);
        assert(key_text(event, alt, asked) =~= seq!['\x1b', c]);
    } else if key == Key::Named(NamedKey::Backspace) {
        assert(key_text(event, shift, asked) =~= seq!['\x1b', '[', '1', '2', '7', ';', '2', 'u']);
    }
}

/// A program that asks for kinds of events is told of a released cursor key with
/// `1:3` in front of its letter, and of one that repeats with `1:2`; the first
/// press is as it is without.
pub proof fn law_cursor_key_events(event: KeyEvent, letter: char)
    requires
        event.text is None,
        event.location != KeyLocation::Numpad,
        cursor_letter(event.logical_key, letter),
    ensures
        ({
            let asked = TermMode { report_event_types: true, ..TermMode::none() };
            let text = key_text(event, Mods::none(), asked);
            let pressed = event.state == ElementState::Pressed;
            &&& pressed && !event.repeat ==> text == seq!['\x1b', '[', letter]
            &&& pressed && event.repeat ==> text == seq![
                '\x1b',
                '[',
                '1',
                ';',
                '1',
                ':',
                '2',
                letter,
            ]
            &&& !pressed && !event.repeat ==> text == seq![
                '\x1b',
                '[',
                '1',
                ';',
                '1',
                ':',
                '3',
                letter,
            ]
        }),
{
    reveal_strlit("\x1b[");
    reveal_strlit(";");
    reveal_strlit(":2");
    reveal_strlit(":3");
    assert(decimal(1) =~= seq!['1']);
    let asked = TermMode { report_event_types: true, ..TermMode::none() };
    let text = key_text(event, Mods::none(), asked);
    let pressed = event.state == ElementState::Pressed;
    if pressed && !event.repeat {
        assert(text =~= seq!['\x1b', '[', letter]);
    } else if pressed {
        assert(text =~= seq!['\x1b', '[', '1', ';', '1', ':', '2', letter]);
    } else if !event.repeat {
        assert(text =~= seq!['\x1b', '[', '1', ';', '1', ':', '3', letter]);
    }
}

/// A digit of the number pad is told from the digit above the letters: it goes out
/// as its own code.
pub proof fn law_number_pad_is_told_apart(event: KeyEvent, c: char, d: u32)
    requires
        event.state == ElementState::Pressed,
        event.location == KeyLocation::Numpad,
        event.logical_key matches Key::Character(ch) && ch@ == seq![c],
        d <= 9,
        c as u32 == 48 + d,
    ensures
        ({
            let asked = TermMode { disambiguate_esc_codes: true, ..TermMode::none() };
            key_text(event, Mods::none(), asked) == seq!['\x1b', '['] + decimal(
                (57399 + d) as nat,
            ) + seq!['u']
        }),
{
    law_number_pad_codes(event.logical_key, c, d);
    reveal_strlit("\x1b[");
    let asked = TermMode { disambiguate_esc_codes: true, ..TermMode::none() };
    assert(reported_mods(event, Mods::none()) == Mods::none());
    assert(key_text(event, Mods::none(), asked) =~= seq!['\x1b', '['] + decimal(
        (57399 + d) as nat,
    ) + seq!['u']);
}

/// The text beside a key is reported where it was asked for, on a press, and
/// where it is more than a single control character.
pub proof fn law_reported_text(event: KeyEvent, mode: TermMode, text: Seq<char>)
    requires
        event_text(event) == text,
    ensures
        ({
            let control = text.len() == 1 && (text[0] <= '\x1f' || text[0] == '\x7f');
            &&& mode.report_associated_text && event.state == ElementState::Pressed && text.len()
                > 0 && !control ==> associated_text(event, mode) == Some(text)
            &&& !mode.report_associated_text || event.state == ElementState::Released
                || text.len() == 0 || control ==> associated_text(event, mode) is None
        }),
{
}

/// Hyper and meta count as super, and no other key as a modifier.
pub proof fn law_hyper_and_meta_count_as_super(mods: Mods, pressed: bool, n: u8)
    ensures
        mods_after(NamedKey::Hyper, pressed, mods) == mods_after(NamedKey::Super, pressed, mods),
        mods_after(NamedKey::Meta, pressed, mods) == mods_after(NamedKey::Super, pressed, mods),
        mods_after(NamedKey::CapsLock, pressed, mods) == mods,
        mods_after(NamedKey::NumLock, pressed, mods) == mods,
        mods_after(NamedKey::F(n), pressed, mods) == mods,
{
}

} // verus!
