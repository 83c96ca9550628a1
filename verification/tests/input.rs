use optix::bindings::{canonical_combination, default_keybindings, Bindings};
use optix::input::{
    binding_candidates, encode_key, encode_mouse, encode_mouse_wheel, first_action,
    is_shifted_symbol, kitty_control_or_modifier, mouse_reporting_active, named_sequence, resolve, typed_sequence_base, BindingResult, Mods,
    SequenceBase, MOUSE_RELEASE,
};
use optix::keyboard::{
    logical_name, physical_name, ElementState, Key, KeyCode, KeyEvent, KeyLocation, NamedKey,
    PhysicalKey, TermMode,
};

fn no_mods() -> Mods {
    Mods::default()
}

fn ctrl() -> Mods {
    Mods { ctrl: true, ..Mods::default() }
}

fn event(key: Key) -> KeyEvent {
    let text = match &key {
        Key::Character(ch) => Some(ch.clone()),
        Key::Named(NamedKey::Enter) => Some("\r".to_string()),
        Key::Named(NamedKey::Tab) => Some("\t".to_string()),
        Key::Named(NamedKey::Space) => Some(" ".to_string()),
        Key::Named(NamedKey::Escape) => Some("\x1b".to_string()),
        Key::Named(NamedKey::Backspace) => Some("\x08".to_string()),
        _ => None,
    };
    KeyEvent {
        key_without_modifiers: key.clone(),
        logical_key: key,
        physical_key: PhysicalKey::Unidentified,
        text,
        location: KeyLocation::Standard,
        state: ElementState::Pressed,
        repeat: false,
    }
}

fn ch(s: &str) -> KeyEvent {
    event(Key::Character(s.to_string()))
}

fn named(key: NamedKey) -> KeyEvent {
    event(Key::Named(key))
}

fn text(bytes: Vec<u8>) -> String {
    String::from_utf8(bytes).unwrap()
}

/// Rounds a wheel delta to whole steps, as the window does.
fn wheel(delta_lines: f64, col: usize, row: usize, mods: Mods, sgr: bool) -> Vec<u8> {
    let steps = delta_lines.abs().round() as usize;
    encode_mouse_wheel(steps, delta_lines > 0.0, col, row, mods, sgr)
}

#[test]
fn sgr_wheel_up_is_reported() {
    // Wheel up at column 4, row 7 -> `CSI < 64 ; 5 ; 8 M`.
    let bytes = wheel(1.0, 4, 7, Mods::default(), true);
    assert_eq!(bytes, b"\x1b[<64;5;8M");
}

#[test]
fn sgr_wheel_down_with_ctrl() {
    // ctrl (+16) + wheel down (65) = 81.
    let mods = Mods { ctrl: true, ..Mods::default() };
    let bytes = wheel(-1.0, 0, 0, mods, true);
    assert_eq!(bytes, b"\x1b[<81;1;1M");
}

#[test]
fn sgr_click_press_and_release() {
    let mods = Mods::default();
    assert_eq!(encode_mouse(0, 1, 2, mods, true), b"\x1b[<0;2;3M");
    assert_eq!(encode_mouse(MOUSE_RELEASE, 1, 2, mods, true), b"\x1b[<3;2;3M");
}

#[test]
fn x10_encoding_offsets_by_32() {
    // Legacy X10: `ESC [ M` then each byte + 32 (button first).
    let bytes = encode_mouse(0, 0, 0, Mods::default(), false);
    assert_eq!(bytes, b"\x1b[M".iter().copied().chain([32, 33, 33]).collect::<Vec<u8>>());
}

#[test]
fn fractional_wheel_rounds_to_steps() {
    let bytes = wheel(2.6, 0, 0, Mods::default(), true);
    assert_eq!(bytes, b"\x1b[<64;1;1M\x1b[<64;1;1M\x1b[<64;1;1M");
    assert!(wheel(0.3, 0, 0, Mods::default(), true).is_empty());
}

#[test]
fn mouse_reporting_detection() {
    assert!(mouse_reporting_active(TermMode { sgr_mouse: true, ..TermMode::empty() }));
    assert!(mouse_reporting_active(TermMode { mouse_report_click: true, ..TermMode::empty() }));
    assert!(!mouse_reporting_active(TermMode::empty()));
}

#[test]
fn x10_numbers_are_cut_to_a_byte() {
    let mods = Mods { shift: true, alt: true, ..Mods::default() };
    assert_eq!(encode_mouse(2, 300, 222, mods, false), vec![0x1b, b'[', b'M', 46, 77, 255]);
    assert_eq!(encode_mouse(0, 223, 0, no_mods(), false)[4], 0);
}

#[test]
fn sgr_reports_tell_positions_apart() {
    let far = usize::MAX - 1;
    let report = encode_mouse(65507, far, 2, ctrl(), true);
    assert_eq!(text(report.clone()), format!("\x1b[<65523;{};3M", usize::MAX));
    assert_eq!(encode_mouse(65523, far, 2, no_mods(), true), report);
    assert_ne!(encode_mouse(65523, far - 1, 2, no_mods(), true), report);
    assert_ne!(encode_mouse(1, 11, 1, no_mods(), true), encode_mouse(1, 1, 11, no_mods(), true));
    // The older form has one byte for each and does not.
    let x10 = |col: usize| encode_mouse(0, col, 0, no_mods(), false);
    assert_eq!(x10(3), x10(259));
}

#[test]
fn no_wheel_step_is_no_report() {
    assert!(encode_mouse_wheel(0, true, usize::MAX, usize::MAX, no_mods(), false).is_empty());
    let far = usize::MAX - 1;
    let twice = encode_mouse_wheel(2, false, far, far, no_mods(), true);
    assert_eq!(twice, encode_mouse(65, far, far, no_mods(), true).repeat(2));
}

#[test]
fn wheel_steps_add_up() {
    let twice = wheel(2.0, 3, 4, no_mods(), false);
    let once = wheel(1.0, 3, 4, no_mods(), false);
    assert_eq!(twice, [once.clone(), once].concat());
}

#[test]
fn classic_control_characters() {
    let mode = TermMode::empty();
    assert_eq!(encode_key(&ch("c"), ctrl(), mode), vec![3]);
    assert_eq!(encode_key(&ch("C"), ctrl(), mode), vec![3]);
    assert_eq!(encode_key(&ch("["), ctrl(), mode), vec![0x1b]);
    assert_eq!(encode_key(&ch("2"), ctrl(), mode), vec![0]);
    assert_eq!(encode_key(&ch("_"), ctrl(), mode), vec![0x1f]);
    assert_eq!(encode_key(&ch("5"), ctrl(), mode), b"5");
}

#[test]
fn classic_alt_and_plain_text() {
    let alt = Mods { alt: true, ..Mods::default() };
    assert_eq!(encode_key(&ch("x"), alt, TermMode::empty()), b"\x1bx");
    assert_eq!(text(encode_key(&ch("é"), no_mods(), TermMode::empty())), "é");
    assert!(encode_key(&ch("é"), alt, TermMode::empty()).is_empty());
}

#[test]
fn classic_named_keys() {
    let mode = TermMode::empty();
    let app = TermMode { app_cursor: true, ..TermMode::empty() };
    let shift = Mods { shift: true, ..Mods::default() };
    assert_eq!(encode_key(&named(NamedKey::ArrowUp), no_mods(), mode), b"\x1b[A");
    assert_eq!(encode_key(&named(NamedKey::ArrowUp), no_mods(), app), b"\x1bOA");
    assert_eq!(encode_key(&named(NamedKey::ArrowUp), ctrl(), mode), b"\x1b[1;5A");
    assert_eq!(encode_key(&named(NamedKey::ArrowUp), ctrl(), app), b"\x1b[1;5A");
    assert_eq!(encode_key(&named(NamedKey::Home), no_mods(), mode), b"\x1b[H");
    assert_eq!(encode_key(&named(NamedKey::Home), shift, mode), b"\x1b[1;2H");
    assert_eq!(encode_key(&named(NamedKey::PageUp), no_mods(), mode), b"\x1b[5~");
    assert_eq!(encode_key(&named(NamedKey::PageUp), ctrl(), mode), b"\x1b[5;5~");
    assert_eq!(encode_key(&named(NamedKey::F(9)), shift, mode), b"\x1b[20;2~");
    assert_eq!(
        named_sequence(&NamedKey::ArrowUp, ctrl(), false),
        Some("\x1b[1;5A".to_string()),
    );
    assert_eq!(encode_key(&named(NamedKey::Tab), shift, mode), b"\x1b[Z");
    assert_eq!(encode_key(&named(NamedKey::F(4)), no_mods(), mode), b"\x1bOS");
    assert_eq!(encode_key(&named(NamedKey::F(7)), no_mods(), mode), b"\x1b[18~");
    assert_eq!(encode_key(&named(NamedKey::F(12)), no_mods(), mode), b"\x1b[24~");
    assert_eq!(encode_key(&named(NamedKey::Backspace), no_mods(), mode), b"\x7f");
    assert!(encode_key(&named(NamedKey::F(20)), no_mods(), mode).is_empty());
}

#[test]
fn releases_need_event_types() {
    let mut release = ch("a");
    release.state = ElementState::Released;
    assert!(encode_key(&release, no_mods(), TermMode::empty()).is_empty());
    let disambiguate = TermMode { disambiguate_esc_codes: true, ..TermMode::empty() };
    assert!(encode_key(&release, no_mods(), disambiguate).is_empty());
    let events = TermMode { report_event_types: true, ..TermMode::empty() };
    assert_eq!(text(encode_key(&release, no_mods(), events)), "\x1b[97;1:3u");
    let mut enter = named(NamedKey::Enter);
    enter.state = ElementState::Released;
    assert!(encode_key(&enter, no_mods(), events).is_empty());
}

#[test]
fn kitty_disambiguates() {
    let mode = TermMode { disambiguate_esc_codes: true, ..TermMode::empty() };
    let shift = Mods { shift: true, ..Mods::default() };
    assert_eq!(text(encode_key(&ch("a"), no_mods(), mode)), "a");
    assert_eq!(text(encode_key(&ch("a"), ctrl(), mode)), "\x1b[97;5u");
    assert_eq!(text(encode_key(&ch("A"), shift, mode)), "A");
    assert_eq!(text(encode_key(&named(NamedKey::Escape), no_mods(), mode)), "\x1b[27u");
    assert_eq!(text(encode_key(&named(NamedKey::Enter), no_mods(), mode)), "\r");
    assert_eq!(text(encode_key(&named(NamedKey::Enter), shift, mode)), "\x1b[13;2u");
    assert_eq!(text(encode_key(&named(NamedKey::ArrowUp), no_mods(), mode)), "\x1b[A");
    assert_eq!(text(encode_key(&named(NamedKey::ArrowUp), ctrl(), mode)), "\x1b[1;5A");
    assert_eq!(text(encode_key(&named(NamedKey::F(3)), no_mods(), mode)), "\x1b[13u");
    assert_eq!(text(encode_key(&named(NamedKey::F(13)), no_mods(), mode)), "\x1b[57376u");
}

#[test]
fn kitty_alt_on_text_is_an_escape() {
    let mode = TermMode { disambiguate_esc_codes: true, ..TermMode::empty() };
    let alt = Mods { alt: true, ..Mods::default() };
    assert_eq!(text(encode_key(&ch("x"), alt, mode)), "\x1bx");
    assert_eq!(text(encode_key(&named(NamedKey::ArrowLeft), alt, mode)), "\x1b[1;3D");
}

#[test]
fn kitty_reports_every_key() {
    let all = TermMode {
        report_all_keys_as_esc: true,
        report_event_types: true,
        report_associated_text: true,
        report_alternate_keys: true,
        ..TermMode::empty()
    };
    let shift = Mods { shift: true, ..Mods::default() };
    assert_eq!(text(encode_key(&ch("a"), no_mods(), all)), "\x1b[97;1;97u");
    assert_eq!(text(encode_key(&ch("A"), shift, all)), "\x1b[97:65;2;65u");
    let mut repeat = ch("a");
    repeat.repeat = true;
    assert_eq!(text(encode_key(&repeat, no_mods(), all)), "\x1b[97;1:2;97u");
    let mut left = named(NamedKey::Shift);
    left.location = KeyLocation::Left;
    assert_eq!(text(encode_key(&left, no_mods(), all)), "\x1b[57441;2u");
    left.state = ElementState::Released;
    assert_eq!(text(encode_key(&left, shift, all)), "\x1b[57441;1:3u");
    let mut bang = ch("!");
    bang.key_without_modifiers = Key::Character("1".to_string());
    assert_eq!(text(encode_key(&bang, shift, all)), "\x1b[49:33;2;33u");
    let emoji = ch("ab");
    assert_eq!(text(encode_key(&emoji, no_mods(), all)), "\x1b[0;1;97:98u");
}

#[test]
fn kitty_number_pad() {
    let mode = TermMode { disambiguate_esc_codes: true, ..TermMode::empty() };
    let mut seven = ch("7");
    seven.location = KeyLocation::Numpad;
    assert_eq!(text(encode_key(&seven, no_mods(), mode)), "\x1b[57406u");
    let mut enter = named(NamedKey::Enter);
    enter.location = KeyLocation::Numpad;
    assert_eq!(text(encode_key(&enter, no_mods(), mode)), "\x1b[57414u");
}

#[test]
fn shifted_letters_beyond_ascii_use_their_lowercase_code() {
    let all = TermMode { report_all_keys_as_esc: true, ..TermMode::empty() };
    let shift = Mods { shift: true, ..Mods::default() };
    // U+00C4 has the lowercase form U+00E4, which is 228.
    assert_eq!(text(encode_key(&ch("Ä"), shift, all)), "\x1b[228;2u");
    let base = typed_sequence_base('Ä', 'ä', &Key::Other, true, true);
    assert_eq!(base, SequenceBase { code: Some(228), alternate: Some(196), terminator: 'u' });
}

#[test]
fn names_of_keys() {
    let name = |key: &Key| logical_name(key);
    assert_eq!(name(&Key::Named(NamedKey::F(11))), Some("f11".to_string()));
    assert_eq!(name(&Key::Character("+".to_string())), Some("plus".to_string()));
    assert_eq!(name(&Key::Character("Ä".to_string())), Some("ä".to_string()));
    assert_eq!(name(&Key::Other), None);
    let other = Key::Named(NamedKey::Other("AudioVolumeUp".to_string()));
    assert_eq!(name(&other), Some("audiovolumeup".to_string()));
    let digit = PhysicalKey::Code(KeyCode::Digit(1));
    let bang = Key::Character("!".to_string());
    assert_eq!(physical_name(&bang, &digit), Some("1".to_string()));
    assert_eq!(physical_name(&bang, &PhysicalKey::Unidentified), Some("!".to_string()));
    assert!(is_shifted_symbol("!"));
    assert!(!is_shifted_symbol("1"));
}

#[test]
fn bindings_resolve() {
    let bindings = default_keybindings();
    let both = Mods { ctrl: true, shift: true, ..Mods::default() };
    let action = |e: &KeyEvent, m: Mods| match resolve(e, m, &bindings) {
        BindingResult::Action(name) => name,
        BindingResult::Passthrough => String::new(),
    };
    assert_eq!(action(&ch("E"), both), "split_right");
    assert_eq!(action(&ch("P"), both), "command");
    assert_eq!(action(&ch("+"), both), "font_increase");
    assert_eq!(action(&ch("e"), no_mods()), "");
    assert_eq!(action(&event(Key::Other), both), "");
    let arrow = Mods { ctrl: true, alt: true, ..Mods::default() };
    assert_eq!(action(&named(NamedKey::ArrowLeft), arrow), "focus_pane_left");
}

#[test]
fn candidates_go_from_specific_to_general() {
    let mut e = ch("!");
    e.physical_key = PhysicalKey::Code(KeyCode::Digit(1));
    let both = Mods { ctrl: true, shift: true, ..Mods::default() };
    let names = binding_candidates(&e, both, "!", &Some("1".to_string()));
    assert_eq!(names, vec!["ctrl+shift+!", "ctrl+!", "ctrl+shift+1"]);
    let mut bindings = Bindings::new();
    bindings.insert("ctrl+shift+1", "b");
    assert_eq!(first_action(&names, &bindings), BindingResult::Action("b".to_string()));
    bindings.insert("ctrl+!", "a");
    assert_eq!(first_action(&names, &bindings), BindingResult::Action("a".to_string()));
}

#[test]
fn modifiers_may_stand_in_any_order() {
    assert_eq!(canonical_combination("shift+ctrl+e"), "ctrl+shift+e");
    assert_eq!(canonical_combination("super+alt+x"), "alt+super+x");
    assert_eq!(canonical_combination("hyper+x"), "hyper+x");
    assert_eq!(canonical_combination("ctrl+ctrl+e"), "ctrl+ctrl+e");
    assert_eq!(canonical_combination("shift+ctrl+shift+e"), "shift+ctrl+shift+e");
    let mut bindings = Bindings::new();
    bindings.insert("shift+ctrl+y", "quit");
    assert_eq!(bindings.get("ctrl+shift+y"), Some("quit".to_string()));
    let mut all = default_keybindings();
    all.extend(&bindings);
    assert_eq!(all.get("ctrl+shift+y"), Some("quit".to_string()));
    assert_eq!(all.get("ctrl+shift+e"), Some("split_right".to_string()));
}

#[test]
fn default_keys() {
    let bindings = default_keybindings();
    let table = [
        ("ctrl+shift+e", "split_right"),
        ("ctrl+shift+o", "split_below"),
        ("ctrl+shift+x", "close_pane"),
        ("ctrl+shift+]", "next_pane"),
        ("ctrl+shift+[", "prev_pane"),
        ("ctrl+alt+up", "focus_pane_up"),
        ("ctrl+alt+down", "focus_pane_down"),
        ("ctrl+alt+left", "focus_pane_left"),
        ("ctrl+alt+right", "focus_pane_right"),
        ("ctrl+shift+f", "search"),
        ("ctrl+shift+f2", "search"),
        ("ctrl+shift+enter", "search_next"),
        ("ctrl+shift+g", "search_next"),
        ("ctrl+shift+h", "search_prev"),
        ("ctrl+shift+p", "command"),
        ("ctrl+shift+up", "scroll_up"),
        ("ctrl+shift+down", "scroll_down"),
        ("ctrl+shift+pageup", "page_up"),
        ("ctrl+shift+pagedown", "page_down"),
        ("ctrl+shift+home", "scroll_top"),
        ("ctrl+shift+end", "scroll_bottom"),
        ("ctrl+shift+c", "copy"),
        ("ctrl+shift+v", "paste"),
        ("ctrl+plus", "font_increase"),
        ("ctrl+minus", "font_decrease"),
        ("ctrl+0", "font_reset"),
        ("ctrl+shift+q", "quit"),
    ];
    for (combination, action) in table {
        assert_eq!(bindings.get(combination).as_deref(), Some(action));
    }
}

#[test]
fn control_keys_are_sequences_only_under_the_protocol() {
    let tab = named(NamedKey::Tab);
    let off = TermMode::empty();
    assert!(kitty_control_or_modifier(&tab, no_mods(), off).is_none());
    let on = TermMode { disambiguate_esc_codes: true, ..TermMode::empty() };
    let (base, after) = kitty_control_or_modifier(&tab, no_mods(), on).unwrap();
    assert_eq!((base.code, base.terminator), (Some(9), 'u'));
    assert_eq!(after, no_mods());
}
