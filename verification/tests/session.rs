use optix::bindings::{default_keybindings, Bindings};
use optix::event::{ClipboardType, EventBatch, EventEffect, PaneEventKind};
use optix::keyboard::{
    ElementState, Key, KeyEvent, KeyLocation, Mods, NamedKey, PhysicalKey, TermMode,
};
use optix::session::{
    command_edit, command_trigger, parse_action, run_theme_command, theme_feedback,
    themes_feedback, track_pending_line, Action, CommandKey, FontChange, KeyEffect, ScrollTo,
    Session,
};
use optix::layout::Direction;

fn no_mods() -> Mods {
    Mods { ctrl: false, shift: false, alt: false, super_: false }
}

fn press(key: Key) -> KeyEvent {
    let text = match &key {
        Key::Character(ch) => Some(ch.clone()),
        _ => None,
    };
    KeyEvent {
        key_without_modifiers: key.clone(),
        logical_key: key,
        physical_key: PhysicalKey::Unidentified,
        text,
        location: KeyLocation::Standard,
        state: ElementState::Pressed,
        repeat: false,
    }
}

fn typed(s: &str) -> KeyEvent {
    if s == " " {
        press(Key::Named(NamedKey::Space))
    } else {
        press(Key::Character(s.to_string()))
    }
}

struct Window {
    session: Session,
    bindings: Bindings,
    mode: TermMode,
    magic: bool,
}

impl Window {
    fn new() -> Self {
        Window {
            session: Session::new(),
            bindings: default_keybindings(),
            mode: TermMode::empty(),
            magic: true,
        }
    }

    fn key(&mut self, event: &KeyEvent, mods: Mods) -> Vec<KeyEffect> {
        self.session.on_key(event, mods, &self.bindings, self.magic, self.mode)
    }

    fn line(&mut self, line: &str) -> Vec<KeyEffect> {
        let mut out = Vec::new();
        for c in line.chars() {
            out.extend(self.key(&typed(&c.to_string()), no_mods()));
        }
        out
    }

    fn enter(&mut self) -> Vec<KeyEffect> {
        self.key(&press(Key::Named(NamedKey::Enter)), no_mods())
    }
}

#[test]
fn trigger_only_on_plain_slash_at_line_start() {
    let pressed = ElementState::Pressed;
    let slash = Key::Character("/".into());
    assert!(command_trigger(no_mods(), true, pressed, false, &slash));
    assert!(!command_trigger(no_mods(), false, pressed, false, &slash));
    assert!(!command_trigger(no_mods(), true, ElementState::Released, false, &slash));
    assert!(!command_trigger(no_mods(), true, pressed, true, &slash));

    let ctrl = Mods { ctrl: true, shift: false, alt: false, super_: false };
    assert!(!command_trigger(ctrl, true, pressed, false, &slash));

    let other = Key::Character("x".into());
    assert!(!command_trigger(no_mods(), true, pressed, false, &other));
}

#[test]
fn composing_builds_the_command() {
    let mut cmd = "/".to_string();
    for c in "theme gruvbox".chars() {
        let key = Key::Character(c.to_string().into());
        assert!(matches!(
            command_edit(&mut cmd, no_mods(), ElementState::Pressed, false, &key),
            CommandKey::Keep
        ));
    }
    assert_eq!(cmd, "/theme gruvbox");
}

#[test]
fn enter_executes_escape_cancels() {
    let mut cmd = "/theme dracula".to_string();
    let enter = Key::Named(NamedKey::Enter);
    assert!(matches!(
        command_edit(&mut cmd, no_mods(), ElementState::Pressed, false, &enter),
        CommandKey::Execute
    ));

    let mut cmd2 = "/theme".to_string();
    let esc = Key::Named(NamedKey::Escape);
    assert!(matches!(
        command_edit(&mut cmd2, no_mods(), ElementState::Pressed, false, &esc),
        CommandKey::Cancel
    ));
    assert_eq!(cmd2, "/theme");
}

#[test]
fn backspace_edits_and_empty_cancels() {
    let bs = Key::Named(NamedKey::Backspace);
    let pressed = ElementState::Pressed;

    let mut cmd = "/th".to_string();
    assert!(matches!(command_edit(&mut cmd, no_mods(), pressed, false, &bs), CommandKey::Keep));
    assert_eq!(cmd, "/t");

    let mut cmd = "/t".to_string();
    assert!(matches!(command_edit(&mut cmd, no_mods(), pressed, false, &bs), CommandKey::Keep));
    assert_eq!(cmd, "/");

    let mut cmd = "/".to_string();
    assert!(matches!(command_edit(&mut cmd, no_mods(), pressed, false, &bs), CommandKey::Cancel));
}

#[test]
fn modified_or_other_keys_flush() {
    let arrow = Key::Named(NamedKey::ArrowUp);
    let mut cmd = "/theme".to_string();
    assert!(matches!(
        command_edit(&mut cmd, no_mods(), ElementState::Pressed, false, &arrow),
        CommandKey::Flush
    ));

    let ctrl_c = Key::Character("c".into());
    let ctrl = Mods { ctrl: true, shift: false, alt: false, super_: false };
    let mut cmd2 = "/theme".to_string();
    assert!(matches!(
        command_edit(&mut cmd2, ctrl, ElementState::Pressed, false, &ctrl_c),
        CommandKey::Flush
    ));
}

#[test]
fn pending_line_shadows_typed_text() {
    let mut buf = String::new();
    for &b in b"theme ayu".iter() {
        track_pending_line(&mut buf, &[b]);
    }
    assert_eq!(buf, "theme ayu");
}

#[test]
fn pending_line_backspace_pops() {
    let mut buf = String::new();
    for &b in b"themea".iter() {
        track_pending_line(&mut buf, &[b]);
    }
    track_pending_line(&mut buf, b"\x7f");
    assert_eq!(buf, "theme");
}

#[test]
fn pending_line_ignores_control_bytes_and_caps_length() {
    let mut buf = String::new();
    track_pending_line(&mut buf, b"\x1b[A"); // arrow escape
    assert!(buf.is_empty());
    track_pending_line(&mut buf, b"\t");
    assert!(buf.is_empty());

    for b in b"a".repeat(300) {
        track_pending_line(&mut buf, &[b]);
    }
    assert_eq!(buf.len(), 256);
}

#[test]
fn pending_line_takes_whole_characters() {
    let mut buf = String::new();
    track_pending_line(&mut buf, "é".as_bytes());
    assert_eq!(buf, "é");
    track_pending_line(&mut buf, &[0xc3]);
    assert_eq!(buf, "é");
    track_pending_line(&mut buf, b"\x08");
    assert_eq!(buf, "");
}

#[test]
fn magic_line_is_swallowed() {
    let mut w = Window::new();
    w.line("theme ayu");
    assert_eq!(w.session.pending_line, "theme ayu");
    assert_eq!(
        w.enter(),
        vec![
            KeyEffect::Write(vec![0x15]),
            KeyEffect::SetTheme("ayu".to_string()),
            KeyEffect::Redraw
        ]
    );
    assert!(w.session.line_start);
    assert!(w.session.pending_line.is_empty());
    assert_eq!(w.enter(), vec![KeyEffect::Write(b"\r".to_vec())]);
}

#[test]
fn magic_can_be_switched_off() {
    let mut w = Window::new();
    w.magic = false;
    w.line("theme ayu");
    assert_eq!(w.enter(), vec![KeyEffect::Write(b"\r".to_vec())]);
}

#[test]
fn command_line_runs_a_theme_command() {
    let mut w = Window::new();
    let composing = w.line("/theme ayu");
    assert!(composing.iter().all(|e| *e == KeyEffect::Redraw));
    assert_eq!(w.session.command.as_deref(), Some("/theme ayu"));
    assert_eq!(
        w.enter(),
        vec![
            KeyEffect::ClearMessage,
            KeyEffect::SetTheme("ayu".to_string()),
            KeyEffect::Redraw
        ]
    );
    assert_eq!(w.session.command, None);
    assert!(w.session.line_start);
}

#[test]
fn other_command_lines_go_to_the_shell() {
    let mut w = Window::new();
    w.line("/bin/ls");
    assert_eq!(
        w.enter(),
        vec![
            KeyEffect::ClearMessage,
            KeyEffect::Write(b"/bin/ls".to_vec()),
            KeyEffect::Write(b"\r".to_vec()),
            KeyEffect::Redraw
        ]
    );
}

#[test]
fn an_arrow_flushes_the_command_line() {
    let mut w = Window::new();
    w.line("/us");
    let effects = w.key(&press(Key::Named(NamedKey::ArrowLeft)), no_mods());
    assert_eq!(
        effects,
        vec![KeyEffect::Write(b"/us".to_vec()), KeyEffect::Write(b"\x1b[D".to_vec())]
    );
    assert_eq!(w.session.command, None);
    assert!(!w.session.line_start);
}

#[test]
fn search_overlay_takes_every_key() {
    let mut w = Window::new();
    let both = Mods { ctrl: true, shift: true, ..no_mods() };
    assert_eq!(w.key(&typed("F"), both), vec![KeyEffect::CloseSearch]);
    assert_eq!(w.session.search.as_deref(), Some(""));
    assert_eq!(w.key(&typed("a"), no_mods()), vec![KeyEffect::SearchFor("a".to_string())]);
    assert_eq!(w.key(&typed("b"), no_mods()), vec![KeyEffect::SearchFor("ab".to_string())]);
    let backspace = press(Key::Named(NamedKey::Backspace));
    assert_eq!(w.key(&backspace, no_mods()), vec![KeyEffect::SearchFor("a".to_string())]);
    assert_eq!(w.key(&backspace, no_mods()), vec![KeyEffect::CloseSearch]);
    assert_eq!(w.key(&press(Key::Named(NamedKey::ArrowUp)), no_mods()), vec![]);
    assert_eq!(w.enter(), vec![KeyEffect::SearchNext]);
    assert_eq!(w.session.search, None);
}

#[test]
fn bound_keys_act_once() {
    let mut w = Window::new();
    let both = Mods { ctrl: true, shift: true, ..no_mods() };
    assert_eq!(w.key(&typed("E"), both), vec![KeyEffect::Act(Action::SplitRight)]);
    let mut release = typed("E");
    release.state = ElementState::Released;
    assert_eq!(w.key(&release, both), vec![]);
    assert_eq!(
        w.key(&typed("P"), both),
        vec![KeyEffect::ClearMessage, KeyEffect::Redraw]
    );
    assert_eq!(w.session.command.as_deref(), Some("/"));
}

#[test]
fn ctrl_resets_the_shadow_line() {
    let mut w = Window::new();
    w.line("the");
    let ctrl = Mods { ctrl: true, ..no_mods() };
    assert_eq!(w.key(&typed("u"), ctrl), vec![KeyEffect::Write(vec![0x15])]);
    assert!(w.session.pending_line.is_empty());
    assert!(!w.session.line_start);
}

#[test]
fn actions_by_name() {
    assert_eq!(parse_action("scroll_down"), Some(Action::Scroll(ScrollTo::Lines(-3))));
    assert_eq!(parse_action("focus_pane_up"), Some(Action::Focus(Direction::Up)));
    assert_eq!(parse_action("font_reset"), Some(Action::Font(FontChange::Reset)));
    assert_eq!(parse_action("no_such_action"), None);
}

#[test]
fn theme_lines() {
    assert_eq!(run_theme_command("/theme"), KeyEffect::ListThemes);
    assert_eq!(run_theme_command("/theme nord x"), KeyEffect::SetTheme("nord".to_string()));
    assert_eq!(theme_feedback("nord", true), "theme set to nord");
    assert_eq!(theme_feedback("nope", false), "error: unknown theme `nope`");
    let names = vec!["a".to_string(), "b".to_string()];
    assert_eq!(
        themes_feedback(&names),
        "themes: a, b — try `theme <name>`, or drop <name>.toml in ~/.config/optix/themes/"
    );
}

#[test]
fn pane_events() {
    let mut batch = EventBatch::new();
    assert!(!batch.dirty);
    let title = |b: &mut EventBatch, t: Option<&str>| {
        b.on_event(1, PaneEventKind::Title(t.map(|t| t.to_string())), "Optix")
    };
    assert_eq!(
        title(&mut batch, Some("vim")),
        EventEffect::SetTitle { pane: "vim".to_string(), window: "vim".to_string() }
    );
    assert_eq!(
        title(&mut batch, None),
        EventEffect::SetTitle { pane: String::new(), window: "Optix".to_string() }
    );
    assert!(batch.dirty);
    assert_eq!(batch.on_event(1, PaneEventKind::Wakeup, ""), EventEffect::Nothing);
    assert_eq!(batch.on_event(1, PaneEventKind::Bell, ""), EventEffect::Flash);
    let ty = ClipboardType::Selection;
    assert_eq!(
        batch.on_event(1, PaneEventKind::ClipboardStore(ty, "x".to_string()), ""),
        EventEffect::Store(ty, "x".to_string())
    );
    assert_eq!(
        batch.on_event(1, PaneEventKind::ColorRequest(4), ""),
        EventEffect::AnswerColor(4)
    );
    assert_eq!(batch.on_event(4, PaneEventKind::Exit, ""), EventEffect::Nothing);
    assert_eq!(batch.exited, Some(4));
}
