//! What key presses do to a window: the search overlay, the `/command` line,
//! magic shell lines, key bindings, and what is left for the shell.
use vstd::prelude::*;
use vstd::string::*;
use vstd::utf8::*;

use crate::bindings::Bindings;
use crate::input::{encode_key, key_text, resolve, resolved, BindingResult};
use crate::keyboard::{ElementState, Key, KeyEvent, Mods, NamedKey, TermMode};
use crate::layout::Direction;
use crate::magic::{magic_of, parse, Magic, MagicView};
use crate::text::{
    begins_with, is_word, law_ascii_is_one_byte, law_words_are_words, lemma_encode_sum,
    lemma_word_alone, lemma_words_split, opt_text, owned, same, starts_with, texts, trim_left,
    trim_start, words, words_of,
};

verus! {

// ---------------------------------------------------------------------------
// The command line
// ---------------------------------------------------------------------------

/// What to do with the `/command` line after a key press.
#[derive(Clone, Copy, PartialEq, Eq, Debug, Structural)]
pub enum CommandKey {
    /// The line may have changed; keep composing.
    Keep,
    /// Run the command, or hand it to the shell.
    Execute,
    /// Drop the line, send nothing.
    Cancel,
    /// Send what was typed to the shell, then process the key normally.
    Flush,
}

/// Whether a key is one of the named keys that edit a line.
pub open spec fn is_key(key: Key, named: NamedKey) -> bool {
    key == Key::Named(named)
}

/// The text that a key types into the command line. The space bar types a
/// blank.
pub open spec fn typed(key: Key) -> Option<Seq<char>> {
    match key {
        Key::Character(ch) => Some(ch@),
        Key::Named(NamedKey::Space) => Some(" "@),
        _ => None,
    }
}

/// The command line after a key press, and what to do with it.
pub open spec fn edited(
    cmd: Seq<char>,
    mods: Mods,
    state: ElementState,
    repeat: bool,
    key: Key,
) -> (Seq<char>, CommandKey) {
    if state != ElementState::Pressed {
        (cmd, CommandKey::Keep)
    } else if is_key(key, NamedKey::Enter) {
        (cmd, CommandKey::Execute)
    } else if is_key(key, NamedKey::Escape) {
        (cmd, CommandKey::Cancel)
    } else if is_key(key, NamedKey::Backspace) {
        let rest = if cmd.len() == 0 {
            cmd
        } else {
            cmd.drop_last()
        };
        (
            rest,
            if rest.len() == 0 {
                CommandKey::Cancel
            } else {
                CommandKey::Keep
            },
        )
    } else if typed(key) is Some && !repeat && mods == Mods::none() {
        (cmd + typed(key)->0, CommandKey::Keep)
    } else {
        (cmd, CommandKey::Flush)
    }
}

/// Edit the command line by one key press.
pub fn command_edit(
    cmd: &mut String,
    mods: Mods,
    state: ElementState,
    repeat: bool,
    key: &Key,
) -> (r: CommandKey)
    ensures
        (final(cmd)@, r) == edited(old(cmd)@, mods, state, repeat, *key),
{
    if state != ElementState::Pressed {
        return CommandKey::Keep;
    }
    match key {
        Key::Named(NamedKey::Enter) => CommandKey::Execute,
        Key::Named(NamedKey::Escape) => CommandKey::Cancel,
        Key::Named(NamedKey::Backspace) => {
            cmd.pop();
            if cmd.as_str().unicode_len() == 0 {
                CommandKey::Cancel
            } else {
                CommandKey::Keep
            }
        },
        Key::Character(ch) => {
            if !repeat && mods.is_empty() {
                cmd.append(ch.as_str());
                CommandKey::Keep
            } else {
                CommandKey::Flush
            }
        },
        Key::Named(NamedKey::Space) => {
            if !repeat && mods.is_empty() {
                cmd.append(" ");
                CommandKey::Keep
            } else {
                CommandKey::Flush
            }
        },
        _ => CommandKey::Flush,
    }
}

/// Whether a key press opens the command line.
pub open spec fn opens_command(
    mods: Mods,
    line_start: bool,
    state: ElementState,
    repeat: bool,
    key: Key,
) -> bool {
    line_start && state == ElementState::Pressed && !repeat && mods == Mods::none() && (
    key matches Key::Character(ch) && ch@ == "/"@)
}

/// Whether a key press should open the command line: a plain `/` at the start
/// of a line.
pub fn command_trigger(
    mods: Mods,
    line_start: bool,
    state: ElementState,
    repeat: bool,
    key: &Key,
) -> (r: bool)
    ensures
        r == opens_command(mods, line_start, state, repeat, *key),
{
    if !(line_start && state == ElementState::Pressed && !repeat && mods.is_empty()) {
        return false;
    }
    match key {
        Key::Character(ch) => same(ch.as_str(), "/"),
        _ => false,
    }
}

// ---------------------------------------------------------------------------
// Shadowing the shell's line
// ---------------------------------------------------------------------------

/// How long the shadow line gets before it stops growing, in bytes.
pub const PENDING_LIMIT: usize = 256;

/// Whether some bytes hold a control byte.
pub open spec fn has_control(bytes: Seq<u8>) -> bool {
    exists|i: int| 0 <= i < bytes.len() && (#[trigger] bytes[i] < 0x20 || bytes[i] == 0x7f)
}

/// The shadow of the shell's line after some bytes were forwarded to the shell.
/// A backspace takes the last character away; control bytes add nothing; text is
/// added while the line is short.
pub open spec fn shadowed(line: Seq<char>, bytes: Seq<u8>) -> Seq<char> {
    if bytes == seq![0x7fu8] || bytes == seq![0x08u8] {
        if line.len() == 0 {
            line
        } else {
            line.drop_last()
        }
    } else if has_control(bytes) || !valid_utf8(bytes) || encode_utf8(line).len()
        >= PENDING_LIMIT {
        line
    } else {
        line + decode_utf8(bytes)
    }
}

/// Whether some bytes hold a control byte.
fn any_control(bytes: &[u8]) -> (r: bool)
    ensures
        r == has_control(bytes@),
{
    let mut i: usize = 0;
    while i < bytes.len()
        invariant
            i <= bytes@.len(),
            forall|k: int| 0 <= k < i ==> !(#[trigger] bytes@[k] < 0x20 || bytes@[k] == 0x7f),
        decreases bytes@.len() - i,
    {
        if bytes[i] < 0x20 || bytes[i] == 0x7f {
            assert(bytes@[i as int] < 0x20 || bytes@[i as int] == 0x7f);
            return true;
        }
        i += 1;
    }
    false
}

/// A copy of some bytes.
fn copy_bytes(bytes: &[u8]) -> (r: Vec<u8>)
    ensures
        r@ == bytes@,
{
    let mut out: Vec<u8> = Vec::new();
    let mut i: usize = 0;
    while i < bytes.len()
        invariant
            i <= bytes@.len(),
            out@ == bytes@.take(i as int),
        decreases bytes@.len() - i,
    {
        out.push(bytes[i]);
        assert(bytes@.take(i as int).push(bytes@[i as int]) =~= bytes@.take(i + 1));
        i += 1;
    }
    assert(bytes@.take(i as int) =~= bytes@);
    out
}

/// Follow the shell's line as plain text, so that magic commands can be
/// recognized when enter is pressed. `bytes` are what was forwarded to the shell
/// for a single key press other than enter.
pub fn track_pending_line(buf: &mut String, bytes: &[u8])
    ensures
        final(buf)@ == shadowed(old(buf)@, bytes@),
{
    if bytes.len() == 1 && (bytes[0] == 0x7f || bytes[0] == 0x08) {
        assert(bytes@ =~= seq![bytes@[0]]);
        buf.pop();
        return;
    }
    proof {
        if bytes@.len() == 1 {
            assert(seq![0x7fu8][0] == 0x7f && seq![0x08u8][0] == 0x08);
        }
    }
    if any_control(bytes) {
        return;
    }
    match String::from_utf8(copy_bytes(bytes)) {
        Ok(text) => {
            proof {
                encode_utf8_decode_utf8(text@);
            }
            if buf.as_str().as_bytes().len() < PENDING_LIMIT {
                buf.append(text.as_str());
            }
        },
        Err(_) => {},
    }
}

// ---------------------------------------------------------------------------
// Actions
// ---------------------------------------------------------------------------

/// Where a scroll action leads.
#[derive(Clone, Copy, PartialEq, Eq, Debug, Structural)]
pub enum ScrollTo {
    /// Up by some lines; a negative number goes down.
    Lines(i32),
    PageUp,
    PageDown,
    Top,
    Bottom,
}

/// How a font action changes the size.
#[derive(Clone, Copy, PartialEq, Eq, Debug, Structural)]
pub enum FontChange {
    Increase,
    Decrease,
    Reset,
}

/// An action that a key can be bound to.
#[derive(Clone, Copy, PartialEq, Eq, Debug, Structural)]
pub enum Action {
    SplitRight,
    SplitBelow,
    ClosePane,
    NextPane,
    PrevPane,
    Focus(Direction),
    Scroll(ScrollTo),
    Search,
    Command,
    SearchNext,
    SearchPrev,
    Copy,
    Paste,
    Font(FontChange),
    Quit,
}

/// The action with a name.
pub open spec fn action_named(name: Seq<char>) -> Option<Action> {
    if name == "split_right"@ {
        Some(Action::SplitRight)
    } else if name == "split_below"@ {
        Some(Action::SplitBelow)
    } else if name == "close_pane"@ {
        Some(Action::ClosePane)
    } else if name == "next_pane"@ {
        Some(Action::NextPane)
    } else if name == "prev_pane"@ {
        Some(Action::PrevPane)
    } else if name == "focus_pane_up"@ {
        Some(Action::Focus(Direction::Up))
    } else if name == "focus_pane_down"@ {
        Some(Action::Focus(Direction::Down))
    } else if name == "focus_pane_left"@ {
        Some(Action::Focus(Direction::Left))
    } else if name == "focus_pane_right"@ {
        Some(Action::Focus(Direction::Right))
    } else if name == "scroll_up"@ {
        Some(Action::Scroll(ScrollTo::Lines(3)))
    } else if name == "scroll_down"@ {
        Some(Action::Scroll(ScrollTo::Lines(-3i32)))
    } else if name == "page_up"@ {
        Some(Action::Scroll(ScrollTo::PageUp))
    } else if name == "page_down"@ {
        Some(Action::Scroll(ScrollTo::PageDown))
    } else if name == "scroll_top"@ {
        Some(Action::Scroll(ScrollTo::Top))
    } else if name == "scroll_bottom"@ {
        Some(Action::Scroll(ScrollTo::Bottom))
    } else if name == "search"@ {
        Some(Action::Search)
    } else if name == "command"@ {
        Some(Action::Command)
    } else if name == "search_next"@ {
        Some(Action::SearchNext)
    } else if name == "search_prev"@ {
        Some(Action::SearchPrev)
    } else if name == "copy"@ {
        Some(Action::Copy)
    } else if name == "paste"@ {
        Some(Action::Paste)
    } else if name == "font_increase"@ {
        Some(Action::Font(FontChange::Increase))
    } else if name == "font_decrease"@ {
        Some(Action::Font(FontChange::Decrease))
    } else if name == "font_reset"@ {
        Some(Action::Font(FontChange::Reset))
    } else if name == "quit"@ {
        Some(Action::Quit)
    } else {
        None
    }
}

/// The action with a name; a name that is not known has none.
pub fn parse_action(name: &str) -> (r: Option<Action>)
    ensures
        r == action_named(name@),
{
    if same(name, "split_right") {
        Some(Action::SplitRight)
    } else if same(name, "split_below") {
        Some(Action::SplitBelow)
    } else if same(name, "close_pane") {
        Some(Action::ClosePane)
    } else if same(name, "next_pane") {
        Some(Action::NextPane)
    } else if same(name, "prev_pane") {
        Some(Action::PrevPane)
    } else if same(name, "focus_pane_up") {
        Some(Action::Focus(Direction::Up))
    } else if same(name, "focus_pane_down") {
        Some(Action::Focus(Direction::Down))
    } else if same(name, "focus_pane_left") {
        Some(Action::Focus(Direction::Left))
    } else if same(name, "focus_pane_right") {
        Some(Action::Focus(Direction::Right))
    } else if same(name, "scroll_up") {
        Some(Action::Scroll(ScrollTo::Lines(3)))
    } else if same(name, "scroll_down") {
        Some(Action::Scroll(ScrollTo::Lines(-3)))
    } else if same(name, "page_up") {
        Some(Action::Scroll(ScrollTo::PageUp))
    } else if same(name, "page_down") {
        Some(Action::Scroll(ScrollTo::PageDown))
    } else if same(name, "scroll_top") {
        Some(Action::Scroll(ScrollTo::Top))
    } else if same(name, "scroll_bottom") {
        Some(Action::Scroll(ScrollTo::Bottom))
    } else if same(name, "search") {
        Some(Action::Search)
    } else if same(name, "command") {
        Some(Action::Command)
    } else if same(name, "search_next") {
        Some(Action::SearchNext)
    } else if same(name, "search_prev") {
        Some(Action::SearchPrev)
    } else if same(name, "copy") {
        Some(Action::Copy)
    } else if same(name, "paste") {
        Some(Action::Paste)
    } else if same(name, "font_increase") {
        Some(Action::Font(FontChange::Increase))
    } else if same(name, "font_decrease") {
        Some(Action::Font(FontChange::Decrease))
    } else if same(name, "font_reset") {
        Some(Action::Font(FontChange::Reset))
    } else if same(name, "quit") {
        Some(Action::Quit)
    } else {
        None
    }
}

// ---------------------------------------------------------------------------
// Key presses
// ---------------------------------------------------------------------------

/// Something to be done for a key press.
#[derive(Debug, Clone, PartialEq, Eq)]
pub enum KeyEffect {
    /// Draw the window again.
    Redraw,
    /// End the search in the focused pane.
    CloseSearch,
    /// Search the focused pane.
    SearchFor(String),
    /// Go to the next match in the focused pane.
    SearchNext,
    /// Write to the shell in the focused pane.
    Write(Vec<u8>),
    /// Carry out an action.
    Act(Action),
    /// Take away the message of an earlier command.
    ClearMessage,
    /// List the themes.
    ListThemes,
    /// Switch to a theme.
    SetTheme(String),
}

/// Something to be done for a key press, with the texts in it.
pub enum KeyEffectView {
    Redraw,
    CloseSearch,
    SearchFor(Seq<char>),
    SearchNext,
    Write(Seq<u8>),
    Act(Action),
    ClearMessage,
    ListThemes,
    SetTheme(Seq<char>),
}

impl View for KeyEffect {
    type V = KeyEffectView;

    open spec fn view(&self) -> KeyEffectView {
        match self {
            KeyEffect::Redraw => KeyEffectView::Redraw,
            KeyEffect::CloseSearch => KeyEffectView::CloseSearch,
            KeyEffect::SearchFor(query) => KeyEffectView::SearchFor(query@),
            KeyEffect::SearchNext => KeyEffectView::SearchNext,
            KeyEffect::Write(bytes) => KeyEffectView::Write(bytes@),
            KeyEffect::Act(action) => KeyEffectView::Act(*action),
            KeyEffect::ClearMessage => KeyEffectView::ClearMessage,
            KeyEffect::ListThemes => KeyEffectView::ListThemes,
            KeyEffect::SetTheme(name) => KeyEffectView::SetTheme(name@),
        }
    }
}

/// The effects of a key press, in order.
pub open spec fn effects(v: Seq<KeyEffect>) -> Seq<KeyEffectView> {
    Seq::new(v.len(), |i: int| v[i]@)
}

/// What the window remembers between key presses.
pub struct Session {
    /// The query of the search overlay, while it is open.
    pub search: Option<String>,
    /// The `/command` line, while one is composed.
    pub command: Option<String>,
    /// The next key press is taken to start a fresh shell line.
    pub line_start: bool,
    /// Text forwarded to the shell since the last enter.
    pub pending_line: String,
}

/// The contents of a session.
#[verifier::ext_equal]
pub struct SessionView {
    pub search: Option<Seq<char>>,
    pub command: Option<Seq<char>>,
    pub line_start: bool,
    pub pending_line: Seq<char>,
}

impl View for Session {
    type V = SessionView;

    open spec fn view(&self) -> SessionView {
        SessionView {
            search: opt_text(self.search),
            command: opt_text(self.command),
            line_start: self.line_start,
            pending_line: self.pending_line@,
        }
    }
}

/// What a key press in the search overlay does. Escape closes it; enter goes to
/// the next match and closes it; typing changes the query.
pub open spec fn search_step(st: SessionView, event: KeyEvent) -> (
    SessionView,
    Seq<KeyEffectView>,
) {
    let query = st.search->0;
    let pressed = event.state == ElementState::Pressed;
    if is_key(event.logical_key, NamedKey::Escape) {
        (SessionView { search: None, ..st }, seq![KeyEffectView::CloseSearch])
    } else if is_key(event.logical_key, NamedKey::Enter) && pressed {
        (SessionView { search: None, ..st }, seq![KeyEffectView::SearchNext])
    } else if is_key(event.logical_key, NamedKey::Backspace) && pressed {
        let rest = if query.len() == 0 {
            query
        } else {
            query.drop_last()
        };
        (SessionView { search: Some(rest), ..st }, seq![search_effect(rest)])
    } else if event.logical_key is Character && pressed && !event.repeat {
        let longer = query + event.logical_key->Character_0@;
        (SessionView { search: Some(longer), ..st }, seq![search_effect(longer)])
    } else {
        (st, seq![])
    }
}

/// Searching for nothing ends the search.
pub open spec fn search_effect(query: Seq<char>) -> KeyEffectView {
    if query.len() == 0 {
        KeyEffectView::CloseSearch
    } else {
        KeyEffectView::SearchFor(query)
    }
}

/// What an action does by its name. Two actions open an overlay; the others are
/// passed on, and a name that is not known does nothing.
pub open spec fn action_step(st: SessionView, name: Seq<char>) -> (
    SessionView,
    Seq<KeyEffectView>,
) {
    match action_named(name) {
        Some(Action::Search) => (
            SessionView { search: Some(seq![]), ..st },
            seq![KeyEffectView::CloseSearch],
        ),
        Some(Action::Command) => (
            SessionView { command: Some("/"@), line_start: false, pending_line: seq![], ..st },
            seq![KeyEffectView::ClearMessage, KeyEffectView::Redraw],
        ),
        Some(action) => (st, seq![KeyEffectView::Act(action)]),
        None => (st, seq![]),
    }
}

/// What a `/theme` line does: without a name it lists the themes.
pub open spec fn theme_effect(line: Seq<char>) -> KeyEffectView {
    if words(line).len() < 2 {
        KeyEffectView::ListThemes
    } else {
        KeyEffectView::SetTheme(words(line)[1])
    }
}

/// What running a command line does. A line that is no command of the terminal
/// goes to the shell as a whole.
pub open spec fn run_effects(line: Seq<char>) -> Seq<KeyEffectView> {
    if begins_with(trim_left(line), "/theme"@) {
        seq![KeyEffectView::ClearMessage, theme_effect(line), KeyEffectView::Redraw]
    } else {
        seq![
            KeyEffectView::ClearMessage,
            KeyEffectView::Write(encode_utf8(line)),
            KeyEffectView::Write(encode_utf8("\r"@)),
            KeyEffectView::Redraw,
        ]
    }
}

/// What a magic command does. The shell holds the line in its editor, so that is
/// cleared first.
pub open spec fn magic_effects(magic: MagicView) -> Seq<KeyEffectView> {
    seq![
        KeyEffectView::Write(encode_utf8("\x15"@)),
        match magic {
            MagicView::ThemeList => KeyEffectView::ListThemes,
            MagicView::ThemeSet(name) => KeyEffectView::SetTheme(name),
        },
        KeyEffectView::Redraw,
    ]
}

/// Whether a key event submits the line: a press of enter that is no repeat.
pub open spec fn submits(event: KeyEvent) -> bool {
    event.state == ElementState::Pressed && !event.repeat && is_key(
        event.logical_key,
        NamedKey::Enter,
    )
}

/// What a key event that reaches the shell does. The shadow line and the guess
/// that a fresh line starts follow what the shell is sent: enter starts a fresh
/// line, a ctrl combination makes the shadow line useless.
pub open spec fn forward_step(st: SessionView, event: KeyEvent, mods: Mods, mode: TermMode) -> (
    SessionView,
    Seq<KeyEffectView>,
) {
    let bytes = encode_utf8(key_text(event, mods, mode));
    if bytes.len() == 0 {
        (st, seq![])
    } else if submits(event) {
        (
            SessionView { pending_line: seq![], line_start: true, ..st },
            seq![KeyEffectView::Write(bytes)],
        )
    } else if mods.ctrl {
        (
            SessionView { pending_line: seq![], line_start: false, ..st },
            seq![KeyEffectView::Write(bytes)],
        )
    } else {
        (
            SessionView {
                pending_line: shadowed(st.pending_line, bytes),
                line_start: false,
                ..st
            },
            seq![KeyEffectView::Write(bytes)],
        )
    }
}

/// What a key event does outside the overlays: a bound action on the first
/// press, nothing on a release that nobody asked for, a magic line on enter, and
/// the shell otherwise.
pub open spec fn plain_step(
    st: SessionView,
    event: KeyEvent,
    mods: Mods,
    table: Map<Seq<char>, Seq<char>>,
    magic_enabled: bool,
    mode: TermMode,
) -> (SessionView, Seq<KeyEffectView>) {
    let pressed = event.state == ElementState::Pressed;
    let bound = resolved(event, mods, table);
    if pressed && !event.repeat && bound is Some {
        action_step(st, bound->0)
    } else if !pressed && !mode.report_event_types {
        (st, seq![])
    } else if submits(event) && magic_enabled && magic_of(st.pending_line) is Some {
        (
            SessionView { pending_line: seq![], line_start: true, ..st },
            magic_effects(magic_of(st.pending_line)->0),
        )
    } else {
        forward_step(st, event, mods, mode)
    }
}

/// What a key event does while a command line is composed.
pub open spec fn command_step(
    st: SessionView,
    event: KeyEvent,
    mods: Mods,
    table: Map<Seq<char>, Seq<char>>,
    magic_enabled: bool,
    mode: TermMode,
) -> (SessionView, Seq<KeyEffectView>) {
    let (cmd, what) = edited(
        st.command->0,
        mods,
        event.state,
        event.repeat,
        event.logical_key,
    );
    let fresh = SessionView { command: None, line_start: true, pending_line: seq![], ..st };
    match what {
        CommandKey::Keep => (
            SessionView { command: Some(cmd), ..st },
            seq![KeyEffectView::Redraw],
        ),
        CommandKey::Execute => (fresh, run_effects(cmd)),
        CommandKey::Cancel => (fresh, seq![KeyEffectView::Redraw]),
        CommandKey::Flush => {
            let (after, rest) = plain_step(
                SessionView { line_start: false, ..fresh },
                event,
                mods,
                table,
                magic_enabled,
                mode,
            );
            (after, seq![KeyEffectView::Write(encode_utf8(cmd))] + rest)
        },
    }
}

/// What a key event does: the search overlay comes first, then a command line
/// that is open or opened by the key, then everything else.
pub open spec fn key_step(
    st: SessionView,
    event: KeyEvent,
    mods: Mods,
    table: Map<Seq<char>, Seq<char>>,
    magic_enabled: bool,
    mode: TermMode,
) -> (SessionView, Seq<KeyEffectView>) {
    if st.search is Some {
        search_step(st, event)
    } else if st.command is Some {
        command_step(st, event, mods, table, magic_enabled, mode)
    } else if opens_command(mods, st.line_start, event.state, event.repeat, event.logical_key) {
        (
            SessionView { command: Some("/"@), line_start: false, pending_line: seq![], ..st },
            seq![KeyEffectView::Redraw],
        )
    } else {
        plain_step(st, event, mods, table, magic_enabled, mode)
    }
}

/// The UTF-8 form of a text.
fn bytes_of(text: &str) -> (r: Vec<u8>)
    ensures
        r@ == encode_utf8(text@),
{
    owned(text).into_bytes()
}

/// Decide what a `/theme` line does.
pub fn run_theme_command(line: &str) -> (r: KeyEffect)
    ensures
        r@ == theme_effect(line@),
{
    let args = words_of(line);
    assert(texts(args@) == words(line@));
    if args.len() < 2 {
        return KeyEffect::ListThemes;
    }
    assert(texts(args@)[1] == args@[1]@);
    KeyEffect::SetTheme(owned(args[1].as_str()))
}

/// Search for a query, or end the search where there is none.
fn update_search(query: &str) -> (r: KeyEffect)
    ensures
        r@ == search_effect(query@),
{
    if query.unicode_len() == 0 {
        KeyEffect::CloseSearch
    } else {
        KeyEffect::SearchFor(owned(query))
    }
}

/// Whether a key event submits the line.
fn enter_pressed(event: &KeyEvent) -> (r: bool)
    ensures
        r == submits(*event),
{
    let is_enter = match &event.logical_key {
        Key::Named(NamedKey::Enter) => true,
        _ => false,
    };
    event.state == ElementState::Pressed && !event.repeat && is_enter
}

impl Session {
    /// A session at the start of a shell line, with no overlay open.
    pub fn new() -> (r: Session)
        ensures
            r@ == (SessionView {
                search: None,
                command: None,
                line_start: true,
                pending_line: seq![],
            }),
    {
        let r = Session {
            search: None,
            command: None,
            line_start: true,
            pending_line: String::new(),
        };
        assert(r.pending_line@ =~= seq![]);
        r
    }

    /// Carry out a key event and say what has to be done for it, in order.
    /// `mode` holds the modes of the focused pane.
    pub fn on_key(
        &mut self,
        event: &KeyEvent,
        mods: Mods,
        bindings: &Bindings,
        magic_enabled: bool,
        mode: TermMode,
    ) -> (r: Vec<KeyEffect>)
        ensures
            (final(self)@, effects(r@)) == key_step(
                old(self)@,
                *event,
                mods,
                bindings@,
                magic_enabled,
                mode,
            ),
    {
        if self.search.is_some() {
            return self.on_search_key(event);
        }
        if self.command.is_some() {
            return self.on_command_key(event, mods, bindings, magic_enabled, mode);
        }
        if command_trigger(
            mods,
            self.line_start,
            event.state,
            event.repeat,
            &event.logical_key,
        ) {
            self.command = Some(owned("/"));
            self.line_start = false;
            self.pending_line = String::new();
            let mut out: Vec<KeyEffect> = Vec::new();
            out.push(KeyEffect::Redraw);
            assert(self.pending_line@ =~= seq![]);
            assert(effects(out@) =~= seq![KeyEffectView::Redraw]);
            return out;
        }
        self.on_plain_key(event, mods, bindings, magic_enabled, mode)
    }

    /// Carry out a key event in the search overlay.
    fn on_search_key(&mut self, event: &KeyEvent) -> (r: Vec<KeyEffect>)
        requires
            old(self)@.search is Some,
        ensures
            (final(self)@, effects(r@)) == search_step(old(self)@, *event),
    {
        let ghost before = self@;
        let mut out: Vec<KeyEffect> = Vec::new();
        let pressed = event.state == ElementState::Pressed;
        match &event.logical_key {
            Key::Named(NamedKey::Escape) => {
                self.search = None;
                out.push(KeyEffect::CloseSearch);
                assert(effects(out@) =~= seq![KeyEffectView::CloseSearch]);
            },
            Key::Named(NamedKey::Enter) => {
                if pressed {
                    self.search = None;
                    out.push(KeyEffect::SearchNext);
                    assert(effects(out@) =~= seq![KeyEffectView::SearchNext]);
                } else {
                    assert(effects(out@) =~= seq![]);
                }
            },
            Key::Named(NamedKey::Backspace) => {
                if pressed {
                    if let Some(query) = self.search.take() {
                        let mut query = query;
                        query.pop();
                        out.push(update_search(query.as_str()));
                        assert(effects(out@) =~= seq![search_effect(query@)]);
                        self.search = Some(query);
                    }
                } else {
                    assert(effects(out@) =~= seq![]);
                }
            },
            Key::Character(ch) => {
                if pressed && !event.repeat {
                    if let Some(query) = self.search.take() {
                        let mut query = query;
                        query.append(ch.as_str());
                        out.push(update_search(query.as_str()));
                        assert(effects(out@) =~= seq![search_effect(query@)]);
                        self.search = Some(query);
                    }
                } else {
                    assert(effects(out@) =~= seq![]);
                }
            },
            _ => {
                assert(effects(out@) =~= seq![]);
            },
        }
        out
    }

    /// Carry out an action by its name.
    pub fn handle_action(&mut self, name: &str) -> (r: Vec<KeyEffect>)
        ensures
            (final(self)@, effects(r@)) == action_step(old(self)@, name@),
    {
        let mut out: Vec<KeyEffect> = Vec::new();
        match parse_action(name) {
            Some(Action::Search) => {
                let query = String::new();
                assert(query@ =~= seq![]);
                self.search = Some(query);
                out.push(KeyEffect::CloseSearch);
                assert(effects(out@) =~= seq![KeyEffectView::CloseSearch]);
            },
            Some(Action::Command) => {
                self.command = Some(owned("/"));
                self.line_start = false;
                self.pending_line = String::new();
                assert(self.pending_line@ =~= seq![]);
                out.push(KeyEffect::ClearMessage);
                out.push(KeyEffect::Redraw);
                assert(effects(out@) =~= seq![KeyEffectView::ClearMessage, KeyEffectView::Redraw]);
            },
            Some(action) => {
                out.push(KeyEffect::Act(action));
                assert(effects(out@) =~= seq![KeyEffectView::Act(action)]);
            },
            None => {
                assert(effects(out@) =~= seq![]);
            },
        }
        out
    }

    /// Carry out a key event while a command line is composed.
    fn on_command_key(
        &mut self,
        event: &KeyEvent,
        mods: Mods,
        bindings: &Bindings,
        magic_enabled: bool,
        mode: TermMode,
    ) -> (r: Vec<KeyEffect>)
        requires
            old(self)@.command is Some,
        ensures
            (final(self)@, effects(r@)) == command_step(
                old(self)@,
                *event,
                mods,
                bindings@,
                magic_enabled,
                mode,
            ),
    {
        let mut out: Vec<KeyEffect> = Vec::new();
        let mut cmd = match self.command.take() {
            Some(cmd) => cmd,
            None => return out,
        };
        match command_edit(&mut cmd, mods, event.state, event.repeat, &event.logical_key) {
            CommandKey::Keep => {
                self.command = Some(cmd);
                out.push(KeyEffect::Redraw);
                assert(effects(out@) =~= seq![KeyEffectView::Redraw]);
            },
            CommandKey::Execute => {
                self.line_start = true;
                self.pending_line = String::new();
                assert(self.pending_line@ =~= seq![]);
                out.push(KeyEffect::ClearMessage);
                let start = trim_start(cmd.as_str());
                if starts_with(start.as_str(), "/theme") {
                    out.push(run_theme_command(cmd.as_str()));
                } else {
                    out.push(KeyEffect::Write(bytes_of(cmd.as_str())));
                    out.push(KeyEffect::Write(bytes_of("\r")));
                }
                out.push(KeyEffect::Redraw);
                assert(effects(out@) =~= run_effects(cmd@));
            },
            CommandKey::Cancel => {
                self.line_start = true;
                self.pending_line = String::new();
                assert(self.pending_line@ =~= seq![]);
                out.push(KeyEffect::Redraw);
                assert(effects(out@) =~= seq![KeyEffectView::Redraw]);
            },
            CommandKey::Flush => {
                self.line_start = false;
                self.pending_line = String::new();
                assert(self.pending_line@ =~= seq![]);
                let bytes = bytes_of(cmd.as_str());
                let ghost sent = bytes@;
                out.push(KeyEffect::Write(bytes));
                let mut rest = self.on_plain_key(event, mods, bindings, magic_enabled, mode);
                let ghost later = effects(rest@);
                out.append(&mut rest);
                assert(effects(out@) =~= seq![KeyEffectView::Write(sent)] + later);
            },
        }
        out
    }

    /// Carry out a key event outside the overlays.
    fn on_plain_key(
        &mut self,
        event: &KeyEvent,
        mods: Mods,
        bindings: &Bindings,
        magic_enabled: bool,
        mode: TermMode,
    ) -> (r: Vec<KeyEffect>)
        ensures
            (final(self)@, effects(r@)) == plain_step(
                old(self)@,
                *event,
                mods,
                bindings@,
                magic_enabled,
                mode,
            ),
    {
        if event.state == ElementState::Pressed && !event.repeat {
            match resolve(event, mods, bindings) {
                BindingResult::Action(action) => {
                    return self.handle_action(action.as_str());
                },
                BindingResult::Passthrough => {},
            }
        }
        if event.state != ElementState::Pressed && !mode.report_event_types {
            let out: Vec<KeyEffect> = Vec::new();
            assert(effects(out@) =~= seq![]);
            return out;
        }
        if enter_pressed(event) && magic_enabled {
            if let Some(magic) = parse(self.pending_line.as_str()) {
                return self.run_magic(magic);
            }
        }
        self.forward(event, mods, mode)
    }

    /// Run a magic command in place of the line that the shell holds.
    fn run_magic(&mut self, magic: Magic) -> (r: Vec<KeyEffect>)
        ensures
            final(self)@ == (SessionView {
                pending_line: seq![],
                line_start: true,
                ..old(self)@
            }),
            effects(r@) == magic_effects(magic@),
    {
        let ghost what = magic@;
        let mut out: Vec<KeyEffect> = Vec::new();
        self.pending_line = String::new();
        assert(self.pending_line@ =~= seq![]);
        self.line_start = true;
        out.push(KeyEffect::Write(bytes_of("\x15")));
        match magic {
            Magic::ThemeList => out.push(KeyEffect::ListThemes),
            Magic::ThemeSet(name) => out.push(KeyEffect::SetTheme(name)),
        }
        out.push(KeyEffect::Redraw);
        assert(effects(out@) =~= magic_effects(what));
        out
    }

    /// Send a key event to the shell and follow what it does to the line.
    fn forward(&mut self, event: &KeyEvent, mods: Mods, mode: TermMode) -> (r: Vec<KeyEffect>)
        ensures
            (final(self)@, effects(r@)) == forward_step(old(self)@, *event, mods, mode),
    {
        let mut out: Vec<KeyEffect> = Vec::new();
        let bytes = encode_key(event, mods, mode);
        if bytes.len() == 0 {
            assert(effects(out@) =~= seq![]);
            return out;
        }
        if enter_pressed(event) {
            self.pending_line = String::new();
            self.line_start = true;
            assert(self.pending_line@ =~= seq![]);
        } else if mods.ctrl {
            self.pending_line = String::new();
            self.line_start = false;
            assert(self.pending_line@ =~= seq![]);
        } else {
            track_pending_line(&mut self.pending_line, bytes.as_slice());
            self.line_start = false;
        }
        let ghost sent = bytes@;
        out.push(KeyEffect::Write(bytes));
        assert(effects(out@) =~= seq![KeyEffectView::Write(sent)]);
        out
    }
}

// ---------------------------------------------------------------------------
// Feedback
// ---------------------------------------------------------------------------

/// Texts with a comma and a blank between them.
pub open spec fn listed(names: Seq<Seq<char>>) -> Seq<char>
    decreases names.len(),
{
    if names.len() == 0 {
        seq![]
    } else if names.len() == 1 {
        names[0]
    } else {
        listed(names.drop_last()) + ", "@ + names.last()
    }
}

/// The feedback on switching to a theme.
pub open spec fn switch_feedback(name: Seq<char>, found: bool) -> Seq<char> {
    if found {
        "theme set to "@ + name
    } else {
        "error: unknown theme `"@ + name + "`"@
    }
}

/// The feedback that lists some themes.
pub open spec fn list_feedback(names: Seq<Seq<char>>) -> Seq<char> {
    "themes: "@ + listed(names)
        + " \u{2014} try `theme <name>`, or drop <name>.toml in ~/.config/optix/themes/"@
}

/// The feedback on switching to a theme, which is also the response to a client
/// that asked for it.
pub fn theme_feedback(name: &str, found: bool) -> (r: String)
    ensures
        r@ == switch_feedback(name@, found),
{
    if found {
        let mut out = owned("theme set to ");
        out.append(name);
        out
    } else {
        let mut out = owned("error: unknown theme `");
        out.append(name);
        out.append("`");
        out
    }
}

/// The feedback that lists the themes.
pub fn themes_feedback(names: &Vec<String>) -> (r: String)
    ensures
        r@ == list_feedback(texts(names@)),
{
    let ghost all = texts(names@);
    let mut out = owned("themes: ");
    let mut i: usize = 0;
    assert(all.take(0) =~= Seq::empty());
    assert(out@ =~= "themes: "@ + listed(all.take(0)));
    while i < names.len()
        invariant
            i <= names@.len(),
            all == texts(names@),
            out@ == "themes: "@ + listed(all.take(i as int)),
        decreases names@.len() - i,
    {
        proof {
            assert(all.take(i + 1).drop_last() =~= all.take(i as int));
            assert(all.take(i + 1).last() == names@[i as int]@);
        }
        if i > 0 {
            out.append(", ");
        }
        out.append(names[i].as_str());
        proof {
            if i == 0 {
                assert(all.take(1)[0] == names@[0]@);
                assert(out@ =~= "themes: "@ + names@[0]@);
            } else {
                assert(out@ =~= "themes: "@ + (listed(all.take(i as int)) + ", "@
                    + names@[i as int]@));
            }
        }
        i += 1;
    }
    assert(all.take(i as int) =~= all);
    out.append(" \u{2014} try `theme <name>`, or drop <name>.toml in ~/.config/optix/themes/");
    out
}

// ---------------------------------------------------------------------------
// Laws
// ---------------------------------------------------------------------------

/// The search overlay and the command line are never open together.
pub proof fn law_one_overlay(
    st: SessionView,
    event: KeyEvent,
    mods: Mods,
    table: Map<Seq<char>, Seq<char>>,
    magic_enabled: bool,
    mode: TermMode,
)
    requires
        !(st.search is Some && st.command is Some),
    ensures
        ({
            let after = key_step(st, event, mods, table, magic_enabled, mode).0;
            !(after.search is Some && after.command is Some)
        }),
{
}

/// Whether an effect writes to the shell.
pub open spec fn writes(effect: KeyEffectView) -> bool {
    effect is Write
}

/// While a command line is composed or dropped, nothing reaches the shell.
pub proof fn law_composing_is_silent(
    st: SessionView,
    event: KeyEvent,
    mods: Mods,
    table: Map<Seq<char>, Seq<char>>,
    magic_enabled: bool,
    mode: TermMode,
)
    requires
        st.search is None,
        st.command is Some,
        ({
            let what = edited(
                st.command->0,
                mods,
                event.state,
                event.repeat,
                event.logical_key,
            ).1;
            what == CommandKey::Keep || what == CommandKey::Cancel
        }),
    ensures
        key_step(st, event, mods, table, magic_enabled, mode).1 == seq![KeyEffectView::Redraw],
{
}

/// The search overlay takes every key: none reaches the shell while it is open.
pub proof fn law_search_takes_every_key(
    st: SessionView,
    event: KeyEvent,
    mods: Mods,
    table: Map<Seq<char>, Seq<char>>,
    magic_enabled: bool,
    mode: TermMode,
)
    requires
        st.search is Some,
    ensures
        forall|i: int|
            0 <= i < key_step(st, event, mods, table, magic_enabled, mode).1.len() ==> !writes(
                #[trigger] key_step(st, event, mods, table, magic_enabled, mode).1[i],
            ),
{
}

/// When enter is pressed on a magic line, the shell is sent the keystroke that
/// clears its line and nothing else, and the next key starts a fresh line.
pub proof fn law_magic_line_is_swallowed(
    st: SessionView,
    event: KeyEvent,
    mods: Mods,
    table: Map<Seq<char>, Seq<char>>,
    mode: TermMode,
)
    requires
        st.search is None,
        st.command is None,
        submits(event),
        resolved(event, mods, table) is None,
        magic_of(st.pending_line) is Some,
    ensures
        ({
            let (after, what) = key_step(st, event, mods, table, true, mode);
            &&& what == magic_effects(magic_of(st.pending_line)->0)
            &&& forall|i: int|
                0 < i < what.len() ==> !writes(#[trigger] what[i])
            &&& after.line_start
            &&& after.pending_line == Seq::<char>::empty()
        }),
{
}

/// A character that is no ASCII control character has no control byte in its
/// UTF-8 form.
proof fn lemma_plain_scalar(c: char)
    requires
        c >= ' ',
        c != '\x7f',
    ensures
        !has_control(encode_scalar(c as u32)),
{
    let u = c as u32;
    char_is_scalar(c);
    let bytes = encode_scalar(u);
    assert(u >= 0x20 && u != 0x7f);
    if has_width_1_encoding(u) {
        assert(leading_byte_width_1(u) >= 0x20u8 && leading_byte_width_1(u) != 0x7fu8) by (bit_vector)
            requires
                0x20 <= u < 0x7f,
        ;
    } else {
        assert(leading_byte_width_2(u) >= 0x80u8) by (bit_vector);
        assert(leading_byte_width_3(u) >= 0x80u8) by (bit_vector);
        assert(leading_byte_width_4(u) >= 0x80u8) by (bit_vector);
        assert(last_continuation_byte(u) >= 0x80u8) by (bit_vector);
        assert(second_last_continuation_byte(u) >= 0x80u8) by (bit_vector);
        assert(third_last_continuation_byte(u) >= 0x80u8) by (bit_vector);
    }
    assert forall|i: int| 0 <= i < bytes.len() implies !(#[trigger] bytes[i] < 0x20 || bytes[i]
        == 0x7f) by {}
}

/// Whether a text holds no ASCII control character.
pub open spec fn is_printable(text: Seq<char>) -> bool {
    forall|i: int| 0 <= i < text.len() ==> #[trigger] text[i] >= ' ' && text[i] != '\x7f'
}

/// A text without control characters has no control byte in its UTF-8 form.
proof fn lemma_plain_text(text: Seq<char>)
    requires
        is_printable(text),
    ensures
        !has_control(encode_utf8(text)),
    decreases text.len(),
{
    if text.len() > 0 {
        let rest = text.drop_first();
        assert forall|i: int| 0 <= i < rest.len() implies #[trigger] rest[i] >= ' ' && rest[i]
            != '\x7f' by {
            assert(rest[i] == text[i + 1]);
        }
        lemma_plain_text(rest);
        lemma_plain_scalar(text[0]);
        let a = encode_scalar(text[0] as u32);
        let b = encode_utf8(rest);
        let all = encode_utf8(text);
        assert(all == a + b);
        assert forall|i: int| 0 <= i < all.len() implies !(#[trigger] all[i] < 0x20 || all[i]
            == 0x7f) by {
            if i < a.len() {
                assert(all[i] == a[i]);
            } else {
                assert(all[i] == b[i - a.len()]);
            }
        }
    }
}

/// While the shadow line is short, typing printable text extends it by that
/// text.
pub proof fn law_shadow_follows_typing(line: Seq<char>, text: Seq<char>)
    requires
        is_printable(text),
        encode_utf8(line).len() < PENDING_LIMIT,
    ensures
        shadowed(line, encode_utf8(text)) == line + text,
{
    lemma_plain_text(text);
    let bytes = encode_utf8(text);
    encode_utf8_valid_utf8(text);
    encode_utf8_decode_utf8(text);
    if bytes == seq![0x7fu8] || bytes == seq![0x08u8] {
        assert(bytes[0] < 0x20 || bytes[0] == 0x7f);
    }
}

/// A backspace takes back the character typed before it.
pub proof fn law_backspace_undoes_typing(line: Seq<char>, c: char)
    requires
        is_printable(seq![c]),
        encode_utf8(line).len() < PENDING_LIMIT,
    ensures
        shadowed(shadowed(line, encode_utf8(seq![c])), seq![0x7fu8]) == line,
{
    law_shadow_follows_typing(line, seq![c]);
    assert((line + seq![c]).drop_last() =~= line);
}

/// When enter is pressed on a magic line, the shell is sent the byte that clears
/// its line; then the themes are listed or one is switched to, and the window is
/// drawn again. Nothing else happens.
pub proof fn law_magic_line_runs(
    st: SessionView,
    event: KeyEvent,
    mods: Mods,
    table: Map<Seq<char>, Seq<char>>,
    mode: TermMode,
    name: Seq<char>,
)
    requires
        st.search is None,
        st.command is None,
        event.state == ElementState::Pressed,
        !event.repeat,
        event.logical_key == Key::Named(NamedKey::Enter),
        resolved(event, mods, table) is None,
    ensures
        ({
            let (after, what) = key_step(st, event, mods, table, true, mode);
            let list = magic_of(st.pending_line) == Some(MagicView::ThemeList);
            let set = magic_of(st.pending_line) == Some(MagicView::ThemeSet(name));
            &&& list ==> what == seq![
                KeyEffectView::Write(seq![0x15u8]),
                KeyEffectView::ListThemes,
                KeyEffectView::Redraw,
            ]
            &&& set ==> what == seq![
                KeyEffectView::Write(seq![0x15u8]),
                KeyEffectView::SetTheme(name),
                KeyEffectView::Redraw,
            ]
            &&& list || set ==> after.search is None && after.command is None && after.line_start
                && after.pending_line.len() == 0
        }),
{
    reveal_strlit("\x15");
    assert("\x15"@ =~= seq!['\x15']);
    law_ascii_is_one_byte('\x15');
}

/// A magic line does what the same line does behind a slash in the command line:
/// `theme` what `/theme` does, and `theme name` what `/theme name` does.
pub proof fn law_magic_line_is_like_command(
    st: SessionView,
    event: KeyEvent,
    mods: Mods,
    table: Map<Seq<char>, Seq<char>>,
    mode: TermMode,
    name: Seq<char>,
)
    requires
        st.search is None,
        st.command is None,
        event.state == ElementState::Pressed,
        !event.repeat,
        event.logical_key == Key::Named(NamedKey::Enter),
        resolved(event, mods, table) is None,
    ensures
        ({
            let what = key_step(st, event, mods, table, true, mode).1;
            let slash = seq!['/', 't', 'h', 'e', 'm', 'e'];
            let bare = SessionView { command: Some(slash), ..st };
            let named = SessionView { command: Some(slash + seq![' '] + name), ..st };
            &&& magic_of(st.pending_line) == Some(MagicView::ThemeList) ==> key_step(
                bare,
                event,
                mods,
                table,
                true,
                mode,
            ).1[1] == what[1]
            &&& magic_of(st.pending_line) == Some(MagicView::ThemeSet(name)) ==> key_step(
                named,
                event,
                mods,
                table,
                true,
                mode,
            ).1[1] == what[1]
        }),
{
    law_magic_line_runs(st, event, mods, table, mode, name);
    law_words_are_words(st.pending_line);
    law_slash_theme_runs(
        SessionView { command: Some(seq!['/', 't', 'h', 'e', 'm', 'e']), ..st },
        event,
        mods,
        table,
        true,
        mode,
        name,
    );
    if magic_of(st.pending_line) == Some(MagicView::ThemeSet(name)) {
        assert(is_word(words(st.pending_line)[1]));
        law_slash_theme_runs(
            SessionView {
                command: Some(seq!['/', 't', 'h', 'e', 'm', 'e'] + seq![' '] + name),
                ..st
            },
            event,
            mods,
            table,
            true,
            mode,
            name,
        );
    }
}

/// Enter on `/theme` lists the themes, and on `/theme name` switches to that
/// theme; the message of an earlier command goes first and the window is drawn
/// again. The next key starts a fresh line.
pub proof fn law_slash_theme_runs(
    st: SessionView,
    event: KeyEvent,
    mods: Mods,
    table: Map<Seq<char>, Seq<char>>,
    magic_enabled: bool,
    mode: TermMode,
    name: Seq<char>,
)
    requires
        st.search is None,
        st.command is Some,
        event.state == ElementState::Pressed,
        event.logical_key == Key::Named(NamedKey::Enter),
    ensures
        ({
            let (after, what) = key_step(st, event, mods, table, magic_enabled, mode);
            let slash = seq!['/', 't', 'h', 'e', 'm', 'e'];
            &&& st.command == Some(slash) ==> what == seq![
                KeyEffectView::ClearMessage,
                KeyEffectView::ListThemes,
                KeyEffectView::Redraw,
            ]
            &&& is_word(name) && st.command == Some(slash + seq![' '] + name) ==> what == seq![
                KeyEffectView::ClearMessage,
                KeyEffectView::SetTheme(name),
                KeyEffectView::Redraw,
            ]
            &&& after == (SessionView {
                search: None,
                command: None,
                line_start: true,
                pending_line: seq![],
            })
        }),
{
    reveal_strlit("/theme");
    let slash = seq!['/', 't', 'h', 'e', 'm', 'e'];
    assert("/theme"@ =~= slash);
    let line = st.command->0;
    if st.command == Some(slash) {
        assert(is_word(slash));
        lemma_word_alone(slash);
        assert(line.take(6) =~= slash);
    } else if is_word(name) && st.command == Some(slash + seq![' '] + name) {
        lemma_word_alone(slash);
        lemma_word_alone(name);
        lemma_words_split(slash, ' ', name);
        assert(words(line) =~= seq![slash, name]);
        assert(line[0] == '/');
        assert(line.take(6) =~= slash);
    }
}

/// Enter on a line that does not start with `/theme` sends the line and a
/// carriage return to the shell; nothing is sent for one that does.
pub proof fn law_other_commands_go_to_the_shell(
    st: SessionView,
    event: KeyEvent,
    mods: Mods,
    table: Map<Seq<char>, Seq<char>>,
    magic_enabled: bool,
    mode: TermMode,
    rest: Seq<char>,
    i: int,
)
    requires
        st.search is None,
        st.command is Some,
        event.state == ElementState::Pressed,
        event.logical_key == Key::Named(NamedKey::Enter),
        0 <= i < 6,
    ensures
        ({
            let (after, what) = key_step(st, event, mods, table, magic_enabled, mode);
            let line = st.command->0;
            let slash = seq!['/', 't', 'h', 'e', 'm', 'e'];
            let other = line.len() > 0 && line[0] == '/' && (line.len() <= i || line[i]
                != slash[i]);
            &&& other ==> what == seq![
                KeyEffectView::ClearMessage,
                KeyEffectView::Write(encode_utf8(line)),
                KeyEffectView::Write(seq![13u8]),
                KeyEffectView::Redraw,
            ]
            &&& line == slash + rest ==> what.len() == 3 && !writes(what[0]) && !writes(what[1])
                && !writes(what[2])
            &&& after == (SessionView {
                search: None,
                command: None,
                line_start: true,
                pending_line: seq![],
            })
        }),
{
    reveal_strlit("/theme");
    reveal_strlit("\r");
    assert("\r"@ =~= seq!['\r']);
    law_ascii_is_one_byte('\r');
    let slash = seq!['/', 't', 'h', 'e', 'm', 'e'];
    assert("/theme"@ =~= slash);
    let line = st.command->0;
    if line.len() > 0 && line[0] == '/' {
        assert(trim_left(line) == line);
        if line.len() <= i || line[i] != slash[i] {
            if line.len() >= 6 {
                assert(line.take(6)[i] == line[i]);
            }
        }
    }
    if line == slash + rest {
        assert(line[0] == '/');
        assert(line.take(6) =~= slash);
    }
}

/// Typing extends the command line by what is typed, a blank for the space bar;
/// backspace takes the last character away and drops the line with the last one;
/// escape drops it; a release does nothing to it.
pub proof fn law_command_line_is_edited(
    st: SessionView,
    event: KeyEvent,
    table: Map<Seq<char>, Seq<char>>,
    magic_enabled: bool,
    mode: TermMode,
    line: Seq<char>,
    c: char,
    mods: Mods,
)
    requires
        st.search is None,
    ensures
        ({
            let with = SessionView { command: Some(line), ..st };
            let longer = SessionView { command: Some(line.push(c)), ..st };
            let dropped = SessionView {
                command: None,
                line_start: true,
                pending_line: seq![],
                ..st
            };
            let key = event.logical_key;
            let pressed = event.state == ElementState::Pressed;
            let drawn = seq![KeyEffectView::Redraw];
            let plain = Mods::none();
            &&& pressed && !event.repeat && (key matches Key::Character(ch) && ch@ == seq![c])
                ==> key_step(with, event, plain, table, magic_enabled, mode) == (longer, drawn)
            &&& pressed && !event.repeat && key == Key::Named(NamedKey::Space) && c == ' '
                ==> key_step(with, event, plain, table, magic_enabled, mode) == (longer, drawn)
            &&& pressed && key == Key::Named(NamedKey::Backspace) && line.len() > 0 ==> key_step(
                longer,
                event,
                mods,
                table,
                magic_enabled,
                mode,
            ) == (with, drawn)
            &&& pressed && key == Key::Named(NamedKey::Backspace) && line.len() == 0 ==> key_step(
                longer,
                event,
                mods,
                table,
                magic_enabled,
                mode,
            ) == (dropped, drawn)
            &&& pressed && key == Key::Named(NamedKey::Escape) ==> key_step(
                with,
                event,
                mods,
                table,
                magic_enabled,
                mode,
            ) == (dropped, drawn)
            &&& event.state == ElementState::Released ==> key_step(
                with,
                event,
                mods,
                table,
                magic_enabled,
                mode,
            ) == (with, drawn)
        }),
{
    reveal_strlit(" ");
    assert(" "@ =~= seq![' ']);
    assert(line + seq![c] =~= line.push(c));
    assert(line.push(c).drop_last() =~= line);
    assert(line.len() == 0 ==> line =~= seq![]);
}

/// A key that does not edit the command line, such as an arrow or a ctrl
/// combination, sends the line to the shell as it stands and then does what it
/// does without a command line in the middle of a shell line.
pub proof fn law_other_keys_flush_the_command_line(
    st: SessionView,
    event: KeyEvent,
    mods: Mods,
    table: Map<Seq<char>, Seq<char>>,
    magic_enabled: bool,
    mode: TermMode,
    line: Seq<char>,
)
    requires
        st.search is None,
        st.command == Some(line),
        event.state == ElementState::Pressed,
        ({
            let key = event.logical_key;
            ||| key matches Key::Character(_) && (mods != Mods::none() || event.repeat)
            ||| key == Key::Named(NamedKey::ArrowUp)
            ||| key == Key::Named(NamedKey::Tab)
            ||| key matches Key::Named(NamedKey::F(_))
            ||| key == Key::Other
        }),
    ensures
        ({
            let (after, what) = key_step(st, event, mods, table, magic_enabled, mode);
            let without = SessionView {
                search: None,
                command: None,
                line_start: false,
                pending_line: seq![],
            };
            let (later, rest) = key_step(without, event, mods, table, magic_enabled, mode);
            what == seq![KeyEffectView::Write(encode_utf8(line))] + rest && after == later
        }),
{
}

/// In the search overlay typing extends the query and searches for it, backspace
/// shortens it, escape ends the search, and enter goes to the next match and
/// closes the overlay.
pub proof fn law_search_overlay(
    st: SessionView,
    event: KeyEvent,
    mods: Mods,
    table: Map<Seq<char>, Seq<char>>,
    magic_enabled: bool,
    mode: TermMode,
    query: Seq<char>,
    c: char,
)
    ensures
        ({
            let with = SessionView { search: Some(query), ..st };
            let longer = SessionView { search: Some(query.push(c)), ..st };
            let closed = SessionView { search: None, ..st };
            let key = event.logical_key;
            let pressed = event.state == ElementState::Pressed;
            &&& pressed && !event.repeat && (key matches Key::Character(ch) && ch@ == seq![c])
                ==> key_step(with, event, mods, table, magic_enabled, mode) == (
                longer,
                seq![KeyEffectView::SearchFor(query.push(c))],
            )
            &&& pressed && key == Key::Named(NamedKey::Backspace) ==> key_step(
                longer,
                event,
                mods,
                table,
                magic_enabled,
                mode,
            ) == (
                with,
                seq![
                    if query.len() == 0 {
                        KeyEffectView::CloseSearch
                    } else {
                        KeyEffectView::SearchFor(query)
                    },
                ],
            )
            &&& key == Key::Named(NamedKey::Escape) ==> key_step(
                with,
                event,
                mods,
                table,
                magic_enabled,
                mode,
            ) == (closed, seq![KeyEffectView::CloseSearch])
            &&& pressed && key == Key::Named(NamedKey::Enter) ==> key_step(
                with,
                event,
                mods,
                table,
                magic_enabled,
                mode,
            ) == (closed, seq![KeyEffectView::SearchNext])
            &&& !pressed && key != Key::Named(NamedKey::Escape) ==> key_step(
                with,
                event,
                mods,
                table,
                magic_enabled,
                mode,
            ) == (with, Seq::<KeyEffectView>::empty())
        }),
{
    assert(query + seq![c] =~= query.push(c));
    assert(query.push(c).drop_last() =~= query);
}

/// A plain slash at the start of a line opens the command line with the slash in
/// it, and sends nothing. Elsewhere in a line it does not.
pub proof fn law_slash_opens_the_command_line(
    st: SessionView,
    event: KeyEvent,
    mods: Mods,
    table: Map<Seq<char>, Seq<char>>,
    magic_enabled: bool,
    mode: TermMode,
)
    requires
        st.search is None,
        st.command is None,
        event.state == ElementState::Pressed,
    ensures
        ({
            let (after, what) = key_step(st, event, mods, table, magic_enabled, mode);
            let slash = event.logical_key matches Key::Character(ch) && ch@ == seq!['/'];
            let opens = slash && st.line_start && !event.repeat && mods == Mods::none();
            &&& opens ==> what == seq![KeyEffectView::Redraw] && after == (SessionView {
                search: None,
                command: Some(seq!['/']),
                line_start: false,
                pending_line: seq![],
            })
            &&& !opens && resolved(event, mods, table) is None ==> after.command is None
        }),
{
    reveal_strlit("/");
    assert("/"@ =~= seq!['/']);
}

/// Every action has one name.
pub proof fn law_action_names(name: Seq<char>)
    ensures
        action_named(name) == Some(Action::SplitRight) <==> name == "split_right"@,
        action_named(name) == Some(Action::SplitBelow) <==> name == "split_below"@,
        action_named(name) == Some(Action::ClosePane) <==> name == "close_pane"@,
        action_named(name) == Some(Action::NextPane) <==> name == "next_pane"@,
        action_named(name) == Some(Action::PrevPane) <==> name == "prev_pane"@,
        action_named(name) == Some(Action::Focus(Direction::Up)) <==> name == "focus_pane_up"@,
        action_named(name) == Some(Action::Focus(Direction::Down)) <==> name
            == "focus_pane_down"@,
        action_named(name) == Some(Action::Focus(Direction::Left)) <==> name
            == "focus_pane_left"@,
        action_named(name) == Some(Action::Focus(Direction::Right)) <==> name
            == "focus_pane_right"@,
        action_named(name) == Some(Action::Scroll(ScrollTo::Lines(3))) <==> name == "scroll_up"@,
        action_named(name) == Some(Action::Scroll(ScrollTo::Lines(-3i32))) <==> name
            == "scroll_down"@,
        action_named(name) == Some(Action::Scroll(ScrollTo::PageUp)) <==> name == "page_up"@,
        action_named(name) == Some(Action::Scroll(ScrollTo::PageDown)) <==> name == "page_down"@,
        action_named(name) == Some(Action::Scroll(ScrollTo::Top)) <==> name == "scroll_top"@,
        action_named(name) == Some(Action::Scroll(ScrollTo::Bottom)) <==> name
            == "scroll_bottom"@,
        action_named(name) == Some(Action::Search) <==> name == "search"@,
        action_named(name) == Some(Action::Command) <==> name == "command"@,
        action_named(name) == Some(Action::SearchNext) <==> name == "search_next"@,
        action_named(name) == Some(Action::SearchPrev) <==> name == "search_prev"@,
        action_named(name) == Some(Action::Copy) <==> name == "copy"@,
        action_named(name) == Some(Action::Paste) <==> name == "paste"@,
        action_named(name) == Some(Action::Font(FontChange::Increase)) <==> name
            == "font_increase"@,
        action_named(name) == Some(Action::Font(FontChange::Decrease)) <==> name
            == "font_decrease"@,
        action_named(name) == Some(Action::Font(FontChange::Reset)) <==> name == "font_reset"@,
        action_named(name) == Some(Action::Quit) <==> name == "quit"@,
{
    reveal_strlit("split_right");
    assert("split_right"@.len() == 11);
    reveal_strlit("split_below");
    assert("split_below"@.len() == 11);
    reveal_strlit("close_pane");
    assert("close_pane"@.len() == 10);
    reveal_strlit("next_pane");
    assert("next_pane"@.len() == 9);
    reveal_strlit("prev_pane");
    assert("prev_pane"@.len() == 9);
    reveal_strlit("focus_pane_up");
    assert("focus_pane_up"@.len() == 13);
    reveal_strlit("focus_pane_down");
    assert("focus_pane_down"@.len() == 15);
    reveal_strlit("focus_pane_left");
    assert("focus_pane_left"@.len() == 15);
    reveal_strlit("focus_pane_right");
    assert("focus_pane_right"@.len() == 16);
    reveal_strlit("scroll_up");
    assert("scroll_up"@.len() == 9);
    reveal_strlit("scroll_down");
    assert("scroll_down"@.len() == 11);
    reveal_strlit("page_up");
    assert("page_up"@.len() == 7);
    reveal_strlit("page_down");
    assert("page_down"@.len() == 9);
    reveal_strlit("scroll_top");
    assert("scroll_top"@.len() == 10);
    reveal_strlit("scroll_bottom");
    assert("scroll_bottom"@.len() == 13);
    reveal_strlit("search");
    assert("search"@.len() == 6);
    reveal_strlit("command");
    assert("command"@.len() == 7);
    reveal_strlit("search_next");
    assert("search_next"@.len() == 11);
    reveal_strlit("search_prev");
    assert("search_prev"@.len() == 11);
    reveal_strlit("copy");
    assert("copy"@.len() == 4);
    reveal_strlit("paste");
    assert("paste"@.len() == 5);
    reveal_strlit("font_increase");
    assert("font_increase"@.len() == 13);
    reveal_strlit("font_decrease");
    assert("font_decrease"@.len() == 13);
    reveal_strlit("font_reset");
    assert("font_reset"@.len() == 10);
    reveal_strlit("quit");
    assert("quit"@.len() == 4);
    assert("split_right"@[7] == 'i');
    assert("split_below"@[7] == 'e');
    assert("scroll_down"@[7] == 'd');
    assert("search_next"@[7] == 'n');
    assert("search_prev"@[7] == 'p');
    assert("close_pane"@[0] == 'c');
    assert("scroll_top"@[0] == 's');
    assert("font_reset"@[0] == 'f');
    assert("page_up"@[0] == 'p');
    assert("command"@[0] == 'c');
    assert("copy"@[0] == 'c');
    assert("quit"@[0] == 'q');
    assert("next_pane"@[1] == 'e');
    assert("prev_pane"@[1] == 'r');
    assert("scroll_up"@[1] == 'c');
    assert("page_down"@[1] == 'a');
    assert("focus_pane_up"@[5] == '_');
    assert("scroll_bottom"@[5] == 'l');
    assert("font_increase"@[5] == 'i');
    assert("font_decrease"@[5] == 'd');
    assert("focus_pane_down"@[11] == 'd');
    assert("focus_pane_left"@[11] == 'l');
}

/// A bound key carries out its action and sends nothing to the shell: the search
/// and the command line open empty, every other action is passed on, and a name
/// without an action does nothing. A key held down does not repeat it.
pub proof fn law_bound_key_acts(
    st: SessionView,
    event: KeyEvent,
    mods: Mods,
    table: Map<Seq<char>, Seq<char>>,
    magic_enabled: bool,
    mode: TermMode,
    name: Seq<char>,
)
    requires
        st.search is None,
        st.command is None,
        !st.line_start || mods != Mods::none(),
        event.state == ElementState::Pressed,
        !event.repeat,
        resolved(event, mods, table) == Some(name),
    ensures
        ({
            let (after, what) = key_step(st, event, mods, table, magic_enabled, mode);
            match action_named(name) {
                Some(Action::Search) => what == seq![KeyEffectView::CloseSearch] && after == (
                SessionView { search: Some(seq![]), ..st }),
                Some(Action::Command) => what == seq![
                    KeyEffectView::ClearMessage,
                    KeyEffectView::Redraw,
                ] && after == (SessionView {
                    search: None,
                    command: Some(seq!['/']),
                    line_start: false,
                    pending_line: seq![],
                }),
                Some(action) => what == seq![KeyEffectView::Act(action)] && after == st,
                None => what.len() == 0 && after == st,
            }
        }),
{
    reveal_strlit("/");
    assert("/"@ =~= seq!['/']);
}

/// A key that is not bound goes to the shell as its bytes. Enter starts a fresh
/// line; a ctrl combination empties the shadow of the line; a key that sends
/// nothing changes nothing.
pub proof fn law_other_keys_go_to_the_shell(
    st: SessionView,
    event: KeyEvent,
    mods: Mods,
    table: Map<Seq<char>, Seq<char>>,
    mode: TermMode,
)
    requires
        st.search is None,
        st.command is None,
        !st.line_start || mods != Mods::none() || event.logical_key is Named,
        event.state == ElementState::Pressed,
        resolved(event, mods, table) is None || event.repeat,
    ensures
        ({
            let (after, what) = key_step(st, event, mods, table, false, mode);
            let text = key_text(event, mods, mode);
            let enter = event.logical_key == Key::Named(NamedKey::Enter) && !event.repeat;
            &&& encode_utf8(text).len() == 0 ==> what.len() == 0 && after == st
            &&& encode_utf8(text).len() > 0 ==> {
                &&& what == seq![KeyEffectView::Write(encode_utf8(text))]
                &&& after.search is None && after.command is None
                &&& after.line_start == enter
                &&& enter || mods.ctrl ==> after.pending_line.len() == 0
                &&& !enter && !mods.ctrl && is_printable(text) && encode_utf8(
                    st.pending_line,
                ).len() < 256 ==> after.pending_line == st.pending_line + text
                &&& !enter && !mods.ctrl && text == seq!['\x7f'] && st.pending_line.len() > 0
                    ==> after.pending_line == st.pending_line.drop_last()
                &&& !enter && !mods.ctrl && text.len() > 1 && text[0] == '\x1b'
                    ==> after.pending_line == st.pending_line
            }
        }),
{
    let text = key_text(event, mods, mode);
    if is_printable(text) && encode_utf8(st.pending_line).len() < 256 {
        law_shadow_follows_typing(st.pending_line, text);
    }
    law_ascii_is_one_byte('\x7f');
    if text.len() > 1 && text[0] == '\x1b' {
        law_ascii_is_one_byte('\x1b');
        assert(text =~= seq!['\x1b'] + text.drop_first());
        lemma_encode_sum(seq!['\x1b'], text.drop_first());
        assert(encode_utf8(text)[0] == 0x1b);
        assert(seq![0x7fu8][0] == 0x7f && seq![0x08u8][0] == 0x08);
        if encode_utf8(text) == seq![0x08u8] {
            assert(encode_utf8(text)[0] == 0x08);
        }
    }
}

/// A released key does nothing unless the program asked for releases.
pub proof fn law_release_does_nothing(
    st: SessionView,
    event: KeyEvent,
    mods: Mods,
    table: Map<Seq<char>, Seq<char>>,
    magic_enabled: bool,
    mode: TermMode,
)
    requires
        st.search is None,
        st.command is None,
        event.state == ElementState::Released,
        !mode.report_event_types,
    ensures
        key_step(st, event, mods, table, magic_enabled, mode) == (
            st,
            Seq::<KeyEffectView>::empty(),
        ),
{
}

/// Bytes with a control byte among them leave the shadow line as it is, and so
/// does text once the line has reached 256 bytes. Both backspace bytes take the
/// last character away.
pub proof fn law_shadow_ignores_controls(line: Seq<char>, bytes: Seq<u8>, i: int)
    requires
        0 <= i < bytes.len(),
    ensures
        bytes.len() > 1 && (bytes[i] < 32 || bytes[i] == 127) ==> shadowed(line, bytes) == line,
        bytes.len() == 1 && bytes[0] < 32 && bytes[0] != 8 ==> shadowed(line, bytes) == line,
        bytes.len() > 1 && encode_utf8(line).len() >= 256 ==> shadowed(line, bytes) == line,
        bytes.len() == 1 && (bytes[0] == 8 || bytes[0] == 127) && line.len() > 0 ==> shadowed(
            line,
            bytes,
        ) == line.drop_last(),
{
    if bytes.len() == 1 {
        assert(bytes =~= seq![bytes[0]]);
    }
    assert(seq![0x7fu8].len() == 1 && seq![0x08u8].len() == 1);
    assert(seq![0x7fu8][0] == 0x7f && seq![0x08u8][0] == 0x08);
}

/// The feedback names the theme and says whether it was found.
pub proof fn law_switch_feedback(name: Seq<char>)
    ensures
        switch_feedback(name, true) == "theme set to "@ + name,
        switch_feedback(name, false) == "error: unknown theme `"@ + name + seq!['`'],
{
    reveal_strlit("`");
    assert("`"@ =~= seq!['`']);
}

/// The listed names stand in their order, with a comma and a blank between two,
/// behind `themes: `.
pub proof fn law_listed_names(names: Seq<Seq<char>>, last: Seq<char>)
    ensures
        listed(seq![last]) == last,
        names.len() > 0 ==> listed(names.push(last)) == listed(names) + seq![',', ' '] + last,
        begins_with(list_feedback(names), "themes: "@ + listed(names)),
{
    reveal_strlit(", ");
    assert(", "@ =~= seq![',', ' ']);
    assert(names.push(last).drop_last() =~= names);
    let all = list_feedback(names);
    let head = "themes: "@ + listed(names);
    assert(all.take(head.len() as int) =~= head);
}

/// An effect is seen as the one that it is, with its text or bytes, and several
/// in their order.
pub proof fn law_effects_seen_as_they_are(effect: KeyEffect, all: Seq<KeyEffect>, i: int)
    requires
        0 <= i < all.len(),
    ensures
        effects(all).len() == all.len() && effects(all)[i] == all[i]@,
        effect is Redraw <==> effect@ is Redraw,
        effect is CloseSearch <==> effect@ is CloseSearch,
        effect is SearchNext <==> effect@ is SearchNext,
        effect is ClearMessage <==> effect@ is ClearMessage,
        effect is ListThemes <==> effect@ is ListThemes,
        effect matches KeyEffect::SearchFor(query) ==> effect@ == KeyEffectView::SearchFor(query@),
        effect matches KeyEffect::Write(bytes) ==> effect@ == KeyEffectView::Write(bytes@),
        effect matches KeyEffect::Act(action) ==> effect@ == KeyEffectView::Act(action),
        effect matches KeyEffect::SetTheme(name) ==> effect@ == KeyEffectView::SetTheme(name@),
{
}

/// A session is seen as its fields are.
pub proof fn law_session_seen_as_it_is(st: Session)
    ensures
        st@.search is Some <==> st.search is Some,
        st.search matches Some(query) ==> st@.search == Some(query@),
        st@.command is Some <==> st.command is Some,
        st.command matches Some(line) ==> st@.command == Some(line@),
        st@.line_start == st.line_start,
        st@.pending_line == st.pending_line@,
{
}

} // verus!
