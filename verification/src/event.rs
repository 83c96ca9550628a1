//! Events that terminal panes send to the window, and what the window does about
//! them.
use vstd::prelude::*;
use vstd::string::*;

use crate::layout::PaneId;
use crate::text::{opt_text, owned};

verus! {

/// Which clipboard is meant.
#[derive(Clone, Copy, PartialEq, Eq, Debug, Structural)]
pub enum ClipboardType {
    Clipboard,
    /// The primary selection.
    Selection,
}

/// What happened in a pane.
#[derive(Debug, Clone, PartialEq, Eq)]
pub enum PaneEventKind {
    /// New content is available.
    Wakeup,
    /// The title changed; `None` resets it.
    Title(Option<String>),
    Bell,
    ClipboardStore(ClipboardType, String),
    /// The program asks for the contents of a clipboard.
    ClipboardLoad(ClipboardType),
    /// The program asks for a color by its number.
    ColorRequest(usize),
    /// The program asks for the size of the pane.
    TextAreaSizeRequest,
    /// The terminal answers the program.
    PtyWrite(String),
    /// The program ended.
    Exit,
    CursorBlinkingChange,
}

/// Something to be done for an event.
#[derive(Debug, Clone, PartialEq, Eq)]
pub enum EventEffect {
    Nothing,
    /// Give the pane and the window titles.
    SetTitle { pane: String, window: String },
    /// Flash the window.
    Flash,
    Store(ClipboardType, String),
    /// Load a clipboard and answer the program with it.
    AnswerClipboard(ClipboardType),
    /// Answer the program with a color.
    AnswerColor(usize),
    /// Answer the program with the size of the pane.
    AnswerSize,
    /// Write to the program.
    Write(String),
}

/// An effect with the texts in it.
pub enum EventEffectView {
    Nothing,
    SetTitle { pane: Seq<char>, window: Seq<char> },
    Flash,
    Store(ClipboardType, Seq<char>),
    AnswerClipboard(ClipboardType),
    AnswerColor(usize),
    AnswerSize,
    Write(Seq<char>),
}

impl View for EventEffect {
    type V = EventEffectView;

    open spec fn view(&self) -> EventEffectView {
        match self {
            EventEffect::Nothing => EventEffectView::Nothing,
            EventEffect::SetTitle { pane, window } => EventEffectView::SetTitle {
                pane: pane@,
                window: window@,
            },
            EventEffect::Flash => EventEffectView::Flash,
            EventEffect::Store(ty, text) => EventEffectView::Store(*ty, text@),
            EventEffect::AnswerClipboard(ty) => EventEffectView::AnswerClipboard(*ty),
            EventEffect::AnswerColor(idx) => EventEffectView::AnswerColor(*idx),
            EventEffect::AnswerSize => EventEffectView::AnswerSize,
            EventEffect::Write(text) => EventEffectView::Write(text@),
        }
    }
}

/// What is done for an event. A title that is reset leaves the pane without one
/// and gives the window its own.
pub open spec fn effect_of(kind: PaneEventKind, default_title: Seq<char>) -> EventEffectView {
    match kind {
        PaneEventKind::Title(title) => match opt_text(title) {
            Some(title) => EventEffectView::SetTitle { pane: title, window: title },
            None => EventEffectView::SetTitle { pane: seq![], window: default_title },
        },
        PaneEventKind::Bell => EventEffectView::Flash,
        PaneEventKind::ClipboardStore(ty, text) => EventEffectView::Store(ty, text@),
        PaneEventKind::ClipboardLoad(ty) => EventEffectView::AnswerClipboard(ty),
        PaneEventKind::ColorRequest(idx) => EventEffectView::AnswerColor(idx),
        PaneEventKind::TextAreaSizeRequest => EventEffectView::AnswerSize,
        PaneEventKind::PtyWrite(text) => EventEffectView::Write(text@),
        _ => EventEffectView::Nothing,
    }
}

/// What the window has learned from the events of one go.
#[derive(Clone, Copy, PartialEq, Eq, Debug, Structural)]
pub struct EventBatch {
    /// The window should be drawn again.
    pub dirty: bool,
    /// The pane whose program ended last.
    pub exited: Option<PaneId>,
}

impl EventBatch {
    /// No event yet.
    pub fn new() -> (r: EventBatch)
        ensures
            r == (EventBatch { dirty: false, exited: None }),
    {
        EventBatch { dirty: false, exited: None }
    }

    /// Take note of an event and say what to do about it. Every event asks for
    /// a redraw.
    pub fn on_event(&mut self, pane: PaneId, kind: PaneEventKind, default_title: &str) -> (r:
        EventEffect)
        ensures
            final(self).dirty,
            final(self).exited == (if kind is Exit {
                Some(pane)
            } else {
                old(self).exited
            }),
            r@ == effect_of(kind, default_title@),
    {
        self.dirty = true;
        match kind {
            PaneEventKind::Wakeup => EventEffect::Nothing,
            PaneEventKind::CursorBlinkingChange => EventEffect::Nothing,
            PaneEventKind::Title(title) => match title {
                Some(title) => {
                    let window = owned(title.as_str());
                    EventEffect::SetTitle { pane: title, window }
                },
                None => {
                    let pane = String::new();
                    assert(pane@ =~= seq![]);
                    EventEffect::SetTitle { pane, window: owned(default_title) }
                },
            },
            PaneEventKind::Bell => EventEffect::Flash,
            PaneEventKind::ClipboardStore(ty, text) => EventEffect::Store(ty, text),
            PaneEventKind::ClipboardLoad(ty) => EventEffect::AnswerClipboard(ty),
            PaneEventKind::ColorRequest(idx) => EventEffect::AnswerColor(idx),
            PaneEventKind::TextAreaSizeRequest => EventEffect::AnswerSize,
            PaneEventKind::PtyWrite(text) => EventEffect::Write(text),
            PaneEventKind::Exit => {
                self.exited = Some(pane);
                EventEffect::Nothing
            },
        }
    }
}

/// Each event has its own effect, with what it carries: a title goes to the pane
/// and the window, a reset one leaves the pane without and gives the window its
/// default; the others pass on their text, clipboard or number.
pub proof fn law_event_effects(
    title: String,
    text: String,
    clipboard: ClipboardType,
    idx: usize,
    default_title: Seq<char>,
)
    ensures
        effect_of(PaneEventKind::Title(Some(title)), default_title) == (EventEffectView::SetTitle {
            pane: title@,
            window: title@,
        }),
        effect_of(PaneEventKind::Title(None), default_title) == (EventEffectView::SetTitle {
            pane: Seq::empty(),
            window: default_title,
        }),
        effect_of(PaneEventKind::Bell, default_title) is Flash,
        effect_of(PaneEventKind::ClipboardStore(clipboard, text), default_title)
            == EventEffectView::Store(clipboard, text@),
        effect_of(PaneEventKind::ClipboardLoad(clipboard), default_title)
            == EventEffectView::AnswerClipboard(clipboard),
        effect_of(PaneEventKind::ColorRequest(idx), default_title) == EventEffectView::AnswerColor(
            idx,
        ),
        effect_of(PaneEventKind::TextAreaSizeRequest, default_title) is AnswerSize,
        effect_of(PaneEventKind::PtyWrite(text), default_title) == EventEffectView::Write(text@),
        effect_of(PaneEventKind::Wakeup, default_title) is Nothing,
        effect_of(PaneEventKind::CursorBlinkingChange, default_title) is Nothing,
        effect_of(PaneEventKind::Exit, default_title) is Nothing,
{
}

/// An effect is seen as the one that it is, with its texts.
pub proof fn law_event_effects_seen_as_they_are(effect: EventEffect)
    ensures
        effect is Nothing <==> effect@ is Nothing,
        effect is Flash <==> effect@ is Flash,
        effect is AnswerSize <==> effect@ is AnswerSize,
        effect matches EventEffect::SetTitle { pane, window } ==> effect@ == (
        EventEffectView::SetTitle { pane: pane@, window: window@ }),
        effect matches EventEffect::Store(ty, text) ==> effect@ == EventEffectView::Store(ty, text@),
        effect matches EventEffect::AnswerClipboard(ty) ==> effect@
            == EventEffectView::AnswerClipboard(ty),
        effect matches EventEffect::AnswerColor(idx) ==> effect@ == EventEffectView::AnswerColor(
            idx,
        ),
        effect matches EventEffect::Write(text) ==> effect@ == EventEffectView::Write(text@),
{
}

} // verus!
