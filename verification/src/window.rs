//! What the window does about its events: the pointer, and which steps follow
//! from which event.
use vstd::prelude::*;

use crate::input::{mouse_reporting_active, MOUSE_DRAG, MOUSE_MOTION, MOUSE_RELEASE};
use crate::keyboard::{ElementState, TermMode};
use crate::terminal::mouse_motion_reports;

verus! {

// ---------------------------------------------------------------------------
// The pointer
// ---------------------------------------------------------------------------

/// A button of the mouse.
#[derive(Clone, Copy, PartialEq, Eq, Debug, Structural)]
pub enum MouseButton {
    Left,
    Middle,
    Right,
    Other,
}

/// What the pointer is in the middle of.
#[derive(Clone, Copy, PartialEq, Eq, Debug, Structural)]
pub struct Pointer {
    /// Whether text is being selected.
    pub dragging: bool,
    /// Whether a program has been told of a button that is still down.
    pub held: bool,
}

/// What the pointer does.
#[derive(Clone, Copy, PartialEq, Eq, Debug, Structural)]
pub enum PointerEffect {
    Nothing,
    /// Focus the pane under the pointer and start selecting there.
    Select,
    /// Extend the selection of the focused pane to the pointer.
    Extend,
    /// Paste the primary selection.
    PastePrimary,
    /// Scroll the focused pane up by some lines; a negative number goes down.
    Scroll(i32),
    /// Tell the program in the pane under the pointer of a button or of motion,
    /// and focus that pane first where asked to.
    Report { button: u16, focus: bool },
    /// Tell the program in the focused pane of some steps of the wheel.
    ReportWheel { steps: usize, up: bool },
}

/// Whether a program has asked for mouse events.
pub open spec fn reporting(mode: TermMode) -> bool {
    mode.mouse_report_click || mode.mouse_motion || mode.mouse_drag || mode.sgr_mouse
        || mode.utf8_mouse
}

/// The code under which a button is reported when it goes down.
pub open spec fn button_code(button: MouseButton) -> Option<u16> {
    match button {
        MouseButton::Left => Some(0u16),
        MouseButton::Middle => Some(1u16),
        MouseButton::Right => Some(2u16),
        MouseButton::Other => None,
    }
}

/// The pointer after a button went down or up, and what that does. `over` tells
/// whether the pointer is over a pane, whose program is in `mode`.
pub open spec fn after_button(
    p: Pointer,
    button: MouseButton,
    state: ElementState,
    over: bool,
    mode: TermMode,
) -> (Pointer, PointerEffect) {
    match state {
        ElementState::Pressed => if !over {
            (p, if button == MouseButton::Middle {
                PointerEffect::PastePrimary
            } else {
                PointerEffect::Nothing
            })
        } else if reporting(mode) {
            match button_code(button) {
                Some(code) => (
                    Pointer { held: true, ..p },
                    PointerEffect::Report { button: code, focus: button == MouseButton::Left },
                ),
                None => (p, PointerEffect::Nothing),
            }
        } else {
            match button {
                MouseButton::Left => (Pointer { dragging: true, ..p }, PointerEffect::Select),
                MouseButton::Middle => (p, PointerEffect::PastePrimary),
                _ => (p, PointerEffect::Nothing),
            }
        },
        ElementState::Released => (
            Pointer {
                dragging: p.dragging && button != MouseButton::Left,
                held: p.held && button == MouseButton::Other,
            },
            if over && reporting(mode) && button != MouseButton::Other {
                PointerEffect::Report { button: MOUSE_RELEASE, focus: false }
            } else {
                PointerEffect::Nothing
            },
        ),
    }
}

/// What it does that the pointer has moved.
pub open spec fn moved(p: Pointer, over: bool, mode: TermMode) -> PointerEffect {
    if !over {
        PointerEffect::Nothing
    } else if p.dragging {
        PointerEffect::Extend
    } else if mode.mouse_motion || (mode.mouse_drag && p.held) {
        PointerEffect::Report {
            button: if p.held {
                MOUSE_DRAG
            } else {
                MOUSE_MOTION
            },
            focus: false,
        }
    } else {
        PointerEffect::Nothing
    }
}

/// What it does that the wheel was turned by a distance, given in whole lines
/// cut towards zero, and rounded to steps.
pub open spec fn wheeled(lines: i32, steps: usize, up: bool, mode: TermMode) -> PointerEffect {
    if reporting(mode) {
        if steps == 0 {
            PointerEffect::Nothing
        } else {
            PointerEffect::ReportWheel { steps, up }
        }
    } else if lines == 0 {
        PointerEffect::Nothing
    } else {
        PointerEffect::Scroll(lines)
    }
}

impl Pointer {
    /// A pointer that does nothing yet.
    pub fn new() -> (r: Pointer)
        ensures
            r == (Pointer { dragging: false, held: false }),
    {
        Pointer { dragging: false, held: false }
    }

    /// Decide what a mouse button does. The middle button pastes when it goes
    /// down only, so that a click pastes once.
    pub fn on_mouse(
        &mut self,
        button: MouseButton,
        state: ElementState,
        over: bool,
        mode: TermMode,
    ) -> (r: PointerEffect)
        ensures
            (*final(self), r) == after_button(*old(self), button, state, over, mode),
    {
        let told = over && mouse_reporting_active(mode);
        match state {
            ElementState::Pressed => {
                if told {
                    let code: u16 = match button {
                        MouseButton::Left => 0,
                        MouseButton::Middle => 1,
                        MouseButton::Right => 2,
                        MouseButton::Other => return PointerEffect::Nothing,
                    };
                    self.held = true;
                    return PointerEffect::Report {
                        button: code,
                        focus: button == MouseButton::Left,
                    };
                }
                match button {
                    MouseButton::Left => {
                        if over {
                            self.dragging = true;
                            PointerEffect::Select
                        } else {
                            PointerEffect::Nothing
                        }
                    },
                    MouseButton::Middle => PointerEffect::PastePrimary,
                    _ => PointerEffect::Nothing,
                }
            },
            ElementState::Released => {
                if button == MouseButton::Left {
                    self.dragging = false;
                }
                if button == MouseButton::Other {
                    return PointerEffect::Nothing;
                }
                self.held = false;
                if told {
                    PointerEffect::Report { button: MOUSE_RELEASE, focus: false }
                } else {
                    PointerEffect::Nothing
                }
            },
        }
    }

    /// Decide what it does that the pointer has moved.
    pub fn on_mouse_move(&self, over: bool, mode: TermMode) -> (r: PointerEffect)
        ensures
            r == moved(*self, over, mode),
    {
        if !over {
            PointerEffect::Nothing
        } else if self.dragging {
            PointerEffect::Extend
        } else if mouse_motion_reports(mode) && (mode.mouse_motion || self.held) {
            PointerEffect::Report {
                button: if self.held {
                    MOUSE_DRAG
                } else {
                    MOUSE_MOTION
                },
                focus: false,
            }
        } else {
            PointerEffect::Nothing
        }
    }
}

/// Decide what a turn of the wheel does.
pub fn on_wheel(lines: i32, steps: usize, up: bool, mode: TermMode) -> (r: PointerEffect)
    ensures
        r == wheeled(lines, steps, up, mode),
{
    if mouse_reporting_active(mode) {
        if steps == 0 {
            PointerEffect::Nothing
        } else {
            PointerEffect::ReportWheel { steps, up }
        }
    } else if lines == 0 {
        PointerEffect::Nothing
    } else {
        PointerEffect::Scroll(lines)
    }
}

/// Whether an effect selects, pastes or scrolls, rather than telling a program.
pub open spec fn own_use(effect: PointerEffect) -> bool {
    effect is Select || effect is Extend || effect is PastePrimary || effect is Scroll
}

/// Whether an effect tells a program of the mouse.
pub open spec fn tells(effect: PointerEffect) -> bool {
    effect is Report || effect is ReportWheel
}

/// While a program asks for mouse events, the clicks and wheel turns over its
/// pane are told to it, and none selects, pastes or scrolls; nor does motion,
/// once no selection is under way.
pub proof fn law_programs_take_the_mouse(
    p: Pointer,
    button: MouseButton,
    state: ElementState,
    lines: i32,
    steps: usize,
    up: bool,
    mode: TermMode,
)
    requires
        reporting(mode),
    ensures
        !own_use(after_button(p, button, state, true, mode).1),
        button != MouseButton::Other ==> tells(after_button(p, button, state, true, mode).1),
        !own_use(wheeled(lines, steps, up, mode)),
        steps > 0 ==> tells(wheeled(lines, steps, up, mode)),
        !p.dragging ==> !own_use(moved(p, true, mode)),
{
}

/// A program that has not asked for mouse events is told of none.
pub proof fn law_mouse_is_not_reported_unasked(
    p: Pointer,
    button: MouseButton,
    state: ElementState,
    lines: i32,
    steps: usize,
    up: bool,
    over: bool,
    mode: TermMode,
)
    requires
        !reporting(mode),
    ensures
        !tells(after_button(p, button, state, over, mode).1),
        !tells(wheeled(lines, steps, up, mode)),
        !tells(moved(p, over, mode)),
{
}

/// Text is selected from the moment the left button goes down over a pane until
/// it comes up, wherever that is, and at no other time.
pub proof fn law_selection_follows_left_button(
    p: Pointer,
    button: MouseButton,
    state: ElementState,
    over: bool,
    mode: TermMode,
)
    ensures
        ({
            let (q, effect) = after_button(p, button, state, over, mode);
            &&& effect is Select <==> (button == MouseButton::Left && state
                == ElementState::Pressed && over && !reporting(mode))
            &&& effect is Select ==> q.dragging && moved(q, true, mode) is Extend
            &&& (button == MouseButton::Left && state == ElementState::Released) ==> !q.dragging
                && moved(q, over, mode) !is Extend
            &&& (button != MouseButton::Left) ==> q.dragging == p.dragging
        }),
{
}

// ---------------------------------------------------------------------------
// Window events
// ---------------------------------------------------------------------------

/// An event of the window.
#[derive(Clone, Copy, PartialEq, Eq, Debug, Structural)]
pub enum WindowSignal {
    CloseRequested,
    Resized,
    ScaleFactorChanged,
    Focused,
    Keyboard,
    Modifiers,
    Wheel,
    MouseButton,
    PointerMoved,
    RedrawRequested,
    Other,
}

/// A step that an event asks for.
#[derive(Clone, Copy, PartialEq, Eq, Debug, Structural)]
pub enum WindowStep {
    /// Leave the program.
    Exit,
    /// Give the drawing surface its new size.
    ResizeSurface,
    /// Take on the new scale and measure the font again.
    Rescale,
    /// Work out how many cells each pane has.
    ResizePanes,
    /// Tell the focused pane whether the window has the focus.
    SetFocus,
    /// Handle the key.
    Key,
    /// Take note of the held modifiers.
    SetModifiers,
    /// Handle the wheel.
    Wheel,
    /// Handle the mouse button.
    Button,
    /// Handle the motion of the pointer.
    Motion,
    /// Draw a frame.
    Draw,
    /// Ask for a frame to be drawn.
    AskRedraw,
}

/// The steps that an event asks for, in their order. `dragging` tells whether
/// text was being selected when the event came.
pub open spec fn steps_of(signal: WindowSignal, dragging: bool) -> Seq<WindowStep> {
    match signal {
        WindowSignal::CloseRequested => seq![WindowStep::Exit],
        WindowSignal::Resized => seq![
            WindowStep::ResizeSurface,
            WindowStep::ResizePanes,
            WindowStep::AskRedraw,
        ],
        WindowSignal::ScaleFactorChanged => seq![WindowStep::Rescale, WindowStep::ResizePanes],
        WindowSignal::Focused => seq![WindowStep::SetFocus, WindowStep::AskRedraw],
        WindowSignal::Keyboard => seq![WindowStep::Key, WindowStep::AskRedraw],
        WindowSignal::Modifiers => seq![WindowStep::SetModifiers],
        WindowSignal::Wheel => seq![WindowStep::Wheel, WindowStep::AskRedraw],
        WindowSignal::MouseButton => seq![WindowStep::Button, WindowStep::AskRedraw],
        WindowSignal::PointerMoved => if dragging {
            seq![WindowStep::Motion, WindowStep::AskRedraw]
        } else {
            seq![WindowStep::Motion]
        },
        WindowSignal::RedrawRequested => seq![WindowStep::Draw],
        WindowSignal::Other => Seq::empty(),
    }
}

/// The steps that an event asks for, in their order.
pub fn window_steps(signal: WindowSignal, dragging: bool) -> (r: Vec<WindowStep>)
    ensures
        r@ == steps_of(signal, dragging),
{
    match signal {
        WindowSignal::CloseRequested => vec![WindowStep::Exit],
        WindowSignal::Resized => vec![
            WindowStep::ResizeSurface,
            WindowStep::ResizePanes,
            WindowStep::AskRedraw,
        ],
        WindowSignal::ScaleFactorChanged => vec![WindowStep::Rescale, WindowStep::ResizePanes],
        WindowSignal::Focused => vec![WindowStep::SetFocus, WindowStep::AskRedraw],
        WindowSignal::Keyboard => vec![WindowStep::Key, WindowStep::AskRedraw],
        WindowSignal::Modifiers => vec![WindowStep::SetModifiers],
        WindowSignal::Wheel => vec![WindowStep::Wheel, WindowStep::AskRedraw],
        WindowSignal::MouseButton => vec![WindowStep::Button, WindowStep::AskRedraw],
        WindowSignal::PointerMoved => {
            if dragging {
                vec![WindowStep::Motion, WindowStep::AskRedraw]
            } else {
                vec![WindowStep::Motion]
            }
        },
        WindowSignal::RedrawRequested => vec![WindowStep::Draw],
        WindowSignal::Other => Vec::new(),
    }
}

// ---------------------------------------------------------------------------
// Laws
// ---------------------------------------------------------------------------

/// A program that asked for the mouse is told of the left, middle and right
/// button as 0, 1 and 2 when they go down and as 3 when they come up. The left
/// one moves the focus as well. A button that went down counts as held until one
/// comes up.
pub proof fn law_buttons_are_told(p: Pointer, button: MouseButton, mode: TermMode)
    requires
        reporting(mode),
        button != MouseButton::Other,
    ensures
        ({
            let (down, told) = after_button(p, button, ElementState::Pressed, true, mode);
            &&& button == MouseButton::Left ==> told == (PointerEffect::Report {
                button: 0,
                focus: true,
            })
            &&& button == MouseButton::Middle ==> told == (PointerEffect::Report {
                button: 1,
                focus: false,
            })
            &&& button == MouseButton::Right ==> told == (PointerEffect::Report {
                button: 2,
                focus: false,
            })
            &&& down.held
        }),
        ({
            let (up, told) = after_button(p, button, ElementState::Released, true, mode);
            told == (PointerEffect::Report { button: 3, focus: false }) && !up.held
        }),
{
}

/// Other buttons do nothing, whoever has the mouse.
pub proof fn law_other_buttons_do_nothing(
    p: Pointer,
    state: ElementState,
    over: bool,
    mode: TermMode,
)
    ensures
        after_button(p, MouseButton::Other, state, over, mode) == (p, PointerEffect::Nothing),
{
}

/// Where no program asked for the mouse, the middle button pastes when it goes
/// down, over a pane or not, and the right one does nothing.
pub proof fn law_middle_button_pastes(p: Pointer, over: bool, mode: TermMode)
    requires
        !over || !reporting(mode),
    ensures
        after_button(p, MouseButton::Middle, ElementState::Pressed, over, mode).1 is PastePrimary,
        after_button(p, MouseButton::Middle, ElementState::Released, over, mode).1 is Nothing,
        after_button(p, MouseButton::Right, ElementState::Pressed, over, mode).1 is Nothing,
        after_button(p, MouseButton::Left, ElementState::Released, over, mode).1 is Nothing,
{
}

/// A program is told of motion as 32, and of dragging with a button held as 35:
/// of both where it asked for motion, and of dragging alone where it asked for
/// that. Off the panes nothing is told.
pub proof fn law_motion_is_told(p: Pointer, mode: TermMode)
    requires
        !p.dragging,
    ensures
        mode.mouse_motion && !p.held ==> moved(p, true, mode) == (PointerEffect::Report {
            button: 32,
            focus: false,
        }),
        (mode.mouse_motion || mode.mouse_drag) && p.held ==> moved(p, true, mode) == (
        PointerEffect::Report { button: 35, focus: false }),
        !mode.mouse_motion && !(mode.mouse_drag && p.held) ==> moved(p, true, mode) is Nothing,
        moved(p, false, mode) is Nothing,
{
}

/// Each of the five mouse modes makes a program one that asked for the mouse.
pub proof fn law_mouse_modes(mode: TermMode)
    ensures
        mode.mouse_report_click ==> reporting(mode),
        mode.mouse_motion ==> reporting(mode),
        mode.mouse_drag ==> reporting(mode),
        mode.sgr_mouse ==> reporting(mode),
        mode.utf8_mouse ==> reporting(mode),
        !reporting(TermMode::none()),
        reporting(mode) ==> reporting(TermMode { alt_screen: !mode.alt_screen, ..mode }),
{
}

/// The wheel scrolls by its whole lines, or tells a program that asked of its
/// steps and their direction; none does nothing.
pub proof fn law_wheel_scrolls_or_tells(lines: i32, steps: usize, up: bool, mode: TermMode)
    ensures
        !reporting(mode) && lines != 0 ==> wheeled(lines, steps, up, mode) == PointerEffect::Scroll(
            lines,
        ),
        reporting(mode) && steps != 0 ==> wheeled(lines, steps, up, mode) == (
        PointerEffect::ReportWheel { steps, up }),
        !reporting(mode) && lines == 0 ==> wheeled(lines, steps, up, mode) is Nothing,
        reporting(mode) && steps == 0 ==> wheeled(lines, steps, up, mode) is Nothing,
{
}

/// Each step is taken for its own events and no others.
pub proof fn law_steps_belong_to_their_events(signal: WindowSignal, dragging: bool)
    ensures
        ({
            let steps = steps_of(signal, dragging);
            &&& steps.contains(WindowStep::Exit) <==> signal is CloseRequested
            &&& steps.contains(WindowStep::ResizeSurface) <==> signal is Resized
            &&& steps.contains(WindowStep::Rescale) <==> signal is ScaleFactorChanged
            &&& steps.contains(WindowStep::ResizePanes) <==> signal is Resized
                || signal is ScaleFactorChanged
            &&& steps.contains(WindowStep::SetFocus) <==> signal is Focused
            &&& steps.contains(WindowStep::Key) <==> signal is Keyboard
            &&& steps.contains(WindowStep::SetModifiers) <==> signal is Modifiers
            &&& steps.contains(WindowStep::Wheel) <==> signal is Wheel
            &&& steps.contains(WindowStep::Button) <==> signal is MouseButton
            &&& steps.contains(WindowStep::Motion) <==> signal is PointerMoved
            &&& steps.contains(WindowStep::Draw) <==> signal is RedrawRequested
            &&& steps.contains(WindowStep::AskRedraw) <==> signal is Resized || signal is Focused
                || signal is Keyboard || signal is Wheel || signal is MouseButton || (
            signal is PointerMoved && dragging)
        }),
{
    let steps = steps_of(signal, dragging);
    if steps.len() > 0 {
        assert(steps.contains(steps[0]));
    }
    if steps.len() > 1 {
        assert(steps.contains(steps[1]));
    }
    if steps.len() > 2 {
        assert(steps.contains(steps[2]));
    }
}

/// A redraw is asked for last, once everything else is done, and panes are
/// measured only after the surface or the scale has changed.
pub proof fn law_redraw_is_asked_last(signal: WindowSignal, dragging: bool, i: int)
    requires
        0 <= i < steps_of(signal, dragging).len(),
    ensures
        ({
            let steps = steps_of(signal, dragging);
            &&& steps[i] is AskRedraw ==> i == steps.len() - 1 && i > 0
            &&& steps[i] is ResizePanes ==> i == 1 && (steps[0] is ResizeSurface
                || steps[0] is Rescale)
            &&& !(steps[i] is AskRedraw) && !(steps[i] is ResizePanes) ==> i == 0
        }),
{
}

} // verus!
