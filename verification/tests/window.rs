use optix::input::{MOUSE_DRAG, MOUSE_MOTION, MOUSE_RELEASE};
use optix::keyboard::{ElementState, TermMode};
use optix::window::{
    on_wheel, window_steps, MouseButton, Pointer, PointerEffect, WindowSignal, WindowStep,
};

const DOWN: ElementState = ElementState::Pressed;
const UP: ElementState = ElementState::Released;

fn clicks() -> TermMode {
    TermMode { mouse_report_click: true, ..TermMode::empty() }
}

#[test]
fn mouse_buttons() {
    let plain = TermMode::empty();
    let mut p = Pointer::new();
    assert_eq!(p.on_mouse(MouseButton::Left, DOWN, true, plain), PointerEffect::Select);
    assert!(p.dragging);
    assert_eq!(p.on_mouse_move(true, plain), PointerEffect::Extend);
    assert_eq!(p.on_mouse_move(false, plain), PointerEffect::Nothing);
    assert_eq!(p.on_mouse(MouseButton::Right, UP, true, plain), PointerEffect::Nothing);
    assert!(p.dragging);
    assert_eq!(p.on_mouse(MouseButton::Left, UP, false, plain), PointerEffect::Nothing);
    assert!(!p.dragging);
    assert_eq!(p.on_mouse_move(true, plain), PointerEffect::Nothing);
    assert_eq!(p.on_mouse(MouseButton::Left, DOWN, false, plain), PointerEffect::Nothing);
    assert_eq!(p.on_mouse(MouseButton::Middle, DOWN, true, plain), PointerEffect::PastePrimary);
    assert_eq!(p.on_mouse(MouseButton::Middle, UP, true, plain), PointerEffect::Nothing);
    assert_eq!(p.on_mouse(MouseButton::Other, DOWN, true, plain), PointerEffect::Nothing);
}

#[test]
fn programs_take_the_mouse() {
    let mut p = Pointer::new();
    assert_eq!(
        p.on_mouse(MouseButton::Left, DOWN, true, clicks()),
        PointerEffect::Report { button: 0, focus: true }
    );
    assert!(p.held && !p.dragging);
    assert_eq!(p.on_mouse_move(true, clicks()), PointerEffect::Nothing);
    let drag = TermMode { mouse_drag: true, ..TermMode::empty() };
    assert_eq!(
        p.on_mouse_move(true, drag),
        PointerEffect::Report { button: MOUSE_DRAG, focus: false }
    );
    assert_eq!(
        p.on_mouse(MouseButton::Left, UP, true, clicks()),
        PointerEffect::Report { button: MOUSE_RELEASE, focus: false }
    );
    assert_eq!(p.on_mouse_move(true, drag), PointerEffect::Nothing);
    let motion = TermMode { mouse_motion: true, ..TermMode::empty() };
    assert_eq!(
        p.on_mouse_move(true, motion),
        PointerEffect::Report { button: MOUSE_MOTION, focus: false }
    );
    assert_eq!(
        p.on_mouse(MouseButton::Middle, DOWN, true, clicks()),
        PointerEffect::Report { button: 1, focus: false }
    );
    assert_eq!(
        p.on_mouse(MouseButton::Right, DOWN, true, clicks()),
        PointerEffect::Report { button: 2, focus: false }
    );
}

#[test]
fn wheel_scrolls_or_is_reported() {
    let plain = TermMode::empty();
    assert_eq!(on_wheel(-3, 3, false, plain), PointerEffect::Scroll(-3));
    assert_eq!(on_wheel(0, 1, true, plain), PointerEffect::Nothing);
    assert_eq!(
        on_wheel(0, 1, true, clicks()),
        PointerEffect::ReportWheel { steps: 1, up: true }
    );
    assert_eq!(on_wheel(0, 0, true, clicks()), PointerEffect::Nothing);
}

#[test]
fn steps_of_window_events() {
    assert_eq!(window_steps(WindowSignal::CloseRequested, false), vec![WindowStep::Exit]);
    assert_eq!(
        window_steps(WindowSignal::Resized, false),
        vec![WindowStep::ResizeSurface, WindowStep::ResizePanes, WindowStep::AskRedraw]
    );
    assert_eq!(window_steps(WindowSignal::PointerMoved, false), vec![WindowStep::Motion]);
    assert_eq!(
        window_steps(WindowSignal::PointerMoved, true),
        vec![WindowStep::Motion, WindowStep::AskRedraw]
    );
    assert_eq!(window_steps(WindowSignal::Other, true), vec![]);
}
