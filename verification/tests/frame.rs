use optix::color::{Rgba, Shade};
use optix::keyboard::TermMode;
use optix::kitty::KITTY_MARKER;
use optix::palette::{Color, Palette, Rgb, NAMED_BACKGROUND, NAMED_FOREGROUND};
use optix::pty_io::WindowSize;
use optix::render::{
    first_wanted, glyph_pixels, pad_glyph, plan_cell, plan_cursor, plan_frame, quad_indices,
    segments, AtlasPacker, Background, CellInfo, CursorInfo, CursorShape, GlyphPlan, Segment,
    Slot, Viewport,
};
use optix::scroll::LineSteps;
use optix::session::ScrollTo;
use optix::terminal::{
    cell_at, history_lines, mouse_motion_reports, point_at, resized, scroll_request,
    search_window, GridPoint, ScrollRequest,
};
use optix::themes::builtin;

#[test]
fn atlas_fills_rows() {
    let mut atlas = AtlasPacker::new(32);
    assert_eq!(atlas.insert(0, 4), None);
    assert_eq!(atlas.insert(8, 4), Some(Slot { x: 1, y: 1, w: 10, h: 6 }));
    assert_eq!(atlas.insert(8, 10), Some(Slot { x: 11, y: 1, w: 10, h: 12 }));
    assert_eq!(atlas.insert(8, 2), Some(Slot { x: 21, y: 1, w: 10, h: 4 }));
    assert_eq!(atlas.insert(8, 2), Some(Slot { x: 1, y: 14, w: 10, h: 4 }));
    assert_eq!(atlas.size, 32);
    assert_eq!(atlas.insert(8, 20), Some(Slot { x: 11, y: 14, w: 10, h: 22 }));
    assert_eq!(atlas.size, 64);
    assert_eq!(atlas.insert(8, 200), None);
    assert_eq!(atlas.size, 128);
}

#[test]
fn atlas_slots_are_apart_and_inside() {
    let mut atlas = AtlasPacker::new(64);
    let mut slots: Vec<Slot> = Vec::new();
    for i in 0..200u32 {
        if let Some(s) = atlas.insert(1 + i * 7 % 13, 1 + i * 5 % 11) {
            slots.push(s);
        }
    }
    assert_eq!(slots.len(), 200);
    for (i, a) in slots.iter().enumerate() {
        assert!(a.x + a.w <= atlas.size && a.y + a.h <= atlas.size);
        for b in &slots[..i] {
            assert!(
                a.x + a.w <= b.x || b.x + b.w <= a.x || a.y + a.h <= b.y || b.y + b.h <= a.y
            );
        }
    }
}

#[test]
fn glyph_bytes() {
    assert_eq!(glyph_pixels(&vec![1, 2], false), vec![1, 1, 1, 1, 2, 2, 2, 2]);
    assert_eq!(glyph_pixels(&vec![1, 2, 3, 4], true), vec![1, 2, 3, 4]);
    let padded = pad_glyph(&vec![1, 2, 3, 4, 5, 6, 7, 8], 2, 1);
    assert_eq!(padded.len(), 48);
    assert_eq!(&padded[16..32], &[0, 0, 0, 0, 1, 2, 3, 4, 5, 6, 7, 8, 0, 0, 0, 0]);
    assert!(padded[..16].iter().chain(&padded[32..]).all(|b| *b == 0));
}

#[test]
fn quads_and_segments() {
    assert_eq!(quad_indices(2), vec![0, 1, 2, 0, 2, 3, 4, 5, 6, 4, 6, 7]);
    let s = segments(1, 2, 0);
    assert_eq!(s.image, Segment { start: 0, end: 6 });
    assert_eq!(s.solid, Segment { start: 6, end: 18 });
    assert_eq!(s.glyphs, Segment { start: 18, end: 18 });
    assert_eq!(first_wanted(&vec![false, true, true]), 1);
    assert_eq!(first_wanted(&vec![false, false]), 0);
}

fn cell() -> CellInfo {
    CellInfo {
        c: 'x',
        fg: Color::Named(NAMED_FOREGROUND),
        bg: Color::Named(NAMED_BACKGROUND),
        inverse: false,
        dim: false,
        bold: true,
        italic: false,
        underline: false,
        strikeout: false,
        spacer: false,
        line: 0,
        column: 2,
        matched: true,
        selected: false,
    }
}

#[test]
fn cells_are_planned() {
    let theme = builtin("nord").unwrap();
    let palette = Palette::from_theme(&theme);
    let mut dynamic = palette.dynamic.clone();
    let view = Viewport { display_offset: 3, lines: 10, cols: 4 };
    let plan = |c: &CellInfo, d: &Vec<Option<Rgb>>| plan_cell(c, view, &palette, d, true);
    let p = plan(&cell(), &dynamic).unwrap();
    assert_eq!((p.row, p.col), (3, 2));
    assert_eq!(p.fg, theme.foreground);
    assert_eq!(p.background, None);
    assert!(p.matched);
    assert_eq!(p.glyph, Some(GlyphPlan { c: 'x', bold: true, italic: false }));
    assert!(!plan_cell(&cell(), view, &palette, &dynamic, false).unwrap().matched);

    assert_eq!(plan(&CellInfo { spacer: true, ..cell() }, &dynamic), None);
    assert_eq!(plan(&CellInfo { line: -4, ..cell() }, &dynamic), None);
    assert_eq!(plan(&CellInfo { line: 7, ..cell() }, &dynamic), None);
    assert_eq!(plan(&CellInfo { column: 4, ..cell() }, &dynamic), None);
    assert_eq!(plan(&CellInfo { c: ' ', ..cell() }, &dynamic).unwrap().glyph, None);
    assert_eq!(plan(&CellInfo { c: KITTY_MARKER, ..cell() }, &dynamic).unwrap().glyph, None);

    let red = CellInfo { fg: Color::Named(1), dim: true, ..cell() };
    assert_eq!(plan(&red, &dynamic).unwrap().fg, theme.dim[1]);
    let swapped = plan(&CellInfo { inverse: true, ..red }, &dynamic).unwrap();
    assert_eq!(swapped.background, Some(theme.normal[1]));
    dynamic[260] = Some(Rgb { r: 1, g: 1, b: 1 });
    let one = Shade::Exact(Rgba { r: 1, g: 1, b: 1, a: 255 });
    assert_eq!(plan(&red, &dynamic).unwrap().fg, one);
}

#[test]
fn cursor_is_planned() {
    let theme = builtin("nord").unwrap();
    let palette = Palette::from_theme(&theme);
    let mut dynamic = palette.dynamic.clone();
    let view = Viewport { display_offset: 0, lines: 2, cols: 2 };
    let block = CursorInfo {
        shape: CursorShape::Block,
        line: 1,
        column: 1,
        blinking: true,
        under: 'q',
    };
    let p = plan_cursor(&block, view, &palette, &dynamic, true, true).unwrap();
    assert_eq!((p.row, p.col, p.color), (1, 1, theme.cursor));
    assert_eq!(p.glyph, Some(('q', theme.cursor_text.unwrap())));
    assert_eq!(plan_cursor(&block, view, &palette, &dynamic, false, true), None);
    assert_eq!(plan_cursor(&block, view, &palette, &dynamic, true, false), None);
    let beam = CursorInfo { shape: CursorShape::Beam, blinking: false, ..block };
    dynamic[258] = Some(Rgb { r: 3, g: 2, b: 1 });
    let p = plan_cursor(&beam, view, &palette, &dynamic, true, false).unwrap();
    assert_eq!(p.glyph, None);
    assert_eq!(p.color, Shade::Exact(Rgba { r: 3, g: 2, b: 1, a: 255 }));
    let hidden = CursorInfo { shape: CursorShape::Hidden, ..block };
    assert_eq!(plan_cursor(&hidden, view, &palette, &dynamic, true, true), None);
    let below = CursorInfo { line: 2, ..block };
    assert_eq!(plan_cursor(&below, view, &palette, &dynamic, true, true), None);
}

#[test]
fn frames_are_planned() {
    let panes = vec![4, 7];
    let query = Some("abc".to_string());
    let command = Some("/th".to_string());
    let message = Some("hi".to_string());
    let f = plan_frame(false, true, &panes, 7, &query, &command, &message, 3999, Some(249));
    assert_eq!(f.background, Background::Gradient);
    assert_eq!(f.focused, Some(1));
    assert_eq!(f.search.as_deref(), Some("Search: abc█"));
    assert_eq!(f.command.as_deref(), Some("/th█"));
    assert_eq!(f.message.as_deref(), Some("hi"));
    assert!(f.flash && !f.forget_message && !f.forget_bell);
    let f = plan_frame(true, true, &panes, 5, &query, &None, &message, 4000, Some(250));
    assert_eq!(f.background, Background::Image);
    assert_eq!((f.focused, f.search, f.message), (None, None, None));
    assert!(f.forget_message && f.forget_bell && !f.flash);
    let f = plan_frame(false, false, &panes, 4, &None, &None, &None, 9999, None);
    assert_eq!(f.background, Background::Flat);
    assert!(!f.forget_message && !f.flash && !f.forget_bell);
}

#[test]
fn line_steps_add_up() {
    let mut steps = LineSteps::new();
    let mut total = 0;
    for target in [0, 3, 3, 10, 2, 42] {
        total += steps.step(target).unwrap_or(0);
    }
    assert_eq!(total, 42);
    assert!(steps.is_stale(12));
    steps.resync(12);
    assert_eq!(steps.step(12), None);
}

#[test]
fn grid_positions() {
    assert_eq!(point_at(99, 2, 5, 80), GridPoint { line: -3, column: 79 });
    assert_eq!(point_at(3, 2, 0, 0), GridPoint { line: 2, column: 0 });
    assert_eq!(cell_at(99, 99, 80, 24), (79, 23));
    assert_eq!(cell_at(1, 2, 80, 24), (1, 2));
    assert_eq!(
        search_window(5, 24, 79),
        (GridPoint { line: -5, column: 0 }, GridPoint { line: 18, column: 79 })
    );
}

#[test]
fn scroll_requests() {
    assert_eq!(scroll_request(ScrollTo::Top, true, 24, 100), ScrollRequest::Ignore);
    assert_eq!(scroll_request(ScrollTo::Lines(-3), false, 24, 100), ScrollRequest::By(-3));
    assert_eq!(scroll_request(ScrollTo::PageUp, false, 24, 100), ScrollRequest::By(24));
    assert_eq!(scroll_request(ScrollTo::PageDown, false, 24, 100), ScrollRequest::By(-24));
    assert_eq!(scroll_request(ScrollTo::Top, false, 24, 100), ScrollRequest::To(100));
    assert_eq!(scroll_request(ScrollTo::Bottom, false, 24, 100), ScrollRequest::To(0));
    let alt = TermMode { alt_screen: true, ..TermMode::empty() };
    assert_eq!(history_lines(alt, 9), 0);
    assert_eq!(history_lines(TermMode::empty(), 9), 9);
    assert!(mouse_motion_reports(TermMode { mouse_drag: true, ..TermMode::empty() }));
    assert!(!mouse_motion_reports(TermMode::empty()));
}

#[test]
fn pane_resizing() {
    assert_eq!(resized(80, 24, 80, 24, 8, 16), None);
    assert_eq!(
        resized(80, 24, 65536 + 81, 24, 8, 16),
        Some(WindowSize { num_lines: 24, num_cols: 81, cell_width: 8, cell_height: 16 })
    );
}
