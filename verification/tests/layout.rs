use optix::layout::{
    pane_at, Closed, Direction, Layout, LayoutNode, Orientation, PaneIds, Rect, Tab, FIELD, HALF,
    UNIT,
};

fn area(w: u64, h: u64) -> Rect {
    Rect { x: 0, y: 0, w: w * UNIT, h: h * UNIT }
}

fn quarters() -> Tab {
    // 0 | 1
    // --+--
    // 2 | 3
    let mut tab = Tab::new(0);
    assert!(tab.split(0, 2, Orientation::Vertical));
    assert!(tab.split(0, 1, Orientation::Horizontal));
    assert!(tab.split(2, 3, Orientation::Horizontal));
    tab
}

#[test]
fn splitting_halves_a_pane() {
    let mut tab = Tab::new(7);
    assert!(!tab.split(1, 2, Orientation::Horizontal));
    assert!(tab.split(7, 8, Orientation::Horizontal));
    let rects = tab.layout_rects(area(100, 50));
    assert_eq!(rects[0], (7, area(50, 50)));
    assert_eq!(rects[1], (8, Rect { x: 50 * UNIT, ..area(50, 50) }));
    assert_eq!(
        tab.split_borders(area(100, 50)),
        vec![Rect { x: 50 * UNIT, y: 0, w: UNIT, h: 50 * UNIT }]
    );
    match &tab.nodes {
        LayoutNode::Split(split) => assert_eq!(split.ratio, HALF),
        LayoutNode::Pane { .. } => panic!("expected a split"),
    }
}

#[test]
fn new_panes_stand_behind_the_split_one() {
    assert_eq!(quarters().pane_ids(), vec![0, 1, 2, 3]);
}

#[test]
fn removing_takes_one_pane_only() {
    let mut tab = quarters();
    assert!(!tab.remove(1));
    assert_eq!(tab.pane_ids(), vec![0, 2, 3]);
    assert!(!tab.remove(0));
    assert_eq!(tab.pane_ids(), vec![2, 3]);
    assert!(!tab.remove(3));
    assert!(tab.remove(2));
    assert_eq!(tab.pane_ids(), vec![2]);
}

#[test]
fn nested_removal_keeps_the_sibling() {
    let mut tab = Tab::new(0);
    tab.split(0, 1, Orientation::Horizontal);
    tab.split(1, 2, Orientation::Vertical);
    tab.split(2, 3, Orientation::Horizontal);
    assert!(!tab.remove(3));
    assert_eq!(tab.pane_ids(), vec![0, 1, 2]);
}

#[test]
fn removal_undoes_a_split() {
    let before = quarters().layout_rects(area(64, 64));
    let mut tab = quarters();
    tab.split(2, 9, Orientation::Vertical);
    tab.remove(9);
    assert_eq!(tab.layout_rects(area(64, 64)), before);
}

#[test]
fn focus_is_repaired() {
    let mut tab = quarters();
    tab.focus(3);
    assert_eq!(tab.focused, 3);
    tab.focus(42);
    assert_eq!(tab.focused, 3);
    tab.remove(3);
    assert_eq!(tab.focused, 0);
}

#[test]
fn focus_goes_round() {
    let mut tab = quarters();
    for expected in [1, 2, 3, 0] {
        tab.focus_next(true);
        assert_eq!(tab.focused, expected);
    }
    tab.focus_prev(true);
    assert_eq!(tab.focused, 3);
    tab.focus_next(false);
    assert_eq!(tab.focused, 3);
    tab.focus(0);
    tab.focus_prev(false);
    assert_eq!(tab.focused, 0);
    let mut single = Tab::new(5);
    single.focus_next(true);
    assert_eq!(single.focused, 5);
}

#[test]
fn focus_moves_by_direction() {
    let mut tab = quarters();
    tab.focus_direction(Direction::Right);
    assert_eq!(tab.focused, 1);
    tab.focus_direction(Direction::Down);
    assert_eq!(tab.focused, 3);
    tab.focus_direction(Direction::Left);
    assert_eq!(tab.focused, 2);
    tab.focus_direction(Direction::Up);
    assert_eq!(tab.focused, 0);
    tab.focus_direction(Direction::Up);
    assert_eq!(tab.focused, 0);
}

#[test]
fn focus_moves_to_the_nearest_pane() {
    // 0 | 1 | 2, where 1 and 2 are a quarter wide each.
    let mut tab = Tab::new(0);
    tab.split(0, 1, Orientation::Horizontal);
    tab.split(1, 2, Orientation::Horizontal);
    tab.focus(2);
    tab.focus_direction(Direction::Left);
    assert_eq!(tab.focused, 1);
    assert_eq!(FIELD % 4, 0);
}

#[test]
fn every_point_is_in_one_pane() {
    let mut tab = quarters();
    tab.split(3, 4, Orientation::Vertical);
    let rects = tab.layout_rects(area(33, 17));
    for x in 0..33 {
        for y in 0..17 {
            let (px, py) = (x * UNIT + 1, y * UNIT + 1);
            let hits = rects.iter().filter(|(_, r)| r.contains(px, py)).count();
            assert_eq!(hits, 1);
        }
    }
    assert_eq!(pane_at(&rects, 0, 0), Some(rects[0]));
    assert_eq!(pane_at(&rects, 33 * UNIT, 0), None);
}

#[test]
fn rectangles() {
    let r = Rect { x: 10, y: 20, w: 5, h: 4 };
    assert_eq!(r.center(), (12, 22));
    assert!(r.contains(10, 20));
    assert!(!r.contains(15, 20));
    assert!(!r.contains(9, 20));
    assert_eq!(Rect::default(), Rect { x: 0, y: 0, w: 0, h: 0 });
}

#[test]
fn layouts_open_and_close_panes() {
    let mut ids = PaneIds { next: 0 };
    let mut layout = Layout::new(ids.take());
    let id = ids.take();
    assert!(layout.split_focused(id, Orientation::Horizontal));
    assert_eq!(layout.focused(), 1);
    assert_eq!(layout.pane_ids(), vec![0, 1]);
    assert_eq!(layout.close(5), Closed::Missing);
    assert_eq!(layout.close(1), Closed::Removed);
    assert_eq!(layout.focused(), 0);
    assert!(!layout.contains(1));
    assert_eq!(layout.close(0), Closed::Last);
    assert!(layout.contains(0));
    layout.tab_mut().focused = 9;
    assert!(!layout.split_focused(2, Orientation::Vertical));
    layout.refresh_focus();
    assert_eq!(layout.tab().focused, 0);
}

#[test]
fn cloned_trees_are_equal_and_apart() {
    let mut tab = quarters();
    let copy = tab.nodes.clone();
    assert!(!tab.remove(3));
    let mut ids = Vec::new();
    copy.pane_ids(&mut ids);
    assert_eq!(ids, vec![0, 1, 2, 3]);
    assert_eq!(tab.pane_ids(), vec![0, 1, 2]);
}
