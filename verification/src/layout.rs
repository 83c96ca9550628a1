//! The split-pane layout tree.
//!
//! A tab owns a binary tree of splits; leaves are pane numbers that refer to the
//! application's pane table. Lengths are counted in units of 1/65536 pixel, so
//! that halving a pane is exact.
use vstd::prelude::*;

verus! {

/// The number of a pane.
pub type PaneId = usize;

/// Units in a pixel; also the ratio that gives all of a split to its first
/// half.
pub const UNIT: u64 = 65536;

/// The ratio of a split into equal halves.
pub const HALF: u32 = 32768;

/// Side of the square in which panes are compared when focus moves.
pub const FIELD: u64 = 0x1000_0000_0000_0000;

/// How a split divides its area.
#[derive(Clone, Copy, PartialEq, Eq, Debug, Structural)]
pub enum Orientation {
    /// Side by side (a vertical divider).
    Horizontal,
    /// Stacked (a horizontal divider).
    Vertical,
}

/// A direction in which focus moves.
#[derive(Clone, Copy, PartialEq, Eq, Debug, Structural)]
pub enum Direction {
    Up,
    Down,
    Left,
    Right,
}

/// A rectangle on the screen.
#[derive(Clone, Copy, PartialEq, Eq, Debug, Structural)]
pub struct Rect {
    pub x: u64,
    pub y: u64,
    pub w: u64,
    pub h: u64,
}

impl Default for Rect {
    fn default() -> (r: Rect)
        ensures
            r == (Rect { x: 0, y: 0, w: 0, h: 0 }),
    {
        Rect { x: 0, y: 0, w: 0, h: 0 }
    }
}

impl Rect {
    /// Whether the far corner of a rectangle can be written down.
    pub open spec fn fits(self) -> bool {
        self.x + self.w <= u64::MAX && self.y + self.h <= u64::MAX
    }

    /// Whether a point lies in a rectangle. The left and upper edges belong to
    /// it, the right and lower ones do not.
    pub open spec fn has(self, px: int, py: int) -> bool {
        self.x <= px < self.x + self.w && self.y <= py < self.y + self.h
    }

    /// Whether a point lies in the rectangle.
    pub fn contains(&self, px: u64, py: u64) -> (r: bool)
        ensures
            r == self.has(px as int, py as int),
    {
        px >= self.x && px - self.x < self.w && py >= self.y && py - self.y < self.h
    }

    /// The middle of the rectangle, rounded toward its upper left corner.
    pub fn center(&self) -> (r: (u64, u64))
        requires
            self.fits(),
        ensures
            r.0 == self.x + self.w / 2,
            r.1 == self.y + self.h / 2,
    {
        (self.x + self.w / 2, self.y + self.h / 2)
    }
}

/// A split of an area between two subtrees. The first half gets `ratio`
/// 65536ths of it.
#[derive(Debug)]
pub struct SplitBox {
    pub orientation: Orientation,
    pub ratio: u32,
    pub first: Box<LayoutNode>,
    pub second: Box<LayoutNode>,
}

/// A node of the layout tree.
#[derive(Debug)]
pub enum LayoutNode {
    Pane { id: PaneId },
    Split(SplitBox),
}

/// The panes of a tree, from first to last.
pub open spec fn leaves(node: LayoutNode) -> Seq<PaneId>
    decreases node,
{
    match node {
        LayoutNode::Pane { id } => seq![id],
        LayoutNode::Split(split) => leaves(*split.first) + leaves(*split.second),
    }
}

/// Whether no split gives its first half more than all of its area.
pub open spec fn ratios_ok(node: LayoutNode) -> bool
    decreases node,
{
    match node {
        LayoutNode::Pane { .. } => true,
        LayoutNode::Split(split) => split.ratio <= UNIT && ratios_ok(*split.first) && ratios_ok(
            *split.second,
        ),
    }
}

/// The tree after the leaf `pane` was split in two equal halves, the new pane
/// second. The first leaf counts where several have the number.
pub open spec fn split_tree(
    node: LayoutNode,
    pane: PaneId,
    new_id: PaneId,
    orientation: Orientation,
) -> LayoutNode
    decreases node,
{
    match node {
        LayoutNode::Pane { id } => if id == pane {
            LayoutNode::Split(
                SplitBox {
                    orientation,
                    ratio: HALF,
                    first: Box::new(LayoutNode::Pane { id: pane }),
                    second: Box::new(LayoutNode::Pane { id: new_id }),
                },
            )
        } else {
            node
        },
        LayoutNode::Split(split) => if leaves(*split.first).contains(pane) {
            LayoutNode::Split(
                SplitBox {
                    first: Box::new(split_tree(*split.first, pane, new_id, orientation)),
                    ..split
                },
            )
        } else {
            LayoutNode::Split(
                SplitBox {
                    second: Box::new(split_tree(*split.second, pane, new_id, orientation)),
                    ..split
                },
            )
        },
    }
}

/// The tree after the leaf `pane` was removed. A split that loses one half
/// gives way to the other; nothing is left of a tree that is the leaf itself.
pub open spec fn remove_tree(node: LayoutNode, pane: PaneId) -> Option<LayoutNode>
    decreases node,
{
    match node {
        LayoutNode::Pane { id } => if id == pane {
            None
        } else {
            Some(node)
        },
        LayoutNode::Split(split) => if leaves(*split.first).contains(pane) {
            match remove_tree(*split.first, pane) {
                None => Some(*split.second),
                Some(first) => Some(
                    LayoutNode::Split(SplitBox { first: Box::new(first), ..split }),
                ),
            }
        } else {
            match remove_tree(*split.second, pane) {
                None => Some(*split.first),
                Some(second) => Some(
                    LayoutNode::Split(SplitBox { second: Box::new(second), ..split }),
                ),
            }
        },
    }
}

/// The panes of a split are those of its halves.
proof fn lemma_split_leaves(split: SplitBox, pane: PaneId)
    ensures
        leaves(LayoutNode::Split(split)).contains(pane) == (leaves(*split.first).contains(pane)
            || leaves(*split.second).contains(pane)),
{
    let a = leaves(*split.first);
    let b = leaves(*split.second);
    let all = a + b;
    if a.contains(pane) {
        let i = choose|i: int| 0 <= i < a.len() && a[i] == pane;
        assert(all[i] == pane);
    }
    if b.contains(pane) {
        let i = choose|i: int| 0 <= i < b.len() && b[i] == pane;
        assert(all[a.len() + i] == pane);
    }
    if all.contains(pane) {
        let i = choose|i: int| 0 <= i < all.len() && all[i] == pane;
        if i < a.len() {
            assert(a[i] == pane);
        } else {
            assert(b[i - a.len()] == pane);
        }
    }
}

/// Splitting a pane that is not there changes nothing.
proof fn lemma_split_absent(
    node: LayoutNode,
    pane: PaneId,
    new_id: PaneId,
    orientation: Orientation,
)
    requires
        !leaves(node).contains(pane),
    ensures
        split_tree(node, pane, new_id, orientation) == node,
    decreases node,
{
    match node {
        LayoutNode::Pane { id } => {
            assert(leaves(node)[0] == id);
        },
        LayoutNode::Split(split) => {
            lemma_split_leaves(split, pane);
            lemma_split_absent(*split.second, pane, new_id, orientation);
        },
    }
}

impl LayoutNode {
    /// Append the panes of a tree, from first to last.
    pub fn pane_ids(&self, out: &mut Vec<PaneId>)
        ensures
            final(out)@ == old(out)@ + leaves(*self),
        decreases self,
    {
        match self {
            LayoutNode::Pane { id } => {
                out.push(*id);
                assert(out@ =~= old(out)@ + leaves(*self));
            },
            LayoutNode::Split(split) => {
                split.first.pane_ids(out);
                split.second.pane_ids(out);
                assert(out@ =~= old(out)@ + leaves(*self));
            },
        }
    }

    /// Split the leaf `pane` into two leaves along `orientation`; whether there
    /// was such a leaf.
    fn split_leaf(&mut self, pane: PaneId, new_id: PaneId, orientation: Orientation) -> (r: bool)
        ensures
            r == leaves(*old(self)).contains(pane),
            *final(self) == split_tree(*old(self), pane, new_id, orientation),
        decreases *old(self),
    {
        let ghost start = *self;
        match self {
            LayoutNode::Pane { id } => {
                assert(leaves(start)[0] == *id);
                if *id == pane {
                    *self = LayoutNode::Split(
                        SplitBox {
                            orientation,
                            ratio: HALF,
                            first: Box::new(LayoutNode::Pane { id: pane }),
                            second: Box::new(LayoutNode::Pane { id: new_id }),
                        },
                    );
                    true
                } else {
                    false
                }
            },
            LayoutNode::Split(split) => {
                let ghost before = *split;
                proof {
                    lemma_split_leaves(before, pane);
                }
                if split.first.split_leaf(pane, new_id, orientation) {
                    return true;
                }
                proof {
                    lemma_split_absent(*before.first, pane, new_id, orientation);
                }
                split.second.split_leaf(pane, new_id, orientation)
            },
        }
    }

    /// The tree without the leaf `pane`, or `None` where nothing is left.
    fn without_pane(self, pane: PaneId) -> (r: Option<LayoutNode>)
        ensures
            r == remove_tree(self, pane),
        decreases self,
    {
        match self {
            LayoutNode::Pane { id } => {
                if id == pane {
                    None
                } else {
                    Some(LayoutNode::Pane { id })
                }
            },
            LayoutNode::Split(split) => {
                let SplitBox { orientation, ratio, first, second } = split;
                let mut ids: Vec<PaneId> = Vec::new();
                first.pane_ids(&mut ids);
                assert(ids@ =~= leaves(*first));
                if list_contains(&ids, pane) {
                    match (*first).without_pane(pane) {
                        None => Some(*second),
                        Some(rest) => Some(
                            LayoutNode::Split(
                                SplitBox { orientation, ratio, first: Box::new(rest), second },
                            ),
                        ),
                    }
                } else {
                    match (*second).without_pane(pane) {
                        None => Some(*first),
                        Some(rest) => Some(
                            LayoutNode::Split(
                                SplitBox { orientation, ratio, first, second: Box::new(rest) },
                            ),
                        ),
                    }
                }
            },
        }
    }
}

impl Clone for LayoutNode {
    /// A copy of the whole tree.
    fn clone(&self) -> (r: LayoutNode)
        ensures
            r == *self,
        decreases self,
    {
        match self {
            LayoutNode::Pane { id } => LayoutNode::Pane { id: *id },
            LayoutNode::Split(split) => {
                let first = (*split.first).clone();
                let second = (*split.second).clone();
                LayoutNode::Split(
                    SplitBox {
                        orientation: split.orientation,
                        ratio: split.ratio,
                        first: Box::new(first),
                        second: Box::new(second),
                    },
                )
            },
        }
    }
}

/// Whether a list of panes has a pane.
fn list_contains(ids: &Vec<PaneId>, pane: PaneId) -> (r: bool)
    ensures
        r == ids@.contains(pane),
{
    position(ids, pane) < ids.len()
}

/// The index of the first occurrence of a pane, or the length.
pub open spec fn position_of(ids: Seq<PaneId>, pane: PaneId) -> nat
    decreases ids.len(),
{
    if ids.len() == 0 || ids[0] == pane {
        0
    } else {
        1 + position_of(ids.drop_first(), pane)
    }
}

/// The index of the first occurrence of a pane, or the length.
fn position(ids: &Vec<PaneId>, pane: PaneId) -> (r: usize)
    ensures
        r == position_of(ids@, pane),
        r <= ids@.len(),
        r < ids@.len() ==> ids@[r as int] == pane,
        r < ids@.len() <==> ids@.contains(pane),
{
    let mut i: usize = 0;
    assert(ids@.skip(0) =~= ids@);
    while i < ids.len() && ids[i] != pane
        invariant
            i <= ids@.len(),
            position_of(ids@, pane) == i + position_of(ids@.skip(i as int), pane),
            forall|k: int| 0 <= k < i ==> ids@[k] != pane,
        decreases ids@.len() - i,
    {
        assert(ids@.skip(i as int)[0] == ids@[i as int]);
        assert(ids@.skip(i as int).drop_first() =~= ids@.skip(i + 1));
        i += 1;
    }
    if i < ids.len() {
        assert(ids@.skip(i as int)[0] == ids@[i as int]);
    }
    i
}

/// The two parts of a split area.
pub open spec fn halves(orientation: Orientation, ratio: u32, rect: Rect) -> (Rect, Rect) {
    match orientation {
        Orientation::Horizontal => {
            let w = (rect.w * ratio / UNIT as int) as u64;
            (
                Rect { w, ..rect },
                Rect { x: (rect.x + w) as u64, w: (rect.w - w) as u64, ..rect },
            )
        },
        Orientation::Vertical => {
            let h = (rect.h * ratio / UNIT as int) as u64;
            (
                Rect { h, ..rect },
                Rect { y: (rect.y + h) as u64, h: (rect.h - h) as u64, ..rect },
            )
        },
    }
}

/// Every pane of a tree with its part of an area, from first to last.
pub open spec fn tree_rects(node: LayoutNode, rect: Rect) -> Seq<(PaneId, Rect)>
    decreases node,
{
    match node {
        LayoutNode::Pane { id } => seq![(id, rect)],
        LayoutNode::Split(split) => {
            let (a, b) = halves(split.orientation, split.ratio, rect);
            tree_rects(*split.first, a) + tree_rects(*split.second, b)
        },
    }
}

/// The divider between the two parts of a split area, one pixel wide.
pub open spec fn divider(orientation: Orientation, ratio: u32, rect: Rect) -> Rect {
    let second = halves(orientation, ratio, rect).1;
    match orientation {
        Orientation::Horizontal => Rect { x: second.x, y: rect.y, w: UNIT, h: rect.h },
        Orientation::Vertical => Rect { x: rect.x, y: second.y, w: rect.w, h: UNIT },
    }
}

/// The dividers of a tree: that of a split before those of its halves.
pub open spec fn tree_borders(node: LayoutNode, rect: Rect) -> Seq<Rect>
    decreases node,
{
    match node {
        LayoutNode::Pane { .. } => seq![],
        LayoutNode::Split(split) => {
            let (a, b) = halves(split.orientation, split.ratio, rect);
            seq![divider(split.orientation, split.ratio, rect)] + tree_borders(*split.first, a)
                + tree_borders(*split.second, b)
        },
    }
}

/// A part of a length is no longer than the whole.
proof fn lemma_part(len: u64, ratio: u32)
    requires
        ratio <= UNIT,
    ensures
        0 <= len * ratio / UNIT as int <= len,
        len * ratio <= u64::MAX * 0xffff_ffff,
{
    assert(len * ratio <= len * 65536) by (nonlinear_arith)
        requires
            ratio <= 65536,
    ;
    assert(0 <= len * ratio) by (nonlinear_arith);
}

/// The two parts of a split area.
fn halve(orientation: Orientation, ratio: u32, rect: Rect) -> (r: (Rect, Rect))
    requires
        rect.fits(),
        ratio <= UNIT,
    ensures
        r == halves(orientation, ratio, rect),
        r.0.fits(),
        r.1.fits(),
{
    proof {
        lemma_part(rect.w, ratio);
        lemma_part(rect.h, ratio);
    }
    match orientation {
        Orientation::Horizontal => {
            let w: u64 = (rect.w as u128 * ratio as u128 / UNIT as u128) as u64;
            (
                Rect { x: rect.x, y: rect.y, w, h: rect.h },
                Rect { x: rect.x + w, y: rect.y, w: rect.w - w, h: rect.h },
            )
        },
        Orientation::Vertical => {
            let h: u64 = (rect.h as u128 * ratio as u128 / UNIT as u128) as u64;
            (
                Rect { x: rect.x, y: rect.y, w: rect.w, h },
                Rect { x: rect.x, y: rect.y + h, w: rect.w, h: rect.h - h },
            )
        },
    }
}

/// Append every pane of a tree with its part of an area.
fn compute(node: &LayoutNode, rect: Rect, out: &mut Vec<(PaneId, Rect)>)
    requires
        ratios_ok(*node),
        rect.fits(),
    ensures
        final(out)@ == old(out)@ + tree_rects(*node, rect),
    decreases node,
{
    match node {
        LayoutNode::Pane { id } => {
            out.push((*id, rect));
            assert(out@ =~= old(out)@ + tree_rects(*node, rect));
        },
        LayoutNode::Split(split) => {
            let (a, b) = halve(split.orientation, split.ratio, rect);
            compute(&split.first, a, out);
            compute(&split.second, b, out);
            assert(out@ =~= old(out)@ + tree_rects(*node, rect));
        },
    }
}

/// Append the dividers of a tree.
fn borders(node: &LayoutNode, rect: Rect, out: &mut Vec<Rect>)
    requires
        ratios_ok(*node),
        rect.fits(),
    ensures
        final(out)@ == old(out)@ + tree_borders(*node, rect),
    decreases node,
{
    match node {
        LayoutNode::Pane { .. } => {
            assert(out@ =~= old(out)@ + tree_borders(*node, rect));
        },
        LayoutNode::Split(split) => {
            let (a, b) = halve(split.orientation, split.ratio, rect);
            match split.orientation {
                Orientation::Horizontal => {
                    out.push(Rect { x: b.x, y: rect.y, w: UNIT, h: rect.h });
                },
                Orientation::Vertical => {
                    out.push(Rect { x: rect.x, y: b.y, w: rect.w, h: UNIT });
                },
            }
            borders(&split.first, a, out);
            borders(&split.second, b, out);
            assert(out@ =~= old(out)@ + tree_borders(*node, rect));
        },
    }
}

// ---------------------------------------------------------------------------
// Moving focus by direction
// ---------------------------------------------------------------------------

/// The middle of a rectangle.
pub open spec fn middle(r: Rect) -> (int, int) {
    (r.x + r.w / 2, r.y + r.h / 2)
}

/// The size of a number.
pub open spec fn size(n: int) -> int {
    if n < 0 {
        -n
    } else {
        n
    }
}

/// Whether one rectangle lies in a direction of another: on that side, and not
/// further off to the side than ahead.
pub open spec fn lies(dir: Direction, from: Rect, to: Rect) -> bool {
    let dx = middle(to).0 - middle(from).0;
    let dy = middle(to).1 - middle(from).1;
    match dir {
        Direction::Up => dy < 0 && size(dx) <= size(dy) + UNIT,
        Direction::Down => dy > 0 && size(dx) <= size(dy) + UNIT,
        Direction::Left => dx < 0 && size(dy) <= size(dx) + UNIT,
        Direction::Right => dx > 0 && size(dy) <= size(dx) + UNIT,
    }
}

/// The square of the distance between the middles of two rectangles.
pub open spec fn distance(from: Rect, to: Rect) -> int {
    let dx = middle(to).0 - middle(from).0;
    let dy = middle(to).1 - middle(from).1;
    dx * dx + dy * dy
}

/// The nearest pane in a direction, and the square of its distance; the first
/// one where several are as near.
pub open spec fn nearest(
    rects: Seq<(PaneId, Rect)>,
    focused: PaneId,
    from: Rect,
    dir: Direction,
) -> Option<(int, PaneId)>
    decreases rects.len(),
{
    if rects.len() == 0 {
        None
    } else {
        let best = nearest(rects.drop_last(), focused, from, dir);
        let (id, to) = rects.last();
        if id != focused && lies(dir, from, to) && (best matches Some(b) ==> distance(from, to)
            < b.0) {
            Some((distance(from, to), id))
        } else {
            best
        }
    }
}

/// The pane that focus moves to in a direction: the nearest, or the focused one
/// where none lies there.
pub open spec fn focus_toward(node: LayoutNode, focused: PaneId, dir: Direction) -> PaneId {
    let rects = tree_rects(node, field());
    let at = position_of(leaves(node), focused) as int;
    if at < rects.len() {
        match nearest(rects, focused, rects[at].1, dir) {
            Some((_, id)) => id,
            None => focused,
        }
    } else {
        focused
    }
}

/// The area in which panes are compared when focus moves.
pub open spec fn field() -> Rect {
    Rect { x: 0, y: 0, w: FIELD, h: FIELD }
}

/// The rectangles of a tree belong to its panes, in their order, and stay in
/// the area.
proof fn lemma_rects(node: LayoutNode, rect: Rect)
    requires
        ratios_ok(node),
        rect.fits(),
    ensures
        tree_rects(node, rect).len() == leaves(node).len(),
        forall|i: int|
            0 <= i < leaves(node).len() ==> (#[trigger] tree_rects(node, rect)[i]).0 == leaves(
                node,
            )[i],
        forall|i: int|
            0 <= i < leaves(node).len() ==> within((#[trigger] tree_rects(node, rect)[i]).1, rect),
    decreases node,
{
    match node {
        LayoutNode::Pane { id } => {},
        LayoutNode::Split(split) => {
            lemma_part(rect.w, split.ratio);
            lemma_part(rect.h, split.ratio);
            let (a, b) = halves(split.orientation, split.ratio, rect);
            lemma_rects(*split.first, a);
            lemma_rects(*split.second, b);
            let x = tree_rects(*split.first, a);
            let y = tree_rects(*split.second, b);
            assert forall|i: int| 0 <= i < leaves(node).len() implies (#[trigger] tree_rects(
                node,
                rect,
            )[i]).0 == leaves(node)[i] && within(tree_rects(node, rect)[i].1, rect) by {
                if i < x.len() {
                    assert(tree_rects(node, rect)[i] == x[i]);
                } else {
                    assert(tree_rects(node, rect)[i] == y[i - x.len()]);
                }
            }
        },
    }
}

/// Whether a rectangle lies inside another.
pub open spec fn within(inner: Rect, outer: Rect) -> bool {
    outer.x <= inner.x && inner.x + inner.w <= outer.x + outer.w && outer.y <= inner.y && inner.y
        + inner.h <= outer.y + outer.h
}

/// The offset from the middle of one rectangle to that of another.
fn offset(from: Rect, to: Rect) -> (r: (i128, i128))
    requires
        from.fits(),
        to.fits(),
    ensures
        r.0 == middle(to).0 - middle(from).0,
        r.1 == middle(to).1 - middle(from).1,
{
    let (cx, cy) = from.center();
    let (px, py) = to.center();
    (px as i128 - cx as i128, py as i128 - cy as i128)
}

/// The size of a number.
fn magnitude(n: i128) -> (r: i128)
    requires
        n > i128::MIN,
    ensures
        r == size(n as int),
{
    if n < 0 {
        -n
    } else {
        n
    }
}

/// Whether one rectangle lies in a direction of another.
fn in_direction(dir: Direction, from: Rect, to: Rect) -> (r: bool)
    requires
        within(from, field()),
        within(to, field()),
    ensures
        r == lies(dir, from, to),
{
    let (dx, dy) = offset(from, to);
    let along = magnitude(dx);
    let down = magnitude(dy);
    match dir {
        Direction::Up => dy < 0 && along <= down + UNIT as i128,
        Direction::Down => dy > 0 && along <= down + UNIT as i128,
        Direction::Left => dx < 0 && down <= along + UNIT as i128,
        Direction::Right => dx > 0 && down <= along + UNIT as i128,
    }
}

/// The square of the distance between the middles of two rectangles.
fn squared_distance(from: Rect, to: Rect) -> (r: i128)
    requires
        within(from, field()),
        within(to, field()),
    ensures
        r == distance(from, to),
{
    let (dx, dy) = offset(from, to);
    proof {
        let side: int = 0x1000_0000_0000_0000;
        assert(-side <= dx <= side && -side <= dy <= side);
        assert(0 <= dx * dx <= side * side) by (nonlinear_arith)
            requires
                -side <= dx <= side,
        ;
        assert(0 <= dy * dy <= side * side) by (nonlinear_arith)
            requires
                -side <= dy <= side,
        ;
        assert(side * side == 0x100_0000_0000_0000_0000_0000_0000_0000) by (nonlinear_arith)
            requires
                side == 0x1000_0000_0000_0000,
        ;
    }
    dx * dx + dy * dy
}

// ---------------------------------------------------------------------------
// Tabs
// ---------------------------------------------------------------------------

/// A pane tree and the pane that has the focus.
#[derive(Debug)]
pub struct Tab {
    pub nodes: LayoutNode,
    pub focused: PaneId,
}

/// Whether a tab is in order: no pane occurs twice, and the focused one is
/// there.
pub open spec fn tab_ok(tab: Tab) -> bool {
    ratios_ok(tab.nodes) && leaves(tab.nodes).no_duplicates() && leaves(tab.nodes).contains(
        tab.focused,
    )
}

/// The pane that has the focus once it is repaired: the first one where the
/// focused pane is gone.
pub open spec fn repaired(ids: Seq<PaneId>, focused: PaneId) -> PaneId {
    if ids.contains(focused) {
        focused
    } else {
        ids[0]
    }
}

/// The index that focus counts from: that of the focused pane, or the first.
pub open spec fn focus_index(ids: Seq<PaneId>, focused: PaneId) -> int {
    let at = position_of(ids, focused) as int;
    if at < ids.len() {
        at
    } else {
        0
    }
}

/// The pane after the focused one. Behind the last comes the first, or nothing
/// changes where focus does not wrap around.
pub open spec fn next_of(ids: Seq<PaneId>, focused: PaneId, wrap: bool) -> PaneId {
    let at = focus_index(ids, focused);
    if ids.len() < 2 {
        focused
    } else if at + 1 < ids.len() {
        ids[at + 1]
    } else if wrap {
        ids[0]
    } else {
        ids[at]
    }
}

/// The pane before the focused one. Before the first comes the last, or nothing
/// changes where focus does not wrap around.
pub open spec fn prev_of(ids: Seq<PaneId>, focused: PaneId, wrap: bool) -> PaneId {
    let at = focus_index(ids, focused);
    if ids.len() < 2 {
        focused
    } else if at > 0 {
        ids[at - 1]
    } else if wrap {
        ids[ids.len() - 1]
    } else {
        ids[0]
    }
}

/// A tree has at least one pane.
proof fn lemma_leaves_nonempty(node: LayoutNode)
    ensures
        leaves(node).len() > 0,
    decreases node,
{
    if let LayoutNode::Split(split) = node {
        lemma_leaves_nonempty(*split.first);
    }
}

/// The first occurrence of a pane is within the list exactly if the list has it.
proof fn lemma_position(ids: Seq<PaneId>, pane: PaneId)
    ensures
        position_of(ids, pane) <= ids.len(),
        position_of(ids, pane) < ids.len() <==> ids.contains(pane),
        position_of(ids, pane) < ids.len() ==> ids[position_of(ids, pane) as int] == pane,
    decreases ids.len(),
{
    if ids.len() > 0 && ids[0] != pane {
        let rest = ids.drop_first();
        lemma_position(rest, pane);
        if ids.contains(pane) {
            let i = choose|i: int| 0 <= i < ids.len() && ids[i] == pane;
            assert(rest[i - 1] == pane);
        }
    }
}

impl Tab {
    /// A tab with a single pane.
    pub fn new(pane: PaneId) -> (r: Tab)
        ensures
            r.nodes == (LayoutNode::Pane { id: pane }),
            r.focused == pane,
            tab_ok(r),
    {
        let r = Tab { nodes: LayoutNode::Pane { id: pane }, focused: pane };
        assert(leaves(r.nodes)[0] == pane);
        r
    }

    /// The panes of the tab, from first to last.
    pub fn pane_ids(&self) -> (r: Vec<PaneId>)
        ensures
            r@ == leaves(self.nodes),
    {
        let mut out: Vec<PaneId> = Vec::new();
        self.nodes.pane_ids(&mut out);
        assert(out@ =~= leaves(self.nodes));
        out
    }

    /// Split `pane` in two, the new pane second; whether there was such a pane.
    /// The focus stays where it is.
    pub fn split(&mut self, pane: PaneId, new_id: PaneId, orientation: Orientation) -> (r: bool)
        ensures
            r == leaves(old(self).nodes).contains(pane),
            final(self).nodes == split_tree(old(self).nodes, pane, new_id, orientation),
            final(self).focused == old(self).focused,
            tab_ok(*old(self)) && !leaves(old(self).nodes).contains(new_id) ==> tab_ok(
                *final(self),
            ),
    {
        proof {
            if tab_ok(*self) && !leaves(self.nodes).contains(new_id) {
                law_split_keeps_tab_ok(*self, pane, new_id, orientation);
            }
        }
        self.nodes.split_leaf(pane, new_id, orientation)
    }

    /// Remove `pane`; returns `true` only when it is the last pane, which then
    /// stays. Focus moves to the first pane if the focused one is gone.
    pub fn remove(&mut self, pane: PaneId) -> (r: bool)
        ensures
            r == (leaves(old(self).nodes) == seq![pane]),
            r ==> *final(self) == *old(self),
            !r ==> remove_tree(old(self).nodes, pane) == Some(final(self).nodes),
            !r ==> final(self).focused == repaired(leaves(final(self).nodes), old(self).focused),
            tab_ok(*old(self)) ==> tab_ok(*final(self)),
    {
        let ids = self.pane_ids();
        let ghost start = *self;
        if ids.len() == 1 && ids[0] == pane {
            assert(leaves(start.nodes) =~= seq![pane]);
            return true;
        }
        proof {
            lemma_remove_leaves(start.nodes, pane);
            lemma_leaves_nonempty(start.nodes);
            if leaves(start.nodes).contains(pane) && leaves(start.nodes).len() == 1 {
                assert(ids@[0] == pane);
            }
            if leaves(start.nodes) == seq![pane] {
                assert(ids@[0] == pane);
            }
        }
        let mut nodes = LayoutNode::Pane { id: pane };
        std::mem::swap(&mut nodes, &mut self.nodes);
        match nodes.without_pane(pane) {
            Some(rest) => {
                self.nodes = rest;
            },
            None => {},
        }
        self.focus_something();
        proof {
            if tab_ok(start) {
                law_remove_keeps_tab_ok(start, pane);
            }
        }
        false
    }

    /// Move focus to the first pane if the focused one is gone.
    pub fn focus_something(&mut self)
        ensures
            final(self).nodes == old(self).nodes,
            final(self).focused == repaired(leaves(old(self).nodes), old(self).focused),
    {
        let ids = self.pane_ids();
        if list_contains(&ids, self.focused) {
            return;
        }
        proof {
            lemma_leaves_nonempty(self.nodes);
        }
        self.focused = ids[0];
    }

    /// Focus a pane, if the tab has it.
    pub fn focus(&mut self, pane: PaneId)
        ensures
            final(self).nodes == old(self).nodes,
            final(self).focused == (if leaves(old(self).nodes).contains(pane) {
                pane
            } else {
                old(self).focused
            }),
            tab_ok(*old(self)) ==> tab_ok(*final(self)),
    {
        let ids = self.pane_ids();
        if list_contains(&ids, pane) {
            self.focused = pane;
        }
    }

    /// Focus the next pane.
    pub fn focus_next(&mut self, wrap: bool)
        ensures
            final(self).nodes == old(self).nodes,
            final(self).focused == next_of(leaves(old(self).nodes), old(self).focused, wrap),
            tab_ok(*old(self)) ==> tab_ok(*final(self)),
    {
        let ids = self.pane_ids();
        if ids.len() < 2 {
            return;
        }
        let found = position(&ids, self.focused);
        let idx: usize = if found < ids.len() {
            found
        } else {
            0
        };
        let next: usize = if idx < ids.len() - 1 {
            idx + 1
        } else if wrap {
            0
        } else {
            idx
        };
        self.focused = ids[next];
    }

    /// Focus the previous pane.
    pub fn focus_prev(&mut self, wrap: bool)
        ensures
            final(self).nodes == old(self).nodes,
            final(self).focused == prev_of(leaves(old(self).nodes), old(self).focused, wrap),
            tab_ok(*old(self)) ==> tab_ok(*final(self)),
    {
        let ids = self.pane_ids();
        if ids.len() < 2 {
            return;
        }
        let found = position(&ids, self.focused);
        let idx: usize = if found < ids.len() {
            found
        } else {
            0
        };
        let next: usize = if idx > 0 {
            idx - 1
        } else if wrap {
            ids.len() - 1
        } else {
            0
        };
        self.focused = ids[next];
    }

    /// Compute the rectangle of every pane within the area of the tab.
    pub fn layout_rects(&self, area: Rect) -> (r: Vec<(PaneId, Rect)>)
        requires
            ratios_ok(self.nodes),
            area.fits(),
        ensures
            r@ == tree_rects(self.nodes, area),
    {
        let mut out: Vec<(PaneId, Rect)> = Vec::new();
        compute(&self.nodes, area, &mut out);
        assert(out@ =~= tree_rects(self.nodes, area));
        out
    }

    /// One-pixel dividers for every split, used to draw pane borders.
    pub fn split_borders(&self, area: Rect) -> (r: Vec<Rect>)
        requires
            ratios_ok(self.nodes),
            area.fits(),
        ensures
            r@ == tree_borders(self.nodes, area),
    {
        let mut out: Vec<Rect> = Vec::new();
        borders(&self.nodes, area, &mut out);
        assert(out@ =~= tree_borders(self.nodes, area));
        out
    }

    /// Move focus to the nearest pane in a direction from the focused one.
    pub fn focus_direction(&mut self, dir: Direction)
        requires
            ratios_ok(old(self).nodes),
        ensures
            final(self).nodes == old(self).nodes,
            final(self).focused == focus_toward(old(self).nodes, old(self).focused, dir),
            tab_ok(*old(self)) ==> tab_ok(*final(self)),
    {
        let area = Rect { x: 0, y: 0, w: FIELD, h: FIELD };
        let rects = self.layout_rects(area);
        let ids = self.pane_ids();
        let focused = self.focused;
        proof {
            lemma_rects(self.nodes, area);
        }
        let at = position(&ids, focused);
        if at >= ids.len() {
            return;
        }
        let from = rects[at].1;
        let mut best: Option<(i128, PaneId)> = None;
        let mut i: usize = 0;
        assert(rects@.take(0) =~= Seq::empty());
        while i < rects.len()
            invariant
                i <= rects@.len(),
                within(from, field()),
                rects@.len() == ids@.len(),
                forall|k: int| 0 <= k < rects@.len() ==> (#[trigger] rects@[k]).0 == ids@[k],
                forall|k: int| 0 <= k < rects@.len() ==> within((#[trigger] rects@[k]).1, field()),
                match best {
                    Some((d, id)) => nearest(rects@.take(i as int), focused, from, dir) == Some(
                        (d as int, id),
                    ) && ids@.contains(id),
                    None => nearest(rects@.take(i as int), focused, from, dir) is None,
                },
            decreases rects@.len() - i,
        {
            let (id, to) = rects[i];
            proof {
                assert(rects@.take(i + 1).drop_last() =~= rects@.take(i as int));
                assert(rects@.take(i + 1).last() == rects@[i as int]);
                assert(within(rects@[i as int].1, field()));
                assert(ids@[i as int] == id);
            }
            if id != focused && in_direction(dir, from, to) {
                let dist = squared_distance(from, to);
                let nearer = match best {
                    Some((d, _)) => dist < d,
                    None => true,
                };
                if nearer {
                    best = Some((dist, id));
                }
            }
            i += 1;
        }
        assert(rects@.take(i as int) =~= rects@);
        if let Some((_, id)) = best {
            self.focused = id;
        }
    }
}

/// The pane whose rectangle has a point; the first one where several do.
pub fn pane_at(rects: &Vec<(PaneId, Rect)>, px: u64, py: u64) -> (r: Option<(PaneId, Rect)>)
    ensures
        match r {
            Some(found) => exists|i: int|
                {
                    &&& 0 <= i < rects@.len()
                    &&& #[trigger] rects@[i] == found
                    &&& found.1.has(px as int, py as int)
                    &&& forall|k: int|
                        0 <= k < i ==> !(#[trigger] rects@[k]).1.has(px as int, py as int)
                },
            None => forall|k: int|
                0 <= k < rects@.len() ==> !(#[trigger] rects@[k]).1.has(px as int, py as int),
        },
{
    let mut i: usize = 0;
    while i < rects.len()
        invariant
            i <= rects@.len(),
            forall|k: int| 0 <= k < i ==> !(#[trigger] rects@[k]).1.has(px as int, py as int),
        decreases rects@.len() - i,
    {
        if rects[i].1.contains(px, py) {
            return Some(rects[i]);
        }
        i += 1;
    }
    None
}

/// How closing a pane went.
#[derive(Clone, Copy, PartialEq, Eq, Debug, Structural)]
pub enum Closed {
    /// There is no such pane.
    Missing,
    /// It is the last pane: the window closes.
    Last,
    /// The pane is gone.
    Removed,
}

/// Gives out pane numbers, each once.
#[derive(Clone, Copy, PartialEq, Eq, Debug, Structural)]
pub struct PaneIds {
    pub next: PaneId,
}

impl PaneIds {
    /// The number of the next pane.
    pub fn take(&mut self) -> (r: PaneId)
        requires
            old(self).next < usize::MAX,
        ensures
            r == old(self).next,
            final(self).next == r + 1,
    {
        let id = self.next;
        self.next = id + 1;
        id
    }
}

/// Whether every pane of a tree got its number before `next`.
pub open spec fn numbered_below(node: LayoutNode, next: PaneId) -> bool {
    forall|i: int| 0 <= i < leaves(node).len() ==> #[trigger] leaves(node)[i] < next
}

/// The layout of a window.
#[derive(Debug)]
pub struct Layout {
    pub tab: Tab,
}

impl Layout {
    /// A layout with a single pane.
    pub fn new(pane: PaneId) -> (r: Layout)
        ensures
            r.tab.nodes == (LayoutNode::Pane { id: pane }),
            r.tab.focused == pane,
            tab_ok(r.tab),
    {
        Layout { tab: Tab::new(pane) }
    }

    /// The tab.
    pub fn tab(&self) -> (r: &Tab)
        ensures
            *r == self.tab,
    {
        &self.tab
    }

    /// The tab, to be changed.
    pub fn tab_mut(&mut self) -> (r: &mut Tab)
        ensures
            *r == old(self).tab,
            final(self).tab == *final(r),
    {
        &mut self.tab
    }

    /// The panes, from first to last.
    pub fn pane_ids(&self) -> (r: Vec<PaneId>)
        ensures
            r@ == leaves(self.tab.nodes),
    {
        self.tab.pane_ids()
    }

    /// The focused pane.
    pub fn focused(&self) -> (r: PaneId)
        ensures
            r == self.tab.focused,
    {
        self.tab.focused
    }

    /// True if `pane` still exists in the layout.
    pub fn contains(&self, pane: PaneId) -> (r: bool)
        ensures
            r == leaves(self.tab.nodes).contains(pane),
    {
        let ids = self.tab.pane_ids();
        list_contains(&ids, pane)
    }

    /// Split the focused pane in two and focus the new one; whether there was a
    /// focused pane to split.
    pub fn split_focused(&mut self, new_id: PaneId, orientation: Orientation) -> (r: bool)
        ensures
            r == leaves(old(self).tab.nodes).contains(old(self).tab.focused),
            !r ==> *final(self) == *old(self),
            r ==> final(self).tab.nodes == split_tree(
                old(self).tab.nodes,
                old(self).tab.focused,
                new_id,
                orientation,
            ),
            r ==> final(self).tab.focused == new_id,
            tab_ok(old(self).tab) && !leaves(old(self).tab.nodes).contains(new_id) ==> tab_ok(
                final(self).tab,
            ),
    {
        let focused = self.tab.focused;
        if !self.contains(focused) {
            return false;
        }
        let ghost start = self.tab;
        self.tab.split(focused, new_id, orientation);
        proof {
            law_split_leaves(start.nodes, focused, new_id, orientation);
            lemma_position(leaves(start.nodes), focused);
            let at = position_of(leaves(start.nodes), focused) as int + 1;
            assert(leaves(self.tab.nodes)[at] == new_id);
        }
        self.tab.focus(new_id);
        true
    }

    /// Close a pane. The last one stays in the layout, which is then of no more
    /// use; otherwise focus moves to the first pane if the closed one had it.
    pub fn close(&mut self, pane: PaneId) -> (r: Closed)
        ensures
            r == (if !leaves(old(self).tab.nodes).contains(pane) {
                Closed::Missing
            } else if leaves(old(self).tab.nodes) == seq![pane] {
                Closed::Last
            } else {
                Closed::Removed
            }),
            r == Closed::Missing ==> *final(self) == *old(self),
            r == Closed::Last ==> final(self).tab.nodes == old(self).tab.nodes
                && final(self).tab.focused == pane,
            r == Closed::Removed ==> remove_tree(old(self).tab.nodes, pane) == Some(
                final(self).tab.nodes,
            ) && final(self).tab.focused == repaired(
                leaves(final(self).tab.nodes),
                old(self).tab.focused,
            ),
            tab_ok(old(self).tab) ==> tab_ok(final(self).tab),
    {
        if !self.contains(pane) {
            return Closed::Missing;
        }
        let ghost start = self.tab;
        if self.tab.remove(pane) {
            self.refresh_focus();
            proof {
                let ids = leaves(start.nodes);
                assert(ids[0] == pane);
                if ids.contains(start.focused) {
                    let i = choose|i: int| 0 <= i < ids.len() && ids[i] == start.focused;
                    assert(ids[i] == seq![pane][i]);
                }
            }
            return Closed::Last;
        }
        proof {
            lemma_leaves_nonempty(self.tab.nodes);
            assert(leaves(self.tab.nodes).contains(leaves(self.tab.nodes)[0]));
        }
        self.refresh_focus();
        Closed::Removed
    }

    /// Repair focus if the focused pane was removed.
    pub fn refresh_focus(&mut self)
        ensures
            final(self).tab.nodes == old(self).tab.nodes,
            final(self).tab.focused == repaired(
                leaves(old(self).tab.nodes),
                old(self).tab.focused,
            ),
    {
        self.tab.focus_something()
    }
}

// ---------------------------------------------------------------------------
// Laws
// ---------------------------------------------------------------------------

/// Splitting a pane puts the new one right behind it and leaves the order of
/// the others alone.
pub proof fn law_split_leaves(
    node: LayoutNode,
    pane: PaneId,
    new_id: PaneId,
    orientation: Orientation,
)
    requires
        leaves(node).contains(pane),
    ensures
        leaves(split_tree(node, pane, new_id, orientation)) == leaves(node).insert(
            position_of(leaves(node), pane) as int + 1,
            new_id,
        ),
    decreases node,
{
    match node {
        LayoutNode::Pane { id } => {
            assert(leaves(node)[0] == id);
            assert(seq![id].insert(1, new_id) =~= seq![id, new_id]);
            reveal_with_fuel(leaves, 3);
            assert(leaves(split_tree(node, pane, new_id, orientation)) =~= seq![id, new_id]);
        },
        LayoutNode::Split(split) => {
            let a = leaves(*split.first);
            let b = leaves(*split.second);
            lemma_split_leaves(split, pane);
            lemma_position_sum(a, b, pane);
            lemma_position(a, pane);
            lemma_position(b, pane);
            if a.contains(pane) {
                law_split_leaves(*split.first, pane, new_id, orientation);
                assert((a + b).insert(position_of(a, pane) as int + 1, new_id) =~= a.insert(
                    position_of(a, pane) as int + 1,
                    new_id,
                ) + b);
            } else {
                law_split_leaves(*split.second, pane, new_id, orientation);
                assert((a + b).insert(a.len() + position_of(b, pane) as int + 1, new_id) =~= a
                    + b.insert(position_of(b, pane) as int + 1, new_id));
            }
        },
    }
}

/// Where a pane first occurs in one list followed by another.
proof fn lemma_position_sum(a: Seq<PaneId>, b: Seq<PaneId>, pane: PaneId)
    ensures
        position_of(a + b, pane) == (if a.contains(pane) {
            position_of(a, pane)
        } else {
            a.len() + position_of(b, pane)
        }),
    decreases a.len(),
{
    if a.len() == 0 {
        assert(a + b =~= b);
    } else {
        assert((a + b)[0] == a[0]);
        if a[0] != pane {
            let rest = a.drop_first();
            lemma_position_sum(rest, b, pane);
            assert((a + b).drop_first() =~= rest + b);
            if a.contains(pane) {
                let i = choose|i: int| 0 <= i < a.len() && a[i] == pane;
                assert(rest[i - 1] == pane);
            }
        }
    }
}

/// A list of panes without the first occurrence of one.
pub open spec fn without(ids: Seq<PaneId>, pane: PaneId) -> Seq<PaneId> {
    if ids.contains(pane) {
        ids.remove(position_of(ids, pane) as int)
    } else {
        ids
    }
}

/// Taking a pane out of one list followed by another.
proof fn lemma_without_sum(a: Seq<PaneId>, b: Seq<PaneId>, pane: PaneId)
    ensures
        without(a + b, pane) == (if a.contains(pane) {
            without(a, pane) + b
        } else {
            a + without(b, pane)
        }),
{
    lemma_position_sum(a, b, pane);
    lemma_position(a, pane);
    lemma_position(b, pane);
    lemma_position(a + b, pane);
    if a.contains(pane) {
        let at = position_of(a, pane) as int;
        assert((a + b)[at] == pane);
        assert((a + b).remove(at) =~= a.remove(at) + b);
    } else if b.contains(pane) {
        let at = position_of(b, pane) as int;
        assert((a + b)[a.len() + at] == pane);
        assert((a + b).remove(a.len() + at) =~= a + b.remove(at));
    } else {
        assert(!(a + b).contains(pane));
    }
}

/// Nothing is left of a list that is one pane once that is taken out.
proof fn lemma_without_single(pane: PaneId)
    ensures
        without(seq![pane], pane) == Seq::<PaneId>::empty(),
{
    assert(seq![pane][0] == pane);
    assert(position_of(seq![pane], pane) == 0);
    assert(seq![pane].remove(0) =~= Seq::empty());
}

/// What removing a pane does to the list of panes.
proof fn lemma_remove_leaves(node: LayoutNode, pane: PaneId)
    ensures
        match remove_tree(node, pane) {
            Some(rest) => leaves(rest) == without(leaves(node), pane),
            None => leaves(node) == seq![pane],
        },
    decreases node,
{
    match node {
        LayoutNode::Pane { id } => {
            assert(leaves(node)[0] == id);
            if id != pane {
                assert(!leaves(node).contains(pane));
            }
        },
        LayoutNode::Split(split) => {
            let a = leaves(*split.first);
            let b = leaves(*split.second);
            lemma_without_sum(a, b, pane);
            if a.contains(pane) {
                lemma_remove_leaves(*split.first, pane);
                if remove_tree(*split.first, pane) is None {
                    lemma_without_single(pane);
                    assert(Seq::<PaneId>::empty() + b =~= b);
                }
            } else {
                lemma_remove_leaves(*split.second, pane);
                if remove_tree(*split.second, pane) is None {
                    lemma_without_single(pane);
                    assert(a + Seq::<PaneId>::empty() =~= a);
                }
            }
        },
    }
}

/// Removing a pane keeps the ratios in order.
proof fn lemma_remove_ratios(node: LayoutNode, pane: PaneId)
    requires
        ratios_ok(node),
    ensures
        remove_tree(node, pane) matches Some(rest) ==> ratios_ok(rest),
    decreases node,
{
    if let LayoutNode::Split(split) = node {
        lemma_remove_ratios(*split.first, pane);
        lemma_remove_ratios(*split.second, pane);
    }
}

/// Removing a pane takes it out of the list of panes, and nothing else: no other
/// pane is lost and the order stays.
pub proof fn law_remove_leaves(node: LayoutNode, pane: PaneId)
    requires
        leaves(node).contains(pane),
    ensures
        match remove_tree(node, pane) {
            Some(rest) => leaves(rest) == leaves(node).remove(
                position_of(leaves(node), pane) as int,
            ),
            None => leaves(node) == seq![pane],
        },
{
    lemma_remove_leaves(node, pane);
}

/// Removing a pane undoes the split that made it.
pub proof fn law_remove_undoes_split(
    node: LayoutNode,
    pane: PaneId,
    new_id: PaneId,
    orientation: Orientation,
)
    requires
        leaves(node).contains(pane),
        !leaves(node).contains(new_id),
    ensures
        remove_tree(split_tree(node, pane, new_id, orientation), new_id) == Some(node),
    decreases node,
{
    law_split_leaves(node, pane, new_id, orientation);
    lemma_position(leaves(node), pane);
    match node {
        LayoutNode::Pane { id } => {
            assert(leaves(node)[0] == id);
            let first = LayoutNode::Pane { id: pane };
            assert(leaves(first) =~= seq![pane]);
            assert(pane != new_id);
            reveal_with_fuel(remove_tree, 3);
        },
        LayoutNode::Split(split) => {
            lemma_split_leaves(split, pane);
            lemma_split_leaves(split, new_id);
            let a = leaves(*split.first);
            if a.contains(pane) {
                law_remove_undoes_split(*split.first, pane, new_id, orientation);
                let first = split_tree(*split.first, pane, new_id, orientation);
                law_split_leaves(*split.first, pane, new_id, orientation);
                lemma_position(a, pane);
                assert(leaves(first)[position_of(a, pane) as int + 1] == new_id);
                assert(leaves(first).contains(new_id));
            } else {
                law_remove_undoes_split(*split.second, pane, new_id, orientation);
            }
        },
    }
}

/// Splitting keeps a tab in order, if the number of the new pane is not taken.
pub proof fn law_split_keeps_tab_ok(
    tab: Tab,
    pane: PaneId,
    new_id: PaneId,
    orientation: Orientation,
)
    requires
        tab_ok(tab),
        !leaves(tab.nodes).contains(new_id),
    ensures
        tab_ok(Tab { nodes: split_tree(tab.nodes, pane, new_id, orientation), ..tab }),
{
    let ids = leaves(tab.nodes);
    lemma_split_ratios(tab.nodes, pane, new_id, orientation);
    if ids.contains(pane) {
        law_split_leaves(tab.nodes, pane, new_id, orientation);
        lemma_position(ids, pane);
        let at = position_of(ids, pane) as int + 1;
        let after = ids.insert(at, new_id);
        let i = choose|i: int| 0 <= i < ids.len() && ids[i] == tab.focused;
        assert(after[if i < at {
            i
        } else {
            i + 1
        }] == tab.focused);
        assert forall|x: int, y: int|
            0 <= x < after.len() && 0 <= y < after.len() && x != y implies after[x] != after[y] by {
            let u = if x < at {
                x
            } else {
                x - 1
            };
            let v = if y < at {
                y
            } else {
                y - 1
            };
            if x != at {
                assert(after[x] == ids[u]);
            }
            if y != at {
                assert(after[y] == ids[v]);
            }
        }
    } else {
        lemma_split_absent(tab.nodes, pane, new_id, orientation);
    }
}

/// Splitting keeps the ratios in order.
proof fn lemma_split_ratios(
    node: LayoutNode,
    pane: PaneId,
    new_id: PaneId,
    orientation: Orientation,
)
    requires
        ratios_ok(node),
    ensures
        ratios_ok(split_tree(node, pane, new_id, orientation)),
    decreases node,
{
    reveal_with_fuel(ratios_ok, 3);
    if let LayoutNode::Split(split) = node {
        lemma_split_ratios(*split.first, pane, new_id, orientation);
        lemma_split_ratios(*split.second, pane, new_id, orientation);
    }
}

/// Removing a pane keeps a tab in order.
pub proof fn law_remove_keeps_tab_ok(tab: Tab, pane: PaneId)
    requires
        tab_ok(tab),
    ensures
        remove_tree(tab.nodes, pane) matches Some(rest) ==> tab_ok(
            Tab { nodes: rest, focused: repaired(leaves(rest), tab.focused) },
        ),
{
    lemma_remove_leaves(tab.nodes, pane);
    lemma_remove_ratios(tab.nodes, pane);
    lemma_position(leaves(tab.nodes), pane);
    if let Some(rest) = remove_tree(tab.nodes, pane) {
        lemma_leaves_nonempty(rest);
        assert(leaves(rest).contains(leaves(rest)[0]));
        let ids = leaves(tab.nodes);
        if ids.contains(pane) {
            let at = position_of(ids, pane) as int;
            let after = ids.remove(at);
            assert forall|x: int, y: int|
                0 <= x < after.len() && 0 <= y < after.len() && x != y implies after[x]
                != after[y] by {
                assert(after[x] == ids[if x < at {
                    x
                } else {
                    x + 1
                }]);
                assert(after[y] == ids[if y < at {
                    y
                } else {
                    y + 1
                }]);
            }
        }
    }
}

/// A pane number that was just given out is not taken, and splitting with it
/// leaves every pane numbered before the next one.
pub proof fn law_new_panes_are_new(
    node: LayoutNode,
    pane: PaneId,
    ids: PaneIds,
    orientation: Orientation,
)
    requires
        numbered_below(node, ids.next),
        ids.next < usize::MAX,
        leaves(node).contains(pane),
    ensures
        !leaves(node).contains(ids.next),
        numbered_below(
            split_tree(node, pane, ids.next, orientation),
            (ids.next + 1) as usize,
        ),
{
    law_split_leaves(node, pane, ids.next, orientation);
    lemma_position(leaves(node), pane);
    let before = leaves(node);
    let at = position_of(before, pane) as int + 1;
    let after = leaves(split_tree(node, pane, ids.next, orientation));
    assert forall|i: int| 0 <= i < after.len() implies #[trigger] after[i] < (ids.next
        + 1) as usize by {
        if i < at {
            assert(after[i] == before[i]);
        } else if i > at {
            assert(after[i] == before[i - 1]);
        }
    }
}

/// Where no pane occurs twice, a pane is where it stands.
proof fn lemma_position_unique(ids: Seq<PaneId>, i: int)
    requires
        ids.no_duplicates(),
        0 <= i < ids.len(),
    ensures
        position_of(ids, ids[i]) == i,
{
    lemma_position(ids, ids[i]);
    assert(ids.contains(ids[i]));
}

/// Going to the next pane and back, around the ends, leads to where one was.
pub proof fn law_prev_undoes_next(ids: Seq<PaneId>, focused: PaneId)
    requires
        ids.no_duplicates(),
        ids.contains(focused),
    ensures
        prev_of(ids, next_of(ids, focused, true), true) == focused,
        next_of(ids, prev_of(ids, focused, true), true) == focused,
{
    lemma_position(ids, focused);
    let at = position_of(ids, focused) as int;
    if ids.len() >= 2 {
        let next = if at + 1 < ids.len() {
            at + 1
        } else {
            0
        };
        let prev = if at > 0 {
            at - 1
        } else {
            ids.len() - 1
        };
        lemma_position_unique(ids, next);
        lemma_position_unique(ids, prev);
    }
}

/// How many of the rectangles have a point.
pub open spec fn hits(rects: Seq<(PaneId, Rect)>, px: int, py: int) -> nat
    decreases rects.len(),
{
    if rects.len() == 0 {
        0
    } else {
        hits(rects.drop_last(), px, py) + (if rects.last().1.has(px, py) {
            1nat
        } else {
            0
        })
    }
}

/// Points are counted list by list.
proof fn lemma_hits_sum(a: Seq<(PaneId, Rect)>, b: Seq<(PaneId, Rect)>, px: int, py: int)
    ensures
        hits(a + b, px, py) == hits(a, px, py) + hits(b, px, py),
    decreases b.len(),
{
    if b.len() == 0 {
        assert(a + b =~= a);
    } else {
        lemma_hits_sum(a, b.drop_last(), px, py);
        assert((a + b).drop_last() =~= a + b.drop_last());
    }
}

/// The panes of a tab tile its area: every point of the area lies in exactly one
/// of them, and no other point in any.
pub proof fn law_panes_tile_area(node: LayoutNode, area: Rect, px: int, py: int)
    requires
        ratios_ok(node),
        area.fits(),
    ensures
        hits(tree_rects(node, area), px, py) == (if area.has(px, py) {
            1nat
        } else {
            0
        }),
    decreases node,
{
    match node {
        LayoutNode::Pane { id } => {
            reveal_with_fuel(hits, 2);
            assert(tree_rects(node, area).drop_last() =~= Seq::empty());
        },
        LayoutNode::Split(split) => {
            lemma_part(area.w, split.ratio);
            lemma_part(area.h, split.ratio);
            let (a, b) = halves(split.orientation, split.ratio, area);
            law_panes_tile_area(*split.first, a, px, py);
            law_panes_tile_area(*split.second, b, px, py);
            lemma_hits_sum(tree_rects(*split.first, a), tree_rects(*split.second, b), px, py);
        },
    }
}

/// Every pane has one rectangle, in the order of the panes, inside the area.
pub proof fn law_rects_follow_panes(node: LayoutNode, area: Rect)
    requires
        ratios_ok(node),
        area.fits(),
    ensures
        tree_rects(node, area).len() == leaves(node).len(),
        forall|i: int|
            0 <= i < leaves(node).len() ==> (#[trigger] tree_rects(node, area)[i]).0 == leaves(
                node,
            )[i] && within(tree_rects(node, area)[i].1, area),
{
    lemma_rects(node, area);
}

/// Focus moves by direction to a pane that lies there, and to none that is
/// further away than another; it stays only where no pane lies there.
pub proof fn law_focus_moves_to_nearest(
    rects: Seq<(PaneId, Rect)>,
    focused: PaneId,
    from: Rect,
    dir: Direction,
)
    ensures
        match nearest(rects, focused, from, dir) {
            Some((d, id)) => {
                &&& exists|i: int|
                    0 <= i < rects.len() && (#[trigger] rects[i]).0 == id && id != focused && lies(
                        dir,
                        from,
                        rects[i].1,
                    ) && distance(from, rects[i].1) == d
                &&& forall|i: int|
                    0 <= i < rects.len() && (#[trigger] rects[i]).0 != focused && lies(
                        dir,
                        from,
                        rects[i].1,
                    ) ==> d <= distance(from, rects[i].1)
            },
            None => forall|i: int|
                0 <= i < rects.len() && (#[trigger] rects[i]).0 != focused ==> !lies(
                    dir,
                    from,
                    rects[i].1,
                ),
        },
    decreases rects.len(),
{
    if rects.len() > 0 {
        let front = rects.drop_last();
        law_focus_moves_to_nearest(front, focused, from, dir);
        let n = rects.len() - 1;
        assert(rects.last() == rects[n]);
        assert(forall|i: int| 0 <= i < n ==> #[trigger] front[i] == rects[i]);
        assert(forall|i: int| 0 <= i < n ==> #[trigger] rects[i] == front[i]);
        if let Some((d, id)) = nearest(front, focused, from, dir) {
            let w = choose|i: int|
                0 <= i < front.len() && (#[trigger] front[i]).0 == id && id != focused && lies(
                    dir,
                    from,
                    front[i].1,
                ) && distance(from, front[i].1) == d;
            assert(rects[w] == front[w]);
        }
    }
}

/// The first part of a split starts where the area does and has `ratio` 65536ths
/// of its length, cut to whole units; the second part starts where the first
/// ends and has the rest. The length across the split stays whole.
pub proof fn law_split_parts(orientation: Orientation, ratio: u32, area: Rect)
    requires
        ratio <= 65536,
        area.fits(),
    ensures
        ({
            let (a, b) = halves(orientation, ratio, area);
            &&& a.x == area.x && a.y == area.y
            &&& orientation == Orientation::Horizontal ==> {
                &&& a.w * 65536 <= area.w * ratio < (a.w + 1) * 65536
                &&& b.x == a.x + a.w && a.w + b.w == area.w
                &&& b.y == area.y && a.h == area.h && b.h == area.h
            }
            &&& orientation == Orientation::Vertical ==> {
                &&& a.h * 65536 <= area.h * ratio < (a.h + 1) * 65536
                &&& b.y == a.y + a.h && a.h + b.h == area.h
                &&& b.x == area.x && a.w == area.w && b.w == area.w
            }
        }),
{
    lemma_part(area.w, ratio);
    lemma_part(area.h, ratio);
}

/// A rectangle with its axes exchanged.
pub open spec fn transposed(r: Rect) -> Rect {
    Rect { x: r.y, y: r.x, w: r.h, h: r.w }
}

/// A vertical split does along one axis what a horizontal one does along the
/// other, and so do the dividers.
pub proof fn law_orientations_mirror(ratio: u32, area: Rect)
    ensures
        halves(Orientation::Vertical, ratio, transposed(area)).0 == transposed(
            halves(Orientation::Horizontal, ratio, area).0,
        ),
        halves(Orientation::Vertical, ratio, transposed(area)).1 == transposed(
            halves(Orientation::Horizontal, ratio, area).1,
        ),
        divider(Orientation::Vertical, ratio, transposed(area)) == transposed(
            divider(Orientation::Horizontal, ratio, area),
        ),
{
}

/// The two rectangles that a pane's area is cut into by splitting the pane.
pub open spec fn cut_in_two(orientation: Orientation, r: Rect, a: Rect, b: Rect) -> bool {
    match orientation {
        Orientation::Horizontal => {
            &&& a == (Rect { x: r.x, y: r.y, w: r.w / 2, h: r.h })
            &&& b.x == r.x + r.w / 2 && b.y == r.y && b.w == r.w - r.w / 2 && b.h == r.h
        },
        Orientation::Vertical => {
            &&& a == (Rect { x: r.x, y: r.y, w: r.w, h: r.h / 2 })
            &&& b.y == r.y + r.h / 2 && b.x == r.x && b.h == r.h - r.h / 2 && b.w == r.w
        },
    }
}

/// Splitting a pane leaves it the left or upper half of its rectangle and gives
/// the new pane the rest; every other pane keeps its rectangle.
pub proof fn law_split_halves_the_pane(
    node: LayoutNode,
    pane: PaneId,
    new_id: PaneId,
    orientation: Orientation,
    area: Rect,
)
    requires
        ratios_ok(node),
        area.fits(),
        leaves(node).contains(pane),
    ensures
        ({
            let before = tree_rects(node, area);
            let after = tree_rects(split_tree(node, pane, new_id, orientation), area);
            let at = position_of(leaves(node), pane) as int;
            &&& before.len() == leaves(node).len()
            &&& at < before.len()
            &&& after.len() == before.len() + 1
            &&& after[at].0 == pane && after[at + 1].0 == new_id
            &&& cut_in_two(orientation, before[at].1, after[at].1, after[at + 1].1)
            &&& forall|i: int| 0 <= i < at ==> #[trigger] after[i] == before[i]
            &&& forall|i: int| at + 1 < i < after.len() ==> #[trigger] after[i] == before[i - 1]
        }),
    decreases node,
{
    lemma_rects(node, area);
    lemma_position(leaves(node), pane);
    let at = position_of(leaves(node), pane) as int;
    let before = tree_rects(node, area);
    let after = tree_rects(split_tree(node, pane, new_id, orientation), area);
    match node {
        LayoutNode::Pane { id } => {
            assert(leaves(node)[0] == id);
            law_split_parts(orientation, HALF, area);
            reveal_with_fuel(tree_rects, 3);
            let (a, b) = halves(orientation, HALF, area);
            assert(after =~= seq![(pane, a), (new_id, b)]);
            assert(before =~= seq![(pane, area)]);
        },
        LayoutNode::Split(split) => {
            lemma_part(area.w, split.ratio);
            lemma_part(area.h, split.ratio);
            let (a, b) = halves(split.orientation, split.ratio, area);
            let x = leaves(*split.first);
            let y = leaves(*split.second);
            lemma_split_leaves(split, pane);
            lemma_position_sum(x, y, pane);
            lemma_position(x, pane);
            lemma_position(y, pane);
            lemma_rects(*split.first, a);
            lemma_rects(*split.second, b);
            let p = tree_rects(*split.first, a);
            let q = tree_rects(*split.second, b);
            assert(before == p + q);
            if x.contains(pane) {
                law_split_halves_the_pane(*split.first, pane, new_id, orientation, a);
                let p2 = tree_rects(split_tree(*split.first, pane, new_id, orientation), a);
                assert(after == p2 + q);
                assert forall|i: int| 0 <= i < at implies #[trigger] after[i] == before[i] by {
                    assert(p2[i] == p[i]);
                }
                assert forall|i: int| at + 1 < i < after.len() implies #[trigger] after[i]
                    == before[i - 1] by {
                    if i < p2.len() {
                        assert(p2[i] == p[i - 1]);
                    }
                }
                assert(before[at] == p[at]);
            } else {
                law_split_halves_the_pane(*split.second, pane, new_id, orientation, b);
                let q2 = tree_rects(split_tree(*split.second, pane, new_id, orientation), b);
                assert(after == p + q2);
                let k = at - p.len();
                assert forall|i: int| 0 <= i < at implies #[trigger] after[i] == before[i] by {
                    if i >= p.len() {
                        assert(q2[i - p.len()] == q[i - p.len()]);
                    }
                }
                assert forall|i: int| at + 1 < i < after.len() implies #[trigger] after[i]
                    == before[i - 1] by {
                    assert(q2[i - p.len()] == q[i - p.len() - 1]);
                }
                assert(before[at] == q[k]);
                assert(after[at] == q2[k]);
                assert(after[at + 1] == q2[k + 1]);
            }
        },
    }
}

/// The first pane of a tree starts where its area does.
proof fn lemma_first_corner(node: LayoutNode, area: Rect)
    ensures
        tree_rects(node, area).len() > 0,
        tree_rects(node, area)[0].1.x == area.x,
        tree_rects(node, area)[0].1.y == area.y,
    decreases node,
{
    if let LayoutNode::Split(split) = node {
        let (a, b) = halves(split.orientation, split.ratio, area);
        lemma_first_corner(*split.first, a);
    }
}

/// There is one border fewer than panes. That of a split comes first, is one
/// pixel thick, runs across the whole area and starts where the first pane of the
/// second half does; behind it come the borders of the two halves.
pub proof fn law_borders_stand_between_panes(node: LayoutNode, area: Rect)
    requires
        ratios_ok(node),
        area.fits(),
    ensures
        tree_borders(node, area).len() + 1 == leaves(node).len(),
        node matches LayoutNode::Split(split) ==> {
            let border = tree_borders(node, area)[0];
            let second = tree_rects(node, area)[leaves(*split.first).len() as int].1;
            let (a, b) = halves(split.orientation, split.ratio, area);
            &&& split.orientation == Orientation::Horizontal ==> border == (Rect {
                x: second.x,
                y: area.y,
                w: 65536,
                h: area.h,
            })
            &&& split.orientation == Orientation::Vertical ==> border == (Rect {
                x: area.x,
                y: second.y,
                w: area.w,
                h: 65536,
            })
            &&& tree_borders(node, area).skip(1) == tree_borders(*split.first, a) + tree_borders(
                *split.second,
                b,
            )
        },
    decreases node,
{
    if let LayoutNode::Split(split) = node {
        lemma_part(area.w, split.ratio);
        lemma_part(area.h, split.ratio);
        let (a, b) = halves(split.orientation, split.ratio, area);
        law_borders_stand_between_panes(*split.first, a);
        law_borders_stand_between_panes(*split.second, b);
        lemma_rects(*split.first, a);
        lemma_first_corner(*split.second, b);
        assert(tree_rects(node, area)[leaves(*split.first).len() as int] == tree_rects(
            *split.second,
            b,
        )[0]);
        assert(tree_borders(node, area).skip(1) =~= tree_borders(*split.first, a) + tree_borders(
            *split.second,
            b,
        ));
    }
}

/// What lies up of a pane has it down of itself, what lies to its left has it to
/// its right; and exchanging the axes exchanges up with left.
pub proof fn law_directions_are_opposite(from: Rect, to: Rect)
    ensures
        lies(Direction::Up, from, to) == lies(Direction::Down, to, from),
        lies(Direction::Left, from, to) == lies(Direction::Right, to, from),
        lies(Direction::Up, from, to) == lies(
            Direction::Left,
            transposed(from),
            transposed(to),
        ),
        !(lies(Direction::Up, from, to) && lies(Direction::Down, from, to)),
        !(lies(Direction::Left, from, to) && lies(Direction::Right, from, to)),
{
}

/// A pane lies up of another exactly where its middle is higher, by no less than
/// it is off to the side, give or take a pixel.
pub proof fn law_up_is_higher(from: Rect, to: Rect)
    ensures
        ({
            let rise = (from.y + from.h / 2) - (to.y + to.h / 2);
            let off = (from.x + from.w / 2) - (to.x + to.w / 2);
            lies(Direction::Up, from, to) <==> rise > 0 && off <= rise + 65536 && -off <= rise
                + 65536
        }),
{
}

/// Distances are those between the middles: their square is the sum of the
/// squares of the two offsets, whichever way one looks.
pub proof fn law_distance_is_between_middles(from: Rect, to: Rect)
    ensures
        ({
            let across = (from.x + from.w / 2) - (to.x + to.w / 2);
            let down = (from.y + from.h / 2) - (to.y + to.h / 2);
            distance(from, to) == across * across + down * down
        }),
        distance(from, to) == distance(to, from),
        distance(from, to) == distance(transposed(from), transposed(to)),
{
    let across = (from.x + from.w / 2) - (to.x + to.w / 2);
    let down = (from.y + from.h / 2) - (to.y + to.h / 2);
    assert((-across) * (-across) == across * across) by (nonlinear_arith);
    assert((-down) * (-down) == down * down) by (nonlinear_arith);
    assert(middle(to).0 - middle(from).0 == -across);
    assert(middle(to).1 - middle(from).1 == -down);
}

/// Of panes that are as near, focus moves to the first.
proof fn lemma_first_of_nearest(
    rects: Seq<(PaneId, Rect)>,
    focused: PaneId,
    from: Rect,
    dir: Direction,
) -> (at: int)
    requires
        nearest(rects, focused, from, dir) is Some,
    ensures
        0 <= at < rects.len(),
        nearest(rects, focused, from, dir) == Some((distance(from, rects[at].1), rects[at].0)),
        rects[at].0 != focused,
        lies(dir, from, rects[at].1),
        forall|i: int|
            0 <= i < rects.len() && (#[trigger] rects[i]).0 != focused && lies(
                dir,
                from,
                rects[i].1,
            ) ==> distance(from, rects[at].1) <= distance(from, rects[i].1) && (i < at
                ==> distance(from, rects[at].1) < distance(from, rects[i].1)),
    decreases rects.len(),
{
    let front = rects.drop_last();
    let n = rects.len() - 1;
    assert(rects.last() == rects[n]);
    assert(forall|i: int| 0 <= i < n ==> #[trigger] rects[i] == front[i]);
    law_focus_moves_to_nearest(front, focused, from, dir);
    assert(forall|i: int| 0 <= i < n ==> #[trigger] front[i] == rects[i]);
    if nearest(front, focused, from, dir) is Some {
        let at = lemma_first_of_nearest(front, focused, from, dir);
        if nearest(rects, focused, from, dir) == nearest(front, focused, from, dir) {
            at
        } else {
            n
        }
    } else {
        n
    }
}

/// Focus moves by direction from the middle of the focused pane to that of the
/// nearest other pane on that side, the first of several as near, and stays where
/// no pane lies there.
pub proof fn law_focus_goes_to_neighbour(node: LayoutNode, at: int, dir: Direction)
    requires
        ratios_ok(node),
        leaves(node).no_duplicates(),
        0 <= at < leaves(node).len(),
    ensures
        ({
            let side = 0x1000_0000_0000_0000u64;
            let rects = tree_rects(node, Rect { x: 0, y: 0, w: side, h: side });
            let from = rects[at].1;
            let to = focus_toward(node, leaves(node)[at], dir);
            ||| to == leaves(node)[at] && forall|i: int|
                0 <= i < rects.len() && i != at ==> !lies(dir, from, (#[trigger] rects[i]).1)
            ||| exists|k: int|
                {
                    &&& 0 <= k < rects.len() && k != at
                    &&& (#[trigger] rects[k]).0 == to
                    &&& lies(dir, from, rects[k].1)
                    &&& forall|i: int|
                        0 <= i < rects.len() && i != at && lies(
                            dir,
                            from,
                            (#[trigger] rects[i]).1,
                        ) ==> distance(from, rects[k].1) <= distance(from, rects[i].1) && (i < k
                            ==> distance(from, rects[k].1) < distance(from, rects[i].1))
                }
        }),
{
    let rects = tree_rects(node, field());
    let ids = leaves(node);
    let focused = ids[at];
    lemma_rects(node, field());
    lemma_position_unique(ids, at);
    let from = rects[at].1;
    assert forall|i: int| 0 <= i < rects.len() implies ((#[trigger] rects[i]).0 == focused
        <==> i == at) by {
        assert(rects[i].0 == ids[i]);
    }
    law_focus_moves_to_nearest(rects, focused, from, dir);
    if nearest(rects, focused, from, dir) is Some {
        let k = lemma_first_of_nearest(rects, focused, from, dir);
        assert(rects[k].0 == focus_toward(node, focused, dir));
    }
}

/// The next pane is the one behind, the previous one that before; around the ends
/// where focus wraps, and otherwise no further than the ends.
pub proof fn law_focus_steps_through_panes(ids: Seq<PaneId>, at: int)
    requires
        ids.no_duplicates(),
        0 <= at < ids.len(),
    ensures
        next_of(ids, ids.last(), true) == ids[0],
        prev_of(ids, ids[0], true) == ids.last(),
        at + 1 < ids.len() ==> next_of(ids, ids[at], true) == ids[at + 1] && prev_of(
            ids,
            ids[at + 1],
            true,
        ) == ids[at],
        at + 1 < ids.len() ==> next_of(ids, ids[at], false) == ids[at + 1] && prev_of(
            ids,
            ids[at + 1],
            false,
        ) == ids[at],
        next_of(ids, ids.last(), false) == ids.last(),
        prev_of(ids, ids[0], false) == ids[0],
{
    let n = ids.len() as int;
    lemma_position_unique(ids, at);
    if at + 1 < n {
        lemma_position_unique(ids, at + 1);
    }
    lemma_position_unique(ids, 0);
    lemma_position_unique(ids, n - 1);
}

/// Focus that has been lost counts from the first pane, and is repaired to it;
/// focus that has not been lost stays.
pub proof fn law_lost_focus_starts_over(ids: Seq<PaneId>, focused: PaneId)
    requires
        ids.no_duplicates(),
        ids.len() >= 2,
    ensures
        !ids.contains(focused) ==> repaired(ids, focused) == ids[0],
        ids.contains(focused) ==> repaired(ids, focused) == focused,
        !ids.contains(focused) ==> next_of(ids, focused, true) == ids[1],
        !ids.contains(focused) ==> prev_of(ids, focused, true) == ids.last(),
{
    lemma_position(ids, focused);
}

/// Removing a pane that was split leaves its place to the pane that the split
/// made: every rectangle is as it was before the split.
pub proof fn law_sibling_takes_over(
    node: LayoutNode,
    pane: PaneId,
    new_id: PaneId,
    orientation: Orientation,
    area: Rect,
)
    requires
        leaves(node).no_duplicates(),
        leaves(node).contains(pane),
        !leaves(node).contains(new_id),
    ensures
        remove_tree(split_tree(node, pane, new_id, orientation), pane) matches Some(rest) && {
            let before = tree_rects(node, area);
            let after = tree_rects(rest, area);
            &&& after.len() == before.len()
            &&& forall|i: int|
                0 <= i < after.len() ==> (#[trigger] after[i]).1 == before[i].1 && after[i].0 == (
                if before[i].0 == pane {
                    new_id
                } else {
                    before[i].0
                })
        },
    decreases node,
{
    law_split_leaves(node, pane, new_id, orientation);
    lemma_position(leaves(node), pane);
    match node {
        LayoutNode::Pane { id } => {
            assert(leaves(node)[0] == id);
            let first = LayoutNode::Pane { id: pane };
            assert(leaves(first) =~= seq![pane]);
            assert(leaves(first)[0] == pane);
            reveal_with_fuel(remove_tree, 3);
            reveal_with_fuel(tree_rects, 2);
        },
        LayoutNode::Split(split) => {
            lemma_split_leaves(split, pane);
            lemma_split_leaves(split, new_id);
            let x = leaves(*split.first);
            let y = leaves(*split.second);
            let (a, b) = halves(split.orientation, split.ratio, area);
            let all = x + y;
            assert(x.no_duplicates()) by {
                assert forall|i: int, j: int|
                    0 <= i < x.len() && 0 <= j < x.len() && i != j implies x[i] != x[j] by {
                    assert(all[i] == x[i]);
                    assert(all[j] == x[j]);
                }
            }
            assert(y.no_duplicates()) by {
                assert forall|i: int, j: int|
                    0 <= i < y.len() && 0 <= j < y.len() && i != j implies y[i] != y[j] by {
                    assert(all[x.len() + i] == y[i]);
                    assert(all[x.len() + j] == y[j]);
                }
            }
            assert(!(x.contains(pane) && y.contains(pane))) by {
                if x.contains(pane) && y.contains(pane) {
                    let i = choose|i: int| 0 <= i < x.len() && x[i] == pane;
                    let j = choose|j: int| 0 <= j < y.len() && y[j] == pane;
                    assert(all[i] == pane && all[x.len() + j] == pane);
                }
            }
            lemma_pane_numbers(*split.first, a);
            lemma_pane_numbers(*split.second, b);
            let p = tree_rects(*split.first, a);
            let q = tree_rects(*split.second, b);
            if x.contains(pane) {
                law_sibling_takes_over(*split.first, pane, new_id, orientation, a);
                let first = split_tree(*split.first, pane, new_id, orientation);
                law_split_leaves(*split.first, pane, new_id, orientation);
                lemma_position(x, pane);
                assert(leaves(first)[position_of(x, pane) as int] == pane);
                assert(leaves(first).contains(pane));
                let rest = remove_tree(split_tree(node, pane, new_id, orientation), pane)->0;
                let p2 = tree_rects(remove_tree(first, pane)->0, a);
                assert(tree_rects(rest, area) == p2 + q);
                assert forall|i: int| 0 <= i < q.len() implies (#[trigger] q[i]).0 != pane by {
                    assert(y[i] == q[i].0);
                    assert(y.contains(y[i]));
                }
            } else {
                law_sibling_takes_over(*split.second, pane, new_id, orientation, b);
                let second = split_tree(*split.second, pane, new_id, orientation);
                let rest = remove_tree(split_tree(node, pane, new_id, orientation), pane)->0;
                let q2 = tree_rects(remove_tree(second, pane)->0, b);
                assert(tree_rects(rest, area) == p + q2);
                assert forall|i: int| 0 <= i < p.len() implies (#[trigger] p[i]).0 != pane by {
                    assert(x[i] == p[i].0);
                    assert(x.contains(x[i]));
                }
            }
        },
    }
}

/// The rectangles of a tree belong to its panes, in their order.
proof fn lemma_pane_numbers(node: LayoutNode, area: Rect)
    ensures
        tree_rects(node, area).len() == leaves(node).len(),
        forall|i: int|
            0 <= i < leaves(node).len() ==> (#[trigger] tree_rects(node, area)[i]).0 == leaves(
                node,
            )[i],
    decreases node,
{
    if let LayoutNode::Split(split) = node {
        let (a, b) = halves(split.orientation, split.ratio, area);
        lemma_pane_numbers(*split.first, a);
        lemma_pane_numbers(*split.second, b);
        let x = tree_rects(*split.first, a);
        let y = tree_rects(*split.second, b);
        assert forall|i: int| 0 <= i < leaves(node).len() implies (#[trigger] tree_rects(
            node,
            area,
        )[i]).0 == leaves(node)[i] by {
            if i < x.len() {
                assert(tree_rects(node, area)[i] == x[i]);
            } else {
                assert(tree_rects(node, area)[i] == y[i - x.len()]);
            }
        }
    }
}

} // verus!
