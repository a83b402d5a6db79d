use vstd::prelude::*;

verus! {

/// Most tabs one session may hold.
pub const MAX_TABS: usize = 32;

/// Most panes one tab may hold.
pub const MAX_PANES_PER_TAB: usize = 16;

/// Most concurrent sessions one user may run.
pub const MAX_SESSIONS_PER_USER: usize = 32;

/// Identifier of a pane; unique within its session and never reused.
#[derive(Clone, Copy, Debug, PartialEq, Eq, Hash, PartialOrd, Ord, Structural)]
pub struct PaneId(u32);

impl PaneId {
    /// The number behind the identifier.
    pub closed spec fn value(self) -> u32 {
        self.0
    }

    pub fn get(self) -> (r: u32)
        ensures
            r == self.value(),
    {
        self.0
    }
}

/// Two identifiers are equal exactly when their numbers are.
pub proof fn lemma_pane_id_value_injective(a: PaneId, b: PaneId)
    ensures
        a.value() == b.value() <==> a == b,
{
}

#[derive(Clone, Copy, Debug, PartialEq, Eq, Structural)]
pub enum Split {
    LeftRight,
    TopBottom,
}

#[derive(Clone, Copy, Debug, PartialEq, Eq, Structural)]
pub enum Direction {
    Left,
    Right,
    Up,
    Down,
}

#[derive(Clone, Copy, Debug, PartialEq, Eq, Structural)]
pub struct Size {
    pub columns: u16,
    pub rows: u16,
}

#[derive(Clone, Copy, Debug, PartialEq, Eq, Structural)]
pub struct Rect {
    pub x: u16,
    pub y: u16,
    pub width: u16,
    pub height: u16,
}

#[derive(Clone, Copy, Debug, PartialEq, Eq, Structural)]
pub enum StateError {
    TabLimit,
    PaneLimit,
    TooSmall,
    NoAdjacentPane,
    CannotResize,
    EmptySession,
}

#[derive(Clone, Copy, Debug, PartialEq, Eq, Structural)]
pub enum CloseResult {
    PaneClosed,
    TabClosed,
    SessionEmpty,
}

#[derive(Clone, Copy, Debug, PartialEq, Eq, Structural)]
pub enum ResizeResult {
    Moved,
    Blocked,
    NotFound,
}

// ---------------------------------------------------------------------------
// Arithmetic on cell coordinates.
pub open spec fn sat_add16(a: u16, b: u16) -> u16 {
    if a + b > u16::MAX {
        u16::MAX
    } else {
        (a + b) as u16
    }
}

pub open spec fn sat_sub16(a: u16, b: u16) -> u16 {
    if a < b {
        0
    } else {
        (a - b) as u16
    }
}

pub open spec fn max16(a: u16, b: u16) -> u16 {
    if a >= b {
        a
    } else {
        b
    }
}

pub open spec fn min16(a: u16, b: u16) -> u16 {
    if a <= b {
        a
    } else {
        b
    }
}

fn saturating_add16(a: u16, b: u16) -> (r: u16)
    ensures
        r == sat_add16(a, b),
{
    if a > u16::MAX - b {
        u16::MAX
    } else {
        a + b
    }
}

pub open spec fn full_rect_spec(size: Size) -> Rect {
    Rect { x: 0, y: 0, width: size.columns, height: size.rows }
}

fn full_rect(size: Size) -> (r: Rect)
    ensures
        r == full_rect_spec(size),
{
    Rect { x: 0, y: 0, width: size.columns, height: size.rows }
}

/// How a length is shared between two children separated by a one-cell divider.
pub open spec fn split_lengths_spec(total: u16, offset: i32, first_min: u16, second_min: u16) -> (
    u16,
    u16,
) {
    if total < 2 {
        (total, 0)
    } else {
        let usable = (total - 1) as u16;
        let low = min16(first_min, usable);
        let high = max16(sat_sub16(usable, second_min), low);
        let wanted = usable / 2 + offset;
        let first: u16 = if wanted < low {
            low
        } else if wanted > high {
            high
        } else {
            wanted as u16
        };
        (first, (usable - first) as u16)
    }
}

fn split_lengths(total: u16, offset: i32, first_min: u16, second_min: u16) -> (r: (u16, u16))
    ensures
        r == split_lengths_spec(total, offset, first_min, second_min),
{
    if total < 2 {
        return (total, 0);
    }
    let usable = total - 1;
    let low = if first_min <= usable {
        first_min
    } else {
        usable
    };
    let rest = if usable < second_min {
        0
    } else {
        usable - second_min
    };
    let high = if rest >= low {
        rest
    } else {
        low
    };
    let wanted: i64 = (usable / 2) as i64 + offset as i64;
    let first: u16 = if wanted < low as i64 {
        low
    } else if wanted > high as i64 {
        high
    } else {
        wanted as u16
    };
    (first, usable - first)
}

// ---------------------------------------------------------------------------
// Pane layout trees.
/// The arrangement of the panes of one tab: a binary tree of splits.
#[derive(Debug)]
pub enum Layout {
    Pane(PaneId),
    Split { direction: Split, offset: i32, first: Box<Layout>, second: Box<Layout> },
}

pub open spec fn child_rects_spec(
    rect: Rect,
    split: Split,
    offset: i32,
    first: Layout,
    second: Layout,
) -> (Rect, Rect) {
    let first_min = first.min_size();
    let second_min = second.min_size();
    match split {
        Split::LeftRight => {
            let (first_width, second_width) = split_lengths_spec(
                rect.width,
                offset,
                first_min.columns,
                second_min.columns,
            );
            (
                Rect { width: first_width, ..rect },
                Rect {
                    x: sat_add16(
                        sat_add16(rect.x, first_width),
                        if rect.width > 1 {
                            1
                        } else {
                            0
                        },
                    ),
                    width: second_width,
                    ..rect
                },
            )
        },
        Split::TopBottom => {
            let (first_height, second_height) = split_lengths_spec(
                rect.height,
                offset,
                first_min.rows,
                second_min.rows,
            );
            (
                Rect { height: first_height, ..rect },
                Rect {
                    y: sat_add16(
                        sat_add16(rect.y, first_height),
                        if rect.height > 1 {
                            1
                        } else {
                            0
                        },
                    ),
                    height: second_height,
                    ..rect
                },
            )
        },
    }
}

/// Which way the divider of a split moves when `direction` is applied to a pane
/// on the given side of it: one cell towards the second child, one cell towards
/// the first, or not at all.
pub open spec fn resize_delta(split: Split, direction: Direction, target_in_first: bool) -> Option<
    int,
> {
    match (split, direction, target_in_first) {
        (Split::LeftRight, Direction::Right, true) => Some(1),
        (Split::TopBottom, Direction::Down, true) => Some(1),
        (Split::LeftRight, Direction::Left, false) => Some(-1),
        (Split::TopBottom, Direction::Up, false) => Some(-1),
        _ => None,
    }
}

impl Layout {
    /// The panes of the layout, from the first (left or top) leaf to the last.
    pub open spec fn panes(self) -> Seq<PaneId>
        decreases self,
    {
        match self {
            Layout::Pane(pane) => seq![pane],
            Layout::Split { first, second, .. } => first.panes() + second.panes(),
        }
    }

    /// The smallest size in which every pane keeps one cell.
    pub open spec fn min_size(self) -> Size
        decreases self,
    {
        match self {
            Layout::Pane(_) => Size { columns: 1, rows: 1 },
            Layout::Split { direction, first, second, .. } => {
                let a = first.min_size();
                let b = second.min_size();
                match direction {
                    Split::LeftRight => Size {
                        columns: sat_add16(sat_add16(a.columns, b.columns), 1),
                        rows: max16(a.rows, b.rows),
                    },
                    Split::TopBottom => Size {
                        columns: max16(a.columns, b.columns),
                        rows: sat_add16(sat_add16(a.rows, b.rows), 1),
                    },
                }
            },
        }
    }

    /// The rectangle of each pane when the layout fills `rect`, in pane order.
    pub open spec fn rects_in(self, rect: Rect) -> Seq<(PaneId, Rect)>
        decreases self,
    {
        match self {
            Layout::Pane(pane) => seq![(pane, rect)],
            Layout::Split { direction, offset, first, second } => {
                let (a, b) = child_rects_spec(rect, direction, offset, *first, *second);
                first.rects_in(a) + second.rects_in(b)
            },
        }
    }

    /// The layout after `target` is divided, the new pane `pane` taking the
    /// second half.
    pub open spec fn split_spec(self, target: PaneId, pane: PaneId, direction: Split) -> Layout
        decreases self,
    {
        match self {
            Layout::Pane(current) => if current == target {
                Layout::Split {
                    direction,
                    offset: 0,
                    first: Box::new(Layout::Pane(target)),
                    second: Box::new(Layout::Pane(pane)),
                }
            } else {
                self
            },
            Layout::Split { direction: d, offset, first, second } => if first.panes().contains(
                target,
            ) {
                Layout::Split {
                    direction: d,
                    offset,
                    first: Box::new(first.split_spec(target, pane, direction)),
                    second,
                }
            } else {
                Layout::Split {
                    direction: d,
                    offset,
                    first,
                    second: Box::new(second.split_spec(target, pane, direction)),
                }
            },
        }
    }

    /// The layout without `target`; its sibling takes the place of the split
    /// that held it. `None` when `target` was the only pane.
    pub open spec fn remove_spec(self, target: PaneId) -> Option<Layout>
        decreases self,
    {
        match self {
            Layout::Pane(pane) => if pane == target {
                None
            } else {
                Some(self)
            },
            Layout::Split { direction, offset, first, second } => if first.panes().contains(
                target,
            ) {
                match first.remove_spec(target) {
                    Some(f) => Some(Layout::Split { direction, offset, first: Box::new(f), second }),
                    None => Some(*second),
                }
            } else {
                match second.remove_spec(target) {
                    Some(s) => Some(Layout::Split { direction, offset, first, second: Box::new(s) }),
                    None => Some(*first),
                }
            },
        }
    }

    /// Moving the divider next to `target` one cell in `direction`, inside `rect`.
    pub open spec fn resize_spec(self, target: PaneId, direction: Direction, rect: Rect) -> (
        Layout,
        ResizeResult,
    )
        decreases self,
    {
        match self {
            Layout::Pane(_) => (self, ResizeResult::NotFound),
            Layout::Split { direction: split, offset, first, second } => {
                let in_first = first.panes().contains(target);
                let (first_rect, second_rect) = child_rects_spec(
                    rect,
                    split,
                    offset,
                    *first,
                    *second,
                );
                let nested = if in_first {
                    first.resize_spec(target, direction, first_rect)
                } else {
                    second.resize_spec(target, direction, second_rect)
                };
                if nested.1 != ResizeResult::NotFound {
                    if in_first {
                        (
                            Layout::Split {
                                direction: split,
                                offset,
                                first: Box::new(nested.0),
                                second,
                            },
                            nested.1,
                        )
                    } else {
                        (
                            Layout::Split {
                                direction: split,
                                offset,
                                first,
                                second: Box::new(nested.0),
                            },
                            nested.1,
                        )
                    }
                } else {
                    match resize_delta(split, direction, in_first) {
                        None => (self, ResizeResult::NotFound),
                        Some(delta) => {
                            let total = match split {
                                Split::LeftRight => rect.width,
                                Split::TopBottom => rect.height,
                            };
                            let usable = total - 1;
                            let first_min = match split {
                                Split::LeftRight => first.min_size().columns,
                                Split::TopBottom => first.min_size().rows,
                            };
                            let second_min = match split {
                                Split::LeftRight => second.min_size().columns,
                                Split::TopBottom => second.min_size().rows,
                            };
                            let current = match split {
                                Split::LeftRight => first_rect.width,
                                Split::TopBottom => first_rect.height,
                            };
                            let wanted = current + delta;
                            if total < 3 {
                                (self, ResizeResult::Blocked)
                            } else if wanted < first_min || usable - wanted < second_min {
                                (self, ResizeResult::Blocked)
                            } else {
                                (
                                    Layout::Split {
                                        direction: split,
                                        offset: (wanted - usable / 2) as i32,
                                        first,
                                        second,
                                    },
                                    ResizeResult::Moved,
                                )
                            }
                        },
                    }
                }
            },
        }
    }

    // -- lemmas ---------------------------------------------------------------
    /// Every layout holds at least one pane.
    pub proof fn lemma_panes_nonempty(self)
        ensures
            self.panes().len() >= 1,
        decreases self,
    {
        match self {
            Layout::Pane(_) => {},
            Layout::Split { first, second, .. } => {
                first.lemma_panes_nonempty();
                second.lemma_panes_nonempty();
            },
        }
    }

    /// The rectangles come in the order of the panes, one for each.
    pub proof fn lemma_rects_follow_panes(self, rect: Rect)
        ensures
            self.rects_in(rect).len() == self.panes().len(),
            forall|i: int|
                0 <= i < self.panes().len() ==> (#[trigger] self.rects_in(rect)[i]).0
                    == self.panes()[i],
        decreases self,
    {
        match self {
            Layout::Pane(_) => {},
            Layout::Split { direction, offset, first, second } => {
                let (a, b) = child_rects_spec(rect, direction, offset, *first, *second);
                first.lemma_rects_follow_panes(a);
                second.lemma_rects_follow_panes(b);
                let fl = first.panes().len();
                assert forall|i: int| 0 <= i < self.panes().len() implies (#[trigger] self.rects_in(
                    rect,
                )[i]).0 == self.panes()[i] by {
                    if i < fl {
                        assert(self.rects_in(rect)[i] == first.rects_in(a)[i]);
                    } else {
                        assert(self.rects_in(rect)[i] == second.rects_in(b)[i - fl]);
                    }
                }
            },
        }
    }

    /// Dividing a pane inserts the new pane right after it.
    pub proof fn lemma_split_panes(self, target: PaneId, pane: PaneId, direction: Split) -> (i: int)
        requires
            self.panes().contains(target),
        ensures
            0 <= i < self.panes().len(),
            self.panes()[i] == target,
            self.split_spec(target, pane, direction).panes() == self.panes().insert(i + 1, pane),
        decreases self,
    {
        match self {
            Layout::Pane(current) => {
                assert(self.panes()[0] == current);
                let k = choose|k: int| 0 <= k < self.panes().len() && self.panes()[k] == target;
                assert(k == 0);
                assert(current == target);
                let l = self.split_spec(target, pane, direction);
                assert(l.panes() == Layout::Pane(target).panes() + Layout::Pane(pane).panes());
                assert(l.panes() =~= seq![target, pane]);
                assert(self.panes().insert(1, pane) =~= seq![target, pane]);
                assert(self.split_spec(target, pane, direction).panes() =~= self.panes().insert(
                    1,
                    pane,
                ));
                0
            },
            Layout::Split { direction: d, offset, first, second } => {
                if first.panes().contains(target) {
                    let j = first.lemma_split_panes(target, pane, direction);
                    assert(self.panes()[j] == first.panes()[j]);
                    assert(self.split_spec(target, pane, direction).panes() =~= self.panes().insert(
                        j + 1,
                        pane,
                    ));
                    j
                } else {
                    let k = choose|k: int| 0 <= k < self.panes().len() && self.panes()[k] == target;
                    if k < first.panes().len() {
                        assert(first.panes()[k] == target);
                        assert(false);
                    }
                    assert(second.panes()[k - first.panes().len()] == target);
                    assert(second.panes().contains(target));
                    let j = second.lemma_split_panes(target, pane, direction);
                    let fl = first.panes().len() as int;
                    assert(self.panes()[fl + j] == second.panes()[j]);
                    assert(self.split_spec(target, pane, direction).panes() =~= self.panes().insert(
                        fl + j + 1,
                        pane,
                    ));
                    fl + j
                }
            },
        }
    }

    /// Removing a pane that is not the only one deletes exactly its entry.
    pub proof fn lemma_remove_panes(self, target: PaneId) -> (i: int)
        requires
            self.panes().contains(target),
        ensures
            0 <= i < self.panes().len(),
            self.panes()[i] == target,
            self.panes().len() == 1 ==> self.remove_spec(target) is None,
            self.panes().len() > 1 ==> self.remove_spec(target) is Some && self.remove_spec(
                target,
            )->0.panes() == self.panes().remove(i),
        decreases self,
    {
        match self {
            Layout::Pane(current) => {
                assert(self.panes()[0] == current);
                0
            },
            Layout::Split { direction, offset, first, second } => {
                first.lemma_panes_nonempty();
                second.lemma_panes_nonempty();
                let fl = first.panes().len() as int;
                if first.panes().contains(target) {
                    let j = first.lemma_remove_panes(target);
                    assert(self.panes()[j] == first.panes()[j]);
                    if first.panes().len() == 1 {
                        assert(second.panes() =~= self.panes().remove(j));
                    } else {
                        assert(self.remove_spec(target)->0.panes() =~= self.panes().remove(j));
                    }
                    j
                } else {
                    let k = choose|k: int| 0 <= k < self.panes().len() && self.panes()[k] == target;
                    if k < fl {
                        assert(first.panes()[k] == target);
                        assert(false);
                    }
                    assert(second.panes()[k - fl] == target);
                    assert(second.panes().contains(target));
                    let j = second.lemma_remove_panes(target);
                    assert(self.panes()[fl + j] == second.panes()[j]);
                    if second.panes().len() == 1 {
                        assert(first.panes() =~= self.panes().remove(fl + j));
                    } else {
                        assert(self.remove_spec(target)->0.panes() =~= self.panes().remove(
                            fl + j,
                        ));
                    }
                    fl + j
                }
            },
        }
    }

    /// Moving a divider keeps the panes and their order.
    pub proof fn lemma_resize_panes(self, target: PaneId, direction: Direction, rect: Rect)
        ensures
            self.resize_spec(target, direction, rect).0.panes() == self.panes(),
            self.resize_spec(target, direction, rect).1 != ResizeResult::Moved
                ==> self.resize_spec(target, direction, rect).0 == self,
        decreases self,
    {
        match self {
            Layout::Pane(_) => {},
            Layout::Split { direction: split, offset, first, second } => {
                let (a, b) = child_rects_spec(rect, split, offset, *first, *second);
                first.lemma_resize_panes(target, direction, a);
                second.lemma_resize_panes(target, direction, b);
            },
        }
    }

    // -- executable operations ----------------------------------------------
    pub fn pane_count(&self) -> (r: usize)
        requires
            self.panes().len() <= usize::MAX,
        ensures
            r == self.panes().len(),
        decreases self,
    {
        match self {
            Layout::Pane(_) => 1,
            Layout::Split { first, second, .. } => first.pane_count() + second.pane_count(),
        }
    }

    pub fn contains(&self, target: PaneId) -> (r: bool)
        ensures
            r == self.panes().contains(target),
        decreases self,
    {
        match self {
            Layout::Pane(pane) => {
                let r = *pane == target;
                proof {
                    if r {
                        assert(self.panes()[0] == target);
                    }
                }
                r
            },
            Layout::Split { first, second, .. } => {
                let in_first = first.contains(target);
                let r = in_first || second.contains(target);
                proof {
                    let fl = first.panes().len() as int;
                    if in_first {
                        let k = choose|k: int| 0 <= k < first.panes().len() && first.panes()[k] == target;
                        assert(self.panes()[k] == target);
                    } else if r {
                        let k = choose|k: int|
                            0 <= k < second.panes().len() && second.panes()[k] == target;
                        assert(self.panes()[fl + k] == target);
                    } else {
                        if self.panes().contains(target) {
                            let k = choose|k: int|
                                0 <= k < self.panes().len() && self.panes()[k] == target;
                            if k < fl {
                                assert(first.panes()[k] == target);
                            } else {
                                assert(second.panes()[k - fl] == target);
                            }
                        }
                    }
                }
                r
            },
        }
    }

    pub fn minimum_size(&self) -> (r: Size)
        ensures
            r == self.min_size(),
        decreases self,
    {
        match self {
            Layout::Pane(_) => Size { columns: 1, rows: 1 },
            Layout::Split { direction, first, second, .. } => {
                let a = first.minimum_size();
                let b = second.minimum_size();
                match direction {
                    Split::LeftRight => Size {
                        columns: saturating_add16(saturating_add16(a.columns, b.columns), 1),
                        rows: if a.rows >= b.rows {
                            a.rows
                        } else {
                            b.rows
                        },
                    },
                    Split::TopBottom => Size {
                        columns: if a.columns >= b.columns {
                            a.columns
                        } else {
                            b.columns
                        },
                        rows: saturating_add16(saturating_add16(a.rows, b.rows), 1),
                    },
                }
            },
        }
    }

    pub fn split(self, target: PaneId, pane: PaneId, direction: Split) -> (r: Layout)
        requires
            self.panes().contains(target),
        ensures
            r == self.split_spec(target, pane, direction),
        decreases self,
    {
        match self {
            Layout::Pane(current) => {
                proof {
                    assert(self.panes()[0] == current);
                }
                Layout::Split {
                    direction,
                    offset: 0,
                    first: Box::new(Layout::Pane(target)),
                    second: Box::new(Layout::Pane(pane)),
                }
            },
            Layout::Split { direction: d, offset, first, second } => {
                if first.contains(target) {
                    let f = (*first).split(target, pane, direction);
                    Layout::Split { direction: d, offset, first: Box::new(f), second }
                } else {
                    proof {
                        let fl = first.panes().len() as int;
                        let k = choose|k: int|
                            0 <= k < self.panes().len() && self.panes()[k] == target;
                        if k < fl {
                            assert(first.panes()[k] == target);
                        }
                        assert(second.panes()[k - fl] == target);
                    }
                    let s = (*second).split(target, pane, direction);
                    Layout::Split { direction: d, offset, first, second: Box::new(s) }
                }
            },
        }
    }

    pub fn remove(self, target: PaneId) -> (r: Option<Layout>)
        ensures
            r == self.remove_spec(target),
        decreases self,
    {
        match self {
            Layout::Pane(pane) => {
                if pane == target {
                    None
                } else {
                    Some(Layout::Pane(pane))
                }
            },
            Layout::Split { direction, offset, first, second } => {
                if first.contains(target) {
                    match (*first).remove(target) {
                        Some(f) => Some(
                            Layout::Split { direction, offset, first: Box::new(f), second },
                        ),
                        None => Some(*second),
                    }
                } else {
                    match (*second).remove(target) {
                        Some(s) => Some(
                            Layout::Split { direction, offset, first, second: Box::new(s) },
                        ),
                        None => Some(*first),
                    }
                }
            },
        }
    }

    pub fn rects(&self, size: Size) -> (r: Vec<(PaneId, Rect)>)
        ensures
            r@ == self.rects_in(full_rect_spec(size)),
    {
        let mut output = Vec::new();
        self.collect_rects(full_rect(size), &mut output);
        assert(output@ =~= self.rects_in(full_rect_spec(size)));
        output
    }

    pub fn collect_rects(&self, rect: Rect, output: &mut Vec<(PaneId, Rect)>)
        ensures
            final(output)@ == old(output)@ + self.rects_in(rect),
        decreases self,
    {
        match self {
            Layout::Pane(pane) => {
                output.push((*pane, rect));
                assert(final(output)@ =~= old(output)@ + self.rects_in(rect));
            },
            Layout::Split { direction, offset, first, second } => {
                let (a, b) = child_rects(rect, *direction, *offset, first, second);
                first.collect_rects(a, output);
                second.collect_rects(b, output);
                assert(final(output)@ =~= old(output)@ + self.rects_in(rect));
            },
        }
    }

    pub fn resize(self, target: PaneId, direction: Direction, rect: Rect) -> (r: (
        Layout,
        ResizeResult,
    ))
        ensures
            r == self.resize_spec(target, direction, rect),
        decreases self,
    {
        match self {
            Layout::Pane(pane) => (Layout::Pane(pane), ResizeResult::NotFound),
            Layout::Split { direction: split, offset, first, second } => {
                let in_first = first.contains(target);
                let (first_rect, second_rect) = child_rects(rect, split, offset, &first, &second);
                let first_min = first.minimum_size();
                let second_min = second.minimum_size();
                if in_first {
                    let (f, result) = (*first).resize(target, direction, first_rect);
                    if result != ResizeResult::NotFound {
                        return (
                            Layout::Split { direction: split, offset, first: Box::new(f), second },
                            result,
                        );
                    }
                    proof {
                        first.lemma_resize_panes(target, direction, first_rect);
                    }
                    Self::move_divider(split, offset, Box::new(f), second, direction, true, rect,
                        first_rect, first_min, second_min)
                } else {
                    let (s, result) = (*second).resize(target, direction, second_rect);
                    if result != ResizeResult::NotFound {
                        return (
                            Layout::Split { direction: split, offset, first, second: Box::new(s) },
                            result,
                        );
                    }
                    proof {
                        second.lemma_resize_panes(target, direction, second_rect);
                    }
                    Self::move_divider(split, offset, first, Box::new(s), direction, false, rect,
                        first_rect, first_min, second_min)
                }
            },
        }
    }

    /// The divider step of `resize`, once no nested split took the request.
    fn move_divider(
        split: Split,
        offset: i32,
        first: Box<Layout>,
        second: Box<Layout>,
        direction: Direction,
        in_first: bool,
        rect: Rect,
        first_rect: Rect,
        first_min: Size,
        second_min: Size,
    ) -> (r: (Layout, ResizeResult))
        requires
            first_min == first.min_size(),
            second_min == second.min_size(),
        ensures
            ({
                let node = Layout::Split { direction: split, offset, first, second };
                match resize_delta(split, direction, in_first) {
                    None => r == (node, ResizeResult::NotFound),
                    Some(delta) => {
                        let total = match split {
                            Split::LeftRight => rect.width,
                            Split::TopBottom => rect.height,
                        };
                        let usable = total - 1;
                        let fm = match split {
                            Split::LeftRight => first_min.columns,
                            Split::TopBottom => first_min.rows,
                        };
                        let sm = match split {
                            Split::LeftRight => second_min.columns,
                            Split::TopBottom => second_min.rows,
                        };
                        let current = match split {
                            Split::LeftRight => first_rect.width,
                            Split::TopBottom => first_rect.height,
                        };
                        let wanted = current + delta;
                        if total < 3 {
                            r == (node, ResizeResult::Blocked)
                        } else if wanted < fm || usable - wanted < sm {
                            r == (node, ResizeResult::Blocked)
                        } else {
                            r == (
                                Layout::Split {
                                    direction: split,
                                    offset: (wanted - usable / 2) as i32,
                                    first,
                                    second,
                                },
                                ResizeResult::Moved,
                            )
                        }
                    },
                }
            }),
    {
        let delta: i64 = match (split, direction, in_first) {
            (Split::LeftRight, Direction::Right, true) => 1,
            (Split::TopBottom, Direction::Down, true) => 1,
            (Split::LeftRight, Direction::Left, false) => -1,
            (Split::TopBottom, Direction::Up, false) => -1,
            _ => {
                return (Layout::Split { direction: split, offset, first, second }, ResizeResult::NotFound)
            },
        };
        let (total, fm, sm, current) = match split {
            Split::LeftRight => (rect.width, first_min.columns, second_min.columns, first_rect.width),
            Split::TopBottom => (rect.height, first_min.rows, second_min.rows, first_rect.height),
        };
        if total < 3 {
            return (Layout::Split { direction: split, offset, first, second }, ResizeResult::Blocked);
        }
        let usable = total - 1;
        let wanted: i64 = current as i64 + delta;
        if wanted < fm as i64 || usable as i64 - wanted < sm as i64 {
            return (Layout::Split { direction: split, offset, first, second }, ResizeResult::Blocked);
        }
        let new_offset: i64 = wanted - (usable / 2) as i64;
        (
            Layout::Split { direction: split, offset: new_offset as i32, first, second },
            ResizeResult::Moved,
        )
    }
}

fn child_rects(rect: Rect, split: Split, offset: i32, first: &Layout, second: &Layout) -> (r: (
    Rect,
    Rect,
))
    ensures
        r == child_rects_spec(rect, split, offset, *first, *second),
{
    let first_min = first.minimum_size();
    let second_min = second.minimum_size();
    match split {
        Split::LeftRight => {
            let (first_width, second_width) = split_lengths(
                rect.width,
                offset,
                first_min.columns,
                second_min.columns,
            );
            let gap: u16 = if rect.width > 1 {
                1
            } else {
                0
            };
            (
                Rect { x: rect.x, y: rect.y, width: first_width, height: rect.height },
                Rect {
                    x: saturating_add16(saturating_add16(rect.x, first_width), gap),
                    y: rect.y,
                    width: second_width,
                    height: rect.height,
                },
            )
        },
        Split::TopBottom => {
            let (first_height, second_height) = split_lengths(
                rect.height,
                offset,
                first_min.rows,
                second_min.rows,
            );
            let gap: u16 = if rect.height > 1 {
                1
            } else {
                0
            };
            (
                Rect { x: rect.x, y: rect.y, width: rect.width, height: first_height },
                Rect {
                    x: rect.x,
                    y: saturating_add16(saturating_add16(rect.y, first_height), gap),
                    width: rect.width,
                    height: second_height,
                },
            )
        },
    }
}

// ---------------------------------------------------------------------------
// Distances between pane rectangles.
pub open spec fn right_spec(rect: Rect) -> int {
    rect.x + rect.width
}

pub open spec fn bottom_spec(rect: Rect) -> int {
    rect.y + rect.height
}

/// Cells between two intervals on one axis; zero when they overlap or touch.
pub open spec fn interval_gap_spec(
    first_start: u16,
    first_length: u16,
    second_start: u16,
    second_length: u16,
) -> int {
    let first_end = first_start + first_length;
    let second_end = second_start + second_length;
    if first_end <= second_start {
        second_start - first_end
    } else if first_start >= second_end {
        first_start - second_end
    } else {
        0
    }
}

pub open spec fn abs_diff_spec(a: int, b: int) -> int {
    if a >= b {
        a - b
    } else {
        b - a
    }
}

/// Twice the Manhattan distance between the centres of two rectangles.
pub open spec fn center_distance_spec(first: Rect, second: Rect) -> int {
    abs_diff_spec(first.x * 2 + first.width, second.x * 2 + second.width) + abs_diff_spec(
        first.y * 2 + first.height,
        second.y * 2 + second.height,
    )
}

/// How far `to` lies from `from` in `direction`: the gap along the direction,
/// the gap across it, and the distance of the centres. `None` when `to` does not
/// lie wholly on that side of `from`.
pub open spec fn direction_rank_spec(from: Rect, to: Rect, direction: Direction) -> Option<
    (int, int, int),
> {
    match direction {
        Direction::Left => if right_spec(to) <= from.x {
            Some(
                (
                    from.x - right_spec(to),
                    interval_gap_spec(from.y, from.height, to.y, to.height),
                    center_distance_spec(from, to),
                ),
            )
        } else {
            None
        },
        Direction::Right => if to.x >= right_spec(from) {
            Some(
                (
                    to.x - right_spec(from),
                    interval_gap_spec(from.y, from.height, to.y, to.height),
                    center_distance_spec(from, to),
                ),
            )
        } else {
            None
        },
        Direction::Up => if bottom_spec(to) <= from.y {
            Some(
                (
                    from.y - bottom_spec(to),
                    interval_gap_spec(from.x, from.width, to.x, to.width),
                    center_distance_spec(from, to),
                ),
            )
        } else {
            None
        },
        Direction::Down => if to.y >= bottom_spec(from) {
            Some(
                (
                    to.y - bottom_spec(from),
                    interval_gap_spec(from.x, from.width, to.x, to.width),
                    center_distance_spec(from, to),
                ),
            )
        } else {
            None
        },
    }
}

/// How far apart two rectangles are: the sum of the gaps on both axes, then the
/// distance of the centres.
pub open spec fn rect_distance_spec(first: Rect, second: Rect) -> (int, int) {
    (
        interval_gap_spec(first.x, first.width, second.x, second.width) + interval_gap_spec(
            first.y,
            first.height,
            second.y,
            second.height,
        ),
        center_distance_spec(first, second),
    )
}

fn interval_gap(first_start: u16, first_length: u16, second_start: u16, second_length: u16) -> (r:
    u32)
    ensures
        r == interval_gap_spec(first_start, first_length, second_start, second_length),
{
    let first_start = first_start as u32;
    let first_end = first_start + first_length as u32;
    let second_start = second_start as u32;
    let second_end = second_start + second_length as u32;
    if first_end <= second_start {
        second_start - first_end
    } else if first_start >= second_end {
        first_start - second_end
    } else {
        0
    }
}

fn center_distance(first: Rect, second: Rect) -> (r: u32)
    ensures
        r == center_distance_spec(first, second),
{
    let first_x = first.x as u32 * 2 + first.width as u32;
    let first_y = first.y as u32 * 2 + first.height as u32;
    let second_x = second.x as u32 * 2 + second.width as u32;
    let second_y = second.y as u32 * 2 + second.height as u32;
    let dx = if first_x >= second_x {
        first_x - second_x
    } else {
        second_x - first_x
    };
    let dy = if first_y >= second_y {
        first_y - second_y
    } else {
        second_y - first_y
    };
    dx + dy
}

fn right(rect: Rect) -> (r: u32)
    ensures
        r == right_spec(rect),
{
    rect.x as u32 + rect.width as u32
}

fn bottom(rect: Rect) -> (r: u32)
    ensures
        r == bottom_spec(rect),
{
    rect.y as u32 + rect.height as u32
}

fn direction_rank(from: Rect, to: Rect, direction: Direction) -> (r: Option<(u32, u32, u32)>)
    ensures
        match direction_rank_spec(from, to, direction) {
            None => r is None,
            Some(rank) => r matches Some(v) && v.0 == rank.0 && v.1 == rank.1 && v.2 == rank.2,
        },
{
    match direction {
        Direction::Left => {
            if right(to) <= from.x as u32 {
                Some(
                    (
                        from.x as u32 - right(to),
                        interval_gap(from.y, from.height, to.y, to.height),
                        center_distance(from, to),
                    ),
                )
            } else {
                None
            }
        },
        Direction::Right => {
            if to.x as u32 >= right(from) {
                Some(
                    (
                        to.x as u32 - right(from),
                        interval_gap(from.y, from.height, to.y, to.height),
                        center_distance(from, to),
                    ),
                )
            } else {
                None
            }
        },
        Direction::Up => {
            if bottom(to) <= from.y as u32 {
                Some(
                    (
                        from.y as u32 - bottom(to),
                        interval_gap(from.x, from.width, to.x, to.width),
                        center_distance(from, to),
                    ),
                )
            } else {
                None
            }
        },
        Direction::Down => {
            if to.y as u32 >= bottom(from) {
                Some(
                    (
                        to.y as u32 - bottom(from),
                        interval_gap(from.x, from.width, to.x, to.width),
                        center_distance(from, to),
                    ),
                )
            } else {
                None
            }
        },
    }
}

fn rect_distance(first: Rect, second: Rect) -> (r: (u32, u32))
    ensures
        r.0 == rect_distance_spec(first, second).0,
        r.1 == rect_distance_spec(first, second).1,
{
    (
        interval_gap(first.x, first.width, second.x, second.width) + interval_gap(
            first.y,
            first.height,
            second.y,
            second.height,
        ),
        center_distance(first, second),
    )
}

/// Lexicographic order on keys of up to four numbers.
pub open spec fn key_lt(a: (int, int, int, int), b: (int, int, int, int)) -> bool {
    a.0 < b.0 || (a.0 == b.0 && (a.1 < b.1 || (a.1 == b.1 && (a.2 < b.2 || (a.2 == b.2 && a.3
        < b.3)))))
}

pub open spec fn key_le(a: (int, int, int, int), b: (int, int, int, int)) -> bool {
    a == b || key_lt(a, b)
}

fn key_less(a: (u32, u32, u32, u32), b: (u32, u32, u32, u32)) -> (r: bool)
    ensures
        r == key_lt(
            (a.0 as int, a.1 as int, a.2 as int, a.3 as int),
            (b.0 as int, b.1 as int, b.2 as int, b.3 as int),
        ),
{
    a.0 < b.0 || (a.0 == b.0 && (a.1 < b.1 || (a.1 == b.1 && (a.2 < b.2 || (a.2 == b.2 && a.3
        < b.3)))))
}

// ---------------------------------------------------------------------------
// Looking up a pane's rectangle.
/// The rectangle recorded for the first entry of `pane`, if any.
pub open spec fn rect_of(rects: Seq<(PaneId, Rect)>, pane: PaneId) -> Option<Rect>
    decreases rects.len(),
{
    if rects.len() == 0 {
        None
    } else if rects[0].0 == pane {
        Some(rects[0].1)
    } else {
        rect_of(rects.drop_first(), pane)
    }
}

proof fn lemma_rect_of_found(rects: Seq<(PaneId, Rect)>, pane: PaneId, i: int)
    requires
        0 <= i < rects.len(),
        rects[i].0 == pane,
        forall|j: int| 0 <= j < i ==> rects[j].0 != pane,
    ensures
        rect_of(rects, pane) == Some(rects[i].1),
    decreases rects.len(),
{
    if i > 0 {
        lemma_rect_of_found(rects.drop_first(), pane, i - 1);
    }
}

proof fn lemma_rect_of_missing(rects: Seq<(PaneId, Rect)>, pane: PaneId)
    requires
        forall|j: int| 0 <= j < rects.len() ==> rects[j].0 != pane,
    ensures
        rect_of(rects, pane) is None,
    decreases rects.len(),
{
    if rects.len() > 0 {
        lemma_rect_of_missing(rects.drop_first(), pane);
    }
}

fn find_rect(rects: &Vec<(PaneId, Rect)>, pane: PaneId) -> (r: Option<Rect>)
    ensures
        r == rect_of(rects@, pane),
{
    let mut i: usize = 0;
    while i < rects.len()
        invariant
            0 <= i <= rects.len(),
            forall|j: int| 0 <= j < i ==> rects@[j].0 != pane,
        decreases rects.len() - i,
    {
        if rects[i].0 == pane {
            proof {
                lemma_rect_of_found(rects@, pane, i as int);
            }
            return Some(rects[i].1);
        }
        i += 1;
    }
    proof {
        lemma_rect_of_missing(rects@, pane);
    }
    None
}

/// A pane listed among the rectangles has one.
proof fn lemma_rect_of_listed(rects: Seq<(PaneId, Rect)>, pane: PaneId, k: int)
    requires
        0 <= k < rects.len(),
        rects[k].0 == pane,
    ensures
        rect_of(rects, pane) is Some,
    decreases rects.len(),
{
    if rects[0].0 != pane {
        lemma_rect_of_listed(rects.drop_first(), pane, k - 1);
    }
}

// ---------------------------------------------------------------------------
// Sessions.
/// One tab: its layout and the pane that has focus in it.
#[derive(Debug)]
pub struct Tab {
    pub layout: Layout,
    pub active: PaneId,
}

impl Tab {
    /// A tab holds distinct panes, at most the per-tab limit, and focuses one of them.
    pub open spec fn wf(self) -> bool {
        &&& self.layout.panes().no_duplicates()
        &&& self.layout.panes().contains(self.active)
        &&& self.layout.panes().len() <= MAX_PANES_PER_TAB
    }

    fn new(pane: PaneId) -> (r: Tab)
        ensures
            r == (Tab { layout: Layout::Pane(pane), active: pane }),
    {
        Tab { layout: Layout::Pane(pane), active: pane }
    }
}

/// What a session holds, as the contracts see it.
pub struct SessionView {
    pub name: Seq<char>,
    pub tabs: Seq<Tab>,
    pub active_tab: int,
    pub next_pane: int,
}

impl SessionView {
    /// The invariant of every session: the tab limit, a valid active tab, well-formed
    /// tabs, no pane in two tabs, and every pane identifier below the next one handed out.
    pub open spec fn wf(self) -> bool {
        &&& self.tabs.len() <= MAX_TABS
        &&& if self.tabs.len() == 0 {
            self.active_tab == 0
        } else {
            0 <= self.active_tab < self.tabs.len()
        }
        &&& forall|i: int| 0 <= i < self.tabs.len() ==> (#[trigger] self.tabs[i]).wf()
        &&& forall|i: int, j: int|
            0 <= i < self.tabs.len() && 0 <= j < self.tabs.len() && i != j
                ==> (#[trigger] self.tabs[i]).layout.panes().disjoint(
                (#[trigger] self.tabs[j]).layout.panes(),
            )
        &&& forall|i: int, p: PaneId|
            0 <= i < self.tabs.len() && #[trigger] self.tabs[i].layout.panes().contains(p)
                ==> p.value() < self.next_pane
        &&& 1 <= self.next_pane <= u32::MAX
    }

    /// Another pane identifier can still be handed out.
    pub open spec fn can_add_pane(self) -> bool {
        self.next_pane < u32::MAX
    }

    pub open spec fn has_active_tab(self) -> bool {
        0 <= self.active_tab < self.tabs.len()
    }

    pub open spec fn active_pane(self) -> Option<PaneId> {
        if self.has_active_tab() {
            Some(self.tabs[self.active_tab].active)
        } else {
            None
        }
    }

    /// The pane rectangles of the active tab in a pane area of `size`.
    pub open spec fn active_rects(self, size: Size) -> Seq<(PaneId, Rect)> {
        self.tabs[self.active_tab].layout.rects_in(full_rect_spec(size))
    }

    /// Some tab holds `pane`.
    pub open spec fn holds(self, pane: PaneId) -> bool {
        exists|i: int| 0 <= i < self.tabs.len() && (#[trigger] self.tabs[i]).layout.panes().contains(pane)
    }

    /// The first tab that holds `pane`.
    pub open spec fn tab_of(self, pane: PaneId) -> int {
        choose|i: int|
            0 <= i < self.tabs.len() && (#[trigger] self.tabs[i]).layout.panes().contains(pane)
                && forall|j: int| 0 <= j < i ==> !self.tabs[j].layout.panes().contains(pane)
    }

    /// The same session with tab `index` replaced.
    pub open spec fn with_tab(self, index: int, tab: Tab) -> SessionView {
        SessionView { tabs: self.tabs.update(index, tab), ..self }
    }
}

/// `rects[i]` is a pane other than `active` lying wholly in `direction` of `from`.
pub open spec fn focus_candidate(
    rects: Seq<(PaneId, Rect)>,
    active: PaneId,
    from: Rect,
    direction: Direction,
    i: int,
) -> bool {
    0 <= i < rects.len() && rects[i].0 != active && direction_rank_spec(
        from,
        rects[i].1,
        direction,
    ) is Some
}

pub open spec fn focus_key(rects: Seq<(PaneId, Rect)>, from: Rect, direction: Direction, i: int) -> (
    int,
    int,
    int,
    int,
) {
    let rank = direction_rank_spec(from, rects[i].1, direction)->0;
    (rank.0, rank.1, rank.2, rects[i].0.value() as int)
}

/// `pane` is the nearest candidate in `direction`: closest along the direction,
/// then across it, then by centre distance, then by identifier.
pub open spec fn is_focus_target(
    rects: Seq<(PaneId, Rect)>,
    active: PaneId,
    from: Rect,
    direction: Direction,
    pane: PaneId,
) -> bool {
    exists|i: int|
        #![trigger rects[i]]
        focus_candidate(rects, active, from, direction, i) && rects[i].0 == pane && forall|j: int|
            #![trigger rects[j]]
            focus_candidate(rects, active, from, direction, j) ==> key_le(
                focus_key(rects, from, direction, i),
                focus_key(rects, from, direction, j),
            )
}

pub open spec fn close_key(rects: Seq<(PaneId, Rect)>, from: Rect, i: int) -> (int, int, int, int) {
    let d = rect_distance_spec(from, rects[i].1);
    (d.0, d.1, rects[i].0.value() as int, 0)
}

/// `pane` is the pane nearest to the closed pane `closed`: by the gap between them,
/// then by centre distance, then by identifier.
pub open spec fn is_close_successor(
    rects: Seq<(PaneId, Rect)>,
    closed: PaneId,
    from: Rect,
    pane: PaneId,
) -> bool {
    exists|i: int|
        #![trigger rects[i]]
        0 <= i < rects.len() && rects[i].0 == pane && pane != closed && forall|j: int|
            #![trigger rects[j]]
            0 <= j < rects.len() && rects[j].0 != closed ==> key_le(
                close_key(rects, from, i),
                close_key(rects, from, j),
            )
}

/// The tabs, panes and focus of one session.
#[derive(Debug)]
pub struct Session {
    name: String,
    tabs: Vec<Tab>,
    active_tab: usize,
    next_pane_id: u32,
}

impl View for Session {
    type V = SessionView;

    closed spec fn view(&self) -> SessionView {
        SessionView {
            name: self.name@,
            tabs: self.tabs@,
            active_tab: self.active_tab as int,
            next_pane: self.next_pane_id as int,
        }
    }
}

proof fn lemma_no_dup_insert(s: Seq<PaneId>, i: int, p: PaneId)
    requires
        s.no_duplicates(),
        !s.contains(p),
        0 <= i <= s.len(),
    ensures
        s.insert(i, p).no_duplicates(),
        forall|q: PaneId| s.insert(i, p).contains(q) <==> (s.contains(q) || q == p),
{
    let t = s.insert(i, p);
    assert forall|a: int, b: int| 0 <= a < t.len() && 0 <= b < t.len() && a != b implies t[a]
        != t[b] by {
        if a == i {
            if b < i {
                assert(t[b] == s[b]);
            } else {
                assert(t[b] == s[b - 1]);
            }
        } else if b == i {
            if a < i {
                assert(t[a] == s[a]);
            } else {
                assert(t[a] == s[a - 1]);
            }
        } else {
            let sa = if a < i {
                a
            } else {
                a - 1
            };
            let sb = if b < i {
                b
            } else {
                b - 1
            };
            assert(t[a] == s[sa]);
            assert(t[b] == s[sb]);
        }
    }
    assert forall|q: PaneId| t.contains(q) <==> (s.contains(q) || q == p) by {
        if t.contains(q) {
            let k = choose|k: int| 0 <= k < t.len() && t[k] == q;
            if k < i {
                assert(s[k] == q);
            } else if k > i {
                assert(s[k - 1] == q);
            }
        }
        if s.contains(q) {
            let k = choose|k: int| 0 <= k < s.len() && s[k] == q;
            if k < i {
                assert(t[k] == q);
            } else {
                assert(t[k + 1] == q);
            }
        }
        if q == p {
            assert(t[i] == p);
        }
    }
}

proof fn lemma_no_dup_remove(s: Seq<PaneId>, i: int)
    requires
        s.no_duplicates(),
        0 <= i < s.len(),
    ensures
        s.remove(i).no_duplicates(),
        forall|q: PaneId| s.remove(i).contains(q) <==> (s.contains(q) && q != s[i]),
{
    let t = s.remove(i);
    assert forall|a: int, b: int| 0 <= a < t.len() && 0 <= b < t.len() && a != b implies t[a]
        != t[b] by {
        let sa = if a < i {
            a
        } else {
            a + 1
        };
        let sb = if b < i {
            b
        } else {
            b + 1
        };
        assert(t[a] == s[sa]);
        assert(t[b] == s[sb]);
    }
    assert forall|q: PaneId| t.contains(q) <==> (s.contains(q) && q != s[i]) by {
        if t.contains(q) {
            let k = choose|k: int| 0 <= k < t.len() && t[k] == q;
            if k < i {
                assert(s[k] == q);
            } else {
                assert(s[k + 1] == q);
            }
        }
        if s.contains(q) && q != s[i] {
            let k = choose|k: int| 0 <= k < s.len() && s[k] == q;
            if k < i {
                assert(t[k] == q);
            } else {
                assert(k != i);
                assert(t[k - 1] == q);
            }
        }
    }
}

impl Session {
    /// A session with one tab holding pane 1.
    pub fn new(name: String) -> (r: Session)
        ensures
            r@.wf(),
            r@.name == name@,
            r@.tabs.len() == 1,
            r@.tabs[0] == (Tab { layout: Layout::Pane(r@.tabs[0].active), active: r@.tabs[0].active }),
            r@.tabs[0].active.value() == 1,
            r@.active_tab == 0,
            r@.next_pane == 2,
    {
        let mut tabs = Vec::new();
        tabs.push(Tab::new(PaneId(1)));
        let r = Session { name, tabs, active_tab: 0, next_pane_id: 2 };
        proof {
            assert(r@.tabs[0].layout.panes() =~= seq![PaneId(1)]);
            assert(r@.tabs[0].layout.panes()[0] == PaneId(1));
        }
        r
    }

    pub fn name(&self) -> (r: &str)
        ensures
            r@ == self@.name,
    {
        self.name.as_str()
    }

    pub fn tab_count(&self) -> (r: usize)
        ensures
            r == self@.tabs.len(),
    {
        self.tabs.len()
    }

    pub fn active_tab(&self) -> (r: Option<usize>)
        ensures
            r == (if self@.tabs.len() == 0 {
                None
            } else {
                Some(self@.active_tab as usize)
            }),
    {
        if self.tabs.len() == 0 {
            None
        } else {
            Some(self.active_tab)
        }
    }

    pub fn active_pane(&self) -> (r: Option<PaneId>)
        ensures
            r == self@.active_pane(),
    {
        if self.active_tab < self.tabs.len() {
            Some(self.tabs[self.active_tab].active)
        } else {
            None
        }
    }

    /// Whether another pane can still be given an identifier; identifiers are never
    /// reused.
    pub fn can_add_pane(&self) -> (r: bool)
        ensures
            r == self@.can_add_pane(),
    {
        self.next_pane_id < u32::MAX
    }

    /// The number of panes in the active tab; zero when there is none.
    pub fn pane_count(&self) -> (r: usize)
        requires
            self@.wf(),
        ensures
            r == (if self@.has_active_tab() {
                self@.tabs[self@.active_tab].layout.panes().len()
            } else {
                0
            }),
    {
        if self.active_tab < self.tabs.len() {
            proof {
                assert(self@.tabs[self@.active_tab].wf());
            }
            self.tabs[self.active_tab].layout.pane_count()
        } else {
            0
        }
    }

    fn next_pane(&mut self) -> (r: PaneId)
        requires
            old(self).next_pane_id < u32::MAX,
        ensures
            r.value() == old(self).next_pane_id,
            final(self).next_pane_id == old(self).next_pane_id + 1,
            final(self).name == old(self).name,
            final(self).tabs == old(self).tabs,
            final(self).active_tab == old(self).active_tab,
    {
        let pane = PaneId(self.next_pane_id);
        self.next_pane_id = self.next_pane_id + 1;
        pane
    }

    fn replace_tab(&mut self, index: usize, tab: Tab) -> (r: Tab)
        requires
            index < old(self).tabs.len(),
        ensures
            r == old(self)@.tabs[index as int],
            final(self)@ == old(self)@.with_tab(index as int, tab),
    {
        let previous = self.tabs.remove(index);
        self.tabs.insert(index, tab);
        assert(self@.tabs =~= old(self)@.tabs.update(index as int, tab));
        previous
    }

    /// Opens a tab with a fresh pane and makes it active.
    pub fn create_tab(&mut self) -> (r: Result<PaneId, StateError>)
        requires
            old(self)@.wf(),
            old(self)@.can_add_pane(),
        ensures
            tab_created(old(self)@, final(self)@, r),
            final(self)@.wf(),
            old(self)@.tabs.len() == 0 ==> r == Err::<PaneId, StateError>(StateError::EmptySession),
            old(self)@.tabs.len() == MAX_TABS ==> r == Err::<PaneId, StateError>(
                StateError::TabLimit,
            ),
            r is Err ==> final(self)@ == old(self)@,
            0 < old(self)@.tabs.len() < MAX_TABS ==> {
                &&& r matches Ok(pane)
                &&& pane.value() == old(self)@.next_pane
                &&& final(self)@ == (SessionView {
                    tabs: old(self)@.tabs.push(Tab { layout: Layout::Pane(pane), active: pane }),
                    active_tab: old(self)@.tabs.len() as int,
                    next_pane: old(self)@.next_pane + 1,
                    ..old(self)@
                })
            },
    {
        if self.tabs.len() == 0 {
            return Err(StateError::EmptySession);
        }
        if self.tabs.len() == MAX_TABS {
            return Err(StateError::TabLimit);
        }
        let pane = self.next_pane();
        self.tabs.push(Tab::new(pane));
        self.active_tab = self.tabs.len() - 1;
        proof {
            let v = self@;
            let o = old(self)@;
            let n = o.tabs.len() as int;
            assert(v.tabs[n].layout.panes() =~= seq![pane]);
            assert forall|i: int| 0 <= i < v.tabs.len() implies (#[trigger] v.tabs[i]).wf() by {
                if i < n {
                    assert(v.tabs[i] == o.tabs[i]);
                } else {
                    assert(v.tabs[i].layout.panes()[0] == pane);
                }
            }
            assert forall|i: int, j: int|
                0 <= i < v.tabs.len() && 0 <= j < v.tabs.len() && i != j implies (
            #[trigger] v.tabs[i]).layout.panes().disjoint((#[trigger] v.tabs[j]).layout.panes()) by {
                if i < n && j < n {
                    assert(v.tabs[i] == o.tabs[i]);
                    assert(v.tabs[j] == o.tabs[j]);
                } else if i == n {
                    assert(v.tabs[j] == o.tabs[j]);
                    assert forall|a: int, b: int|
                        0 <= a < v.tabs[i].layout.panes().len() && 0 <= b
                            < v.tabs[j].layout.panes().len() implies v.tabs[i].layout.panes()[a]
                        != v.tabs[j].layout.panes()[b] by {
                        assert(o.tabs[j].layout.panes().contains(o.tabs[j].layout.panes()[b]));
                    }
                } else {
                    assert(v.tabs[i] == o.tabs[i]);
                    assert forall|a: int, b: int|
                        0 <= a < v.tabs[i].layout.panes().len() && 0 <= b
                            < v.tabs[j].layout.panes().len() implies v.tabs[i].layout.panes()[a]
                        != v.tabs[j].layout.panes()[b] by {
                        assert(o.tabs[i].layout.panes().contains(o.tabs[i].layout.panes()[a]));
                    }
                }
            }
            assert forall|i: int, p: PaneId|
                0 <= i < v.tabs.len() && #[trigger] v.tabs[i].layout.panes().contains(
                    p,
                ) implies p.value() < v.next_pane by {
                if i < n {
                    assert(v.tabs[i] == o.tabs[i]);
                } else {
                    let k = choose|k: int|
                        0 <= k < v.tabs[i].layout.panes().len() && v.tabs[i].layout.panes()[k]
                            == p;
                }
            }
            assert(v =~= SessionView {
                tabs: o.tabs.push(Tab { layout: Layout::Pane(pane), active: pane }),
                active_tab: n,
                next_pane: o.next_pane + 1,
                ..o
            });
        }
        Ok(pane)
    }

    /// Makes tab `index` active; false, with nothing changed, when there is no such tab.
    pub fn select_tab(&mut self, index: usize) -> (r: bool)
        requires
            old(self)@.wf(),
        ensures
            tab_selected(old(self)@, final(self)@, index, r),
            final(self)@.wf(),
            r == (index < old(self)@.tabs.len()),
            r ==> final(self)@ == (SessionView { active_tab: index as int, ..old(self)@ }),
            !r ==> final(self)@ == old(self)@,
    {
        if index >= self.tabs.len() {
            return false;
        }
        self.active_tab = index;
        true
    }

    /// Focuses `pane` in the active tab; false, with nothing changed, when the active
    /// tab does not hold it.
    pub fn select_pane(&mut self, pane: PaneId) -> (r: bool)
        requires
            old(self)@.wf(),
        ensures
            final(self)@.wf(),
            r == (old(self)@.has_active_tab() && old(self)@.tabs[old(
                self,
            )@.active_tab].layout.panes().contains(pane)),
            r ==> final(self)@ == old(self)@.with_tab(
                old(self)@.active_tab,
                Tab { active: pane, layout: old(self)@.tabs[old(self)@.active_tab].layout },
            ),
            !r ==> final(self)@ == old(self)@,
    {
        if self.active_tab >= self.tabs.len() {
            return false;
        }
        if !self.tabs[self.active_tab].layout.contains(pane) {
            return false;
        }
        let index = self.active_tab;
        let tab = self.tabs.remove(index);
        let layout = tab.layout;
        self.tabs.insert(index, Tab { layout, active: pane });
        proof {
            let o = old(self)@;
            assert(self@.tabs =~= o.tabs.update(index as int, Tab { active: pane, layout: o.tabs[index as int].layout }));
            assert(self@ =~= o.with_tab(index as int, Tab { active: pane, layout: o.tabs[index as int].layout }));
            assert forall|i: int| 0 <= i < self@.tabs.len() implies (#[trigger] self@.tabs[i]).wf() by {
                if i != index {
                    assert(self@.tabs[i] == o.tabs[i]);
                }
            }
        }
        true
    }

    /// Makes the following tab active, wrapping to the first.
    pub fn next_tab(&mut self) -> (r: Result<(), StateError>)
        requires
            old(self)@.wf(),
        ensures
            tab_stepped(old(self)@, final(self)@, true, r),
            final(self)@.wf(),
            old(self)@.tabs.len() == 0 ==> r == Err::<(), StateError>(StateError::EmptySession)
                && final(self)@ == old(self)@,
            old(self)@.tabs.len() > 0 ==> r is Ok && final(self)@ == (SessionView {
                active_tab: (old(self)@.active_tab + 1) % (old(self)@.tabs.len() as int),
                ..old(self)@
            }),
    {
        if self.tabs.len() == 0 {
            return Err(StateError::EmptySession);
        }
        self.active_tab = (self.active_tab + 1) % self.tabs.len();
        Ok(())
    }

    /// Makes the preceding tab active, wrapping to the last.
    pub fn previous_tab(&mut self) -> (r: Result<(), StateError>)
        requires
            old(self)@.wf(),
        ensures
            tab_stepped(old(self)@, final(self)@, false, r),
            final(self)@.wf(),
            old(self)@.tabs.len() == 0 ==> r == Err::<(), StateError>(StateError::EmptySession)
                && final(self)@ == old(self)@,
            old(self)@.tabs.len() > 0 ==> r is Ok && final(self)@ == (SessionView {
                active_tab: (old(self)@.active_tab + old(self)@.tabs.len() - 1) % (old(
                    self,
                )@.tabs.len() as int),
                ..old(self)@
            }),
    {
        if self.tabs.len() == 0 {
            return Err(StateError::EmptySession);
        }
        self.active_tab = (self.active_tab + self.tabs.len() - 1) % self.tabs.len();
        Ok(())
    }
}


/// A split of `rect` in `split` leaves both halves at least one cell.
pub open spec fn split_fits(rect: Rect, split: Split) -> bool {
    match split {
        Split::LeftRight => rect.width >= 3,
        Split::TopBottom => rect.height >= 3,
    }
}

/// The error that `Session::resize` reports for each outcome of the layout step.
pub open spec fn resize_outcome(result: ResizeResult) -> Result<(), StateError> {
    match result {
        ResizeResult::Moved => Ok(()),
        ResizeResult::Blocked => Err(StateError::CannotResize),
        ResizeResult::NotFound => Err(StateError::NoAdjacentPane),
    }
}

/// What `create_tab` does: a tab with a fresh pane, made active, or the error and no
/// change.
pub open spec fn tab_created(o: SessionView, n: SessionView, r: Result<PaneId, StateError>) -> bool {
    &&& r is Err ==> n == o
    &&& o.tabs.len() == 0 ==> r == Err::<PaneId, StateError>(StateError::EmptySession)
    &&& o.tabs.len() == MAX_TABS ==> r == Err::<PaneId, StateError>(StateError::TabLimit)
    &&& 0 < o.tabs.len() < MAX_TABS ==> {
        &&& r matches Ok(pane)
        &&& pane.value() == o.next_pane
        &&& n == (SessionView {
            tabs: o.tabs.push(Tab { layout: Layout::Pane(pane), active: pane }),
            active_tab: o.tabs.len() as int,
            next_pane: o.next_pane + 1,
            ..o
        })
    }
}

/// What `split_active` does: the active pane split, the new pane active, or the error
/// and no change.
pub open spec fn pane_split(o: SessionView, n: SessionView, split: Split, size: Size, r: Result<PaneId, StateError>) -> bool {
    &&& r is Err ==> n == o
    &&& !o.has_active_tab() ==> r == Err::<PaneId, StateError>(StateError::EmptySession)
    &&& o.has_active_tab() ==> {
        let tab = o.tabs[o.active_tab];
        let rect = rect_of(o.active_rects(size), tab.active)->0;
        if tab.layout.panes().len() == MAX_PANES_PER_TAB {
            r == Err::<PaneId, StateError>(StateError::PaneLimit)
        } else if !split_fits(rect, split) {
            r == Err::<PaneId, StateError>(StateError::TooSmall)
        } else {
            &&& r matches Ok(pane)
            &&& pane.value() == o.next_pane
            &&& n == (SessionView {
                next_pane: o.next_pane + 1,
                ..o.with_tab(
                    o.active_tab,
                    Tab { layout: tab.layout.split_spec(tab.active, pane, split), active: pane },
                )
            })
        }
    }
}

/// What `next_tab` (`forward`) or `previous_tab` does: the neighbouring tab made
/// active, around the ends, or the error for a session without tabs.
pub open spec fn tab_stepped(o: SessionView, n: SessionView, forward: bool, r: Result<(), StateError>) -> bool {
    &&& o.tabs.len() == 0 ==> r == Err::<(), StateError>(StateError::EmptySession) && n == o
    &&& o.tabs.len() > 0 ==> r is Ok && n == (SessionView {
        active_tab: if forward {
            (o.active_tab + 1) % (o.tabs.len() as int)
        } else {
            (o.active_tab + o.tabs.len() - 1) % (o.tabs.len() as int)
        },
        ..o
    })
}

/// What `select_tab` does.
pub open spec fn tab_selected(o: SessionView, n: SessionView, index: usize, r: bool) -> bool {
    &&& r == (index < o.tabs.len())
    &&& r ==> n == (SessionView { active_tab: index as int, ..o })
    &&& !r ==> n == o
}

/// What `focus` does: the nearest pane in the direction made active, or the error
/// and no change.
pub open spec fn pane_focused(o: SessionView, n: SessionView, direction: Direction, size: Size, r: Result<PaneId, StateError>) -> bool {
    &&& r is Err ==> n == o
    &&& !o.has_active_tab() ==> r == Err::<PaneId, StateError>(StateError::EmptySession)
    &&& o.has_active_tab() ==> {
        let tab = o.tabs[o.active_tab];
        let rects = o.active_rects(size);
        let from = rect_of(rects, tab.active)->0;
        &&& (exists|i: int| focus_candidate(rects, tab.active, from, direction, i)) <==> r is Ok
        &&& r is Err ==> r == Err::<PaneId, StateError>(StateError::NoAdjacentPane)
        &&& r matches Ok(pane) ==> is_focus_target(rects, tab.active, from, direction, pane) && n
            == o.with_tab(o.active_tab, Tab { layout: tab.layout, active: pane })
    }
}

/// What `resize` does: the active pane's border moved, or the error and no change.
pub open spec fn pane_resized(o: SessionView, n: SessionView, direction: Direction, size: Size, r: Result<(), StateError>) -> bool {
    &&& r is Err ==> n == o
    &&& !o.has_active_tab() ==> r == Err::<(), StateError>(StateError::EmptySession)
    &&& o.has_active_tab() ==> {
        let tab = o.tabs[o.active_tab];
        let (layout, result) = tab.layout.resize_spec(tab.active, direction, full_rect_spec(size));
        &&& r == resize_outcome(result)
        &&& n == o.with_tab(o.active_tab, Tab { layout, active: tab.active })
    }
}

/// What `close_active_pane` does.
pub open spec fn active_closed(o: SessionView, n: SessionView, size: Size, r: Result<CloseResult, StateError>) -> bool {
    &&& o.active_pane() is None ==> r == Err::<CloseResult, StateError>(StateError::EmptySession) && n == o
    &&& o.active_pane() matches Some(pane) ==> close_outcome(o, n, pane, size, r)
}


/// What closing `pane` in a session of `size` does to `before`, leaving `after`
/// and reporting `r`.
pub open spec fn close_outcome(
    before: SessionView,
    after: SessionView,
    pane: PaneId,
    size: Size,
    r: Result<CloseResult, StateError>,
) -> bool {
    if !before.holds(pane) {
        r == Err::<CloseResult, StateError>(StateError::NoAdjacentPane) && after == before
    } else {
        let ti = before.tab_of(pane);
        let tab = before.tabs[ti];
        let rects = tab.layout.rects_in(full_rect_spec(size));
        let from = rect_of(rects, pane)->0;
        if tab.layout.panes().len() > 1 {
            &&& r == Ok::<CloseResult, StateError>(CloseResult::PaneClosed)
            &&& exists|next: PaneId|
                is_close_successor(rects, pane, from, next) && after == before.with_tab(
                    ti,
                    Tab {
                        layout: tab.layout.remove_spec(pane)->0,
                        active: if tab.active == pane {
                            next
                        } else {
                            tab.active
                        },
                    },
                )
        } else if before.tabs.len() == 1 {
            &&& r == Ok::<CloseResult, StateError>(CloseResult::SessionEmpty)
            &&& after == (SessionView { tabs: Seq::empty(), active_tab: 0, ..before })
        } else {
            let shifted = if ti < before.active_tab {
                before.active_tab - 1
            } else {
                before.active_tab
            };
            &&& r == Ok::<CloseResult, StateError>(CloseResult::TabClosed)
            &&& after == (SessionView {
                tabs: before.tabs.remove(ti),
                active_tab: if shifted < before.tabs.len() - 2 {
                    shifted
                } else {
                    before.tabs.len() - 2
                },
                ..before
            })
        }
    }
}

/// Replacing one tab by a well-formed tab whose panes are old ones or freshly
/// numbered ones keeps the session well formed.
proof fn lemma_wf_replace(v: SessionView, i: int, tab: Tab, next: int)
    requires
        v.wf(),
        0 <= i < v.tabs.len(),
        tab.wf(),
        v.next_pane <= next <= u32::MAX,
        forall|p: PaneId|
            #[trigger] tab.layout.panes().contains(p) ==> (v.tabs[i].layout.panes().contains(p) || (
            v.next_pane <= p.value() < next)),
    ensures
        (SessionView { next_pane: next, ..v.with_tab(i, tab) }).wf(),
{
    let w = SessionView { next_pane: next, ..v.with_tab(i, tab) };
    assert forall|a: int| 0 <= a < w.tabs.len() implies (#[trigger] w.tabs[a]).wf() by {
        if a != i {
            assert(w.tabs[a] == v.tabs[a]);
        }
    }
    assert forall|a: int, b: int|
        0 <= a < w.tabs.len() && 0 <= b < w.tabs.len() && a != b implies (
    #[trigger] w.tabs[a]).layout.panes().disjoint((#[trigger] w.tabs[b]).layout.panes()) by {
        let pa = w.tabs[a].layout.panes();
        let pb = w.tabs[b].layout.panes();
        assert forall|x: int, y: int| 0 <= x < pa.len() && 0 <= y < pb.len() implies pa[x]
            != pb[y] by {
            if a == i {
                assert(w.tabs[b] == v.tabs[b]);
                assert(tab.layout.panes().contains(pa[x]));
                assert(v.tabs[b].layout.panes().contains(pb[y]));
                if v.tabs[i].layout.panes().contains(pa[x]) {
                    let k = choose|k: int|
                        0 <= k < v.tabs[i].layout.panes().len() && v.tabs[i].layout.panes()[k]
                            == pa[x];
                    assert(v.tabs[i].layout.panes().disjoint(v.tabs[b].layout.panes()));
                }
            } else if b == i {
                assert(w.tabs[a] == v.tabs[a]);
                assert(tab.layout.panes().contains(pb[y]));
                assert(v.tabs[a].layout.panes().contains(pa[x]));
                if v.tabs[i].layout.panes().contains(pb[y]) {
                    let k = choose|k: int|
                        0 <= k < v.tabs[i].layout.panes().len() && v.tabs[i].layout.panes()[k]
                            == pb[y];
                    assert(v.tabs[a].layout.panes().disjoint(v.tabs[i].layout.panes()));
                }
            } else {
                assert(w.tabs[a] == v.tabs[a]);
                assert(w.tabs[b] == v.tabs[b]);
            }
        }
    }
    assert forall|a: int, p: PaneId|
        0 <= a < w.tabs.len() && #[trigger] w.tabs[a].layout.panes().contains(p) implies p.value()
        < w.next_pane by {
        if a != i {
            assert(w.tabs[a] == v.tabs[a]);
        }
    }
}

/// Dropping a tab keeps the session well formed.
proof fn lemma_wf_remove_tab(v: SessionView, ti: int, active: int)
    requires
        v.wf(),
        0 <= ti < v.tabs.len(),
        v.tabs.len() >= 2,
        0 <= active < v.tabs.len() - 1,
    ensures
        (SessionView { tabs: v.tabs.remove(ti), active_tab: active, ..v }).wf(),
{
    let w = SessionView { tabs: v.tabs.remove(ti), active_tab: active, ..v };
    assert forall|a: int| 0 <= a < w.tabs.len() implies (#[trigger] w.tabs[a]).wf() by {
        if a < ti {
            assert(w.tabs[a] == v.tabs[a]);
        } else {
            assert(w.tabs[a] == v.tabs[a + 1]);
        }
    }
    assert forall|a: int, b: int|
        0 <= a < w.tabs.len() && 0 <= b < w.tabs.len() && a != b implies (
    #[trigger] w.tabs[a]).layout.panes().disjoint((#[trigger] w.tabs[b]).layout.panes()) by {
        let sa = if a < ti {
            a
        } else {
            a + 1
        };
        let sb = if b < ti {
            b
        } else {
            b + 1
        };
        assert(w.tabs[a] == v.tabs[sa]);
        assert(w.tabs[b] == v.tabs[sb]);
    }
    assert forall|a: int, p: PaneId|
        0 <= a < w.tabs.len() && #[trigger] w.tabs[a].layout.panes().contains(p) implies p.value()
        < w.next_pane by {
        let sa = if a < ti {
            a
        } else {
            a + 1
        };
        assert(w.tabs[a] == v.tabs[sa]);
    }
}

impl StateError {
    /// The text shown to the user for the error.
    pub fn message(self) -> (r: &'static str)
        ensures
            r@ == state_error_message(self)@,
    {
        match self {
            StateError::TabLimit => "session already has 32 tabs",
            StateError::PaneLimit => "tab already has 16 panes",
            StateError::TooSmall => "active pane is too small to split",
            StateError::NoAdjacentPane => "no pane exists in that direction",
            StateError::CannotResize => "pane cannot be resized in that direction",
            StateError::EmptySession => "session has no tabs",
        }
    }
}

pub open spec fn state_error_message(error: StateError) -> &'static str {
    match error {
        StateError::TabLimit => "session already has 32 tabs",
        StateError::PaneLimit => "tab already has 16 panes",
        StateError::TooSmall => "active pane is too small to split",
        StateError::NoAdjacentPane => "no pane exists in that direction",
        StateError::CannotResize => "pane cannot be resized in that direction",
        StateError::EmptySession => "session has no tabs",
    }
}

impl Session {
    /// Divides the active pane; the new pane takes the second half and the focus.
    pub fn split_active(&mut self, split: Split, size: Size) -> (r: Result<PaneId, StateError>)
        requires
            old(self)@.wf(),
            old(self)@.can_add_pane(),
        ensures
            pane_split(old(self)@, final(self)@, split, size, r),
            final(self)@.wf(),
            r is Err ==> final(self)@ == old(self)@,
            !old(self)@.has_active_tab() ==> r == Err::<PaneId, StateError>(
                StateError::EmptySession,
            ),
            old(self)@.has_active_tab() ==> {
                let o = old(self)@;
                let tab = o.tabs[o.active_tab];
                let rect = rect_of(o.active_rects(size), tab.active)->0;
                if tab.layout.panes().len() == MAX_PANES_PER_TAB {
                    r == Err::<PaneId, StateError>(StateError::PaneLimit)
                } else if !split_fits(rect, split) {
                    r == Err::<PaneId, StateError>(StateError::TooSmall)
                } else {
                    &&& r matches Ok(pane)
                    &&& pane.value() == o.next_pane
                    &&& final(self)@ == (SessionView {
                        next_pane: o.next_pane + 1,
                        ..o.with_tab(
                            o.active_tab,
                            Tab {
                                layout: tab.layout.split_spec(tab.active, pane, split),
                                active: pane,
                            },
                        )
                    })
                }
            },
    {
        if self.active_tab >= self.tabs.len() {
            return Err(StateError::EmptySession);
        }
        let at = self.active_tab;
        proof {
            assert(self@.tabs[at as int].wf());
        }
        if self.tabs[at].layout.pane_count() == MAX_PANES_PER_TAB {
            return Err(StateError::PaneLimit);
        }
        let rects = self.tabs[at].layout.rects(size);
        let active = self.tabs[at].active;
        proof {
            let layout = self@.tabs[at as int].layout;
            layout.lemma_rects_follow_panes(full_rect_spec(size));
            let k = choose|k: int| 0 <= k < layout.panes().len() && layout.panes()[k] == active;
            assert(rects@[k].0 == active);
            lemma_rect_of_listed(rects@, active, k);
        }
        let active_rect = find_rect(&rects, active).unwrap();
        let fits = match split {
            Split::LeftRight => active_rect.width >= 3,
            Split::TopBottom => active_rect.height >= 3,
        };
        if !fits {
            return Err(StateError::TooSmall);
        }
        let ghost before = self@;
        let pane = self.next_pane();
        let old_tab = self.tabs.remove(at);
        let Tab { layout, active: focused } = old_tab;
        let ghost old_layout = layout;
        let new_layout = layout.split(focused, pane, split);
        self.tabs.insert(at, Tab { layout: new_layout, active: pane });
        proof {
            let o = before;
            let new_tab = Tab { layout: new_layout, active: pane };
            assert(self@.tabs =~= o.tabs.update(at as int, new_tab));
            let i = old_layout.lemma_split_panes(focused, pane, split);
            assert(!old_layout.panes().contains(pane)) by {
                if old_layout.panes().contains(pane) {
                    assert(o.tabs[at as int].layout.panes().contains(pane));
                }
            }
            lemma_no_dup_insert(old_layout.panes(), i + 1, pane);
            assert(new_layout.panes()[i + 1] == pane);
            assert(new_tab.wf());
            assert forall|p: PaneId| #[trigger] new_tab.layout.panes().contains(p) implies (
            o.tabs[at as int].layout.panes().contains(p) || (o.next_pane <= p.value() < o.next_pane
                + 1)) by {}
            lemma_wf_replace(o, at as int, new_tab, o.next_pane + 1);
            assert(self@ =~= (SessionView {
                next_pane: o.next_pane + 1,
                ..o.with_tab(at as int, new_tab)
            }));
        }
        Ok(pane)
    }

    /// Moves the focus to the nearest pane in `direction`.
    pub fn focus(&mut self, direction: Direction, size: Size) -> (r: Result<PaneId, StateError>)
        requires
            old(self)@.wf(),
        ensures
            pane_focused(old(self)@, final(self)@, direction, size, r),
            final(self)@.wf(),
            r is Err ==> final(self)@ == old(self)@,
            !old(self)@.has_active_tab() ==> r == Err::<PaneId, StateError>(
                StateError::EmptySession,
            ),
            old(self)@.has_active_tab() ==> {
                let o = old(self)@;
                let tab = o.tabs[o.active_tab];
                let rects = o.active_rects(size);
                let from = rect_of(rects, tab.active)->0;
                &&& (exists|i: int| focus_candidate(rects, tab.active, from, direction, i)) <==> r is Ok
                &&& r is Err ==> r == Err::<PaneId, StateError>(StateError::NoAdjacentPane)
                &&& r matches Ok(pane) ==> is_focus_target(rects, tab.active, from, direction, pane)
                    && final(self)@ == o.with_tab(
                    o.active_tab,
                    Tab { layout: tab.layout, active: pane },
                )
            },
    {
        if self.active_tab >= self.tabs.len() {
            return Err(StateError::EmptySession);
        }
        let at = self.active_tab;
        let rects = self.tabs[at].layout.rects(size);
        let active = self.tabs[at].active;
        proof {
            assert(self@.tabs[at as int].wf());
            let layout = self@.tabs[at as int].layout;
            layout.lemma_rects_follow_panes(full_rect_spec(size));
            let k = choose|k: int| 0 <= k < layout.panes().len() && layout.panes()[k] == active;
            assert(rects@[k].0 == active);
            lemma_rect_of_listed(rects@, active, k);
        }
        let from = find_rect(&rects, active).unwrap();
        let mut best: Option<usize> = None;
        let mut best_key: (u32, u32, u32, u32) = (0, 0, 0, 0);
        let mut i: usize = 0;
        while i < rects.len()
            invariant
                0 <= i <= rects.len(),
                best is None ==> forall|j: int|
                    0 <= j < i ==> !focus_candidate(rects@, active, from, direction, j),
                best matches Some(b) ==> {
                    &&& b < i
                    &&& focus_candidate(rects@, active, from, direction, b as int)
                    &&& rects@[b as int].0 == rects@[b as int].0
                    &&& (best_key.0 as int, best_key.1 as int, best_key.2 as int, best_key.3 as int)
                        == focus_key(rects@, from, direction, b as int)
                    &&& forall|j: int|
                        0 <= j < i && focus_candidate(rects@, active, from, direction, j)
                            ==> key_le(
                            focus_key(rects@, from, direction, b as int),
                            focus_key(rects@, from, direction, j),
                        )
                },
            decreases rects.len() - i,
        {
            let (pane, rect) = rects[i];
            if pane != active {
                match direction_rank(from, rect, direction) {
                    Some(rank) => {
                        let key = (rank.0, rank.1, rank.2, pane.0);
                        if best.is_none() || key_less(key, best_key) {
                            best = Some(i);
                            best_key = key;
                        }
                    },
                    None => {},
                }
            }
            i += 1;
        }
        match best {
            None => Err(StateError::NoAdjacentPane),
            Some(b) => {
                let pane = rects[b].0;
                let ghost before = self@;
                let old_tab = self.tabs.remove(at);
                let Tab { layout, active: _ } = old_tab;
                self.tabs.insert(at, Tab { layout, active: pane });
                proof {
                    let o = before;
                    let new_tab = Tab { layout, active: pane };
                    assert(self@.tabs =~= o.tabs.update(at as int, new_tab));
                    o.tabs[at as int].layout.lemma_rects_follow_panes(full_rect_spec(size));
                    assert(layout.panes()[b as int] == pane);
                    assert(new_tab.wf());
                    lemma_wf_replace(o, at as int, new_tab, o.next_pane);
                    assert(self@ =~= o.with_tab(at as int, new_tab));
                    assert(is_focus_target(rects@, active, from, direction, pane)) by {
                        assert(rects@[b as int].0 == pane);
                    }
                }
                Ok(pane)
            },
        }
    }

    /// Moves the divider next to the active pane one cell in `direction`.
    pub fn resize(&mut self, direction: Direction, size: Size) -> (r: Result<(), StateError>)
        requires
            old(self)@.wf(),
        ensures
            pane_resized(old(self)@, final(self)@, direction, size, r),
            final(self)@.wf(),
            r is Err ==> final(self)@ == old(self)@,
            !old(self)@.has_active_tab() ==> r == Err::<(), StateError>(StateError::EmptySession),
            old(self)@.has_active_tab() ==> {
                let o = old(self)@;
                let tab = o.tabs[o.active_tab];
                let (layout, result) = tab.layout.resize_spec(
                    tab.active,
                    direction,
                    full_rect_spec(size),
                );
                &&& r == resize_outcome(result)
                &&& final(self)@ == o.with_tab(
                    o.active_tab,
                    Tab { layout, active: tab.active },
                )
            },
    {
        if self.active_tab >= self.tabs.len() {
            return Err(StateError::EmptySession);
        }
        let at = self.active_tab;
        let ghost before = self@;
        let old_tab = self.tabs.remove(at);
        let Tab { layout, active } = old_tab;
        let ghost old_layout = layout;
        let (new_layout, result) = layout.resize(active, direction, full_rect(size));
        self.tabs.insert(at, Tab { layout: new_layout, active });
        proof {
            let o = before;
            let new_tab = Tab { layout: new_layout, active };
            assert(self@.tabs =~= o.tabs.update(at as int, new_tab));
            old_layout.lemma_resize_panes(active, direction, full_rect_spec(size));
            assert(o.tabs[at as int].wf());
            assert(new_tab.wf());
            lemma_wf_replace(o, at as int, new_tab, o.next_pane);
            assert(self@ =~= o.with_tab(at as int, new_tab));
            if result != ResizeResult::Moved {
                assert(o.tabs.update(at as int, new_tab) =~= o.tabs);
                assert(self@ =~= o);
            }
        }
        match result {
            ResizeResult::Moved => Ok(()),
            ResizeResult::Blocked => Err(StateError::CannotResize),
            ResizeResult::NotFound => Err(StateError::NoAdjacentPane),
        }
    }

    /// The rectangle of each pane of the active tab, in pane order.
    pub fn pane_rects(&self, size: Size) -> (r: Vec<(PaneId, Rect)>)
        ensures
            r@ == (if self@.has_active_tab() {
                self@.active_rects(size)
            } else {
                Seq::empty()
            }),
    {
        if self.active_tab < self.tabs.len() {
            self.tabs[self.active_tab].layout.rects(size)
        } else {
            let r = Vec::new();
            assert(r@ =~= Seq::<(PaneId, Rect)>::empty());
            r
        }
    }

    /// Closes the active pane.
    pub fn close_active_pane(&mut self, size: Size) -> (r: Result<CloseResult, StateError>)
        requires
            old(self)@.wf(),
        ensures
            active_closed(old(self)@, final(self)@, size, r),
            final(self)@.wf(),
            old(self)@.active_pane() is None ==> r == Err::<CloseResult, StateError>(
                StateError::EmptySession,
            ) && final(self)@ == old(self)@,
            old(self)@.active_pane() matches Some(pane) ==> close_outcome(
                old(self)@,
                final(self)@,
                pane,
                size,
                r,
            ),
    {
        let active = match self.active_pane() {
            Some(active) => active,
            None => return Err(StateError::EmptySession),
        };
        self.close_pane(active, size)
    }

    /// Closes `pane`. Its nearest neighbour takes the focus when it had it; a tab
    /// whose last pane closes closes too, and closing the last tab empties the session.
    pub fn close_pane(&mut self, pane: PaneId, size: Size) -> (r: Result<CloseResult, StateError>)
        requires
            old(self)@.wf(),
        ensures
            final(self)@.wf(),
            close_outcome(old(self)@, final(self)@, pane, size, r),
    {
        let ghost before = self@;
        let mut ti: usize = 0;
        while ti < self.tabs.len()
            invariant
                0 <= ti <= self.tabs.len(),
                self@ == before,
                forall|j: int| 0 <= j < ti ==> !(#[trigger] self@.tabs[j]).layout.panes().contains(pane),
            ensures
                0 <= ti <= self.tabs.len(),
                self@ == before,
                forall|j: int| 0 <= j < ti ==> !(#[trigger] self@.tabs[j]).layout.panes().contains(pane),
                ti < self.tabs.len() ==> self@.tabs[ti as int].layout.panes().contains(pane),
            decreases self.tabs.len() - ti,
        {
            if self.tabs[ti].layout.contains(pane) {
                break;
            }
            ti += 1;
        }
        if ti == self.tabs.len() {
            proof {
                if before.holds(pane) {
                    let i = choose|i: int|
                        0 <= i < before.tabs.len() && (#[trigger] before.tabs[i]).layout.panes().contains(pane);
                    assert(!before.tabs[i].layout.panes().contains(pane));
                }
            }
            return Err(StateError::NoAdjacentPane);
        }
        proof {
            assert(before.holds(pane));
            assert(before.tab_of(pane) == ti as int) by {
                let c = before.tab_of(pane);
                if c < ti {
                    assert(!before.tabs[c].layout.panes().contains(pane));
                } else if c > ti {
                    assert(before.tabs[ti as int].layout.panes().contains(pane));
                }
            }
            assert(before.tabs[ti as int].wf());
        }
        let rects = self.tabs[ti].layout.rects(size);
        proof {
            let layout = before.tabs[ti as int].layout;
            layout.lemma_rects_follow_panes(full_rect_spec(size));
            let k = choose|k: int| 0 <= k < layout.panes().len() && layout.panes()[k] == pane;
            assert(rects@[k].0 == pane);
            lemma_rect_of_listed(rects@, pane, k);
        }
        let from = find_rect(&rects, pane).unwrap();
        let mut best: Option<usize> = None;
        let mut best_key: (u32, u32, u32, u32) = (0, 0, 0, 0);
        let mut i: usize = 0;
        while i < rects.len()
            invariant
                0 <= i <= rects.len(),
                best is None ==> forall|j: int| 0 <= j < i ==> rects@[j].0 == pane,
                best matches Some(b) ==> {
                    &&& b < i
                    &&& rects@[b as int].0 != pane
                    &&& (best_key.0 as int, best_key.1 as int, best_key.2 as int, best_key.3 as int)
                        == close_key(rects@, from, b as int)
                    &&& forall|j: int|
                        0 <= j < i && rects@[j].0 != pane ==> key_le(
                            close_key(rects@, from, b as int),
                            close_key(rects@, from, j),
                        )
                },
            decreases rects.len() - i,
        {
            let (candidate, rect) = rects[i];
            if candidate != pane {
                let distance = rect_distance(from, rect);
                let key = (distance.0, distance.1, candidate.0, 0);
                if best.is_none() || key_less(key, best_key) {
                    best = Some(i);
                    best_key = key;
                }
            }
            i += 1;
        }
        match best {
            Some(b) => {
                let nearest = rects[b].0;
                let old_tab = self.tabs.remove(ti);
                let Tab { layout, active } = old_tab;
                let ghost old_layout = layout;
                proof {
                    let k = old_layout.lemma_remove_panes(pane);
                    assert(old_layout.panes()[b as int] == nearest);
                    assert(old_layout.panes().len() > 1) by {
                        if old_layout.panes().len() <= 1 {
                            assert(old_layout.panes()[0] == pane);
                        }
                    }
                }
                let new_layout = layout.remove(pane).unwrap();
                let new_active = if active == pane {
                    nearest
                } else {
                    active
                };
                self.tabs.insert(ti, Tab { layout: new_layout, active: new_active });
                proof {
                    let o = before;
                    let new_tab = Tab { layout: new_layout, active: new_active };
                    assert(self@.tabs =~= o.tabs.update(ti as int, new_tab));
                    let k = old_layout.lemma_remove_panes(pane);
                    lemma_no_dup_remove(old_layout.panes(), k);
                    assert(old_layout.panes().contains(nearest)) by {
                        assert(old_layout.panes()[b as int] == nearest);
                    }
                    assert(new_tab.wf());
                    lemma_wf_replace(o, ti as int, new_tab, o.next_pane);
                    assert(self@ =~= o.with_tab(ti as int, new_tab));
                    assert(is_close_successor(rects@, pane, from, nearest)) by {
                        assert(rects@[b as int].0 == nearest);
                    }
                }
                Ok(CloseResult::PaneClosed)
            },
            None => {
                proof {
                    let layout = before.tabs[ti as int].layout;
                    layout.lemma_panes_nonempty();
                    layout.lemma_rects_follow_panes(full_rect_spec(size));
                    assert(layout.panes().len() == 1) by {
                        if layout.panes().len() > 1 {
                            assert(rects@[0].0 == pane);
                            assert(rects@[1].0 == pane);
                            assert(layout.panes()[0] == pane);
                            assert(layout.panes()[1] == pane);
                        }
                    }
                }
                self.tabs.remove(ti);
                if self.tabs.len() == 0 {
                    self.active_tab = 0;
                    proof {
                        assert(self@.tabs =~= Seq::<Tab>::empty());
                        assert(self@ == (SessionView {
                            tabs: Seq::empty(),
                            active_tab: 0,
                            ..before
                        }));
                    }
                    return Ok(CloseResult::SessionEmpty);
                }
                if ti < self.active_tab {
                    self.active_tab = self.active_tab - 1;
                }
                if self.active_tab > self.tabs.len() - 1 {
                    self.active_tab = self.tabs.len() - 1;
                }
                proof {
                    lemma_wf_remove_tab(before, ti as int, self.active_tab as int);
                    assert(self@ =~= (SessionView {
                        tabs: before.tabs.remove(ti as int),
                        active_tab: self.active_tab as int,
                        ..before
                    }));
                }
                Ok(CloseResult::TabClosed)
            },
        }
    }
}

/// The session after one tab step, `forward` or back, when it has tabs.
pub open spec fn step_tab(v: SessionView, forward: bool) -> SessionView {
    SessionView {
        active_tab: if forward {
            (v.active_tab + 1) % (v.tabs.len() as int)
        } else {
            (v.active_tab + v.tabs.len() - 1) % (v.tabs.len() as int)
        },
        ..v
    }
}

/// The session after `k` tab steps in one direction.
pub open spec fn step_tabs(v: SessionView, forward: bool, k: nat) -> SessionView
    decreases k,
{
    if k == 0 {
        v
    } else {
        step_tab(step_tabs(v, forward, (k - 1) as nat), forward)
    }
}

/// A tab step of a session with tabs is `step_tab`.
pub proof fn lemma_tab_stepped_is_step(o: SessionView, n: SessionView, forward: bool, r: Result<(), StateError>)
    requires
        tab_stepped(o, n, forward, r),
        o.tabs.len() > 0,
    ensures
        n == step_tab(o, forward),
{
}

/// A step to the next tab and one back, in either order, leave the session as it was.
pub proof fn lemma_tab_step_undone(
    o: SessionView,
    m: SessionView,
    n: SessionView,
    forward: bool,
    first: Result<(), StateError>,
    second: Result<(), StateError>,
)
    requires
        o.wf(),
        tab_stepped(o, m, forward, first),
        tab_stepped(m, n, !forward, second),
    ensures
        n == o,
{
    if o.tabs.len() > 0 {
        let len = o.tabs.len() as int;
        let a = o.active_tab;
        if forward {
            vstd::arithmetic::div_mod::lemma_add_mod_noop_right(len - 1, a + 1, len);
            vstd::arithmetic::div_mod::lemma_mod_add_multiples_vanish(a, len);
            vstd::arithmetic::div_mod::lemma_small_mod(a as nat, len as nat);
            assert(len - 1 + (a + 1) == len + a);
        } else {
            vstd::arithmetic::div_mod::lemma_add_mod_noop_right(1, a + len - 1, len);
            vstd::arithmetic::div_mod::lemma_mod_add_multiples_vanish(a, len);
            vstd::arithmetic::div_mod::lemma_small_mod(a as nat, len as nat);
            assert(1 + (a + len - 1) == len + a);
        }
        assert(n == o);
    }
}

/// After `k` tab steps forward the active tab is `k` further on, and after `k` steps
/// back `k` further back, around the ends; so as many steps as there are tabs, in
/// either direction, come back to the tab where they started.
pub proof fn lemma_tab_steps(v: SessionView, forward: bool, k: nat)
    requires
        v.wf(),
        v.tabs.len() > 0,
    ensures
        step_tabs(v, forward, k) == (SessionView {
            active_tab: if forward {
                (v.active_tab + k) % (v.tabs.len() as int)
            } else {
                (v.active_tab - k) % (v.tabs.len() as int)
            },
            ..v
        }),
        step_tabs(v, forward, v.tabs.len()) == v,
{
    lemma_tab_steps_exact(v, forward, k);
    lemma_tab_steps_around(v, forward);
}

proof fn lemma_tab_steps_around(v: SessionView, forward: bool)
    requires
        v.wf(),
        v.tabs.len() > 0,
    ensures
        step_tabs(v, forward, v.tabs.len()) == v,
{
    let len = v.tabs.len() as int;
    lemma_tab_steps_exact(v, forward, v.tabs.len());
    vstd::arithmetic::div_mod::lemma_small_mod(v.active_tab as nat, len as nat);
    if forward {
        vstd::arithmetic::div_mod::lemma_mod_add_multiples_vanish(v.active_tab, len);
        assert(v.active_tab + len == len + v.active_tab);
    } else {
        vstd::arithmetic::div_mod::lemma_mod_sub_multiples_vanish(v.active_tab, len);
        assert(v.active_tab - len == -len + v.active_tab);
    }
}

proof fn lemma_tab_steps_exact(v: SessionView, forward: bool, k: nat)
    requires
        v.wf(),
        v.tabs.len() > 0,
    ensures
        step_tabs(v, forward, k) == (SessionView {
            active_tab: if forward {
                (v.active_tab + k) % (v.tabs.len() as int)
            } else {
                (v.active_tab - k) % (v.tabs.len() as int)
            },
            ..v
        }),
    decreases k,
{
    let len = v.tabs.len() as int;
    if k > 0 {
        lemma_tab_steps_exact(v, forward, (k - 1) as nat);
        if forward {
            vstd::arithmetic::div_mod::lemma_add_mod_noop_right(1, v.active_tab + k - 1, len);
            assert(1 + (v.active_tab + k - 1) == v.active_tab + k);
        } else {
            vstd::arithmetic::div_mod::lemma_add_mod_noop_right(len - 1, v.active_tab - (k - 1), len);
            vstd::arithmetic::div_mod::lemma_mod_add_multiples_vanish(v.active_tab - k, len);
            assert(len - 1 + (v.active_tab - (k - 1)) == len + (v.active_tab - k));
        }
    } else {
        vstd::arithmetic::div_mod::lemma_small_mod(v.active_tab as nat, len as nat);
    }
}

/// A pane that a new tab or a split hands out is new: its number is the next one,
/// no tab of the session held it before, and the next number is one higher; so pane
/// numbers are never reused, even after panes close.
pub proof fn lemma_new_pane_is_fresh(o: SessionView, n: SessionView, r: Result<PaneId, StateError>, split: Option<(Split, Size)>)
    requires
        o.wf(),
        match split {
            None => tab_created(o, n, r),
            Some((direction, size)) => pane_split(o, n, direction, size, r),
        },
    ensures
        r matches Ok(pane) ==> {
            &&& pane.value() == o.next_pane
            &&& n.next_pane == o.next_pane + 1
            &&& forall|i: int| 0 <= i < o.tabs.len() ==> !(#[trigger] o.tabs[i]).layout.panes().contains(pane)
        },
        r is Err ==> n == o,
{
}

/// `r` lies within `area`.
pub open spec fn within(r: Rect, area: Rect) -> bool {
    &&& area.x <= r.x
    &&& r.x + r.width <= area.x + area.width
    &&& area.y <= r.y
    &&& r.y + r.height <= area.y + area.height
}

/// `a` and `b` share no cell: one of them is empty, or they lie side by side or one
/// above the other.
pub open spec fn apart(a: Rect, b: Rect) -> bool {
    ||| a.width == 0 || a.height == 0 || b.width == 0 || b.height == 0
    ||| a.x + a.width <= b.x || b.x + b.width <= a.x
    ||| a.y + a.height <= b.y || b.y + b.height <= a.y
}

/// The two children of a split lie within its rectangle, apart.
proof fn lemma_child_rects_tile(rect: Rect, split: Split, offset: i32, first: Layout, second: Layout)
    requires
        rect.x + rect.width <= u16::MAX,
        rect.y + rect.height <= u16::MAX,
    ensures
        within(child_rects_spec(rect, split, offset, first, second).0, rect),
        within(child_rects_spec(rect, split, offset, first, second).1, rect),
        match split {
            Split::LeftRight => child_rects_spec(rect, split, offset, first, second).0.x
                + child_rects_spec(rect, split, offset, first, second).0.width
                <= child_rects_spec(rect, split, offset, first, second).1.x,
            Split::TopBottom => child_rects_spec(rect, split, offset, first, second).0.y
                + child_rects_spec(rect, split, offset, first, second).0.height
                <= child_rects_spec(rect, split, offset, first, second).1.y,
        },
{
}

/// Apart rectangles stay apart when each is replaced by one within it.
proof fn lemma_apart_within(a: Rect, b: Rect, outer_a: Rect, outer_b: Rect, split: Split)
    requires
        within(a, outer_a),
        within(b, outer_b),
        match split {
            Split::LeftRight => outer_a.x + outer_a.width <= outer_b.x,
            Split::TopBottom => outer_a.y + outer_a.height <= outer_b.y,
        },
    ensures
        apart(a, b),
        apart(b, a),
{
}

impl Layout {
    /// Each pane's rectangle lies within the area, and no two share a cell.
    #[verifier::spinoff_prover]
    #[verifier::rlimit(50)]
    pub proof fn lemma_rects_tile(self, rect: Rect)
        requires
            rect.x + rect.width <= u16::MAX,
            rect.y + rect.height <= u16::MAX,
        ensures
            forall|i: int| 0 <= i < self.rects_in(rect).len() ==> within(#[trigger] self.rects_in(rect)[i].1, rect),
            forall|i: int, j: int|
                0 <= i < self.rects_in(rect).len() && 0 <= j < self.rects_in(rect).len() && i != j
                    ==> apart(#[trigger] self.rects_in(rect)[i].1, #[trigger] self.rects_in(rect)[j].1),
        decreases self,
    {
        match self {
            Layout::Pane(_) => {},
            Layout::Split { direction, offset, first, second } => {
                let (a, b) = child_rects_spec(rect, direction, offset, *first, *second);
                lemma_child_rects_tile(rect, direction, offset, *first, *second);
                first.lemma_rects_tile(a);
                second.lemma_rects_tile(b);
                let ra = first.rects_in(a);
                let rb = second.rects_in(b);
                let all = self.rects_in(rect);
                assert(all == ra + rb);
                let fl = ra.len() as int;
                assert forall|i: int| 0 <= i < all.len() implies within(#[trigger] all[i].1, rect) by {
                    if i < fl {
                        assert(all[i] == ra[i]);
                    } else {
                        assert(all[i] == rb[i - fl]);
                    }
                }
                assert forall|i: int, j: int|
                    0 <= i < all.len() && 0 <= j < all.len() && i != j
                        implies apart(#[trigger] all[i].1, #[trigger] all[j].1) by {
                    if i < fl && j < fl {
                        assert(all[i] == ra[i] && all[j] == ra[j]);
                    } else if i >= fl && j >= fl {
                        assert(all[i] == rb[i - fl] && all[j] == rb[j - fl]);
                    } else if i < fl {
                        assert(all[i] == ra[i] && all[j] == rb[j - fl]);
                        lemma_apart_within(all[i].1, all[j].1, a, b, direction);
                    } else {
                        assert(all[j] == ra[j] && all[i] == rb[i - fl]);
                        lemma_apart_within(all[j].1, all[i].1, a, b, direction);
                    }
                }
            },
        }
    }
}

/// The panes of the active tab, each with its rectangle: one for each pane of the
/// tab, with the active pane among them, each within the screen, and no two sharing
/// a cell. A session without tabs has none.
pub proof fn lemma_pane_rects_tile(v: SessionView, size: Size)
    requires
        v.wf(),
    ensures
        v.has_active_tab() ==> {
            let rects = v.active_rects(size);
            &&& rects.len() == v.tabs[v.active_tab].layout.panes().len()
            &&& forall|i: int| 0 <= i < rects.len() ==> (#[trigger] rects[i]).0 == v.tabs[v.active_tab].layout.panes()[i]
            &&& exists|i: int| 0 <= i < rects.len() && (#[trigger] rects[i]).0 == v.tabs[v.active_tab].active
            &&& forall|i: int| 0 <= i < rects.len() ==> within(#[trigger] rects[i].1, full_rect_spec(size))
            &&& forall|i: int, j: int| 0 <= i < rects.len() && 0 <= j < rects.len() && i != j
                ==> apart(#[trigger] rects[i].1, #[trigger] rects[j].1)
        },
{
    if v.has_active_tab() {
        let tab = v.tabs[v.active_tab];
        let full = full_rect_spec(size);
        tab.layout.lemma_rects_follow_panes(full);
        tab.layout.lemma_rects_tile(full);
        assert(tab.wf());
        let k = choose|k: int| 0 <= k < tab.layout.panes().len() && tab.layout.panes()[k] == tab.active;
        assert(v.active_rects(size)[k].0 == tab.active);
    }
}

/// `to` lies wholly on the `direction` side of `from`: its bottom row at or above
/// the top of `from` (up), its top at or below the bottom of `from` (down), and so
/// for left and right.
pub open spec fn lies_toward(from: Rect, to: Rect, direction: Direction) -> bool {
    match direction {
        Direction::Up => to.y + to.height <= from.y,
        Direction::Down => to.y >= from.y + from.height,
        Direction::Left => to.x + to.width <= from.x,
        Direction::Right => to.x >= from.x + from.width,
    }
}

/// The cells between `from` and `to` along `direction`.
pub open spec fn gap_toward(from: Rect, to: Rect, direction: Direction) -> int {
    match direction {
        Direction::Up => from.y - (to.y + to.height),
        Direction::Down => to.y - (from.y + from.height),
        Direction::Left => from.x - (to.x + to.width),
        Direction::Right => to.x - (from.x + from.width),
    }
}

proof fn lemma_candidate_toward(rects: Seq<(PaneId, Rect)>, active: PaneId, from: Rect, direction: Direction, i: int)
    requires
        0 <= i < rects.len(),
    ensures
        focus_candidate(rects, active, from, direction, i) <==> (rects[i].0 != active && lies_toward(
            from,
            rects[i].1,
            direction,
        )),
        focus_candidate(rects, active, from, direction, i) ==> focus_key(rects, from, direction, i).0
            == gap_toward(from, rects[i].1, direction),
{
}

/// Moving the focus picks a pane that lies wholly in the direction from the active
/// pane (above it for up, below it for down, and so for left and right), and no
/// such pane is nearer along the direction than the one picked. It fails exactly
/// when no other pane lies that way.
pub proof fn lemma_focus_direction(
    o: SessionView,
    n: SessionView,
    direction: Direction,
    size: Size,
    r: Result<PaneId, StateError>,
)
    requires
        o.wf(),
        o.has_active_tab(),
        pane_focused(o, n, direction, size, r),
    ensures
        ({
            let active = o.tabs[o.active_tab].active;
            let rects = o.active_rects(size);
            let from = rect_of(rects, active)->0;
            &&& r matches Ok(pane) ==> exists|i: int|
                #![trigger rects[i]]
                0 <= i < rects.len() && rects[i].0 == pane && pane != active && lies_toward(from, rects[i].1, direction)
                    && forall|j: int|
                    #![trigger rects[j]]
                    0 <= j < rects.len() && rects[j].0 != active && lies_toward(from, rects[j].1, direction)
                        ==> gap_toward(from, rects[i].1, direction) <= gap_toward(from, rects[j].1, direction)
            &&& r is Err <==> !exists|j: int|
                #![trigger rects[j]]
                0 <= j < rects.len() && rects[j].0 != active && lies_toward(from, rects[j].1, direction)
        }),
{
    let active = o.tabs[o.active_tab].active;
    let rects = o.active_rects(size);
    let from = rect_of(rects, active)->0;
    assert forall|j: int| 0 <= j < rects.len() implies (focus_candidate(rects, active, from, direction, j)
        <==> (rects[j].0 != active && lies_toward(from, rects[j].1, direction))) by {
        lemma_candidate_toward(rects, active, from, direction, j);
    }
    if let Ok(pane) = r {
        assert(is_focus_target(rects, active, from, direction, pane));
        let i = choose|i: int|
            #![trigger rects[i]]
            focus_candidate(rects, active, from, direction, i) && rects[i].0 == pane && forall|j: int|
                #![trigger rects[j]]
                focus_candidate(rects, active, from, direction, j) ==> key_le(
                    focus_key(rects, from, direction, i),
                    focus_key(rects, from, direction, j),
                );
        lemma_candidate_toward(rects, active, from, direction, i);
        assert forall|j: int|
            #![trigger rects[j]]
            0 <= j < rects.len() && rects[j].0 != active && lies_toward(from, rects[j].1, direction)
                implies gap_toward(from, rects[i].1, direction) <= gap_toward(from, rects[j].1, direction) by {
            lemma_candidate_toward(rects, active, from, direction, j);
            assert(focus_candidate(rects, active, from, direction, j));
            assert(key_le(focus_key(rects, from, direction, i), focus_key(rects, from, direction, j)));
        }
    }
    if r is Err {
        assert forall|j: int|
            #![trigger rects[j]]
            0 <= j < rects.len() implies !(rects[j].0 != active && lies_toward(from, rects[j].1, direction)) by {
            lemma_candidate_toward(rects, active, from, direction, j);
        }
    } else {
        let j = choose|j: int| focus_candidate(rects, active, from, direction, j);
        lemma_candidate_toward(rects, active, from, direction, j);
        assert(rects[j].0 != active && lies_toward(from, rects[j].1, direction));
    }
}

} // verus!
