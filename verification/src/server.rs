use std::collections::VecDeque;
use std::path::PathBuf;
use std::time::Duration;
use vstd::prelude::*;

use crate::config::Config;
use crate::input::{duration_from_millis, duration_nanos, Action, ActionView, MouseEvent};
use crate::outer::{from_wire, profile_name, wire_capabilities, Capabilities};
use crate::render::covering;
use crate::status::{append, message_view, owned, shown_pieces, status_tab_at, tab_hit, Metrics, StatusLine};
use crate::session::{
    full_rect_spec, resize_outcome, sat_add16, sat_sub16, Direction, PaneId, Rect, Session,
    SessionView, Size, Tab,
};
use crate::terminal::{Modes, MouseMode, MAX_SCREEN_CELLS};
use crate::text::{starts_with, bytes_equal, decimal, decimal_text, push_decimal, push_decimal_text, utf8};
use crate::viewer::{RepeatDirection, SearchDirection, SearchMode};

verus! {

/// How long the server waits for events when nothing is due, in milliseconds.
pub const LISTENER_POLL_DELAY_MS: u64 = 50;

/// Most cells that one mouse event drags a border.
pub const MAX_MOUSE_DRAG_CELLS: u16 = 256;

/// A movement that the file viewer is asked for.
#[derive(Clone, Copy, Debug, Eq, PartialEq, Structural)]
pub enum ViewerIntent {
    Scroll(i32),
    Horizontal(i32),
    Viewport(i32),
    Page { rows: u16, forward: bool },
    HalfPage { rows: u16, forward: bool },
    LineStart,
    LineEnd { columns: usize },
    Top,
    Bottom,
}

/// A movement and the client that asked for it.
#[derive(Clone, Copy, Debug, Eq, PartialEq, Structural)]
pub struct ViewerNavigation {
    pub intent: ViewerIntent,
    pub client_id: u64,
}

/// Holds back viewer movements while one is being drawn: repeats of the movement
/// in flight are dropped, and only the latest different one waits.
#[derive(Clone, Copy, Debug, Eq, PartialEq, Structural)]
pub struct ViewerGate {
    pub generation: u64,
    pub in_flight: bool,
    pub current_intent: Option<ViewerIntent>,
    pub replacement: Option<ViewerNavigation>,
}

/// What becomes of a movement offered while another may be drawn.
#[derive(Clone, Copy, Debug, Eq, PartialEq, Structural)]
pub enum ViewerGateDecision {
    /// Nothing is in flight: draw it now.
    Dispatch(ViewerNavigation),
    /// It waits in place of any earlier waiting movement.
    Replaced,
    /// It repeats the movement in flight.
    Dropped,
}

pub open spec fn idle_gate() -> ViewerGate {
    ViewerGate { generation: 0, in_flight: false, current_intent: None, replacement: None }
}

impl Default for ViewerGate {
    fn default() -> (r: ViewerGate)
        ensures
            r == idle_gate(),
    {
        ViewerGate { generation: 0, in_flight: false, current_intent: None, replacement: None }
    }
}

pub open spec fn next_generation(generation: u64) -> u64 {
    if generation == u64::MAX {
        0
    } else {
        (generation + 1) as u64
    }
}

/// The holding state and its decision after a movement is offered.
pub open spec fn gate_accept(gate: ViewerGate, navigation: ViewerNavigation) -> (ViewerGate, ViewerGateDecision) {
    if !gate.in_flight {
        (gate, ViewerGateDecision::Dispatch(navigation))
    } else if gate.current_intent == Some(navigation.intent) {
        (gate, ViewerGateDecision::Dropped)
    } else {
        (
            ViewerGate {
                current_intent: Some(navigation.intent),
                replacement: Some(navigation),
                ..gate
            },
            ViewerGateDecision::Replaced,
        )
    }
}

/// The holding state once a movement starts to be drawn.
pub open spec fn gate_begin(gate: ViewerGate, intent: ViewerIntent) -> ViewerGate {
    ViewerGate {
        generation: next_generation(gate.generation),
        in_flight: true,
        current_intent: Some(intent),
        ..gate
    }
}

/// The holding state and the movement waiting, once the one in flight is drawn.
pub open spec fn gate_finish(gate: ViewerGate) -> (ViewerGate, Option<ViewerNavigation>) {
    if !gate.in_flight {
        (gate, None)
    } else {
        (
            ViewerGate { in_flight: false, current_intent: None, replacement: None, ..gate },
            gate.replacement,
        )
    }
}

/// The holding state once the viewer is closed or its work abandoned.
pub open spec fn gate_cancel(gate: ViewerGate) -> ViewerGate {
    ViewerGate {
        generation: next_generation(gate.generation),
        in_flight: false,
        current_intent: None,
        replacement: None,
    }
}

impl ViewerGate {
    pub fn accept(&mut self, navigation: ViewerNavigation) -> (r: ViewerGateDecision)
        ensures
            (*final(self), r) == gate_accept(*old(self), navigation),
    {
        if !self.in_flight {
            return ViewerGateDecision::Dispatch(navigation);
        }
        let same = match self.current_intent {
            Some(intent) => intent == navigation.intent,
            None => false,
        };
        if same {
            return ViewerGateDecision::Dropped;
        }
        self.current_intent = Some(navigation.intent);
        self.replacement = Some(navigation);
        ViewerGateDecision::Replaced
    }

    pub fn begin(&mut self, intent: ViewerIntent)
        ensures
            *final(self) == gate_begin(*old(self), intent),
    {
        self.generation = self.generation.wrapping_add(1);
        self.in_flight = true;
        self.current_intent = Some(intent);
    }

    pub fn finish(&mut self) -> (r: Option<ViewerNavigation>)
        ensures
            (*final(self), r) == gate_finish(*old(self)),
    {
        if !self.in_flight {
            return None;
        }
        self.in_flight = false;
        self.current_intent = None;
        let replacement = self.replacement;
        self.replacement = None;
        replacement
    }

    pub fn cancel(&mut self)
        ensures
            *final(self) == gate_cancel(*old(self)),
    {
        self.generation = self.generation.wrapping_add(1);
        self.in_flight = false;
        self.current_intent = None;
        self.replacement = None;
    }
}

/// Repeats of the movement being drawn are dropped however often they come, and
/// leave everything as it was.
pub proof fn lemma_gate_drops_repeats(gate: ViewerGate, intent: ViewerIntent, client_id: u64)
    ensures
        ({
            let busy = gate_begin(gate, intent);
            let navigation = ViewerNavigation { intent, client_id };
            gate_accept(busy, navigation) == (busy, ViewerGateDecision::Dropped)
        }),
{
}

/// While a movement is drawn, at most one other waits: the latest different one.
pub proof fn lemma_gate_latest_waits(
    gate: ViewerGate,
    intent: ViewerIntent,
    first: ViewerNavigation,
    second: ViewerNavigation,
)
    requires
        first.intent != intent,
        second.intent != first.intent,
    ensures
        ({
            let busy = gate_begin(gate, intent);
            let after = gate_accept(gate_accept(busy, first).0, second).0;
            gate_finish(after).1 == Some(second)
        }),
{
}

/// Closing the viewer leaves nothing in flight or waiting, and moves the generation on.
pub proof fn lemma_gate_cancel_clears(gate: ViewerGate)
    ensures
        gate_cancel(gate).replacement is None,
        !gate_cancel(gate).in_flight,
        gate_cancel(gate).current_intent is None,
        gate.generation < u64::MAX ==> gate_cancel(gate).generation > gate.generation,
        gate_finish(gate_cancel(gate)).1 is None,
{
}

/// A viewer search waiting for the viewer to answer.
#[derive(Clone, Debug, Eq, PartialEq)]
pub enum PendingViewerSearch {
    New { client_id: u64, query: Vec<u8>, mode: SearchMode, direction: SearchDirection },
    Repeat { client_id: u64, relation: RepeatDirection },
}

/// The search that a new search records: who asked, and how it searches; a repeat
/// records nothing new.
pub fn new_viewer_search_state(pending: &PendingViewerSearch) -> (r: Option<
    (u64, SearchMode, SearchDirection),
>)
    ensures
        r == (match pending {
            PendingViewerSearch::New { client_id, mode, direction, .. } => Some(
                (*client_id, *mode, *direction),
            ),
            PendingViewerSearch::Repeat { .. } => None,
        }),
{
    match pending {
        PendingViewerSearch::New { client_id, mode, direction, .. } => Some(
            (*client_id, *mode, *direction),
        ),
        PendingViewerSearch::Repeat { .. } => None,
    }
}

pub open spec fn marker(mode: SearchMode, direction: SearchDirection) -> Seq<char> {
    match (mode, direction) {
        (SearchMode::Matching, SearchDirection::Forward) => "/"@,
        (SearchMode::Matching, SearchDirection::Reverse) => "?"@,
        (SearchMode::NonMatching, SearchDirection::Forward) => "]"@,
        (SearchMode::NonMatching, SearchDirection::Reverse) => "["@,
    }
}

/// The key that starts a search of this kind, shown before its query.
pub fn search_marker(mode: SearchMode, direction: SearchDirection) -> (r: &'static str)
    ensures
        r@ == marker(mode, direction),
{
    match (mode, direction) {
        (SearchMode::Matching, SearchDirection::Forward) => "/",
        (SearchMode::Matching, SearchDirection::Reverse) => "?",
        (SearchMode::NonMatching, SearchDirection::Forward) => "]",
        (SearchMode::NonMatching, SearchDirection::Reverse) => "[",
    }
}

pub open spec fn wrap_status(direction: SearchDirection) -> Seq<char> {
    match direction {
        SearchDirection::Forward => "search hit BOTTOM, continuing at TOP"@,
        SearchDirection::Reverse => "search hit TOP, continuing at BOTTOM"@,
    }
}

/// What the status line says when a search wraps around the file.
pub fn viewer_wrap_status(direction: SearchDirection) -> (r: &'static str)
    ensures
        r@ == wrap_status(direction),
{
    match direction {
        SearchDirection::Forward => "search hit BOTTOM, continuing at TOP",
        SearchDirection::Reverse => "search hit TOP, continuing at BOTTOM",
    }
}

/// The pane's application asked for this kind of mouse event.
pub open spec fn wants_mouse(mode: MouseMode, event: MouseEvent) -> bool {
    let motion = event.code & 32 != 0;
    match mode {
        MouseMode::Off => false,
        MouseMode::Press => !motion,
        MouseMode::Drag => !motion || event.code & 3 != 3,
        MouseMode::Motion => true,
    }
}

pub fn forwards_mouse(mode: MouseMode, event: MouseEvent) -> (r: bool)
    ensures
        r == wants_mouse(mode, event),
{
    let motion = event.code & 32 != 0;
    match mode {
        MouseMode::Off => false,
        MouseMode::Press => !motion,
        MouseMode::Drag => !motion || event.code & 3 != 3,
        MouseMode::Motion => true,
    }
}

/// A coordinate relative to `origin`, one-based, or `None` left of or above it.
pub open spec fn relative(value: u16, origin: u16) -> Option<u16> {
    if value < origin {
        None
    } else if value - origin == u16::MAX {
        Some(u16::MAX)
    } else {
        Some((value - origin + 1) as u16)
    }
}

/// A mouse event as the pane's application expects it: in SGR form, or in the
/// classic form where every number fits.
pub open spec fn mouse_report_for(event: MouseEvent, rect: Rect, sgr: bool) -> Option<Seq<u8>> {
    match (relative(event.x, rect.x), relative(event.y, rect.y)) {
        (Some(x), Some(y)) => if sgr {
            Some(
                seq![27u8, 91u8, 60u8] + decimal(event.code as nat) + seq![59u8] + decimal(
                    x as nat,
                ) + seq![59u8] + decimal(y as nat) + seq![
                    if event.release {
                        109u8
                    } else {
                        77u8
                    },
                ],
            )
        } else {
            let code = if event.release {
                3u16
            } else {
                event.code
            };
            if code > 223 || x > 223 || y > 223 {
                None
            } else {
                Some(
                    seq![27u8, 91u8, 77u8, (code + 32) as u8, (x + 32) as u8, (y + 32) as u8],
                )
            }
        },
        _ => None,
    }
}

pub fn encode_mouse(event: MouseEvent, rect: Rect, sgr: bool) -> (r: Option<Vec<u8>>)
    ensures
        match r {
            Some(bytes) => mouse_report_for(event, rect, sgr) == Some(bytes@),
            None => mouse_report_for(event, rect, sgr) is None,
        },
{
    if event.x < rect.x || event.y < rect.y {
        return None;
    }
    let x = (event.x - rect.x).saturating_add(1);
    let y = (event.y - rect.y).saturating_add(1);
    if sgr {
        let mut out: Vec<u8> = Vec::new();
        out.push(27);
        out.push(91);
        out.push(60);
        push_decimal(&mut out, event.code as u64);
        out.push(59);
        push_decimal(&mut out, x as u64);
        out.push(59);
        push_decimal(&mut out, y as u64);
        out.push(
            if event.release {
                109
            } else {
                77
            },
        );
        proof {
            assert(out@ =~= seq![27u8, 91u8, 60u8] + decimal(event.code as nat) + seq![59u8]
                + decimal(x as nat) + seq![59u8] + decimal(y as nat) + seq![
                if event.release {
                    109u8
                } else {
                    77u8
                },
            ]);
        }
        return Some(out);
    }
    let code: u16 = if event.release {
        3
    } else {
        event.code
    };
    if code > 223 || x > 223 || y > 223 {
        return None;
    }
    let mut out: Vec<u8> = Vec::new();
    out.push(27);
    out.push(91);
    out.push(77);
    out.push((code + 32) as u8);
    out.push((x + 32) as u8);
    out.push((y + 32) as u8);
    proof {
        assert(out@ =~= seq![27u8, 91u8, 77u8, (code + 32) as u8, (x + 32) as u8, (y + 32) as u8]);
    }
    Some(out)
}

/// The cell lies inside the rectangle (whose far edges stop at the largest coordinate).
pub open spec fn inside(rect: Rect, x: u16, y: u16) -> bool {
    x >= rect.x && x < crate::session::sat_add16(rect.x, rect.width) && y >= rect.y && y
        < crate::session::sat_add16(rect.y, rect.height)
}

pub fn rect_contains(rect: Rect, x: u16, y: u16) -> (r: bool)
    ensures
        r == inside(rect, x, y),
{
    x >= rect.x && x < rect.x.saturating_add(rect.width) && y >= rect.y && y
        < rect.y.saturating_add(rect.height)
}

/// The panes' share of the window: all but the status row, at least one cell.
pub open spec fn pane_area_of(size: Size) -> Size {
    Size {
        columns: if size.columns >= 1 {
            size.columns
        } else {
            1
        },
        rows: if size.rows >= 2 {
            (size.rows - 1) as u16
        } else {
            1
        },
    }
}

pub fn pane_area(size: Size) -> (r: Size)
    ensures
        r == pane_area_of(size),
{
    Size {
        columns: if size.columns >= 1 {
            size.columns
        } else {
            1
        },
        rows: if size.rows >= 2 {
            size.rows - 1
        } else {
            1
        },
    }
}

/// The status line of the scrollback view: shorter on narrow windows, with the
/// search shown where there is room.
pub open spec fn scroll_message(width: usize, percent: usize, query: Option<Seq<char>>) -> Seq<char> {
    let head = "SCROLL "@ + decimal_text(percent as nat) + if width >= 110 {
        "% | Up/k up Down/j down PgUp/PgDn page g/G ends / search n/N match q/Esc exit"@
    } else if width >= 70 {
        "% | Up/Down j/k PgUp/PgDn / n/N q/Esc"@
    } else {
        "% | j/k Pg / Esc"@
    };
    match query {
        Some(q) => if width >= 70 {
            head + "  /"@ + q
        } else {
            head
        },
        None => head,
    }
}

pub open spec fn text_option(text: Option<&str>) -> Option<Seq<char>> {
    match text {
        Some(t) => Some(t@),
        None => None,
    }
}

pub fn scroll_status_message(width: usize, percent: usize, query: Option<&str>) -> (r: String)
    ensures
        r@ == scroll_message(width, percent, text_option(query)),
{
    let mut message = String::from_str("SCROLL ");
    push_decimal_text(&mut message, percent as u64);
    if width >= 110 {
        message.append(
            "% | Up/k up Down/j down PgUp/PgDn page g/G ends / search n/N match q/Esc exit",
        );
    } else if width >= 70 {
        message.append("% | Up/Down j/k PgUp/PgDn / n/N q/Esc");
    } else {
        message.append("% | j/k Pg / Esc");
    }
    if let Some(query) = query {
        if width >= 70 {
            message.append("  /");
            message.append(query);
        }
    }
    message
}

/// How far from the oldest line the scrollback view is, in percent: 100 at the live
/// screen or when there is nothing to scroll.
pub open spec fn scroll_percent_of(offset: usize, maximum: usize) -> usize {
    let scaled = if offset * 100 > usize::MAX {
        usize::MAX as int
    } else {
        offset * 100
    };
    if maximum == 0 {
        100
    } else if scaled / maximum as int >= 100 {
        0
    } else {
        (100 - scaled / maximum as int) as usize
    }
}

pub fn scroll_percent(offset: usize, maximum: usize) -> (r: usize)
    ensures
        r == scroll_percent_of(offset, maximum),
{
    let scaled = if offset > usize::MAX / 100 {
        usize::MAX
    } else {
        offset * 100
    };
    if maximum == 0 {
        100
    } else {
        let position = scaled / maximum;
        if position >= 100 {
            0
        } else {
            100 - position
        }
    }
}

/// Rows of help that one page shows: all but the status row of the window.
pub open spec fn help_page_rows(size: Option<Size>) -> nat {
    match size {
        Some(s) => if s.rows >= 2 {
            (s.rows - 1) as nat
        } else {
            1
        },
        None => 1,
    }
}

/// The status line of the help view: the page shown and the number of pages.
pub open spec fn help_message(size: Option<Size>, offset: usize, maximum: usize) -> Seq<char> {
    let rows = help_page_rows(size) as int;
    let page = (offset as int / rows + 1) as nat;
    let pages = ((maximum as int + rows - 1) / rows + 1) as nat;
    let width = match size {
        Some(s) => s.columns as nat,
        None => 0,
    };
    "HELP "@ + decimal_text(page) + "/"@ + decimal_text(pages) + if width >= 75 {
        " | Up/Down or j/k line PgUp/PgDn page q/Esc exit"@
    } else {
        " | j/k Pg q/Esc"@
    }
}

pub fn help_status_message(size: Option<Size>, offset: usize, maximum: usize) -> (r: String)
    requires
        offset < usize::MAX,
        maximum < usize::MAX,
    ensures
        r@ == help_message(size, offset, maximum),
{
    let rows: usize = match size {
        Some(s) => if s.rows >= 2 {
            (s.rows - 1) as usize
        } else {
            1
        },
        None => 1,
    };
    let page = offset / rows + 1;
    assert(maximum / rows + (if maximum % rows == 0 {
        0int
    } else {
        1int
    }) <= maximum) by (nonlinear_arith)
        requires
            rows >= 1,
    ;
    let pages = maximum / rows + if maximum % rows == 0 {
        0
    } else {
        1
    } + 1;
    proof {
        let r = rows as int;
        let m = maximum as int;
        assert((m + r - 1) / r == m / r + if m % r == 0 {
            0int
        } else {
            1int
        }) by (nonlinear_arith)
            requires
                r >= 1,
        ;
    }
    let width: u16 = match size {
        Some(s) => s.columns,
        None => 0,
    };
    let mut message = String::from_str("HELP ");
    push_decimal_text(&mut message, page as u64);
    message.append("/");
    push_decimal_text(&mut message, pages as u64);
    if width >= 75 {
        message.append(" | Up/Down or j/k line PgUp/PgDn page q/Esc exit");
    } else {
        message.append(" | j/k Pg q/Esc");
    }
    message
}

/// The first pane, in layout order, whose rectangle holds the cell.
pub open spec fn pane_at(rects: Seq<(PaneId, Rect)>, x: u16, y: u16, i: int) -> Option<PaneId>
    decreases rects.len() - i,
{
    if i < 0 || i >= rects.len() {
        None
    } else if inside(rects[i].1, x, y) {
        Some(rects[i].0)
    } else {
        pane_at(rects, x, y, i + 1)
    }
}

pub open spec fn neighbor_of(rects: Seq<(PaneId, Rect)>, x: Option<u16>, y: Option<u16>) -> Option<PaneId> {
    match (x, y) {
        (Some(x), Some(y)) => pane_at(rects, x, y, 0),
        _ => None,
    }
}

/// The pane at a cell, when the cell exists.
pub fn neighbor(rects: &[(PaneId, Rect)], x: Option<u16>, y: Option<u16>) -> (r: Option<PaneId>)
    ensures
        r == neighbor_of(rects@, x, y),
{
    if x.is_none() || y.is_none() {
        return None;
    }
    let column = x.unwrap();
    let row = y.unwrap();
    let mut i: usize = 0;
    while i < rects.len()
        invariant
            i <= rects@.len(),
            x == Some(column),
            y == Some(row),
            pane_at(rects@, column, row, i as int) == pane_at(rects@, column, row, 0),
        decreases rects.len() - i,
    {
        let (pane, rect) = rects[i];
        proof {
            assert(rects@[i as int].0 == pane && rects@[i as int].1 == rect);
        }
        if rect_contains(rect, column, row) {
            return Some(pane);
        }
        i += 1;
    }
    None
}

pub open spec fn step_back(value: u16) -> Option<u16> {
    if value == 0 {
        None
    } else {
        Some((value - 1) as u16)
    }
}

pub open spec fn step_on(value: u16) -> Option<u16> {
    if value == u16::MAX {
        None
    } else {
        Some((value + 1) as u16)
    }
}

pub open spec fn distance(a: u16, b: u16) -> u16 {
    if a >= b {
        (a - b) as u16
    } else {
        (b - a) as u16
    }
}

/// The panes of the active tab and their rectangles.
pub open spec fn shown_rects(v: SessionView, size: Size) -> Seq<(PaneId, Rect)> {
    if v.has_active_tab() {
        v.active_rects(size)
    } else {
        Seq::empty()
    }
}

/// The pane behind the border, and the way its divider moves, for one step of a drag
/// towards the cell.
pub open spec fn border_target(
    v: SessionView,
    size: Size,
    horizontal: bool,
    x: u16,
    y: u16,
    border: (u16, u16),
) -> Option<(PaneId, Direction)> {
    let rects = shown_rects(v, size);
    if horizontal && x > border.0 {
        match neighbor_of(rects, step_back(border.0), Some(border.1)) {
            Some(pane) => Some((pane, Direction::Right)),
            None => None,
        }
    } else if horizontal {
        match neighbor_of(rects, step_on(border.0), Some(border.1)) {
            Some(pane) => Some((pane, Direction::Left)),
            None => None,
        }
    } else if y > border.1 {
        match neighbor_of(rects, Some(border.0), step_back(border.1)) {
            Some(pane) => Some((pane, Direction::Down)),
            None => None,
        }
    } else {
        match neighbor_of(rects, Some(border.0), step_on(border.1)) {
            Some(pane) => Some((pane, Direction::Up)),
            None => None,
        }
    }
}

/// The session with `pane` focused, when the active tab holds it.
pub open spec fn focused(v: SessionView, pane: PaneId) -> SessionView {
    if v.has_active_tab() && v.tabs[v.active_tab].layout.panes().contains(pane) {
        v.with_tab(v.active_tab, Tab { active: pane, layout: v.tabs[v.active_tab].layout })
    } else {
        v
    }
}

/// The session after the active pane's divider moves, or `None` when it cannot.
pub open spec fn divider_moved(v: SessionView, direction: Direction, size: Size) -> Option<SessionView> {
    if !v.has_active_tab() {
        None
    } else {
        let tab = v.tabs[v.active_tab];
        let (layout, result) = tab.layout.resize_spec(tab.active, direction, full_rect_spec(size));
        if resize_outcome(result) is Err {
            None
        } else {
            Some(v.with_tab(v.active_tab, Tab { layout, active: tab.active }))
        }
    }
}

pub open spec fn next_border(border: (u16, u16), horizontal: bool, x: u16, y: u16) -> (u16, u16) {
    if horizontal {
        (
            if x > border.0 {
                sat_add16(border.0, 1)
            } else {
                sat_sub16(border.0, 1)
            },
            border.1,
        )
    } else {
        (
            border.0,
            if y > border.1 {
                sat_add16(border.1, 1)
            } else {
                sat_sub16(border.1, 1)
            },
        )
    }
}

/// A border drag of up to `steps` cells: each step focuses the pane behind the
/// border and moves its divider, until a step finds no pane or cannot move.
pub open spec fn drag(
    v: SessionView,
    size: Size,
    horizontal: bool,
    x: u16,
    y: u16,
    border: (u16, u16),
    steps: nat,
    moved: bool,
) -> (SessionView, (u16, u16), bool)
    decreases steps,
{
    if steps == 0 {
        (v, border, moved)
    } else {
        match border_target(v, size, horizontal, x, y, border) {
            None => (v, border, moved),
            Some((pane, direction)) => {
                let chosen = focused(v, pane);
                match divider_moved(chosen, direction, size) {
                    None => (chosen, border, moved),
                    Some(next) => drag(
                        next,
                        size,
                        horizontal,
                        x,
                        y,
                        next_border(border, horizontal, x, y),
                        (steps - 1) as nat,
                        true,
                    ),
                }
            },
        }
    }
}

pub open spec fn drags_horizontally(start: (u16, u16), x: u16, y: u16) -> bool {
    distance(x, start.0) >= distance(y, start.1)
}

pub open spec fn drag_steps(start: (u16, u16), x: u16, y: u16) -> nat {
    let d = if drags_horizontally(start, x, y) {
        distance(x, start.0)
    } else {
        distance(y, start.1)
    };
    if d > MAX_MOUSE_DRAG_CELLS {
        MAX_MOUSE_DRAG_CELLS as nat
    } else {
        d as nat
    }
}

fn abs_diff(a: u16, b: u16) -> (r: u16)
    ensures
        r == distance(a, b),
{
    if a >= b {
        a - b
    } else {
        b - a
    }
}

/// Drags the border grabbed at `start` towards the cell `(x, y)`, along the axis the
/// pointer moved most; the border's new cell, or `None` when nothing moved.
pub fn resize_border(session: &mut Session, size: Size, start: (u16, u16), x: u16, y: u16) -> (r:
    Option<(u16, u16)>)
    requires
        old(session)@.wf(),
    ensures
        final(session)@.wf(),
        ({
            let (v, border, moved) = drag(
                old(session)@,
                size,
                drags_horizontally(start, x, y),
                x,
                y,
                start,
                drag_steps(start, x, y),
                false,
            );
            &&& final(session)@ == v
            &&& r == if moved {
                Some(border)
            } else {
                None
            }
        }),
{
    let horizontal = abs_diff(x, start.0) >= abs_diff(y, start.1);
    let distance = if horizontal {
        abs_diff(x, start.0)
    } else {
        abs_diff(y, start.1)
    };
    let steps = if distance > MAX_MOUSE_DRAG_CELLS {
        MAX_MOUSE_DRAG_CELLS
    } else {
        distance
    };
    let ghost goal = drag(session@, size, horizontal, x, y, start, steps as nat, false);
    let mut border = start;
    let mut moved = false;
    let mut remaining: u16 = steps;
    loop
        invariant_except_break
            drag(session@, size, horizontal, x, y, border, remaining as nat, moved) == goal,
        invariant
            session@.wf(),
        ensures
            session@.wf(),
            goal == (session@, border, moved),
        decreases remaining,
    {
        if remaining == 0 {
            break;
        }
        match drag_step(session, size, horizontal, x, y, border) {
            None => break,
            Some(next) => {
                border = next;
                moved = true;
                remaining -= 1;
            },
        }
    }
    if moved {
        Some(border)
    } else {
        None
    }
}

/// One cell of a border drag.
fn drag_step(session: &mut Session, size: Size, horizontal: bool, x: u16, y: u16, border: (
    u16,
    u16,
)) -> (r: Option<(u16, u16)>)
    requires
        old(session)@.wf(),
    ensures
        final(session)@.wf(),
        match border_target(old(session)@, size, horizontal, x, y, border) {
            None => r is None && final(session)@ == old(session)@,
            Some((pane, direction)) => {
                let chosen = focused(old(session)@, pane);
                match divider_moved(chosen, direction, size) {
                    None => r is None && final(session)@ == chosen,
                    Some(next) => final(session)@ == next && r == Some(
                        next_border(border, horizontal, x, y),
                    ),
                }
            },
        },
{
    let rects = session.pane_rects(size);
    let choice = if horizontal && x > border.0 {
        let column = if border.0 == 0 {
            None
        } else {
            Some(border.0 - 1)
        };
        match neighbor(rects.as_slice(), column, Some(border.1)) {
            Some(pane) => Some((pane, Direction::Right)),
            None => None,
        }
    } else if horizontal {
        let column = if border.0 == u16::MAX {
            None
        } else {
            Some(border.0 + 1)
        };
        match neighbor(rects.as_slice(), column, Some(border.1)) {
            Some(pane) => Some((pane, Direction::Left)),
            None => None,
        }
    } else if y > border.1 {
        let row = if border.1 == 0 {
            None
        } else {
            Some(border.1 - 1)
        };
        match neighbor(rects.as_slice(), Some(border.0), row) {
            Some(pane) => Some((pane, Direction::Down)),
            None => None,
        }
    } else {
        let row = if border.1 == u16::MAX {
            None
        } else {
            Some(border.1 + 1)
        };
        match neighbor(rects.as_slice(), Some(border.0), row) {
            Some(pane) => Some((pane, Direction::Up)),
            None => None,
        }
    };
    let (pane, direction) = match choice {
        Some(choice) => choice,
        None => return None,
    };
    session.select_pane(pane);
    if session.resize(direction, size).is_err() {
        return None;
    }
    let mut border = border;
    if horizontal {
        border.0 = if x > border.0 {
            border.0.saturating_add(1)
        } else {
            border.0.saturating_sub(1)
        };
    } else {
        border.1 = if y > border.1 {
            border.1.saturating_add(1)
        } else {
            border.1.saturating_sub(1)
        };
    }
    Some(border)
}

/// The bytes of the chunks, in order.
pub open spec fn joined(chunks: Seq<Seq<u8>>) -> Seq<u8>
    decreases chunks.len(),
{
    if chunks.len() == 0 {
        Seq::empty()
    } else {
        chunks[0] + joined(chunks.drop_first())
    }
}

/// Queuing one more chunk appends its bytes to what is queued.
pub proof fn lemma_joined_push(chunks: Seq<Seq<u8>>, chunk: Seq<u8>)
    ensures
        joined(chunks.push(chunk)) == joined(chunks) + chunk,
    decreases chunks.len(),
{
    if chunks.len() == 0 {
        let pushed = chunks.push(chunk);
        assert(pushed.drop_first() =~= Seq::<Seq<u8>>::empty());
        assert(joined(pushed.drop_first()) == Seq::<u8>::empty());
        assert(pushed[0] == chunk);
        assert(joined(chunks) == Seq::<u8>::empty());
        assert(joined(pushed) =~= joined(chunks) + chunk);
    } else {
        lemma_joined_push(chunks.drop_first(), chunk);
        assert(chunks.push(chunk).drop_first() =~= chunks.drop_first().push(chunk));
        assert(joined(chunks.push(chunk)) =~= joined(chunks) + chunk);
    }
}

/// Input waiting to be written to a pane, in the chunks it came in.
#[derive(Debug)]
pub struct PendingInput {
    chunks: VecDeque<Vec<u8>>,
    offset: usize,
}

pub struct PendingInputView {
    pub chunks: Seq<Seq<u8>>,
    /// Bytes of the first chunk already written.
    pub offset: int,
}

impl PendingInputView {
    /// No chunk is empty, and what was written of the first is less than all of it.
    pub open spec fn wf(self) -> bool {
        &&& forall|i: int| 0 <= i < self.chunks.len() ==> #[trigger] self.chunks[i].len() > 0
        &&& if self.chunks.len() == 0 {
            self.offset == 0
        } else {
            0 <= self.offset < self.chunks[0].len()
        }
    }

    /// The bytes still to write.
    pub open spec fn unwritten(self) -> Seq<u8> {
        joined(self.chunks).skip(self.offset)
    }
}

impl View for PendingInput {
    type V = PendingInputView;

    closed spec fn view(&self) -> PendingInputView {
        PendingInputView {
            chunks: self.chunks@.map_values(|chunk: Vec<u8>| chunk@),
            offset: self.offset as int,
        }
    }
}

impl PendingInput {
    pub fn new() -> (r: PendingInput)
        ensures
            r@.wf(),
            r@.unwritten() == Seq::<u8>::empty(),
    {
        let r = PendingInput { chunks: VecDeque::new(), offset: 0 };
        proof {
            assert(r@.chunks =~= Seq::<Seq<u8>>::empty());
            assert(r@.unwritten() =~= Seq::<u8>::empty());
        }
        r
    }

    pub fn is_empty(&self) -> (r: bool)
        requires
            self@.wf(),
        ensures
            r == (self@.unwritten().len() == 0),
    {
        proof {
            if self@.chunks.len() > 0 {
                assert(joined(self@.chunks).len() >= self@.chunks[0].len());
            } else {
                assert(joined(self@.chunks) =~= Seq::<u8>::empty());
            }
        }
        self.chunks.len() == 0
    }

    /// Queues bytes after those waiting; nothing is queued for no bytes.
    pub fn push(&mut self, bytes: Vec<u8>)
        requires
            old(self)@.wf(),
        ensures
            final(self)@.wf(),
            final(self)@.unwritten() == old(self)@.unwritten() + bytes@,
    {
        if bytes.len() > 0 {
            let ghost before = self@;
            let ghost added = bytes@;
            self.chunks.push_back(bytes);
            proof {
                assert(self@.chunks =~= before.chunks.push(added));
                lemma_joined_push(before.chunks, added);
                if before.chunks.len() > 0 {
                    assert(self@.chunks[0] == before.chunks[0]);
                }
                assert(self@.unwritten() =~= before.unwritten() + added);
            }
        } else {
            proof {
                assert(bytes@ =~= Seq::<u8>::empty());
                assert(self@.unwritten() =~= old(self)@.unwritten() + bytes@);
            }
        }
    }

    /// The rest of the first waiting chunk, to be written next.
    pub fn unwritten(&self) -> (r: Option<&[u8]>)
        requires
            self@.wf(),
        ensures
            self@.chunks.len() == 0 <==> r is None,
            r matches Some(bytes) ==> bytes@ == self@.chunks[0].skip(self@.offset) && bytes@.len()
                > 0 && bytes@.is_prefix_of(self@.unwritten()),
    {
        if self.chunks.len() == 0 {
            return None;
        }
        let chunk = &self.chunks[0];
        let rest = vstd::slice::slice_subrange(chunk.as_slice(), self.offset, chunk.len());
        proof {
            let v = self@;
            assert(joined(v.chunks) == v.chunks[0] + joined(v.chunks.drop_first()));
            assert(rest@ =~= v.chunks[0].skip(v.offset));
            assert forall|i: int| 0 <= i < rest@.len() implies rest@[i] == v.unwritten()[i] by {
                assert(v.unwritten()[i] == joined(v.chunks)[v.offset + i]);
            }
        }
        Some(rest)
    }

    /// Writes everything waiting to `out`, in order, and leaves nothing waiting.
    pub fn flush(&mut self, out: &mut Vec<u8>)
        requires
            old(self)@.wf(),
        ensures
            final(self)@.wf(),
            final(self)@.unwritten().len() == 0,
            final(out)@ == old(out)@ + old(self)@.unwritten(),
    {
        let ghost goal = old(out)@ + old(self)@.unwritten();
        loop
            invariant
                self@.wf(),
                out@ + self@.unwritten() == goal,
            ensures
                self@.wf(),
                self@.unwritten().len() == 0,
                out@ == goal,
            decreases self@.unwritten().len(),
        {
            let written = match self.unwritten() {
                None => {
                    proof {
                        assert(self@.chunks =~= Seq::<Seq<u8>>::empty());
                        assert(joined(self@.chunks) =~= Seq::<u8>::empty());
                        assert(out@ =~= goal);
                    }
                    break;
                },
                Some(bytes) => {
                    let ghost before = out@;
                    let mut i: usize = 0;
                    while i < bytes.len()
                        invariant
                            i <= bytes@.len(),
                            out@ == before + bytes@.take(i as int),
                        decreases bytes.len() - i,
                    {
                        out.push(bytes[i]);
                        i = i + 1;
                        proof {
                            assert(bytes@.take(i as int) =~= bytes@.take(i - 1).push(bytes@[i - 1]));
                        }
                    }
                    proof {
                        assert(bytes@.take(bytes@.len() as int) =~= bytes@);
                    }
                    bytes.len()
                },
            };
            let ghost rest = self@.unwritten();
            proof {
                assert(rest =~= rest.take(written as int) + rest.skip(written as int));
                assert(rest.take(written as int) =~= self@.chunks[0].skip(self@.offset));
            }
            self.consume(written);
        }
    }

    /// Records that `written` bytes of the next chunk were written.
    pub fn consume(&mut self, written: usize)
        requires
            old(self)@.wf(),
            old(self)@.chunks.len() > 0,
            written <= old(self)@.chunks[0].len() - old(self)@.offset,
        ensures
            final(self)@.wf(),
            final(self)@.unwritten() == old(self)@.unwritten().skip(written as int),
    {
        let ghost v = self@;
        proof {
            assert(joined(v.chunks) == v.chunks[0] + joined(v.chunks.drop_first()));
        }
        let length = self.chunks[0].len();
        self.offset = self.offset + written;
        if self.offset == length {
            self.chunks.pop_front();
            self.offset = 0;
            proof {
                assert(self@.chunks =~= v.chunks.drop_first());
                assert(self@.unwritten() =~= v.unwritten().skip(written as int));
            }
        } else {
            proof {
                assert(self@.chunks =~= v.chunks);
                assert(self@.unwritten() =~= v.unwritten().skip(written as int));
            }
        }
    }
}

/// The scrollback match to show next: the nearest older one (or newer), wrapping to
/// the far end.
pub open spec fn next_match_of(matches: Seq<usize>, current: usize, older: bool) -> Option<usize> {
    if older {
        match first_above(matches, current, 0) {
            Some(i) => Some(matches[i]),
            None => if matches.len() > 0 {
                Some(matches[0])
            } else {
                None
            },
        }
    } else {
        match last_below(matches, current, matches.len() as int) {
            Some(i) => Some(matches[i]),
            None => if matches.len() > 0 {
                Some(matches.last())
            } else {
                None
            },
        }
    }
}

/// The first index from `i` on whose match is beyond `current`.
pub open spec fn first_above(matches: Seq<usize>, current: usize, i: int) -> Option<int>
    decreases matches.len() - i,
{
    if i < 0 || i >= matches.len() {
        None
    } else if matches[i] > current {
        Some(i)
    } else {
        first_above(matches, current, i + 1)
    }
}

/// The last index before `end` whose match is short of `current`.
pub open spec fn last_below(matches: Seq<usize>, current: usize, end: int) -> Option<int>
    decreases end,
{
    if end <= 0 || end > matches.len() {
        None
    } else if matches[end - 1] < current {
        Some(end - 1)
    } else {
        last_below(matches, current, end - 1)
    }
}

/// Picks the scrollback offset to jump to among the offsets of the matches.
pub fn next_match(matches: &[usize], current: usize, older: bool) -> (r: Option<usize>)
    ensures
        r == next_match_of(matches@, current, older),
{
    if older {
        let mut i: usize = 0;
        while i < matches.len()
            invariant
                older,
                i <= matches@.len(),
                first_above(matches@, current, i as int) == first_above(matches@, current, 0),
            decreases matches.len() - i,
        {
            if matches[i] > current {
                proof {
                    assert(first_above(matches@, current, i as int) == Some(i as int));
                }
                return Some(matches[i]);
            }
            i += 1;
        }
        if matches.len() > 0 {
            Some(matches[0])
        } else {
            None
        }
    } else {
        let mut end: usize = matches.len();
        while end > 0
            invariant
                !older,
                end <= matches@.len(),
                last_below(matches@, current, end as int) == last_below(
                    matches@,
                    current,
                    matches@.len() as int,
                ),
            decreases end,
        {
            if matches[end - 1] < current {
                proof {
                    assert(last_below(matches@, current, end as int) == Some(end - 1));
                }
                return Some(matches[end - 1]);
            }
            end -= 1;
        }
        if matches.len() > 0 {
            Some(matches[matches.len() - 1])
        } else {
            None
        }
    }
}

#[verifier::external_type_specification]
#[verifier::external_body]
pub struct ExPathBuf(PathBuf);

/// The path that `PathBuf::from` makes of a string.
pub uninterp spec fn path_of(text: Seq<char>) -> PathBuf;

/// `PathBuf::from` on a string.
#[verifier::external_body]
fn path_from(text: &str) -> (r: PathBuf)
    ensures
        r == path_of(text@),
{
    PathBuf::from(text)
}

/// The viewer prompt of one client: the directory it lists, what was typed, the
/// prefix that filters the listing, and the entry selected.
#[derive(Debug)]
pub struct ViewerPrompt {
    pub directory: PathBuf,
    pub query: Vec<u8>,
    pub filter: Vec<u8>,
    pub selected: usize,
}

/// A name listed by the viewer prompt.
#[derive(Clone, Debug, PartialEq, Eq)]
pub struct ViewerEntry {
    pub name: String,
    pub directory: bool,
}

/// The path that `Path::join` makes of a directory and a name below it.
pub uninterp spec fn joined_path(base: PathBuf, name: Seq<char>) -> PathBuf;

/// `Path::join` with a relative name.
#[verifier::external_body]
fn path_join(base: &PathBuf, name: &str) -> (r: PathBuf)
    ensures
        r == joined_path(*base, name@),
{
    base.join(name)
}

/// The root that a lone separator typed in the prompt names: `/` only.
pub fn prompt_root(directory: &PathBuf, separator: u8) -> (r: Option<PathBuf>)
    ensures
        r == (if separator == 47 {
            Some(path_of("/"@))
        } else {
            None
        }),
{
    if separator == 47 {
        Some(path_from("/"))
    } else {
        None
    }
}

/// Drive roots typed as `C:` name nothing on this platform.
pub fn prompt_drive_root(query: &[u8]) -> (r: Option<PathBuf>)
    ensures
        r is None,
{
    None
}

/// The directory that a separator typed after `query` enters: the user's home for
/// `~`, the root for a lone separator, else the directory entry that the query
/// selects among `entries`, the prompt's listing.
pub open spec fn prompt_target(
    prompt: ViewerPrompt,
    query: Seq<u8>,
    separator: u8,
    home: Option<PathBuf>,
    entries: Seq<ViewerEntry>,
) -> Result<PathBuf, Seq<char>> {
    if query == seq![126u8] && separator == 47 {
        match home {
            Some(h) => Ok(h),
            None => Err("home directory is unavailable"@),
        }
    } else if query.len() == 1 && query[0] == separator {
        if separator == 47 {
            Ok(path_of("/"@))
        } else {
            Err("absolute path must start with the native separator"@)
        }
    } else if query.len() == 0 {
        Err("absolute path must start with the native separator"@)
    } else {
        match selected_entry(prompt.selected, entries, query, true) {
            Some(i) => Ok(joined_path(prompt.directory, entries[i as int].name@)),
            None => Err("select a matching directory before the path separator"@),
        }
    }
}

/// Resolves the directory that the prompt enters when a separator is typed after
/// `query`; `home` is the user's home directory, where one is known.
pub fn prompt_directory(
    prompt: &ViewerPrompt,
    query: &[u8],
    separator: u8,
    home: Option<PathBuf>,
    entries: &[ViewerEntry],
) -> (r: Result<PathBuf, String>)
    ensures
        match prompt_target(*prompt, query@, separator, home, entries@) {
            Ok(p) => r == Ok::<PathBuf, String>(p),
            Err(m) => r matches Err(e) && e@ == m,
        },
{
    if query.len() == 1 && query[0] == 126 && separator == 47 {
        proof {
            assert(query@ =~= seq![126u8]);
        }
        return match home {
            Some(h) => Ok(h),
            None => Err(owned("home directory is unavailable")),
        };
    }
    proof {
        if query@ == seq![126u8] {
            assert(query@.len() == 1 && query@[0] == 126);
        }
    }
    if query.len() == 1 && query[0] == separator {
        return match prompt_root(&prompt.directory, separator) {
            Some(root) => Ok(root),
            None => Err(owned("absolute path must start with the native separator")),
        };
    }
    if query.len() == 0 {
        return Err(owned("absolute path must start with the native separator"));
    }
    match selected_viewer_entry(prompt, entries, query, true) {
        Some(i) => {
            proof {
                lemma_selected_entry_in_range(prompt.selected, entries@, query@, true);
            }
            Ok(path_join(&prompt.directory, entries[i].name.as_str()))
        },
        None => Err(owned("select a matching directory before the path separator")),
    }
}

/// What opening the entry that `query` selects does: enter it when it is a
/// directory, open it in the viewer when it is a file.
pub open spec fn open_target(prompt: ViewerPrompt, query: Seq<u8>, entries: Seq<ViewerEntry>) -> Result<(PathBuf, bool), Seq<char>> {
    match selected_entry(prompt.selected, entries, query, false) {
        Some(i) => Ok((joined_path(prompt.directory, entries[i as int].name@), entries[i as int].directory)),
        None => Err("no matching file or directory"@),
    }
}

/// The path of the entry that `query` selects among the prompt's listing, and
/// whether it is a directory.
pub fn prompt_open_target(prompt: &ViewerPrompt, query: &[u8], entries: &[ViewerEntry]) -> (r: Result<(PathBuf, bool), String>)
    ensures
        match open_target(*prompt, query@, entries@) {
            Ok(t) => r == Ok::<(PathBuf, bool), String>(t),
            Err(m) => r matches Err(e) && e@ == m,
        },
{
    match selected_viewer_entry(prompt, entries, query, false) {
        Some(i) => {
            proof {
                lemma_selected_entry_in_range(prompt.selected, entries@, query@, false);
            }
            Ok((path_join(&prompt.directory, entries[i].name.as_str()), entries[i].directory))
        },
        None => Err(owned("no matching file or directory")),
    }
}

/// Most entries the viewer prompt lists.
pub const MAX_PROMPT_ENTRIES: usize = 256;

/// The order of `str`: byte by byte, a proper prefix first.
pub open spec fn bytes_before(a: Seq<u8>, b: Seq<u8>) -> bool
    decreases a.len(),
{
    if a.len() == 0 {
        b.len() > 0
    } else if b.len() == 0 {
        false
    } else if a[0] != b[0] {
        a[0] < b[0]
    } else {
        bytes_before(a.drop_first(), b.drop_first())
    }
}

proof fn lemma_bytes_before_skip(a: Seq<u8>, b: Seq<u8>, i: int)
    requires
        0 <= i < a.len(),
        i < b.len(),
        a[i] == b[i],
    ensures
        bytes_before(a.skip(i), b.skip(i)) == bytes_before(a.skip(i + 1), b.skip(i + 1)),
{
    assert(a.skip(i).drop_first() =~= a.skip(i + 1));
    assert(b.skip(i).drop_first() =~= b.skip(i + 1));
}

proof fn lemma_bytes_before_asymmetric(a: Seq<u8>, b: Seq<u8>)
    ensures
        !(bytes_before(a, b) && bytes_before(b, a)),
        !bytes_before(a, a),
    decreases a.len(),
{
    if a.len() > 0 && b.len() > 0 && a[0] == b[0] {
        lemma_bytes_before_asymmetric(a.drop_first(), b.drop_first());
    }
    if a.len() > 0 {
        lemma_bytes_before_asymmetric(a.drop_first(), a.drop_first());
    }
}

proof fn lemma_bytes_before_total(a: Seq<u8>, b: Seq<u8>)
    ensures
        a == b || bytes_before(a, b) || bytes_before(b, a),
    decreases a.len(),
{
    if a.len() > 0 && b.len() > 0 && a[0] == b[0] {
        lemma_bytes_before_total(a.drop_first(), b.drop_first());
        if a.drop_first() == b.drop_first() {
            assert(a =~= seq![a[0]] + a.drop_first());
            assert(b =~= seq![b[0]] + b.drop_first());
        }
    } else if a.len() == 0 && b.len() == 0 {
        assert(a =~= b);
    }
}

proof fn lemma_bytes_before_transitive(a: Seq<u8>, b: Seq<u8>, c: Seq<u8>)
    requires
        bytes_before(a, b),
        bytes_before(b, c),
    ensures
        bytes_before(a, c),
    decreases a.len(),
{
    if a.len() > 0 && b.len() > 0 && c.len() > 0 && a[0] == b[0] && b[0] == c[0] {
        lemma_bytes_before_transitive(a.drop_first(), b.drop_first(), c.drop_first());
    }
}

/// Whether `a` comes before `b` in the order of names.
fn name_before(a: &str, b: &str) -> (r: bool)
    ensures
        r == bytes_before(utf8(a@), utf8(b@)),
{
    let x = a.as_bytes();
    let y = b.as_bytes();
    let mut i: usize = 0;
    assert(x@.skip(0) =~= x@);
    assert(y@.skip(0) =~= y@);
    while i < x.len() && i < y.len()
        invariant
            i <= x@.len(),
            i <= y@.len(),
            x@ == utf8(a@),
            y@ == utf8(b@),
            bytes_before(x@, y@) == bytes_before(x@.skip(i as int), y@.skip(i as int)),
        decreases x.len() - i,
    {
        if x[i] != y[i] {
            assert(x@.skip(i as int)[0] == x@[i as int]);
            assert(y@.skip(i as int)[0] == y@[i as int]);
            return x[i] < y[i];
        }
        proof {
            lemma_bytes_before_skip(x@, y@, i as int);
        }
        i = i + 1;
    }
    assert(x@.skip(i as int).len() == x@.len() - i);
    assert(y@.skip(i as int).len() == y@.len() - i);
    i == x.len() && i < y.len()
}

/// Where an entry goes among entries ordered by name: after those whose names do not
/// come after its own.
pub open spec fn name_slot(sorted: Seq<ViewerEntry>, name: Seq<u8>) -> nat
    decreases sorted.len(),
{
    if sorted.len() == 0 || bytes_before(name, utf8(sorted[0].name@)) {
        0
    } else {
        1 + name_slot(sorted.drop_first(), name)
    }
}

/// The entries ordered by name, entries with equal names in the order they came.
pub open spec fn by_name(entries: Seq<ViewerEntry>) -> Seq<ViewerEntry>
    decreases entries.len(),
{
    if entries.len() == 0 {
        Seq::empty()
    } else {
        let sorted = by_name(entries.drop_last());
        sorted.insert(name_slot(sorted, utf8(entries.last().name@)) as int, entries.last())
    }
}

/// The entries whose names begin with `prefix`, in order.
pub open spec fn named_from(entries: Seq<ViewerEntry>, prefix: Seq<u8>) -> Seq<ViewerEntry>
    decreases entries.len(),
{
    if entries.len() == 0 {
        Seq::empty()
    } else {
        let rest = named_from(entries.drop_last(), prefix);
        if prefix.is_prefix_of(utf8(entries.last().name@)) {
            rest.push(entries.last())
        } else {
            rest
        }
    }
}

/// What the viewer prompt lists of a directory: the entries whose names begin with
/// the filter (read as text), ordered by name, at most the first 256.
pub open spec fn listing(found: Seq<ViewerEntry>, filter: Seq<u8>) -> Seq<ViewerEntry> {
    let sorted = by_name(named_from(found, utf8(crate::input::lossy_utf8(filter))));
    if sorted.len() > MAX_PROMPT_ENTRIES {
        sorted.take(MAX_PROMPT_ENTRIES as int)
    } else {
        sorted
    }
}

/// Entries in the order of their names: none comes before an earlier one.
pub open spec fn name_sorted(entries: Seq<ViewerEntry>) -> bool {
    forall|i: int, j: int|
        0 <= i < j < entries.len() ==> !bytes_before(utf8(entries[j].name@), utf8(entries[i].name@))
}

proof fn lemma_name_slot_splits(sorted: Seq<ViewerEntry>, name: Seq<u8>)
    requires
        name_sorted(sorted),
    ensures
        name_slot(sorted, name) <= sorted.len(),
        forall|j: int| 0 <= j < name_slot(sorted, name) ==> !bytes_before(name, utf8(sorted[j].name@)),
        forall|j: int| name_slot(sorted, name) <= j < sorted.len() ==> bytes_before(name, utf8(sorted[j].name@)),
    decreases sorted.len(),
{
    if sorted.len() > 0 {
        let rest = sorted.drop_first();
        if !bytes_before(name, utf8(sorted[0].name@)) {
            lemma_name_slot_splits(rest, name);
            assert forall|j: int| 0 <= j < name_slot(sorted, name) implies !bytes_before(name, utf8(sorted[j].name@)) by {
                if j > 0 {
                    assert(sorted[j] == rest[j - 1]);
                }
            }
            assert forall|j: int| name_slot(sorted, name) <= j < sorted.len() implies bytes_before(name, utf8(sorted[j].name@)) by {
                assert(sorted[j] == rest[j - 1]);
            }
        } else {
            assert forall|j: int| 0 <= j < sorted.len() implies bytes_before(name, utf8(sorted[j].name@)) by {
                if j > 0 {
                    let first = utf8(sorted[0].name@);
                    let other = utf8(sorted[j].name@);
                    lemma_bytes_before_total(first, other);
                    if bytes_before(first, other) {
                        lemma_bytes_before_transitive(name, first, other);
                    }
                }
            }
        }
    }
}

/// What the viewer prompt lists is ordered by name and holds at most 256 entries,
/// each of them found in the directory under the filter.
pub proof fn lemma_listing_ordered(found: Seq<ViewerEntry>, filter: Seq<u8>)
    ensures
        name_sorted(listing(found, filter)),
        listing(found, filter).len() <= MAX_PROMPT_ENTRIES,
{
    let prefix = utf8(crate::input::lossy_utf8(filter));
    lemma_by_name_orders(named_from(found, prefix));
}

/// Ordering by name leaves the entries in name order and loses none.
pub proof fn lemma_by_name_orders(entries: Seq<ViewerEntry>)
    ensures
        name_sorted(by_name(entries)),
        by_name(entries).len() == entries.len(),
    decreases entries.len(),
{
    if entries.len() > 0 {
        let rest = by_name(entries.drop_last());
        lemma_by_name_orders(entries.drop_last());
        let name = utf8(entries.last().name@);
        let k = name_slot(rest, name) as int;
        lemma_name_slot_splits(rest, name);
        let r = rest.insert(k, entries.last());
        assert forall|i: int, j: int| 0 <= i < j < r.len() implies !bytes_before(utf8(r[j].name@), utf8(r[i].name@)) by {
            if j < k {
                assert(r[i] == rest[i] && r[j] == rest[j]);
            } else if j == k {
                assert(r[i] == rest[i]);
            } else if i < k {
                assert(r[i] == rest[i] && r[j] == rest[j - 1]);
                lemma_bytes_before_total(name, utf8(rest[i].name@));
                if bytes_before(utf8(rest[j - 1].name@), utf8(rest[i].name@)) {
                    lemma_bytes_before_transitive(name, utf8(rest[j - 1].name@), utf8(rest[i].name@));
                }
            } else if i == k {
                assert(r[j] == rest[j - 1]);
                lemma_bytes_before_asymmetric(name, utf8(rest[j - 1].name@));
            } else {
                assert(r[i] == rest[i - 1] && r[j] == rest[j - 1]);
            }
        }
    }
}

proof fn lemma_name_slot(sorted: Seq<ViewerEntry>, name: Seq<u8>, k: int)
    requires
        0 <= k <= sorted.len(),
        forall|j: int| 0 <= j < k ==> !bytes_before(name, #[trigger] utf8(sorted[j].name@)),
        k == sorted.len() || bytes_before(name, utf8(sorted[k].name@)),
    ensures
        name_slot(sorted, name) == k,
    decreases sorted.len(),
{
    if sorted.len() > 0 && !bytes_before(name, utf8(sorted[0].name@)) {
        assert forall|j: int| 0 <= j < k - 1 implies !bytes_before(name, #[trigger] utf8(sorted.drop_first()[j].name@)) by {
            assert(sorted.drop_first()[j] == sorted[j + 1]);
        }
        if k - 1 < sorted.drop_first().len() {
            assert(sorted.drop_first()[k - 1] == sorted[k]);
        }
        lemma_name_slot(sorted.drop_first(), name, k - 1);
    } else if sorted.len() > 0 {
        if k > 0 {
            assert(!bytes_before(name, utf8(sorted[0].name@)));
        }
    }
}

fn copy_entry(entry: &ViewerEntry) -> (r: ViewerEntry)
    ensures
        r == *entry,
{
    ViewerEntry { name: entry.name.clone(), directory: entry.directory }
}

/// The viewer prompt's listing of the entries found in a directory under a filter.
pub fn prompt_entries(found: &Vec<ViewerEntry>, filter: &[u8]) -> (r: Vec<ViewerEntry>)
    ensures
        r@ == listing(found@, filter@),
        name_sorted(r@),
        r@.len() <= MAX_PROMPT_ENTRIES,
{
    proof {
        lemma_listing_ordered(found@, filter@);
    }
    let text = crate::input::utf8_lossy(filter);
    let ghost prefix = utf8(text@);
    let mut kept: Vec<ViewerEntry> = Vec::new();
    let mut i: usize = 0;
    assert(found@.take(0) =~= Seq::<ViewerEntry>::empty());
    while i < found.len()
        invariant
            i <= found@.len(),
            prefix == utf8(text@),
            kept@ == named_from(found@.take(i as int), prefix),
        decreases found.len() - i,
    {
        proof {
            assert(found@.take(i + 1).drop_last() =~= found@.take(i as int));
            assert(found@.take(i + 1).last() == found@[i as int]);
        }
        if starts_with(found[i].name.as_str(), text.as_str()) {
            kept.push(copy_entry(&found[i]));
        }
        i = i + 1;
    }
    assert(found@.take(found@.len() as int) =~= found@);
    let ghost all = kept@;
    let mut sorted: Vec<ViewerEntry> = Vec::new();
    let mut n: usize = 0;
    assert(all.take(0) =~= Seq::<ViewerEntry>::empty());
    while n < kept.len()
        invariant
            n <= all.len(),
            all == kept@,
            sorted@ == by_name(all.take(n as int)),
        decreases kept.len() - n,
    {
        let item = copy_entry(&kept[n]);
        let mut k: usize = 0;
        while k < sorted.len() && !name_before(item.name.as_str(), sorted[k].name.as_str())
            invariant
                k <= sorted@.len(),
                forall|j: int| 0 <= j < k ==> !bytes_before(utf8(item.name@), #[trigger] utf8(sorted@[j].name@)),
            decreases sorted.len() - k,
        {
            k = k + 1;
        }
        proof {
            lemma_name_slot(sorted@, utf8(item.name@), k as int);
            assert(all.take(n + 1).drop_last() =~= all.take(n as int));
            assert(all.take(n + 1).last() == all[n as int]);
        }
        sorted.insert(k, item);
        n = n + 1;
    }
    assert(all.take(all.len() as int) =~= all);
    if sorted.len() > MAX_PROMPT_ENTRIES {
        sorted.truncate(MAX_PROMPT_ENTRIES);
    }
    sorted
}

/// The entry's name is the query, and it is a directory where one is wanted.
pub open spec fn entry_named(entry: ViewerEntry, query: Seq<u8>, directory_only: bool) -> bool {
    (!directory_only || entry.directory) && utf8(entry.name@) == query
}

pub open spec fn first_named(entries: Seq<ViewerEntry>, query: Seq<u8>, directory_only: bool, i: int) -> Option<int>
    decreases entries.len() - i,
{
    if i < 0 || i >= entries.len() {
        None
    } else if entry_named(entries[i], query, directory_only) {
        Some(i)
    } else {
        first_named(entries, query, directory_only, i + 1)
    }
}

/// The entry that the prompt points at: the one named by the query, else the one
/// selected, where it is a directory when one is wanted.
pub open spec fn selected_entry(selected: usize, entries: Seq<ViewerEntry>, query: Seq<u8>, directory_only: bool) -> Option<usize> {
    if entries.len() == 0 {
        None
    } else {
        match first_named(entries, query, directory_only, 0) {
            Some(i) => Some(i as usize),
            None => {
                let s = selected as int % entries.len() as int;
                if !directory_only || entries[s].directory {
                    Some(s as usize)
                } else {
                    None
                }
            },
        }
    }
}

proof fn lemma_first_named_in_range(entries: Seq<ViewerEntry>, query: Seq<u8>, directory_only: bool, i: int)
    ensures
        first_named(entries, query, directory_only, i) matches Some(k) ==> i <= k < entries.len(),
    decreases entries.len() - i,
{
    if 0 <= i < entries.len() && !entry_named(entries[i], query, directory_only) {
        lemma_first_named_in_range(entries, query, directory_only, i + 1);
    }
}

proof fn lemma_selected_entry_in_range(selected: usize, entries: Seq<ViewerEntry>, query: Seq<u8>, directory_only: bool)
    ensures
        selected_entry(selected, entries, query, directory_only) matches Some(k) ==> k < entries.len(),
{
    lemma_first_named_in_range(entries, query, directory_only, 0);
}

fn find_named(entries: &[ViewerEntry], query: &[u8], directory_only: bool) -> (r: Option<usize>)
    ensures
        r matches Some(i) ==> i < entries@.len(),
        match r {
            Some(i) => first_named(entries@, query@, directory_only, 0) == Some(i as int),
            None => first_named(entries@, query@, directory_only, 0) is None,
        },
{
    let mut i: usize = 0;
    while i < entries.len()
        invariant
            i <= entries@.len(),
            first_named(entries@, query@, directory_only, i as int) == first_named(
                entries@,
                query@,
                directory_only,
                0,
            ),
        decreases entries.len() - i,
    {
        let entry = &entries[i];
        if (!directory_only || entry.directory) && bytes_equal(entry.name.as_str().as_bytes(), query) {
            proof {
                assert(first_named(entries@, query@, directory_only, i as int) == Some(i as int));
            }
            return Some(i);
        }
        i += 1;
    }
    None
}

pub fn selected_viewer_entry(
    prompt: &ViewerPrompt,
    entries: &[ViewerEntry],
    query: &[u8],
    directory_only: bool,
) -> (r: Option<usize>)
    ensures
        r == selected_entry(prompt.selected, entries@, query@, directory_only),
{
    if entries.len() == 0 {
        return None;
    }
    match find_named(entries, query, directory_only) {
        Some(i) => Some(i),
        None => {
            let selected = prompt.selected % entries.len();
            if !directory_only || entries[selected].directory {
                Some(selected)
            } else {
                None
            }
        },
    }
}

/// The entry that a move of `amount` entries from the current one lands on,
/// wrapping at either end.
pub open spec fn moved_selection(current: int, amount: i32, count: int) -> int {
    let magnitude = if amount >= 0 {
        amount as int
    } else {
        -(amount as int)
    };
    let shift = magnitude % count;
    if amount >= 0 {
        (current + shift) % count
    } else {
        (current + count - shift) % count
    }
}

/// Where the prompt's selection starts: the entry named by the query, else the one
/// selected.
pub open spec fn current_entry(prompt_selected: usize, entries: Seq<ViewerEntry>, query: Seq<u8>) -> int {
    match first_named(entries, query, false, 0) {
        Some(i) => i,
        None => prompt_selected as int % entries.len() as int,
    }
}

pub open spec fn no_entries() -> Seq<char> {
    "no matching entries"@
}

/// Moves the prompt's selection among the listed entries and puts the selected
/// name in the query.
pub fn select_viewer_entry_among(prompt: &mut ViewerPrompt, entries: &[ViewerEntry], amount: i32) -> (r: Result<Vec<u8>, String>)
    ensures
        entries@.len() == 0 ==> (r matches Err(message) && message@ == no_entries() && *final(prompt) == *old(prompt)),
        entries@.len() > 0 ==> ({
            let index = moved_selection(
                current_entry(old(prompt).selected, entries@, old(prompt).query@),
                amount,
                entries@.len() as int,
            );
            &&& r matches Ok(name) && name@ == utf8(entries@[index].name@)
            &&& final(prompt).selected == index
            &&& final(prompt).query@ == utf8(entries@[index].name@)
            &&& final(prompt).filter == old(prompt).filter
            &&& final(prompt).directory == old(prompt).directory
        }),
{
    if entries.len() == 0 {
        return Err(String::from_str("no matching entries"));
    }
    let count = entries.len();
    let current = match find_named(entries, prompt.query.as_slice(), false) {
        Some(i) => i,
        None => prompt.selected % count,
    };
    let magnitude: u32 = if amount >= 0 {
        amount as u32
    } else {
        (-(amount as i64)) as u32
    };
    let shift = (magnitude as usize) % count;
    let selected = if amount >= 0 {
        if shift >= count - current {
            current - (count - shift)
        } else {
            current + shift
        }
    } else {
        if current >= shift {
            current - shift
        } else {
            current + (count - shift)
        }
    };
    proof {
        let c = count as int;
        let k = current as int;
        let h = shift as int;
        assert(amount >= 0 ==> selected == (k + h) % c) by (nonlinear_arith)
            requires
                0 <= k < c,
                0 <= h < c,
                amount >= 0 ==> selected == (if h >= c - k {
                    k - (c - h)
                } else {
                    k + h
                }),
        ;
        assert(amount < 0 ==> selected == (k + c - h) % c) by (nonlinear_arith)
            requires
                0 <= k < c,
                0 <= h < c,
                amount < 0 ==> selected == (if k >= h {
                    k - h
                } else {
                    k + (c - h)
                }),
        ;
    }
    prompt.selected = selected;
    let name = vstd::slice::slice_to_vec(entries[selected].name.as_str().as_bytes());
    prompt.query = name.clone();
    Ok(name)
}

/// Completes the query with the next listed entry: the one after the entry it
/// names, else the one selected.
pub fn complete_viewer_entry_among(prompt: &mut ViewerPrompt, entries: &[ViewerEntry]) -> (r: Result<Vec<u8>, String>)
    ensures
        entries@.len() == 0 ==> (r matches Err(message) && message@ == no_entries() && *final(prompt) == *old(prompt)),
        entries@.len() > 0 ==> ({
            let count = entries@.len() as int;
            let index = match first_named(entries@, old(prompt).query@, false, 0) {
                Some(i) => (i + 1) % count,
                None => old(prompt).selected as int % count,
            };
            &&& r matches Ok(name) && name@ == utf8(entries@[index].name@)
            &&& final(prompt).selected == index
            &&& final(prompt).query@ == utf8(entries@[index].name@)
            &&& final(prompt).filter == old(prompt).filter
            &&& final(prompt).directory == old(prompt).directory
        }),
{
    if entries.len() == 0 {
        return Err(String::from_str("no matching entries"));
    }
    let count = entries.len();
    let index = match find_named(entries, prompt.query.as_slice(), false) {
        Some(i) => {
            proof {
                let c = count as int;
                let k = i as int;
                assert((k + 1) % c == if k + 1 == c {
                    0
                } else {
                    k + 1
                }) by (nonlinear_arith)
                    requires
                        0 <= k < c,
                ;
            }
            if i + 1 == count {
                0
            } else {
                i + 1
            }
        },
        None => prompt.selected % count,
    };
    prompt.selected = index;
    let name = vstd::slice::slice_to_vec(entries[index].name.as_str().as_bytes());
    prompt.query = name.clone();
    Ok(name)
}


/// The entry that the prompt's status marks: the one named by the query, else the
/// selection taken around the listing.
pub open spec fn marked_entry(selected: usize, entries: Seq<ViewerEntry>, query: Seq<u8>) -> int {
    match first_named(entries, query, false, 0) {
        Some(i) => i,
        None => selected as int % (if entries.len() == 0 {
            1
        } else {
            entries.len() as int
        }),
    }
}

/// The first of the (at most eight) entries shown: up to seven before the marked one,
/// and no later than where the last eight begin.
pub open spec fn listing_start(marked: int, count: int) -> int {
    let before = if marked >= 7 {
        marked - 7
    } else {
        0
    };
    let last = if count >= 8 {
        count - 8
    } else {
        0
    };
    if before < last {
        before
    } else {
        last
    }
}

/// One listed entry: its name, a slash for a directory, in brackets when marked.
pub open spec fn entry_label(entry: ViewerEntry, marked: bool) -> Seq<char> {
    (if marked {
        " ["@
    } else {
        " "@
    }) + entry.name@ + (if entry.directory {
        "/"@
    } else {
        ""@
    }) + (if marked {
        "]"@
    } else {
        ""@
    })
}

pub open spec fn entry_labels(entries: Seq<ViewerEntry>, marked: int, from: int, to: int) -> Seq<char>
    decreases to - from,
{
    if to <= from {
        Seq::empty()
    } else {
        entry_labels(entries, marked, from, to - 1) + entry_label(entries[to - 1], to - 1 == marked)
    }
}

pub open spec fn prompt_hint() -> Seq<char> {
    " | arrows/C-n/p select Right/Enter open Left parent Backspace edit/parent Tab complete Esc cancel"@
}

/// The status line of the viewer prompt: the directory, what was typed, the listed
/// entries around the marked one, and the keys.
pub open spec fn prompt_status(directory: Seq<char>, query: Seq<u8>, selected: usize, entries: Seq<ViewerEntry>) -> Seq<char> {
    let marked = marked_entry(selected, entries, query);
    let first = listing_start(marked, entries.len() as int);
    let last = if first + 8 < entries.len() {
        first + 8
    } else {
        entries.len() as int
    };
    "VIEW "@ + directory + " > "@ + crate::input::lossy_utf8(query) + " |"@ + entry_labels(entries, marked, first, last)
        + prompt_hint()
}

fn push_entry_label(status: &mut String, entry: &ViewerEntry, marked: bool)
    ensures
        final(status)@ == old(status)@ + entry_label(*entry, marked),
{
    if marked {
        append(status, " [");
    } else {
        append(status, " ");
    }
    append(status, entry.name.as_str());
    if entry.directory {
        append(status, "/");
    } else {
        append(status, "");
    }
    if marked {
        append(status, "]");
    } else {
        append(status, "");
    }
}

/// The viewer prompt's status line, given the entries the prompt's directory lists
/// under its filter and the directory as displayed.
pub fn viewer_prompt_status(prompt: &ViewerPrompt, entries: &[ViewerEntry], directory: &str) -> (r: String)
    ensures
        r@ == prompt_status(directory@, prompt.query@, prompt.selected, entries@),
{
    let count = entries.len();
    let marked: usize = match find_named(entries, prompt.query.as_slice(), false) {
        Some(i) => i,
        None => {
            if count == 0 {
                prompt.selected % 1
            } else {
                prompt.selected % count
            }
        },
    };
    let before: usize = if marked >= 7 {
        marked - 7
    } else {
        0
    };
    let last_start: usize = if count >= 8 {
        count - 8
    } else {
        0
    };
    let first = if before < last_start {
        before
    } else {
        last_start
    };
    let last = if count - first > 8 {
        first + 8
    } else {
        count
    };
    let mut status = owned("VIEW ");
    append(&mut status, directory);
    append(&mut status, " > ");
    let typed = crate::input::utf8_lossy(prompt.query.as_slice());
    append(&mut status, typed.as_str());
    append(&mut status, " |");
    let ghost head = status@;
    let mut index = first;
    while index < last
        invariant
            first <= index <= last <= entries@.len(),
            status@ == head + entry_labels(entries@, marked as int, first as int, index as int),
        decreases last - index,
    {
        push_entry_label(&mut status, &entries[index], index == marked);
        index = index + 1;
    }
    append(&mut status, " | arrows/C-n/p select Right/Enter open Left parent Backspace edit/parent Tab complete Esc cancel");
    status
}

/// The status line drawn for a configuration and the latest system metrics.
pub fn status_line<'a>(config: &'a Config, metrics: &'a Metrics) -> (r: StatusLine<'a>)
    ensures
        r.date_format@ == config.date_format@,
        r.time_format@ == config.time_format@,
        r.format@ == config.status_format@,
        r.label@ == config.status_label@,
        r.metrics == metrics,
        r.foreground == config.status_foreground,
        r.background == config.status_background,
        r.label_foreground == config.label_foreground,
        r.label_background == config.label_background,
        r.active_foreground == config.active_tab_foreground,
        r.active_background == config.active_tab_background,
{
    StatusLine {
        date_format: config.date_format.as_str(),
        time_format: config.time_format.as_str(),
        format: config.status_format.as_str(),
        label: config.status_label.as_str(),
        metrics,
        foreground: config.status_foreground,
        background: config.status_background,
        label_foreground: config.label_foreground,
        label_background: config.label_background,
        active_foreground: config.active_tab_foreground,
        active_background: config.active_tab_background,
    }
}


/// `Ord::min` on two durations: the shorter.
#[verifier::external_body]
fn duration_min(a: Duration, b: Duration) -> (d: Duration)
    ensures
        duration_nanos(d) == (if duration_nanos(a) <= duration_nanos(b) {
            duration_nanos(a)
        } else {
            duration_nanos(b)
        }),
{
    a.min(b)
}

/// The shortest of the poll delay and the waits that clients' held-back input has
/// left, in nanoseconds.
pub open spec fn earliest(pending: Seq<Option<Duration>>) -> nat
    decreases pending.len(),
{
    if pending.len() == 0 {
        LISTENER_POLL_DELAY_MS as nat * 1_000_000
    } else {
        let rest = earliest(pending.drop_last());
        match pending.last() {
            Some(d) => if duration_nanos(d) < rest {
                duration_nanos(d)
            } else {
                rest
            },
            None => rest,
        }
    }
}

/// How long the server may wait for events, given what each client's held-back input
/// has left to wait.
pub fn event_timeout(pending: &[Option<Duration>]) -> (r: Duration)
    ensures
        duration_nanos(r) == earliest(pending@),
{
    let mut shortest = duration_from_millis(LISTENER_POLL_DELAY_MS);
    let mut index: usize = 0;
    while index < pending.len()
        invariant
            index <= pending@.len(),
            duration_nanos(shortest) == earliest(pending@.take(index as int)),
        decreases pending.len() - index,
    {
        proof {
            assert(pending@.take(index + 1).drop_last() =~= pending@.take(index as int));
        }
        if let Some(wait) = pending[index] {
            shortest = duration_min(shortest, wait);
        }
        index = index + 1;
    }
    proof {
        assert(pending@.take(pending@.len() as int) =~= pending@);
    }
    shortest
}

/// A pane's area that a terminal can be made for: not empty, and not more cells than
/// a screen may hold.
pub open spec fn rect_fits(rect: Rect) -> bool {
    rect.width > 0 && rect.height > 0 && rect.width * rect.height <= MAX_SCREEN_CELLS
}

/// Whether every pane's area can hold a terminal; when one cannot, no pane is resized.
pub fn rects_fit(rects: &[(PaneId, Rect)]) -> (r: bool)
    ensures
        r == (forall|i: int| 0 <= i < rects@.len() ==> rect_fits(#[trigger] rects@[i].1)),
{
    let mut index: usize = 0;
    while index < rects.len()
        invariant
            index <= rects@.len(),
            forall|i: int| 0 <= i < index ==> rect_fits(#[trigger] rects@[i].1),
        decreases rects.len() - index,
    {
        let rect = rects[index].1;
        let width = rect.width as u64;
        let height = rect.height as u64;
        proof {
            assert(width * height <= 0xFFFF * 0xFFFF) by (nonlinear_arith)
                requires
                    width <= 0xFFFF,
                    height <= 0xFFFF,
            ;
        }
        if width == 0 || height == 0 || width * height > MAX_SCREEN_CELLS as u64 {
            return false;
        }
        index = index + 1;
    }
    true
}

/// The size of the first area laid out for the pane, else `fallback`.
pub open spec fn size_for(rects: Seq<(PaneId, Rect)>, pane: PaneId, fallback: Size) -> Size
    decreases rects.len(),
{
    if rects.len() == 0 {
        fallback
    } else if rects[0].0 == pane {
        Size { columns: rects[0].1.width, rows: rects[0].1.height }
    } else {
        size_for(rects.drop_first(), pane, fallback)
    }
}

/// The terminal size a pane is resized to: that of its area, or `fallback` for a pane
/// with none.
pub fn pane_size(rects: &[(PaneId, Rect)], pane: PaneId, fallback: Size) -> (r: Size)
    ensures
        r == size_for(rects@, pane, fallback),
{
    let mut index: usize = 0;
    assert(rects@.skip(0) =~= rects@);
    while index < rects.len()
        invariant
            index <= rects@.len(),
            size_for(rects@.skip(index as int), pane, fallback) == size_for(rects@, pane, fallback),
        decreases rects.len() - index,
    {
        proof {
            assert(rects@.skip(index as int).drop_first() =~= rects@.skip(index + 1));
            assert(rects@.skip(index as int)[0] == rects@[index as int]);
        }
        if rects[index].0 == pane {
            let rect = rects[index].1;
            return Size { columns: rect.width, rows: rect.height };
        }
        index = index + 1;
    }
    proof {
        assert(rects@.skip(index as int) =~= Seq::<(PaneId, Rect)>::empty());
    }
    fallback
}

/// What a client's screen shows: the key reminder when it is open, else the scrollback
/// at its offset when that is open, else the live panes.
pub fn render_view(scroll_offset: Option<usize>, help_offset: Option<usize>, prefix: u8) -> (r: crate::render::View)
    ensures
        r == (match help_offset {
            Some(offset) => crate::render::View::Help { offset, prefix },
            None => match scroll_offset {
                Some(offset) => crate::render::View::Scroll(offset),
                None => crate::render::View::Live,
            },
        }),
{
    match help_offset {
        Some(offset) => crate::render::View::Help { offset, prefix },
        None => match scroll_offset {
            Some(offset) => crate::render::View::Scroll(offset),
            None => crate::render::View::Live,
        },
    }
}

/// What is drawn for an attached client on one turn of the server's loop.
#[derive(Clone, Copy, Debug, Eq, PartialEq, Structural)]
pub enum Frame {
    /// The whole screen.
    Full,
    /// The cells that changed since the client's last frame.
    Changes,
    /// The status line alone.
    Status,
    /// Nothing.
    Nothing,
}

/// The frame a client gets: all of the screen after a change of layout or view, or
/// where it looks at the scrollback or the key reminder or was never drawn; the
/// changed cells after pane output; the status line when only its clock or readings
/// changed.
pub fn frame_for(full_dirty: bool, content_dirty: bool, status_changed: bool, view: ClientView, drawn: bool) -> (r: Frame)
    ensures
        r == (if full_dirty {
            Frame::Full
        } else if content_dirty {
            if view.scroll_offset is Some || view.help_offset is Some || !drawn {
                Frame::Full
            } else {
                Frame::Changes
            }
        } else if status_changed {
            Frame::Status
        } else {
            Frame::Nothing
        }),
{
    if full_dirty {
        Frame::Full
    } else if content_dirty {
        if view.scroll_offset.is_some() || view.help_offset.is_some() || !drawn {
            Frame::Full
        } else {
            Frame::Changes
        }
    } else if status_changed {
        Frame::Status
    } else {
        Frame::Nothing
    }
}

/// How many lines a scroll request moves: a page for the largest or smallest
/// amount, else the amount's size.
pub open spec fn step_lines(amount: i32, page: usize) -> nat {
    if amount == i32::MAX || amount == i32::MIN {
        page as nat
    } else if amount < 0 {
        (-amount) as nat
    } else {
        amount as nat
    }
}

/// Where a scroll request moves an offset: up by the lines but not past `maximum`,
/// or down by them but not past zero.
pub open spec fn moved_offset(offset: usize, amount: i32, page: usize, maximum: usize) -> usize {
    let lines = step_lines(amount, page);
    if amount > 0 {
        let up: int = if offset + lines > usize::MAX {
            usize::MAX as int
        } else {
            offset + lines
        };
        if up > maximum {
            maximum
        } else {
            up as usize
        }
    } else if offset >= lines {
        (offset - lines) as usize
    } else {
        0
    }
}

/// Moves an offset of the key reminder or the scrollback.
pub fn moved(offset: usize, amount: i32, page: usize, maximum: usize) -> (r: usize)
    ensures
        r == moved_offset(offset, amount, page, maximum),
{
    let lines: usize = if amount == i32::MAX || amount == i32::MIN {
        page
    } else if amount < 0 {
        (0 - (amount as i64)) as usize
    } else {
        amount as usize
    };
    if amount > 0 {
        let up = offset.saturating_add(lines);
        if up > maximum {
            maximum
        } else {
            up
        }
    } else {
        offset.saturating_sub(lines)
    }
}

/// A scroll request moving forward never passes the maximum, and one moving back
/// never passes the start.
pub proof fn lemma_scroll_bounded(offset: usize, amount: i32, page: usize, maximum: usize)
    requires
        offset <= maximum,
    ensures
        moved_offset(offset, amount, page, maximum) <= maximum,
        amount > 0 ==> moved_offset(offset, amount, page, maximum) >= offset,
        amount <= 0 ==> moved_offset(offset, amount, page, maximum) <= offset,
{
}

/// What a client is looking at: a position in the active pane's scrollback, or one
/// in the key reminder.
#[derive(Clone, Copy, Debug, Eq, PartialEq, Structural)]
pub struct ClientView {
    pub scroll_offset: Option<usize>,
    pub help_offset: Option<usize>,
}

/// The view after an action that moves it, or `None` for an action that does not.
/// The key reminder pages by the rows above the status line, the scrollback by the
/// panes' rows.
pub open spec fn next_view(
    view: ClientView,
    action: ActionView,
    size: Size,
    help_maximum: usize,
    scroll_maximum: usize,
) -> Option<ClientView> {
    match action {
        ActionView::HelpView => Some(ClientView { scroll_offset: None, help_offset: Some(0) }),
        ActionView::HelpScroll(amount) => Some(
            ClientView {
                help_offset: match view.help_offset {
                    Some(offset) => Some(
                        moved_offset(offset, amount, sat_sub16(size.rows, 1) as usize, help_maximum),
                    ),
                    None => None,
                },
                ..view
            },
        ),
        ActionView::ExitHelpView => Some(ClientView { help_offset: None, ..view }),
        ActionView::ScrollView => Some(ClientView { scroll_offset: Some(0), help_offset: None }),
        ActionView::Scroll(amount) => Some(
            ClientView {
                scroll_offset: match view.scroll_offset {
                    Some(offset) => Some(
                        moved_offset(offset, amount, pane_area_of(size).rows as usize, scroll_maximum),
                    ),
                    None => None,
                },
                ..view
            },
        ),
        ActionView::ScrollTop => Some(ClientView { scroll_offset: Some(scroll_maximum), ..view }),
        ActionView::ScrollBottom => Some(ClientView { scroll_offset: Some(0), ..view }),
        ActionView::ExitScrollView => Some(ClientView { scroll_offset: None, ..view }),
        _ => None,
    }
}

/// How an action moves what the client looks at, when it does.
pub fn view_after(
    view: ClientView,
    action: &Action,
    size: Size,
    help_maximum: usize,
    scroll_maximum: usize,
) -> (r: Option<ClientView>)
    ensures
        r == next_view(view, action.view(), size, help_maximum, scroll_maximum),
{
    match action {
        Action::HelpView => Some(ClientView { scroll_offset: None, help_offset: Some(0) }),
        Action::HelpScroll(amount) => Some(
            ClientView {
                help_offset: match view.help_offset {
                    Some(offset) => Some(moved(offset, *amount, size.rows.saturating_sub(1) as usize, help_maximum)),
                    None => None,
                },
                ..view
            },
        ),
        Action::ExitHelpView => Some(ClientView { help_offset: None, ..view }),
        Action::ScrollView => Some(ClientView { scroll_offset: Some(0), help_offset: None }),
        Action::Scroll(amount) => Some(
            ClientView {
                scroll_offset: match view.scroll_offset {
                    Some(offset) => Some(moved(offset, *amount, pane_area(size).rows as usize, scroll_maximum)),
                    None => None,
                },
                ..view
            },
        ),
        Action::ScrollTop => Some(ClientView { scroll_offset: Some(scroll_maximum), ..view }),
        Action::ScrollBottom => Some(ClientView { scroll_offset: Some(0), ..view }),
        Action::ExitScrollView => Some(ClientView { scroll_offset: None, ..view }),
        _ => None,
    }
}

/// Opening the key reminder leaves the scrollback, and opening the scrollback closes
/// the key reminder: a client never shows both after either.
pub proof fn lemma_views_exclusive(view: ClientView, size: Size, help_maximum: usize, scroll_maximum: usize)
    ensures
        next_view(view, ActionView::HelpView, size, help_maximum, scroll_maximum) matches Some(v)
            && v.scroll_offset is None,
        next_view(view, ActionView::ScrollView, size, help_maximum, scroll_maximum) matches Some(v)
            && v.help_offset is None,
{
}

/// The movement a viewer action asks for: pages are as tall as the viewer (or the
/// panes' area, without a viewer), and the line's end is found in the viewer's width.
pub open spec fn intent_of(action: ActionView, viewer_size: Option<Size>, content_size: Size) -> Option<ViewerIntent> {
    let rows = match viewer_size {
        Some(s) => s.rows,
        None => content_size.rows,
    };
    match action {
        ActionView::ViewerScroll(amount) => Some(ViewerIntent::Scroll(amount)),
        ActionView::ViewerViewport(amount) => Some(ViewerIntent::Viewport(amount)),
        ActionView::ViewerPage(forward) => Some(ViewerIntent::Page { rows, forward }),
        ActionView::ViewerHalfPage(forward) => Some(ViewerIntent::HalfPage { rows, forward }),
        ActionView::ViewerLineStart => Some(ViewerIntent::LineStart),
        ActionView::ViewerLineEnd => Some(
            ViewerIntent::LineEnd {
                columns: match viewer_size {
                    Some(s) => s.columns as usize,
                    None => 1,
                },
            },
        ),
        ActionView::ViewerTop => Some(ViewerIntent::Top),
        ActionView::ViewerBottom => Some(ViewerIntent::Bottom),
        _ => None,
    }
}

/// The movement a viewer action asks for, given the active viewer's size.
pub fn viewer_intent(action: &Action, viewer_size: Option<Size>, content_size: Size) -> (r: Option<ViewerIntent>)
    ensures
        r == intent_of(action.view(), viewer_size, content_size),
{
    let rows = match viewer_size {
        Some(s) => s.rows,
        None => content_size.rows,
    };
    match action {
        Action::ViewerScroll(amount) => Some(ViewerIntent::Scroll(*amount)),
        Action::ViewerViewport(amount) => Some(ViewerIntent::Viewport(*amount)),
        Action::ViewerPage(forward) => Some(ViewerIntent::Page { rows, forward: *forward }),
        Action::ViewerHalfPage(forward) => Some(ViewerIntent::HalfPage { rows, forward: *forward }),
        Action::ViewerLineStart => Some(ViewerIntent::LineStart),
        Action::ViewerLineEnd => Some(
            ViewerIntent::LineEnd {
                columns: match viewer_size {
                    Some(s) => s.columns as usize,
                    None => 1,
                },
            },
        ),
        Action::ViewerTop => Some(ViewerIntent::Top),
        Action::ViewerBottom => Some(ViewerIntent::Bottom),
        _ => None,
    }
}

/// What the server answers an attach with: the outer terminal's capabilities when the
/// wire numbers name a profile and colour level and the terminal can address the
/// cursor, else the error it reports.
pub open spec fn attach_answer(profile: u8, color: u8) -> Result<Capabilities, Seq<char>> {
    match wire_capabilities(profile, color) {
        None => Err("invalid outer-terminal profile"@),
        Some(c) => if c.cursor_addressing {
            Ok(c)
        } else {
            Err("outer terminal '"@ + profile_name(c.profile) + "' lacks cursor addressing"@)
        },
    }
}

/// The capabilities of an attaching client's terminal, or the error it is sent.
pub fn attach_capabilities(profile: u8, color: u8) -> (r: Result<Capabilities, String>)
    ensures
        match r {
            Ok(c) => attach_answer(profile, color) == Ok::<Capabilities, Seq<char>>(c),
            Err(e) => attach_answer(profile, color) == Err::<Capabilities, Seq<char>>(e@),
        },
{
    match from_wire(profile, color) {
        None => Err(crate::status::owned("invalid outer-terminal profile")),
        Some(capabilities) => {
            if capabilities.cursor_addressing {
                Ok(capabilities)
            } else {
                let mut message = crate::status::owned("outer terminal '");
                crate::status::append(&mut message, capabilities.profile.name());
                crate::status::append(&mut message, "' lacks cursor addressing");
                Err(message)
            }
        },
    }
}


/// What a mouse press holds on to until it is let go: a click in a pane, or a border
/// being dragged, with the cell it was last dragged to.
#[derive(Clone, Copy, Debug, Eq, PartialEq, Structural)]
pub enum MouseCapture {
    Click,
    Border(u16, u16),
}

/// What the server keeps of a client for the mouse: whether the key reminder is
/// shown, what a press holds, the scrollback position, and whether the client is in
/// scroll mode.
#[derive(Clone, Copy, Debug, Eq, PartialEq, Structural)]
pub struct MouseState {
    pub help_open: bool,
    pub capture: Option<MouseCapture>,
    pub scroll_offset: Option<usize>,
    pub scroll_mode: bool,
}

/// What is left to do after a mouse event: nothing, a redraw, resizing the panes'
/// terminals to a changed layout (then a redraw), a redraw after scrolling, or bytes
/// to send to a pane's application.
#[derive(Debug, Eq, PartialEq)]
pub enum MouseEffect {
    Nothing,
    Redraw,
    Resized,
    Scrolled,
    Forward(PaneId, Vec<u8>),
}

pub open spec fn is_motion(event: MouseEvent) -> bool {
    event.code & 32 != 0
}

pub open spec fn is_wheel(event: MouseEvent) -> bool {
    event.code & 64 != 0
}

/// A press of the left button, not a motion, a wheel turn or a release.
pub open spec fn is_left_press(event: MouseEvent) -> bool {
    !event.release && !is_motion(event) && !is_wheel(event) && event.code & 3 == 0
}

/// The scrollback position after a wheel turn: three lines back (not past the
/// oldest) or forward (not past the live screen); the live screen leaves scrollback
/// unless the client is in scroll mode.
pub open spec fn wheel_offset(current: Option<usize>, back: bool, maximum: usize, scroll_mode: bool) -> Option<usize> {
    let at: usize = match current {
        Some(o) => o,
        None => 0,
    };
    let next: usize = if back {
        let up: int = if at + 3 > usize::MAX {
            usize::MAX as int
        } else {
            at + 3
        };
        if up > maximum {
            maximum
        } else {
            up as usize
        }
    } else if at >= 3 {
        (at - 3) as usize
    } else {
        0
    };
    if next != 0 || scroll_mode {
        Some(next)
    } else {
        None
    }
}

/// The panes' rectangles in the area above the status line.
pub open spec fn mouse_rects(o: SessionView, size: Size) -> Seq<(PaneId, Rect)> {
    if o.has_active_tab() {
        o.active_rects(pane_area_of(size))
    } else {
        Seq::empty()
    }
}

/// The mouse event goes to the active pane's application: it is over that pane, the
/// client is not in scrollback, and the application asked for such events in a form
/// that can carry them.
pub open spec fn forwarded(
    o: SessionView,
    s: MouseState,
    event: MouseEvent,
    size: Size,
    active_modes: Option<Modes>,
) -> Option<(PaneId, Seq<u8>)> {
    match covering(mouse_rects(o, size), event.x, event.y, 0) {
        Some((pane, rect)) => match active_modes {
            Some(m) => if s.scroll_offset is None && Some(pane) == o.active_pane() && wants_mouse(
                m.mouse,
                event,
            ) {
                match mouse_report_for(event, rect, m.sgr_mouse) {
                    Some(bytes) => Some((pane, bytes)),
                    None => None,
                }
            } else {
                None
            },
            None => None,
        },
        None => None,
    }
}

/// Decides what a mouse event does: nothing while the key reminder is shown or off
/// the window; on the status line, a left press selects the tab drawn there; while a
/// press holds a border, motion drags it; over the active pane, events its
/// application asked for go to it; the wheel scrolls; a release lets go; a left press
/// focuses the pane under it, or grabs the border there. `scroll_maximum` is how far
/// the active pane can scroll back; `active_modes` are the modes of the active
/// pane's terminal, when it has one; `date` and `time` are the clock's texts on the
/// status line.
#[verifier::rlimit(60)]
pub fn mouse_step(
    session: &mut Session,
    state: &mut MouseState,
    event: MouseEvent,
    size: Size,
    status_line: StatusLine<'_>,
    message: Option<&str>,
    date: &str,
    time: &str,
    active_modes: Option<Modes>,
    scroll_maximum: usize,
) -> (r: MouseEffect)
    requires
        old(session)@.wf(),
    ensures
        final(session)@.wf(),
        ({
            let o = old(session)@;
            let s = *old(state);
            let n = final(session)@;
            let t = *final(state);
            if s.help_open || event.x >= size.columns || event.y >= size.rows {
                n == o && t == s && r is Nothing
            } else if event.y == sat_sub16(size.rows, 1) {
                let tab = if o.tabs.len() == 0 {
                    None
                } else {
                    tab_hit(
                        shown_pieces(o.name, o.tabs.len(), o.active_tab as nat, status_line, message_view(message), date@, time@, size.columns as nat),
                        0,
                        event.x as nat,
                    )
                };
                if is_left_press(event) && tab is Some && tab->0 < o.tabs.len() {
                    &&& n == (SessionView { active_tab: tab->0 as int, ..o })
                    &&& t == (MouseState { capture: None, scroll_offset: None, ..s })
                    &&& r is Resized
                } else {
                    n == o && t == (MouseState { capture: None, ..s }) && r is Nothing
                }
            } else if s.capture is Some && (is_motion(event) || event.release) {
                let c = s.capture->0;
                if c is Border && is_motion(event) {
                    let start = (c->Border_0, c->Border_1);
                    let (v, border, moved) = drag(o, pane_area_of(size), drags_horizontally(start, event.x, event.y), event.x, event.y, start, drag_steps(start, event.x, event.y), false);
                    &&& n == v
                    &&& t == (MouseState {
                        capture: if event.release {
                            None
                        } else if moved {
                            Some(MouseCapture::Border(border.0, border.1))
                        } else {
                            Some(c)
                        },
                        ..s
                    })
                    &&& if moved { r is Resized } else { r is Nothing }
                } else {
                    &&& n == o
                    &&& t == (MouseState { capture: if event.release { None } else { Some(c) }, ..s })
                    &&& r is Nothing
                }
            } else if forwarded(o, s, event, size, active_modes) is Some {
                let (pane, bytes) = forwarded(o, s, event, size, active_modes)->0;
                n == o && t == s && (r matches MouseEffect::Forward(p, b) && p == pane && b@ == bytes)
            } else if is_wheel(event) {
                &&& n == o
                &&& t == (MouseState { scroll_offset: wheel_offset(s.scroll_offset, event.code & 1 == 0, scroll_maximum, s.scroll_mode), ..s })
                &&& r is Scrolled
            } else if event.release {
                n == o && t == (MouseState { capture: None, ..s }) && r is Nothing
            } else if is_left_press(event) {
                match covering(mouse_rects(o, size), event.x, event.y, 0) {
                    Some((pane, _)) => {
                        &&& n == focused(o, pane)
                        &&& t == (MouseState { scroll_offset: None, capture: Some(MouseCapture::Click), ..s })
                        &&& r is Redraw
                    },
                    None => {
                        &&& n == o
                        &&& t == (MouseState { capture: Some(MouseCapture::Border(event.x, event.y)), ..s })
                        &&& r is Nothing
                    },
                }
            } else {
                n == o && t == s && r is Nothing
            }
        }),
{
    if state.help_open || event.x >= size.columns || event.y >= size.rows {
        return MouseEffect::Nothing;
    }
    let motion = event.code & 32 != 0;
    let wheel = event.code & 64 != 0;
    let left_press = !event.release && !motion && !wheel && event.code & 3 == 0;
    if event.y == size.rows.saturating_sub(1) {
        let tab = status_tab_at(session, size, status_line, message, event.x, date, time);
        state.capture = None;
        if left_press {
            if let Some(index) = tab {
                if session.select_tab(index) {
                    state.scroll_offset = None;
                    return MouseEffect::Resized;
                }
            }
        }
        return MouseEffect::Nothing;
    }
    let content = pane_area(size);
    let rects = session.pane_rects(content);
    let target = crate::render::cover(&rects, event.x, event.y);
    if let Some(capture) = state.capture {
        if motion || event.release {
            let moved_to = match capture {
                MouseCapture::Border(x, y) => {
                    if motion {
                        resize_border(session, content, (x, y), event.x, event.y)
                    } else {
                        None
                    }
                },
                MouseCapture::Click => None,
            };
            state.capture = if event.release {
                None
            } else {
                match moved_to {
                    Some((x, y)) => Some(MouseCapture::Border(x, y)),
                    None => Some(capture),
                }
            };
            return if moved_to.is_some() {
                MouseEffect::Resized
            } else {
                MouseEffect::Nothing
            };
        }
    }
    if let Some((pane, rect)) = target {
        if let Some(modes) = active_modes {
            let active = session.active_pane();
            if state.scroll_offset.is_none() && active == Some(pane) && forwards_mouse(modes.mouse, event) {
                if let Some(bytes) = encode_mouse(event, rect, modes.sgr_mouse) {
                    return MouseEffect::Forward(pane, bytes);
                }
            }
        }
    }
    if wheel {
        let current = match state.scroll_offset {
            Some(o) => o,
            None => 0,
        };
        let next = if event.code & 1 == 0 {
            let up = current.saturating_add(3);
            if up > scroll_maximum {
                scroll_maximum
            } else {
                up
            }
        } else {
            current.saturating_sub(3)
        };
        state.scroll_offset = if next != 0 || state.scroll_mode {
            Some(next)
        } else {
            None
        };
        return MouseEffect::Scrolled;
    }
    if event.release {
        state.capture = None;
        return MouseEffect::Nothing;
    }
    if left_press {
        match target {
            Some((pane, _)) => {
                session.select_pane(pane);
                state.scroll_offset = None;
                state.capture = Some(MouseCapture::Click);
                return MouseEffect::Redraw;
            },
            None => {
                state.capture = Some(MouseCapture::Border(event.x, event.y));
                return MouseEffect::Nothing;
            },
        }
    }
    MouseEffect::Nothing
}

} // verus!
