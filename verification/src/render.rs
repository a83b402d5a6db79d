use std::time::{Duration, SystemTime};
use vstd::prelude::*;
use vstd::view::View as _;

use crate::input::duration_nanos;
use crate::outer::{Capabilities, Profile};
use crate::paint::{border, border_char, cursor_sequence, lemma_stroked_empty, lemma_stroked_raw, lemma_stroked_styled, move_cursor, set_attributes, stroked, Stroke};
use crate::session::{max16, rect_of, sat_add16, sat_sub16, PaneId, Rect, Session, SessionView, Size};
use crate::server::inside;
use crate::status::{
    display_width, help_lines, help_text, kept, truncate, Segment, capped, pieces, shown_pieces, shown_segments, text_width, total_width, message_view, Piece,
    SegmentStyle, StatusLine,
};
use crate::terminal::{cells, plain, Attributes, Cell, CellView, State, StateView};
use crate::text::utf8;

verus! {

/// What the window shows: the live panes, the active pane's scrollback, or help.
#[derive(Clone, Copy, Debug, PartialEq, Eq, Structural)]
pub enum View {
    Live,
    Scroll(usize),
    Help { offset: usize, prefix: u8 },
}

/// The attributes a status segment is drawn with: its style's colours, bold and
/// underlined when it stands for the active tab.
pub open spec fn segment_attributes(p: Piece, active: nat, line: StatusLine<'_>) -> Attributes {
    let marked = p.tab == Some(active as usize);
    let (foreground, background) = match p.style {
        SegmentStyle::Base | SegmentStyle::Fill => (line.foreground, line.background),
        SegmentStyle::Label => (line.label_foreground, line.label_background),
        SegmentStyle::Active => (line.active_foreground, line.active_background),
    };
    Attributes { foreground, background, bold: marked, underline: marked, ..plain() }
}

/// `n` spaces, as bytes.
pub open spec fn blanks(n: nat) -> Seq<u8> {
    Seq::new(n, |_i: int| 32u8)
}

/// The segments drawn one after the other.
pub open spec fn segment_strokes(p: Seq<Piece>, active: nat, line: StatusLine<'_>) -> Seq<Stroke>
    decreases p.len(),
{
    if p.len() == 0 {
        Seq::empty()
    } else {
        segment_strokes(p.drop_last(), active, line).push(
            Stroke::Styled(segment_attributes(p.last(), active, line), utf8(p.last().text)),
        )
    }
}

/// The tab the status line marks: the active one, or the first.
pub open spec fn marked_tab(session: SessionView) -> nat {
    if session.tabs.len() == 0 {
        0
    } else {
        session.active_tab as nat
    }
}

/// What the status line draws: on the last row, the segments, then spaces in the base
/// colours to the right edge, then the attributes reset; the cursor saved before and
/// restored after when asked.
#[verifier::opaque]
pub open spec fn status_strokes(
    session: SessionView,
    size: Size,
    line: StatusLine<'_>,
    message: Option<Seq<char>>,
    preserve_cursor: bool,
    date: Seq<char>,
    time: Seq<char>,
) -> Seq<Stroke> {
    let active = marked_tab(session);
    let p = shown_pieces(session.name, session.tabs.len(), active, line, message, date, time, size.columns as nat);
    let used = capped(total_width(p));
    let rest: nat = if size.columns >= used {
        (size.columns - used) as nat
    } else {
        0
    };
    (if preserve_cursor {
        seq![Stroke::Raw(seq![27u8, 55u8])]
    } else {
        Seq::empty()
    }) + seq![Stroke::Raw(cursor_sequence(sat_sub16(size.rows, 1), 0))] + segment_strokes(p, active, line)
        + seq![
        Stroke::Styled(Attributes { foreground: line.foreground, background: line.background, ..plain() }, blanks(rest)),
        Stroke::Raw(seq![27u8, 91u8, 48u8, 109u8]),
    ] + (if preserve_cursor {
        seq![Stroke::Raw(seq![27u8, 56u8])]
    } else {
        Seq::empty()
    })
}

pub open spec fn saved(preserve_cursor: bool, byte: u8) -> Seq<Stroke> {
    if preserve_cursor {
        seq![Stroke::Raw(seq![27u8, byte])]
    } else {
        Seq::empty()
    }
}

proof fn lemma_status_strokes(
    session: SessionView,
    size: Size,
    line: StatusLine<'_>,
    message: Option<Seq<char>>,
    preserve_cursor: bool,
    date: Seq<char>,
    time: Seq<char>,
    p: Seq<Piece>,
    used: usize,
    rest: usize,
    row: u16,
    base: Attributes,
    active: nat,
)
    requires
        p == shown_pieces(session.name, session.tabs.len(), marked_tab(session), line, message, date, time, size.columns as nat),
        used == capped(total_width(p)),
        rest == (if size.columns >= used {
            (size.columns - used) as usize
        } else {
            0
        }),
        row == sat_sub16(size.rows, 1),
        base == (Attributes { foreground: line.foreground, background: line.background, ..plain() }),
        active == marked_tab(session),
    ensures
        status_strokes(session, size, line, message, preserve_cursor, date, time) == saved(preserve_cursor, 55)
            + seq![Stroke::Raw(cursor_sequence(row, 0))] + segment_strokes(p, active, line)
            + seq![
            Stroke::Styled(base, blanks(rest as nat)),
            Stroke::Raw(seq![27u8, 91u8, 48u8, 109u8]),
        ] + saved(preserve_cursor, 56),
{
    reveal(status_strokes);
}

fn push_blanks(output: &mut Vec<u8>, n: usize)
    ensures
        final(output)@ == old(output)@ + blanks(n as nat),
{
    let mut i: usize = 0;
    while i < n
        invariant
            0 <= i <= n,
            output@ == old(output)@ + blanks(i as nat),
        decreases n - i,
    {
        output.push(32);
        i += 1;
        assert(output@ =~= old(output)@ + blanks(i as nat));
    }
}

fn push_str(output: &mut Vec<u8>, text: &str)
    ensures
        final(output)@ == old(output)@ + utf8(text@),
{
    let mut bytes = vstd::slice::slice_to_vec(text.as_bytes());
    output.append(&mut bytes);
}

/// Draws the segments after `strokes`, returning the columns they take.
fn draw_segments(
    output: &mut Vec<u8>,
    attributes: &mut Option<Attributes>,
    segments: &Vec<Segment>,
    active: usize,
    status_line: StatusLine<'_>,
    capabilities: Capabilities,
    Ghost(head): Ghost<Seq<Stroke>>,
) -> (used: usize)
    requires
        old(output)@ == stroked(head, None, capabilities).0,
        *old(attributes) == stroked(head, None, capabilities).1,
    ensures
        ({
            let strokes = head + segment_strokes(pieces(segments@), active as nat, status_line);
            &&& final(output)@ == stroked(strokes, None, capabilities).0
            &&& *final(attributes) == stroked(strokes, None, capabilities).1
        }),
        used == capped(total_width(pieces(segments@))),
{
    let ghost p = pieces(segments@);
    let ghost mut strokes = head;
    assert(head + segment_strokes(p.take(0), active as nat, status_line) =~= head);
    let mut used: usize = 0;
    let mut i: usize = 0;
    while i < segments.len()
        invariant
            0 <= i <= segments@.len(),
            p == pieces(segments@),
            strokes == head + segment_strokes(p.take(i as int), active as nat, status_line),
            output@ == stroked(strokes, None, capabilities).0,
            *attributes == stroked(strokes, None, capabilities).1,
            used == capped(total_width(p.take(i as int))),
        decreases segments.len() - i,
    {
        let marked = match segments[i].tab {
            Some(tab) => tab == active,
            None => false,
        };
        let (foreground, background) = match segments[i].style {
            SegmentStyle::Base | SegmentStyle::Fill => (status_line.foreground, status_line.background),
            SegmentStyle::Label => (status_line.label_foreground, status_line.label_background),
            SegmentStyle::Active => (status_line.active_foreground, status_line.active_background),
        };
        let wanted = Attributes { foreground, background, bold: marked, underline: marked, ..Attributes::default() };
        let ghost piece = p[i as int];
        assert(piece == segments@[i as int].piece());
        assert(wanted == segment_attributes(piece, active as nat, status_line));
        proof {
            lemma_stroked_styled(strokes, None, capabilities, wanted, utf8(piece.text));
        }
        set_attributes(output, attributes, wanted, capabilities);
        push_str(output, segments[i].text.as_str());
        let w = text_width(segments[i].text.as_str());
        used = used.saturating_add(w);
        proof {
            assert(p.take(i + 1).drop_last() =~= p.take(i as int));
            strokes = strokes.push(Stroke::Styled(wanted, utf8(piece.text)));
            assert(head + segment_strokes(p.take(i + 1), active as nat, status_line) =~= strokes);
        }
        i += 1;
    }
    assert(p.take(i as int) =~= p);
    used
}

/// The status line, drawn on the last row; `date` and `time` are the clock's texts.
#[verifier::rlimit(40)]
pub fn status(
    session: &Session,
    size: Size,
    status_line: StatusLine<'_>,
    message: Option<&str>,
    preserve_cursor: bool,
    capabilities: Capabilities,
    date: &str,
    time: &str,
) -> (r: Vec<u8>)
    requires
        session@.wf(),
    ensures
        r@ == stroked(
            status_strokes(session@, size, status_line, message_view(message), preserve_cursor, date@, time@),
            None,
            capabilities,
        ).0,
{
    let width = size.columns as usize;
    let active = match session.active_tab() {
        Some(active) => active,
        None => 0,
    };
    let segments = shown_segments(session, width, status_line, message, active, date, time);
    let ghost p = pieces(segments@);
    let ghost mut strokes: Seq<Stroke> = Seq::empty();
    let mut output: Vec<u8> = Vec::new();
    let mut attributes: Option<Attributes> = None;
    proof {
        lemma_stroked_empty(None, capabilities);
    }
    if preserve_cursor {
        output.push(27);
        output.push(55);
        proof {
            lemma_stroked_raw(strokes, None, capabilities, seq![27u8, 55u8]);
            strokes = strokes.push(Stroke::Raw(seq![27u8, 55u8]));
            assert(output@ =~= stroked(strokes, None, capabilities).0);
        }
    }
    let row = size.rows.saturating_sub(1);
    move_cursor(&mut output, row, 0);
    proof {
        lemma_stroked_raw(strokes, None, capabilities, cursor_sequence(row, 0));
        strokes = strokes.push(Stroke::Raw(cursor_sequence(row, 0)));
    }
    let used = draw_segments(&mut output, &mut attributes, &segments, active, status_line, capabilities, Ghost(strokes));
    proof {
        strokes = strokes + segment_strokes(p, active as nat, status_line);
    }
    let base = Attributes {
        foreground: status_line.foreground,
        background: status_line.background,
        ..Attributes::default()
    };
    let rest = width.saturating_sub(used);
    proof {
        lemma_stroked_styled(strokes, None, capabilities, base, blanks(rest as nat));
    }
    set_attributes(&mut output, &mut attributes, base, capabilities);
    push_blanks(&mut output, rest);
    proof {
        strokes = strokes.push(Stroke::Styled(base, blanks(rest as nat)));
        assert(output@ =~= stroked(strokes, None, capabilities).0);
        lemma_stroked_raw(strokes, None, capabilities, seq![27u8, 91u8, 48u8, 109u8]);
        strokes = strokes.push(Stroke::Raw(seq![27u8, 91u8, 48u8, 109u8]));
    }
    output.push(27);
    output.push(91);
    output.push(48);
    output.push(109);
    assert(output@ =~= stroked(strokes, None, capabilities).0);
    if preserve_cursor {
        proof {
            lemma_stroked_raw(strokes, None, capabilities, seq![27u8, 56u8]);
            strokes = strokes.push(Stroke::Raw(seq![27u8, 56u8]));
        }
        output.push(27);
        output.push(56);
        assert(output@ =~= stroked(strokes, None, capabilities).0);
    }
    proof {
        lemma_status_strokes(session@, size, status_line, message_view(message), preserve_cursor, date@, time@, p, used, rest, row, base, active as nat);
        assert(strokes =~= saved(preserve_cursor, 55) + seq![Stroke::Raw(cursor_sequence(row, 0))] + segment_strokes(p, active as nat, status_line) + seq![
            Stroke::Styled(base, blanks(rest as nat)),
            Stroke::Raw(seq![27u8, 91u8, 48u8, 109u8]),
        ] + saved(preserve_cursor, 56));
    }
    output
}


/// The screens of some panes, as they were last drawn.
pub type Snapshot = Vec<(PaneId, Vec<Vec<Cell>>)>;

/// Rows of cells, as values.
pub open spec fn grid_view(rows: Seq<Vec<Cell>>) -> Seq<Seq<CellView>> {
    rows.map_values(|line: Vec<Cell>| cells(line@))
}

pub open spec fn snapshot_view(s: Seq<(PaneId, Vec<Vec<Cell>>)>) -> Seq<(PaneId, Seq<Seq<CellView>>)> {
    s.map_values(|entry: (PaneId, Vec<Vec<Cell>>)| (entry.0, grid_view(entry.1@)))
}

pub open spec fn panes_view(panes: Seq<(PaneId, &State)>) -> Seq<(PaneId, StateView)> {
    panes.map_values(|entry: (PaneId, &State)| (entry.0, entry.1@))
}

/// The state of the first entry for `pane`.
pub open spec fn state_of(panes: Seq<(PaneId, StateView)>, pane: PaneId) -> Option<StateView>
    decreases panes.len(),
{
    if panes.len() == 0 {
        None
    } else if panes[0].0 == pane {
        Some(panes[0].1)
    } else {
        state_of(panes.drop_first(), pane)
    }
}

/// The rows recorded for the first entry of `pane`.
pub open spec fn rows_of(previous: Seq<(PaneId, Seq<Seq<CellView>>)>, pane: PaneId) -> Option<Seq<Seq<CellView>>>
    decreases previous.len(),
{
    if previous.len() == 0 {
        None
    } else if previous[0].0 == pane {
        Some(previous[0].1)
    } else {
        rows_of(previous.drop_first(), pane)
    }
}

/// Each pane's shown screen.
pub fn snapshot(panes: &[(PaneId, &State)]) -> (r: Snapshot)
    ensures
        snapshot_view(r@) == panes_view(panes@).map_values(
            |entry: (PaneId, StateView)| (entry.0, entry.1.active().rows),
        ),
{
    let ghost want = panes_view(panes@).map_values(
        |entry: (PaneId, StateView)| (entry.0, entry.1.active().rows),
    );
    let mut out: Snapshot = Vec::new();
    let mut k: usize = 0;
    while k < panes.len()
        invariant
            0 <= k <= panes@.len(),
            want == panes_view(panes@).map_values(
                |entry: (PaneId, StateView)| (entry.0, entry.1.active().rows),
            ),
            snapshot_view(out@) == want.take(k as int),
        decreases panes.len() - k,
    {
        let rows = panes[k].1.screen().rows();
        let copy = copy_rows(rows);
        let ghost before = out@;
        out.push((panes[k].0, copy));
        proof {
            assert(snapshot_view(out@) =~= snapshot_view(before).push((panes@[k as int].0, grid_view(copy@))));
            assert(want.take(k + 1) =~= want.take(k as int).push(want[k as int]));
        }
        k += 1;
    }
    assert(want.take(k as int) =~= want);
    out
}

fn copy_rows(rows: &[Vec<Cell>]) -> (r: Vec<Vec<Cell>>)
    ensures
        grid_view(r@) == rows@.map_values(|line: Vec<Cell>| cells(line@)),
{
    let mut out: Vec<Vec<Cell>> = Vec::new();
    let mut y: usize = 0;
    while y < rows.len()
        invariant
            0 <= y <= rows@.len(),
            grid_view(out@) == rows@.map_values(|line: Vec<Cell>| cells(line@)).take(y as int),
        decreases rows.len() - y,
    {
        let mut line: Vec<Cell> = Vec::new();
        let mut x: usize = 0;
        while x < rows[y].len()
            invariant
                0 <= y < rows@.len(),
                0 <= x <= rows@[y as int]@.len(),
                cells(line@) == cells(rows@[y as int]@).take(x as int),
            decreases rows[y as int]@.len() - x,
        {
            let c = rows[y][x].duplicate();
            let ghost prev = line@;
            line.push(c);
            proof {
                assert(cells(line@) =~= cells(prev).push(c@));
                assert(cells(rows@[y as int]@)[x as int] == rows@[y as int]@[x as int]@);
                assert(cells(rows@[y as int]@).take(x + 1) =~= cells(rows@[y as int]@).take(x as int).push(c@));
            }
            x += 1;
        }
        assert(cells(rows@[y as int]@).take(x as int) =~= cells(rows@[y as int]@));
        let ghost before = out@;
        let ghost row_cells = cells(line@);
        out.push(line);
        proof {
            assert(grid_view(out@) =~= grid_view(before).push(row_cells));
            assert(rows@.map_values(|line: Vec<Cell>| cells(line@)).take(y + 1) =~= rows@.map_values(|line: Vec<Cell>| cells(line@)).take(y as int).push(cells(rows@[y as int]@)));
        }
        y += 1;
    }
    assert(rows@.map_values(|line: Vec<Cell>| cells(line@)).take(y as int) =~= rows@.map_values(|line: Vec<Cell>| cells(line@)));
    out
}

/// The bytes that put the cursor where the active pane's application has it, and
/// show or hide it as the application asks when the terminal can.
pub open spec fn cursor_bytes(
    active: Option<PaneId>,
    rects: Seq<(PaneId, Rect)>,
    panes: Seq<(PaneId, StateView)>,
    capabilities: Capabilities,
) -> Seq<u8> {
    match active {
        None => Seq::empty(),
        Some(pane) => match rect_of(rects, pane) {
            None => Seq::empty(),
            Some(rect) => match state_of(panes, pane) {
                None => Seq::empty(),
                Some(state) => {
                    let cursor = state.active().cursor;
                    cursor_sequence(sat_add16(rect.y, cursor.row as u16), sat_add16(rect.x, cursor.column as u16))
                        + if capabilities.cursor_visibility {
                        if state.modes.cursor_visible {
                            seq![27u8, 91u8, 63u8, 50u8, 53u8, 104u8]
                        } else {
                            seq![27u8, 91u8, 63u8, 50u8, 53u8, 108u8]
                        }
                    } else {
                        Seq::empty()
                    }
                },
            },
        },
    }
}

/// Each pane with a rectangle fits on the outer screen where the rectangle puts it.
pub open spec fn placeable(rects: Seq<(PaneId, Rect)>, panes: Seq<(PaneId, StateView)>) -> bool {
    forall|k: int|
        0 <= k < panes.len() ==> {
            &&& (#[trigger] panes[k]).1.wf()
            &&& (rect_of(rects, panes[k].0) matches Some(rect) ==> rect.y + panes[k].1.active().rows.len()
                <= u16::MAX && rect.x + panes[k].1.active().columns() <= u16::MAX)
        }
}

fn find_rect(rects: &Vec<(PaneId, Rect)>, pane: PaneId) -> (r: Option<Rect>)
    ensures
        r == rect_of(rects@, pane),
{
    let mut i: usize = 0;
    assert(rects@.skip(0) =~= rects@);
    while i < rects.len()
        invariant
            0 <= i <= rects@.len(),
            rect_of(rects@.skip(i as int), pane) == rect_of(rects@, pane),
        decreases rects.len() - i,
    {
        proof {
            assert(rects@.skip(i as int)[0] == rects@[i as int]);
            assert(rects@.skip(i as int).drop_first() =~= rects@.skip(i + 1));
        }
        if rects[i].0 == pane {
            return Some(rects[i].1);
        }
        i += 1;
    }
    None
}

proof fn lemma_state_of_found(panes: Seq<(PaneId, StateView)>, pane: PaneId)
    ensures
        state_of(panes, pane) matches Some(state) ==> exists|k: int|
            0 <= k < panes.len() && panes[k].0 == pane && #[trigger] panes[k].1 == state,
    decreases panes.len(),
{
    if panes.len() > 0 && panes[0].0 != pane {
        lemma_state_of_found(panes.drop_first(), pane);
        if let Some(state) = state_of(panes, pane) {
            let k = choose|k: int| 0 <= k < panes.drop_first().len() && panes.drop_first()[k].0 == pane && #[trigger] panes.drop_first()[k].1 == state;
            assert(panes[k + 1] == panes.drop_first()[k]);
        }
    } else if panes.len() > 0 {
        assert(panes[0].1 == panes[0].1);
    }
}

/// The index of the first entry for `pane`.
fn find_state(panes: &[(PaneId, &State)], pane: PaneId) -> (r: Option<usize>)
    ensures
        match r {
            Some(k) => k < panes@.len() && panes@[k as int].0 == pane && state_of(panes_view(panes@), pane)
                == Some(panes@[k as int].1@),
            None => state_of(panes_view(panes@), pane) is None,
        },
{
    let ghost all = panes_view(panes@);
    let mut i: usize = 0;
    assert(all.skip(0) =~= all);
    while i < panes.len()
        invariant
            0 <= i <= panes@.len(),
            all == panes_view(panes@),
            state_of(all.skip(i as int), pane) == state_of(all, pane),
        decreases panes.len() - i,
    {
        proof {
            assert(all.skip(i as int)[0] == all[i as int]);
            assert(all.skip(i as int).drop_first() =~= all.skip(i + 1));
        }
        if panes[i].0 == pane {
            return Some(i);
        }
        i += 1;
    }
    None
}

/// Puts the cursor where the active pane's application has it.
pub fn place_cursor(
    output: &mut Vec<u8>,
    active: Option<PaneId>,
    rects: &Vec<(PaneId, Rect)>,
    panes: &[(PaneId, &State)],
    capabilities: Capabilities,
)
    requires
        placeable(rects@, panes_view(panes@)),
    ensures
        final(output)@ == old(output)@ + cursor_bytes(active, rects@, panes_view(panes@), capabilities),
{
    let pane = match active {
        Some(pane) => pane,
        None => {
            assert(output@ =~= old(output)@ + cursor_bytes(active, rects@, panes_view(panes@), capabilities));
            return;
        },
    };
    let rect = match find_rect(rects, pane) {
        Some(rect) => rect,
        None => {
            assert(output@ =~= old(output)@ + cursor_bytes(active, rects@, panes_view(panes@), capabilities));
            return;
        },
    };
    let k = match find_state(panes, pane) {
        Some(k) => k,
        None => {
            assert(output@ =~= old(output)@ + cursor_bytes(active, rects@, panes_view(panes@), capabilities));
            return;
        },
    };
    let state = panes[k].1;
    let cursor = state.screen().cursor();
    proof {
        let entry = panes_view(panes@)[k as int];
        assert(entry == (panes@[k as int].0, state@));
        assert(state@.wf());
    }
    let row = rect.y.saturating_add(cursor.row as u16);
    let column = rect.x.saturating_add(cursor.column as u16);
    move_cursor(output, row, column);
    if capabilities.cursor_visibility {
        output.push(27);
        output.push(91);
        output.push(63);
        output.push(50);
        output.push(53);
        output.push(if state.modes().cursor_visible {
            104
        } else {
            108
        });
    }
    assert(output@ =~= old(output)@ + cursor_bytes(active, rects@, panes_view(panes@), capabilities));
}


/// The cell recorded at a position, if the recorded rows reach it.
pub open spec fn old_cell(old: Option<Seq<Seq<CellView>>>, y: int, x: int) -> Option<CellView> {
    match old {
        Some(rows) => if 0 <= y < rows.len() && 0 <= x < rows[y].len() {
            Some(rows[y][x])
        } else {
            None
        },
        None => None,
    }
}

/// What redraws one cell: nothing when it is as recorded or the right half of a wide
/// character; else the cursor moved to it and its character drawn.
pub open spec fn changed_cell(rect: Rect, cell: CellView, old: Option<CellView>, y: nat, x: nat) -> Seq<Stroke> {
    if old == Some(cell) || cell.width == 0 {
        Seq::empty()
    } else {
        seq![
            Stroke::Raw(cursor_sequence(sat_add16(rect.y, y as u16), sat_add16(rect.x, x as u16))),
            Stroke::Styled(cell.attributes, utf8(seq![cell.character]) + utf8(cell.combining)),
        ]
    }
}

/// The redrawing of the first `n` cells of row `y`.
pub open spec fn row_changes(rect: Rect, row: Seq<CellView>, old: Option<Seq<Seq<CellView>>>, y: nat, n: nat) -> Seq<Stroke>
    decreases n,
{
    if n == 0 {
        Seq::empty()
    } else {
        row_changes(rect, row, old, y, (n - 1) as nat) + changed_cell(rect, row[n - 1], old_cell(old, y as int, n - 1), y, (n - 1) as nat)
    }
}

/// The redrawing of the first `m` rows of a screen.
pub open spec fn screen_changes(rect: Rect, rows: Seq<Seq<CellView>>, old: Option<Seq<Seq<CellView>>>, m: nat) -> Seq<Stroke>
    decreases m,
{
    if m == 0 {
        Seq::empty()
    } else {
        screen_changes(rect, rows, old, (m - 1) as nat) + row_changes(rect, rows[m - 1], old, (m - 1) as nat, rows[m - 1].len())
    }
}

/// The redrawing of the first `k` panes, each at its rectangle; a pane without one
/// is not drawn.
pub open spec fn pane_changes(
    rects: Seq<(PaneId, Rect)>,
    panes: Seq<(PaneId, StateView)>,
    previous: Seq<(PaneId, Seq<Seq<CellView>>)>,
    k: nat,
) -> Seq<Stroke>
    decreases k,
{
    if k == 0 {
        Seq::empty()
    } else {
        pane_changes(rects, panes, previous, (k - 1) as nat) + match rect_of(rects, panes[k - 1].0) {
            None => Seq::empty(),
            Some(rect) => {
                let rows = panes[k - 1].1.active().rows;
                screen_changes(rect, rows, rows_of(previous, panes[k - 1].0), rows.len())
            },
        }
    }
}

/// The rectangles of the active tab's panes in the rows above the status line.
pub open spec fn content_rects(session: SessionView, size: Size) -> Seq<(PaneId, Rect)> {
    if session.has_active_tab() {
        session.active_rects(Size { columns: max16(size.columns, 1), rows: max16(sat_sub16(size.rows, 1), 1) })
    } else {
        Seq::empty()
    }
}

/// The bytes that hide the cursor, when the terminal can.
pub open spec fn hide_cursor(capabilities: Capabilities) -> Seq<u8> {
    if capabilities.cursor_visibility {
        seq![27u8, 91u8, 63u8, 50u8, 53u8, 108u8]
    } else {
        Seq::empty()
    }
}

fn find_rows(previous: &Snapshot, pane: PaneId) -> (r: Option<usize>)
    ensures
        match r {
            Some(k) => k < previous@.len() && rows_of(snapshot_view(previous@), pane) == Some(grid_view(previous@[k as int].1@)),
            None => rows_of(snapshot_view(previous@), pane) is None,
        },
{
    let ghost all = snapshot_view(previous@);
    let mut i: usize = 0;
    assert(all.skip(0) =~= all);
    while i < previous.len()
        invariant
            0 <= i <= previous@.len(),
            all == snapshot_view(previous@),
            rows_of(all.skip(i as int), pane) == rows_of(all, pane),
        decreases previous.len() - i,
    {
        proof {
            assert(all.skip(i as int)[0] == all[i as int]);
            assert(all.skip(i as int).drop_first() =~= all.skip(i + 1));
        }
        if previous[i].0 == pane {
            return Some(i);
        }
        i += 1;
    }
    None
}

/// Redraws a pane's cells that differ from the recorded ones.
fn draw_changed_screen(
    output: &mut Vec<u8>,
    attributes: &mut Option<Attributes>,
    rect: Rect,
    state: &State,
    recorded: Option<&Vec<Vec<Cell>>>,
    capabilities: Capabilities,
    Ghost(head): Ghost<Seq<Stroke>>,
)
    requires
        state@.wf(),
        rect.y + state@.active().rows.len() <= u16::MAX,
        rect.x + state@.active().columns() <= u16::MAX,
        old(output)@ == stroked(head, None, capabilities).0,
        *old(attributes) == stroked(head, None, capabilities).1,
    ensures
        ({
            let old_rows = match recorded {
                Some(rows) => Some(grid_view(rows@)),
                None => None,
            };
            let rows = state@.active().rows;
            let strokes = head + screen_changes(rect, rows, old_rows, rows.len());
            &&& final(output)@ == stroked(strokes, None, capabilities).0
            &&& *final(attributes) == stroked(strokes, None, capabilities).1
        }),
{
    let ghost old_rows = match recorded {
        Some(rows) => Some(grid_view(rows@)),
        None => None,
    };
    let rows = state.screen().rows();
    let ghost grid = state@.active().rows;
    let ghost mut strokes = head;
    let mut y: usize = 0;
    while y < rows.len()
        invariant
            0 <= y <= rows@.len(),
            grid == state@.active().rows,
            rows@.map_values(|line: Vec<Cell>| cells(line@)) == grid,
            state@.wf(),
            rect.y + grid.len() <= u16::MAX,
            rect.x + state@.active().columns() <= u16::MAX,
            old_rows == match recorded {
                Some(rows) => Some(grid_view(rows@)),
                None => None::<Seq<Seq<CellView>>>,
            },
            strokes == head + screen_changes(rect, grid, old_rows, y as nat),
            output@ == stroked(strokes, None, capabilities).0,
            *attributes == stroked(strokes, None, capabilities).1,
        decreases rows.len() - y,
    {
        let ghost row_start = strokes;
        assert(grid[y as int] == cells(rows@[y as int]@));
        assert(grid[y as int].len() == state@.active().columns());
        let mut x: usize = 0;
        while x < rows[y].len()
            invariant
                0 <= y < rows@.len(),
                0 <= x <= rows@[y as int]@.len(),
                grid == state@.active().rows,
                rows@.map_values(|line: Vec<Cell>| cells(line@)) == grid,
                grid[y as int] == cells(rows@[y as int]@),
                y < grid.len(),
                rect.y + grid.len() <= u16::MAX,
                rect.x + grid[y as int].len() <= u16::MAX,
                old_rows == match recorded {
                    Some(rows) => Some(grid_view(rows@)),
                    None => None::<Seq<Seq<CellView>>>,
                },
                strokes == row_start + row_changes(rect, grid[y as int], old_rows, y as nat, x as nat),
                output@ == stroked(strokes, None, capabilities).0,
                *attributes == stroked(strokes, None, capabilities).1,
            decreases rows[y as int]@.len() - x,
        {
            let cell = &rows[y][x];
            assert(cell@ == grid[y as int][x as int]);
            let same = match recorded {
                Some(old_rows_exec) => {
                    if y < old_rows_exec.len() && x < old_rows_exec[y].len() {
                        proof {
                            assert(grid_view(old_rows_exec@)[y as int] == cells(old_rows_exec@[y as int]@));
                            assert(cells(old_rows_exec@[y as int]@)[x as int] == old_rows_exec@[y as int]@[x as int]@);
                        }
                        old_rows_exec[y][x].same(cell)
                    } else {
                        false
                    }
                },
                None => false,
            };
            assert(same == (old_cell(old_rows, y as int, x as int) == Some(cell@)));
            if same || cell.is_continuation() {
                proof {
                    assert(strokes + Seq::<Stroke>::empty() =~= strokes);
                }
            } else {
                let row_at = rect.y.saturating_add(y as u16);
                let column_at = rect.x.saturating_add(x as u16);
                proof {
                    lemma_stroked_raw(strokes, None, capabilities, cursor_sequence(row_at, column_at));
                }
                move_cursor(output, row_at, column_at);
                proof {
                    strokes = strokes.push(Stroke::Raw(cursor_sequence(row_at, column_at)));
                    lemma_stroked_styled(strokes, None, capabilities, cell@.attributes, utf8(seq![cell@.character]) + utf8(cell@.combining));
                }
                set_attributes(output, attributes, cell.attributes(), capabilities);
                crate::paint::push_char(output, cell.character());
                push_str(output, cell.combining());
                proof {
                    strokes = strokes.push(Stroke::Styled(cell@.attributes, utf8(seq![cell@.character]) + utf8(cell@.combining)));
                    assert(output@ =~= stroked(strokes, None, capabilities).0);
                }
            }
            proof {
                assert(strokes =~= row_start + row_changes(rect, grid[y as int], old_rows, y as nat, (x + 1) as nat));
            }
            x += 1;
        }
        proof {
            assert(strokes =~= head + screen_changes(rect, grid, old_rows, (y + 1) as nat));
        }
        y += 1;
    }
}


/// The cells that changed since `previous`, drawn over what the terminal shows; then
/// the attributes reset and the cursor put back in the active pane.
pub fn changes(
    session: &Session,
    panes: &[(PaneId, &State)],
    size: Size,
    previous: &Snapshot,
    capabilities: Capabilities,
) -> (r: Vec<u8>)
    requires
        session@.wf(),
        placeable(content_rects(session@, size), panes_view(panes@)),
    ensures
        ({
            let rects = content_rects(session@, size);
            let all = panes_view(panes@);
            r@ == hide_cursor(capabilities) + stroked(
                pane_changes(rects, all, snapshot_view(previous@), panes@.len()),
                None,
                capabilities,
            ).0 + seq![27u8, 91u8, 48u8, 109u8] + cursor_bytes(session@.active_pane(), rects, all, capabilities)
        }),
{
    let content = Size {
        columns: if size.columns > 1 {
            size.columns
        } else {
            1
        },
        rows: if size.rows.saturating_sub(1) > 1 {
            size.rows.saturating_sub(1)
        } else {
            1
        },
    };
    let rects = session.pane_rects(content);
    let ghost all = panes_view(panes@);
    let mut output: Vec<u8> = Vec::new();
    if capabilities.cursor_visibility {
        output.push(27);
        output.push(91);
        output.push(63);
        output.push(50);
        output.push(53);
        output.push(108);
    }
    assert(output@ =~= hide_cursor(capabilities));
    let mut body: Vec<u8> = Vec::new();
    let mut attributes: Option<Attributes> = None;
    let ghost mut strokes: Seq<Stroke> = Seq::empty();
    proof {
        lemma_stroked_empty(None, capabilities);
    }
    let mut k: usize = 0;
    while k < panes.len()
        invariant
            0 <= k <= panes@.len(),
            all == panes_view(panes@),
            rects@ == content_rects(session@, size),
            placeable(rects@, all),
            strokes == pane_changes(rects@, all, snapshot_view(previous@), k as nat),
            body@ == stroked(strokes, None, capabilities).0,
            attributes == stroked(strokes, None, capabilities).1,
        decreases panes.len() - k,
    {
        let pane = panes[k].0;
        let ghost entry = all[k as int];
        assert(entry == (pane, panes@[k as int].1@));
        match find_rect(&rects, pane) {
            None => {
                assert(strokes =~= pane_changes(rects@, all, snapshot_view(previous@), (k + 1) as nat));
            },
            Some(rect) => {
                let state = panes[k].1;
                assert(all[k as int].1.wf());
                let recorded = match find_rows(previous, pane) {
                    Some(i) => Some(&previous[i].1),
                    None => None,
                };
                draw_changed_screen(&mut body, &mut attributes, rect, state, recorded, capabilities, Ghost(strokes));
                proof {
                    let rows = state@.active().rows;
                    strokes = strokes + screen_changes(rect, rows, rows_of(snapshot_view(previous@), pane), rows.len());
                    assert(strokes =~= pane_changes(rects@, all, snapshot_view(previous@), (k + 1) as nat));
                }
            },
        }
        k += 1;
    }
    output.append(&mut body);
    output.push(27);
    output.push(91);
    output.push(48);
    output.push(109);
    let ghost before_cursor = output@;
    place_cursor(&mut output, session.active_pane(), &rects, panes, capabilities);
    assert(output@ =~= hide_cursor(capabilities) + stroked(
        pane_changes(rects@, all, snapshot_view(previous@), panes@.len()),
        None,
        capabilities,
    ).0 + seq![27u8, 91u8, 48u8, 109u8] + cursor_bytes(session@.active_pane(), rects@, all, capabilities));
    output
}


/// The first pane, in layout order, whose rectangle holds the cell, with the
/// rectangle.
pub open spec fn covering(rects: Seq<(PaneId, Rect)>, x: u16, y: u16, i: int) -> Option<(PaneId, Rect)>
    decreases rects.len() - i,
{
    if i < 0 || i >= rects.len() {
        None
    } else if inside(rects[i].1, x, y) {
        Some(rects[i])
    } else {
        covering(rects, x, y, i + 1)
    }
}

pub fn cover(rects: &Vec<(PaneId, Rect)>, x: u16, y: u16) -> (r: Option<(PaneId, Rect)>)
    ensures
        r == covering(rects@, x, y, 0),
{
    let mut i: usize = 0;
    while i < rects.len()
        invariant
            0 <= i <= rects@.len(),
            covering(rects@, x, y, i as int) == covering(rects@, x, y, 0),
        decreases rects.len() - i,
    {
        if crate::server::rect_contains(rects[i].1, x, y) {
            return Some(rects[i]);
        }
        i += 1;
    }
    None
}

/// Whether the outer terminal draws box-drawing characters.
pub open spec fn draws_boxes(capabilities: Capabilities) -> bool {
    !(capabilities.profile == Profile::Dumb || capabilities.profile == Profile::Ansi
        || capabilities.profile == Profile::Vt100)
}

/// What draws a cell of the window: the pane's cell where a pane covers it (its
/// character, unless it is the right half of a wide one), else the border.
pub open spec fn live_cell(
    rects: Seq<(PaneId, Rect)>,
    active: Option<PaneId>,
    panes: Seq<(PaneId, StateView)>,
    x: u16,
    y: u16,
    unicode: bool,
) -> Stroke {
    let edge = Stroke::Styled(plain(), utf8(seq![border_char(rects, active, x, y, unicode)]));
    match covering(rects, x, y, 0) {
        Some((pane, rect)) => match state_of(panes, pane) {
            Some(state) => {
                let cell = state.active().rows[y - rect.y][x - rect.x];
                Stroke::Styled(
                    cell.attributes,
                    if cell.width == 0 {
                        Seq::empty()
                    } else {
                        utf8(seq![cell.character]) + utf8(cell.combining)
                    },
                )
            },
            None => edge,
        },
        None => edge,
    }
}

/// The first `n` cells of row `y`.
pub open spec fn live_row(
    rects: Seq<(PaneId, Rect)>,
    active: Option<PaneId>,
    panes: Seq<(PaneId, StateView)>,
    y: u16,
    n: nat,
    unicode: bool,
) -> Seq<Stroke>
    decreases n,
{
    if n == 0 {
        Seq::empty()
    } else {
        live_row(rects, active, panes, y, (n - 1) as nat, unicode).push(
            live_cell(rects, active, panes, (n - 1) as u16, y, unicode),
        )
    }
}

/// The first `m` rows of the window, each begun by moving the cursor to its start.
pub open spec fn live_grid(
    rects: Seq<(PaneId, Rect)>,
    active: Option<PaneId>,
    panes: Seq<(PaneId, StateView)>,
    columns: u16,
    m: nat,
    unicode: bool,
) -> Seq<Stroke>
    decreases m,
{
    if m == 0 {
        Seq::empty()
    } else {
        live_grid(rects, active, panes, columns, (m - 1) as nat, unicode) + seq![
            Stroke::Raw(cursor_sequence((m - 1) as u16, 0)),
        ] + live_row(rects, active, panes, (m - 1) as u16, columns as nat, unicode)
    }
}

/// Line `index` of the key reminder, or an empty line past its end.
pub open spec fn help_line(prefix: u8, index: int) -> Seq<char> {
    if 0 <= index < help_text(prefix).len() {
        help_text(prefix)[index]
    } else {
        Seq::empty()
    }
}

/// The first `m` rows of the key reminder from line `offset`, each cut to the width
/// and padded with spaces.
pub open spec fn help_grid(prefix: u8, offset: nat, columns: u16, m: nat) -> Seq<Stroke>
    decreases m,
{
    if m == 0 {
        Seq::empty()
    } else {
        let text = kept(help_line(prefix, offset + m - 1), columns as int);
        let pad: nat = if columns >= display_width(text) {
            (columns - display_width(text)) as nat
        } else {
            0
        };
        help_grid(prefix, offset, columns, (m - 1) as nat) + seq![
            Stroke::Raw(cursor_sequence((m - 1) as u16, 0)),
            Stroke::Styled(plain(), utf8(text) + blanks(pad)),
        ]
    }
}

/// The bytes that begin a full redraw: the cursor hidden when the terminal can, then
/// the cursor sent home and the screen cleared.
pub open spec fn clear_screen(capabilities: Capabilities) -> Seq<u8> {
    hide_cursor(capabilities) + seq![27u8, 91u8, 72u8, 27u8, 91u8, 50u8, 74u8]
}

/// Each pane with a rectangle has a screen at least as large as the rectangle.
pub open spec fn filled_by(rects: Seq<(PaneId, Rect)>, panes: Seq<(PaneId, StateView)>) -> bool {
    forall|i: int, k: int|
        0 <= i < rects.len() && 0 <= k < panes.len() && (#[trigger] rects[i]).0 == (#[trigger] panes[k]).0
            ==> rects[i].1.height <= panes[k].1.active().rows.len() && rects[i].1.width
            <= panes[k].1.active().columns()
}

proof fn lemma_covering_entry(rects: Seq<(PaneId, Rect)>, x: u16, y: u16, i: int)
    requires
        0 <= i,
    ensures
        covering(rects, x, y, i) matches Some(entry) ==> exists|j: int|
            0 <= j < rects.len() && #[trigger] rects[j] == entry && inside(entry.1, x, y),
    decreases rects.len() - i,
{
    if i < rects.len() && !inside(rects[i].1, x, y) {
        lemma_covering_entry(rects, x, y, i + 1);
    }
}

/// Draws one cell of the window.
fn draw_cell(
    output: &mut Vec<u8>,
    attributes: &mut Option<Attributes>,
    rects: &Vec<(PaneId, Rect)>,
    active: Option<PaneId>,
    panes: &[(PaneId, &State)],
    x: u16,
    y: u16,
    unicode: bool,
    capabilities: Capabilities,
    Ghost(head): Ghost<Seq<Stroke>>,
)
    requires
        placeable(rects@, panes_view(panes@)),
        filled_by(rects@, panes_view(panes@)),
        old(output)@ == stroked(head, None, capabilities).0,
        *old(attributes) == stroked(head, None, capabilities).1,
    ensures
        ({
            let strokes = head.push(live_cell(rects@, active, panes_view(panes@), x, y, unicode));
            &&& final(output)@ == stroked(strokes, None, capabilities).0
            &&& *final(attributes) == stroked(strokes, None, capabilities).1
        }),
{
    let ghost all = panes_view(panes@);
    let found = cover(rects, x, y);
    proof {
        lemma_covering_entry(rects@, x, y, 0);
    }
    if let Some((pane, rect)) = found {
        if let Some(k) = find_state(panes, pane) {
            let state = panes[k].1;
            proof {
                let j = choose|j: int| 0 <= j < rects@.len() && #[trigger] rects@[j] == (pane, rect) && inside(rect, x, y);
                assert(all[k as int] == (pane, state@));
                assert(rects@[j].0 == all[k as int].0);
                assert(all[k as int].1.wf());
            }
            let rows = state.screen().rows();
            let row = (y - rect.y) as usize;
            let column = (x - rect.x) as usize;
            proof {
                assert(rows@.map_values(|line: Vec<Cell>| cells(line@))[row as int] == cells(rows@[row as int]@));
            }
            let cell = &rows[row][column];
            proof {
                assert(cells(rows@[row as int]@)[column as int] == cell@);
                lemma_stroked_styled(
                    head,
                    None,
                    capabilities,
                    cell@.attributes,
                    if cell@.width == 0 {
                        Seq::empty()
                    } else {
                        utf8(seq![cell@.character]) + utf8(cell@.combining)
                    },
                );
            }
            set_attributes(output, attributes, cell.attributes(), capabilities);
            if !cell.is_continuation() {
                crate::paint::push_char(output, cell.character());
                push_str(output, cell.combining());
            }
            assert(output@ =~= stroked(head.push(live_cell(rects@, active, all, x, y, unicode)), None, capabilities).0);
            return;
        }
    }
    let edge = border(rects.as_slice(), active, x, y, unicode);
    proof {
        lemma_stroked_styled(head, None, capabilities, plain(), utf8(seq![edge]));
    }
    set_attributes(output, attributes, Attributes::default(), capabilities);
    crate::paint::push_char(output, edge);
    assert(output@ =~= stroked(head.push(live_cell(rects@, active, all, x, y, unicode)), None, capabilities).0);
}


/// Draws the first `rows` rows of the window.
fn draw_live(
    output: &mut Vec<u8>,
    attributes: &mut Option<Attributes>,
    rects: &Vec<(PaneId, Rect)>,
    active: Option<PaneId>,
    panes: &[(PaneId, &State)],
    columns: u16,
    rows: u16,
    unicode: bool,
    capabilities: Capabilities,
)
    requires
        rows < u16::MAX,
        placeable(rects@, panes_view(panes@)),
        filled_by(rects@, panes_view(panes@)),
        old(output)@ == Seq::<u8>::empty(),
        *old(attributes) == None::<Attributes>,
    ensures
        final(output)@ == stroked(live_grid(rects@, active, panes_view(panes@), columns, rows as nat, unicode), None, capabilities).0,
{
    let ghost mut strokes: Seq<Stroke> = Seq::empty();
    proof {
        lemma_stroked_empty(None, capabilities);
    }
    let mut y: u16 = 0;
    while y < rows
        invariant
            y <= rows < u16::MAX,
            placeable(rects@, panes_view(panes@)),
            filled_by(rects@, panes_view(panes@)),
            strokes == live_grid(rects@, active, panes_view(panes@), columns, y as nat, unicode),
            output@ == stroked(strokes, None, capabilities).0,
            *attributes == stroked(strokes, None, capabilities).1,
        decreases rows - y,
    {
        proof {
            lemma_stroked_raw(strokes, None, capabilities, cursor_sequence(y, 0));
        }
        move_cursor(output, y, 0);
        proof {
            strokes = strokes.push(Stroke::Raw(cursor_sequence(y, 0)));
        }
        let ghost row_start = strokes;
        let mut x: u16 = 0;
        while x < columns
            invariant
                x <= columns,
                y < rows < u16::MAX,
                placeable(rects@, panes_view(panes@)),
                filled_by(rects@, panes_view(panes@)),
                strokes == row_start + live_row(rects@, active, panes_view(panes@), y, x as nat, unicode),
                output@ == stroked(strokes, None, capabilities).0,
                *attributes == stroked(strokes, None, capabilities).1,
            decreases columns - x,
        {
            draw_cell(output, attributes, rects, active, panes, x, y, unicode, capabilities, Ghost(strokes));
            proof {
                strokes = strokes.push(live_cell(rects@, active, panes_view(panes@), x, y, unicode));
                assert(strokes =~= row_start + live_row(rects@, active, panes_view(panes@), y, (x + 1) as nat, unicode));
            }
            x += 1;
        }
        proof {
            assert(strokes =~= live_grid(rects@, active, panes_view(panes@), columns, (y + 1) as nat, unicode));
        }
        y += 1;
    }
}

/// Draws the key reminder from line `offset` on the first `rows` rows.
fn draw_help(
    output: &mut Vec<u8>,
    attributes: &mut Option<Attributes>,
    prefix: u8,
    offset: usize,
    columns: u16,
    rows: u16,
    capabilities: Capabilities,
)
    requires
        prefix <= 158,
        offset + u16::MAX <= usize::MAX,
        rows < u16::MAX,
        old(output)@ == Seq::<u8>::empty(),
        *old(attributes) == None::<Attributes>,
    ensures
        final(output)@ == stroked(help_grid(prefix, offset as nat, columns, rows as nat), None, capabilities).0,
{
    let lines = help_lines(prefix);
    let ghost mut strokes: Seq<Stroke> = Seq::empty();
    proof {
        lemma_stroked_empty(None, capabilities);
    }
    let mut y: u16 = 0;
    while y < rows
        invariant
            y <= rows < u16::MAX,
            offset + u16::MAX <= usize::MAX,
            lines@.map_values(|l: String| l@) == help_text(prefix),
            strokes == help_grid(prefix, offset as nat, columns, y as nat),
            output@ == stroked(strokes, None, capabilities).0,
            *attributes == stroked(strokes, None, capabilities).1,
        decreases rows - y,
    {
        proof {
            lemma_stroked_raw(strokes, None, capabilities, cursor_sequence(y, 0));
        }
        move_cursor(output, y, 0);
        proof {
            strokes = strokes.push(Stroke::Raw(cursor_sequence(y, 0)));
        }
        let index = offset + y as usize;
        let text = if index < lines.len() {
            proof {
                assert(lines@.map_values(|l: String| l@)[index as int] == lines@[index as int]@);
            }
            truncate(lines[index].as_str(), columns as usize)
        } else {
            let empty = String::new();
            assert(kept(empty@, columns as int) =~= empty@);
            empty
        };
        assert(text@ == kept(help_line(prefix, index as int), columns as int));
        let width = text_width(text.as_str());
        let pad = (columns as usize).saturating_sub(width);
        proof {
            lemma_stroked_styled(strokes, None, capabilities, plain(), utf8(text@) + blanks(pad as nat));
        }
        set_attributes(output, attributes, Attributes::default(), capabilities);
        push_str(output, text.as_str());
        push_blanks(output, pad);
        proof {
            strokes = strokes.push(Stroke::Styled(plain(), utf8(text@) + blanks(pad as nat)));
            assert(output@ =~= stroked(strokes, None, capabilities).0);
            assert(strokes =~= help_grid(prefix, offset as nat, columns, (y + 1) as nat));
        }
        y += 1;
    }
}

/// The whole window drawn afresh: the screen cleared, the key reminder or the panes
/// with the borders between them, the status line, and (in the live view) the cursor
/// put back in the active pane. `date` and `time` are the clock's texts.
#[verifier::rlimit(40)]
pub fn full(
    session: &Session,
    panes: &[(PaneId, &State)],
    size: Size,
    status_line: StatusLine<'_>,
    message: Option<&str>,
    view: View,
    capabilities: Capabilities,
    date: &str,
    time: &str,
) -> (r: Vec<u8>)
    requires
        session@.wf(),
        placeable(content_rects(session@, size), panes_view(panes@)),
        filled_by(content_rects(session@, size), panes_view(panes@)),
        view matches View::Help { offset, prefix } ==> prefix <= 158 && offset + u16::MAX <= usize::MAX,
    ensures
        ({
            let rects = content_rects(session@, size);
            let all = panes_view(panes@);
            let content_rows = sat_sub16(size.rows, 1);
            let status_bytes = stroked(
                status_strokes(session@, size, status_line, message_view(message), false, date@, time@),
                None,
                capabilities,
            ).0;
            r@ == clear_screen(capabilities) + match view {
                View::Help { offset, prefix } => stroked(
                    help_grid(prefix, offset as nat, size.columns, content_rows as nat),
                    None,
                    capabilities,
                ).0 + status_bytes,
                _ => stroked(
                    live_grid(rects, session@.active_pane(), all, size.columns, content_rows as nat, draws_boxes(capabilities)),
                    None,
                    capabilities,
                ).0 + status_bytes + if view is Live {
                    cursor_bytes(session@.active_pane(), rects, all, capabilities)
                } else {
                    Seq::empty()
                },
            }
        }),
{
    let mut output: Vec<u8> = Vec::new();
    if capabilities.cursor_visibility {
        output.push(27);
        output.push(91);
        output.push(63);
        output.push(50);
        output.push(53);
        output.push(108);
    }
    output.push(27);
    output.push(91);
    output.push(72);
    output.push(27);
    output.push(91);
    output.push(50);
    output.push(74);
    assert(output@ =~= clear_screen(capabilities));
    let content_rows = size.rows.saturating_sub(1);
    let content = Size {
        columns: if size.columns > 1 {
            size.columns
        } else {
            1
        },
        rows: if content_rows > 1 {
            content_rows
        } else {
            1
        },
    };
    let rects = session.pane_rects(content);
    let active = session.active_pane();
    let mut body: Vec<u8> = Vec::new();
    let mut attributes: Option<Attributes> = None;
    match view {
        View::Help { offset, prefix } => {
            draw_help(&mut body, &mut attributes, prefix, offset, size.columns, content_rows, capabilities);
            let ghost drawn = body@;
            output.append(&mut body);
            let mut line = status(session, size, status_line, message, false, capabilities, date, time);
            let ghost shown_line = line@;
            output.append(&mut line);
            assert(output@ =~= clear_screen(capabilities) + drawn + shown_line);
        },
        _ => {
            let unicode = !(match capabilities.profile {
                Profile::Dumb | Profile::Ansi | Profile::Vt100 => true,
                _ => false,
            });
            assert(unicode == draws_boxes(capabilities));
            draw_live(&mut body, &mut attributes, &rects, active, panes, size.columns, content_rows, unicode, capabilities);
            let ghost drawn = body@;
            output.append(&mut body);
            let mut line = status(session, size, status_line, message, false, capabilities, date, time);
            let ghost shown_line = line@;
            output.append(&mut line);
            let shown = match view {
                View::Live => active,
                _ => None,
            };
            let ghost before = output@;
            place_cursor(&mut output, shown, &rects, panes, capabilities);
            assert(before =~= clear_screen(capabilities) + drawn + shown_line);
            assert(cursor_bytes(None, rects@, panes_view(panes@), capabilities) =~= Seq::<u8>::empty());
            assert(output@ =~= clear_screen(capabilities) + drawn + shown_line + cursor_bytes(shown, rects@, panes_view(panes@), capabilities));
        },
    }
    output
}


#[verifier::external_type_specification]
#[verifier::external_body]
pub struct ExSystemTime(SystemTime);

/// How long after the Unix epoch a moment lies: `None` for a moment before it.
pub uninterp spec fn since_epoch(now: SystemTime) -> Option<Duration>;

/// `SystemTime::duration_since(SystemTime::UNIX_EPOCH)`: the time from the epoch to
/// `now`, `None` (in place of the error) for a moment before the epoch.
#[verifier::external_body]
fn duration_since_epoch(now: SystemTime) -> (r: Option<Duration>)
    ensures
        r == since_epoch(now),
{
    match now.duration_since(SystemTime::UNIX_EPOCH) {
        Ok(duration) => Some(duration),
        Err(_) => None,
    }
}

/// `Duration::as_secs`: the whole seconds of a duration.
#[verifier::external_body]
fn duration_secs(duration: Duration) -> (r: u64)
    ensures
        r == duration_nanos(duration) / 1_000_000_000,
{
    duration.as_secs()
}

/// The whole seconds from the Unix epoch to a moment, zero for one before it.
pub open spec fn epoch_secs(now: SystemTime) -> u64 {
    match since_epoch(now) {
        Some(d) => (duration_nanos(d) / 1_000_000_000) as u64,
        None => 0,
    }
}

fn epoch_seconds(now: SystemTime) -> (r: u64)
    ensures
        r == epoch_secs(now),
{
    match duration_since_epoch(now) {
        Some(duration) => duration_secs(duration),
        None => 0,
    }
}

/// What changes when the clock on the status line changes: the seconds since the
/// epoch, or the minutes when the clock shows no seconds.
pub open spec fn clock_tick(seconds_since_epoch: u64, seconds: bool) -> u64 {
    if seconds {
        seconds_since_epoch
    } else {
        seconds_since_epoch / 60
    }
}

pub fn clock_key_at(seconds_since_epoch: u64, seconds: bool) -> (r: u64)
    ensures
        r == clock_tick(seconds_since_epoch, seconds),
{
    if seconds {
        seconds_since_epoch
    } else {
        seconds_since_epoch / 60
    }
}

/// The clock's key at a moment: the whole seconds since the epoch, or the whole
/// minutes when the clock shows no seconds.
pub fn clock_key(now: SystemTime, seconds: bool) -> (r: u64)
    ensures
        r == clock_tick(epoch_secs(now), seconds),
{
    clock_key_at(epoch_seconds(now), seconds)
}

} // verus!
