use std::time::{Duration, Instant};
use vstd::prelude::*;
use vstd::utf8::*;

use crate::session::{Direction, Split};
use crate::text::string_from_utf8;

verus! {

/// Longest file name that the export prompt takes.
pub const MAX_FILENAME_BYTES: usize = 4096;

/// Longest path that the viewer prompt takes.
pub const MAX_VIEW_PATH_BYTES: usize = 4096;

/// Longest search that the search prompts take.
pub const MAX_SEARCH_BYTES: usize = 256;

/// Longest mouse report that is awaited.
pub const MAX_MOUSE_SEQUENCE_BYTES: usize = 32;

/// How long the rest of a mouse report is awaited.
pub const MOUSE_SEQUENCE_TIMEOUT_MS: u64 = 10;

/// How long the rest of a key sequence is awaited after an escape.
pub const ESCAPE_SEQUENCE_TIMEOUT_MS: u64 = 100;

/// How long the viewer waits for a command after its prefix key.
pub const VIEWER_PREFIX_TIMEOUT_MS: u64 = 250;

#[verifier::external_type_specification]
#[verifier::external_body]
pub struct ExInstant(Instant);

/// A mouse report in SGR form, with zero-based cell coordinates.
#[derive(Clone, Copy, Debug, Eq, PartialEq, Structural)]
pub struct MouseEvent {
    pub code: u16,
    pub x: u16,
    pub y: u16,
    pub release: bool,
}

/// What a keystroke asks of the session.
#[derive(Debug, Eq, PartialEq)]
pub enum Action {
    Forward(Vec<u8>),
    CreateTab,
    NextTab,
    PreviousTab,
    SelectTab(usize),
    Split(Split),
    Focus(Direction),
    Resize(Direction),
    ClosePane,
    Detach,
    HelpView,
    HelpScroll(i32),
    ExitHelpView,
    ScrollView,
    Scroll(i32),
    ScrollTop,
    ScrollBottom,
    Search(String),
    SearchNext(bool),
    SearchCancelled,
    ExitScrollView,
    ViewPrompt(bool),
    ViewQuery(Vec<u8>),
    ViewDirectory { query: Vec<u8>, separator: u8 },
    ViewParent,
    ViewComplete(Vec<u8>),
    ViewSelect(i32),
    OpenViewer(Vec<u8>),
    ViewCancelled,
    ViewerScroll(i32),
    ViewerViewport(i32),
    ViewerPage(bool),
    ViewerHalfPage(bool),
    ViewerLineStart,
    ViewerLineEnd,
    ViewerTop,
    ViewerBottom,
    ViewerSearchPrompt(bool),
    ViewerSearchQuery(Vec<u8>, bool),
    ViewerSearch(Vec<u8>, bool),
    ViewerSearchNext(bool),
    ViewerSearchCancelled,
    ClearScrollback,
    SaveScrollback(String),
    Mouse(MouseEvent),
    Status(String),
}

/// An action with its byte strings and text taken as sequences.
pub enum ActionView {
    Forward(Seq<u8>),
    CreateTab,
    NextTab,
    PreviousTab,
    SelectTab(usize),
    Split(Split),
    Focus(Direction),
    Resize(Direction),
    ClosePane,
    Detach,
    HelpView,
    HelpScroll(i32),
    ExitHelpView,
    ScrollView,
    Scroll(i32),
    ScrollTop,
    ScrollBottom,
    Search(Seq<char>),
    SearchNext(bool),
    SearchCancelled,
    ExitScrollView,
    ViewPrompt(bool),
    ViewQuery(Seq<u8>),
    ViewDirectory { query: Seq<u8>, separator: u8 },
    ViewParent,
    ViewComplete(Seq<u8>),
    ViewSelect(i32),
    OpenViewer(Seq<u8>),
    ViewCancelled,
    ViewerScroll(i32),
    ViewerViewport(i32),
    ViewerPage(bool),
    ViewerHalfPage(bool),
    ViewerLineStart,
    ViewerLineEnd,
    ViewerTop,
    ViewerBottom,
    ViewerSearchPrompt(bool),
    ViewerSearchQuery(Seq<u8>, bool),
    ViewerSearch(Seq<u8>, bool),
    ViewerSearchNext(bool),
    ViewerSearchCancelled,
    ClearScrollback,
    SaveScrollback(Seq<char>),
    Mouse(MouseEvent),
    Status(Seq<char>),
}

impl View for Action {
    type V = ActionView;

    open spec fn view(&self) -> ActionView {
        match self {
            Action::Forward(b) => ActionView::Forward(b@),
            Action::CreateTab => ActionView::CreateTab,
            Action::NextTab => ActionView::NextTab,
            Action::PreviousTab => ActionView::PreviousTab,
            Action::SelectTab(b) => ActionView::SelectTab(*b),
            Action::Split(b) => ActionView::Split(*b),
            Action::Focus(b) => ActionView::Focus(*b),
            Action::Resize(b) => ActionView::Resize(*b),
            Action::ClosePane => ActionView::ClosePane,
            Action::Detach => ActionView::Detach,
            Action::HelpView => ActionView::HelpView,
            Action::HelpScroll(b) => ActionView::HelpScroll(*b),
            Action::ExitHelpView => ActionView::ExitHelpView,
            Action::ScrollView => ActionView::ScrollView,
            Action::Scroll(b) => ActionView::Scroll(*b),
            Action::ScrollTop => ActionView::ScrollTop,
            Action::ScrollBottom => ActionView::ScrollBottom,
            Action::Search(b) => ActionView::Search(b@),
            Action::SearchNext(b) => ActionView::SearchNext(*b),
            Action::SearchCancelled => ActionView::SearchCancelled,
            Action::ExitScrollView => ActionView::ExitScrollView,
            Action::ViewPrompt(b) => ActionView::ViewPrompt(*b),
            Action::ViewQuery(b) => ActionView::ViewQuery(b@),
            Action::ViewDirectory { query, separator } => ActionView::ViewDirectory { query: query@, separator: *separator },
            Action::ViewParent => ActionView::ViewParent,
            Action::ViewComplete(b) => ActionView::ViewComplete(b@),
            Action::ViewSelect(b) => ActionView::ViewSelect(*b),
            Action::OpenViewer(b) => ActionView::OpenViewer(b@),
            Action::ViewCancelled => ActionView::ViewCancelled,
            Action::ViewerScroll(b) => ActionView::ViewerScroll(*b),
            Action::ViewerViewport(b) => ActionView::ViewerViewport(*b),
            Action::ViewerPage(b) => ActionView::ViewerPage(*b),
            Action::ViewerHalfPage(b) => ActionView::ViewerHalfPage(*b),
            Action::ViewerLineStart => ActionView::ViewerLineStart,
            Action::ViewerLineEnd => ActionView::ViewerLineEnd,
            Action::ViewerTop => ActionView::ViewerTop,
            Action::ViewerBottom => ActionView::ViewerBottom,
            Action::ViewerSearchPrompt(b) => ActionView::ViewerSearchPrompt(*b),
            Action::ViewerSearchQuery(b, f) => ActionView::ViewerSearchQuery(b@, *f),
            Action::ViewerSearch(b, f) => ActionView::ViewerSearch(b@, *f),
            Action::ViewerSearchNext(b) => ActionView::ViewerSearchNext(*b),
            Action::ViewerSearchCancelled => ActionView::ViewerSearchCancelled,
            Action::ClearScrollback => ActionView::ClearScrollback,
            Action::SaveScrollback(b) => ActionView::SaveScrollback(b@),
            Action::Mouse(b) => ActionView::Mouse(*b),
            Action::Status(b) => ActionView::Status(b@),
        }
    }
}

/// The views of a list of actions.
pub open spec fn views(actions: Seq<Action>) -> Seq<ActionView> {
    actions.map_values(|a: Action| a@)
}

/// The input mode: what the next keystroke means.
#[derive(Debug)]
enum Mode {
    Normal,
    Prefix(Vec<u8>),
    ConfirmClose(bool),
    Filename(Vec<u8>),
    Resize(Vec<u8>),
    Help(Vec<u8>),
    Scroll(Vec<u8>),
    Search(Vec<u8>),
    ViewPrompt(Vec<u8>, bool),
    Viewer(Vec<u8>),
    ViewerPrefix,
    ViewerG,
    ViewerSearch(Vec<u8>, bool),
}

/// A mode with its buffers taken as sequences.
pub enum ModeView {
    Normal,
    Prefix(Seq<u8>),
    ConfirmClose(bool),
    Filename(Seq<u8>),
    Resize(Seq<u8>),
    Help(Seq<u8>),
    Scroll(Seq<u8>),
    Search(Seq<u8>),
    ViewPrompt(Seq<u8>, bool),
    Viewer(Seq<u8>),
    ViewerPrefix,
    ViewerG,
    ViewerSearch(Seq<u8>, bool),
}

impl View for Mode {
    type V = ModeView;

    closed spec fn view(&self) -> ModeView {
        match self {
            Mode::Normal => ModeView::Normal,
            Mode::Prefix(s) => ModeView::Prefix(s@),
            Mode::ConfirmClose(v) => ModeView::ConfirmClose(*v),
            Mode::Filename(s) => ModeView::Filename(s@),
            Mode::Resize(s) => ModeView::Resize(s@),
            Mode::Help(s) => ModeView::Help(s@),
            Mode::Scroll(s) => ModeView::Scroll(s@),
            Mode::Search(s) => ModeView::Search(s@),
            Mode::ViewPrompt(s, v) => ModeView::ViewPrompt(s@, *v),
            Mode::Viewer(s) => ModeView::Viewer(s@),
            Mode::ViewerPrefix => ModeView::ViewerPrefix,
            Mode::ViewerG => ModeView::ViewerG,
            Mode::ViewerSearch(s, v) => ModeView::ViewerSearch(s@, *v),
        }
    }
}

/// What a keystroke does to the pending-input timer.
#[derive(Clone, Copy, Debug, PartialEq, Eq, Structural)]
pub enum Timer {
    Keep,
    Stop,
    Start,
}

/// The effect of one byte in one mode.
pub struct KeyView {
    pub mode: ModeView,
    pub actions: Seq<ActionView>,
    pub timer: Timer,
    /// The byte goes to the pane unchanged.
    pub forwards: bool,
}

pub open spec fn then_timer(first: Timer, second: Timer) -> Timer {
    if second == Timer::Keep {
        first
    } else {
        second
    }
}

pub open spec fn timed_after(timed: bool, timer: Timer) -> bool {
    match timer {
        Timer::Keep => timed,
        Timer::Stop => false,
        Timer::Start => true,
    }
}

pub open spec fn seq1(s: Seq<u8>, a: u8) -> bool {
    s.len() == 1 && s[0] == a
}

pub open spec fn seq2(s: Seq<u8>, a: u8, b: u8) -> bool {
    s.len() == 2 && s[0] == a && s[1] == b
}

pub open spec fn seq3(s: Seq<u8>, a: u8, b: u8, c: u8) -> bool {
    s.len() == 3 && s[0] == a && s[1] == b && s[2] == c
}

pub open spec fn seq4(s: Seq<u8>, a: u8, b: u8, c: u8, d: u8) -> bool {
    s.len() == 4 && s[0] == a && s[1] == b && s[2] == c && s[3] == d
}

pub open spec fn seq5(s: Seq<u8>, a: u8, b: u8, c: u8, d: u8, e: u8) -> bool {
    s.len() == 5 && s[0] == a && s[1] == b && s[2] == c && s[3] == d && s[4] == e
}

pub open spec fn seq6(s: Seq<u8>, a: u8, b: u8, c: u8, d: u8, e: u8, f: u8) -> bool {
    s.len() == 6 && s[0] == a && s[1] == b && s[2] == c && s[3] == d && s[4] == e && s[5] == f
}

/// `ESC [` or `ESC O` followed by `last`: a cursor key in either keypad mode.
pub open spec fn arrow(s: Seq<u8>, last: u8) -> bool {
    s.len() == 3 && s[0] == 27 && (s[1] == 91 || s[1] == 79) && s[2] == last
}

/// `ESC [` or `ESC O` alone.
pub open spec fn csi_or_ss3(s: Seq<u8>) -> bool {
    s.len() == 2 && s[0] == 27 && (s[1] == 91 || s[1] == 79)
}

/// The direction of cursor key `A` to `D`.
pub open spec fn arrow_direction(last: u8) -> Direction {
    if last == 65 {
        Direction::Up
    } else if last == 66 {
        Direction::Down
    } else if last == 67 {
        Direction::Right
    } else {
        Direction::Left
    }
}

/// Control characters: the general category Cc of Unicode.
pub open spec fn is_control(c: char) -> bool {
    (c as u32) < 0x20 || (0x7f <= (c as u32) && (c as u32) < 0xa0)
}

/// The text without its control characters.
pub open spec fn visible(text: Seq<char>) -> Seq<char>
    decreases text.len(),
{
    if text.len() == 0 {
        text
    } else if is_control(text.last()) {
        visible(text.drop_last())
    } else {
        visible(text.drop_last()).push(text.last())
    }
}

/// What `String::from_utf8_lossy` makes of some bytes.
pub uninterp spec fn lossy_utf8(bytes: Seq<u8>) -> Seq<char>;

/// What a byte string shows in a status line.
pub open spec fn shown(bytes: Seq<u8>) -> Seq<char> {
    visible(lossy_utf8(bytes))
}

pub open spec fn resize_help() -> Seq<char> {
    "resize mode: arrows resize, Esc exits"@
}

pub open spec fn help_help() -> Seq<char> {
    "help: arrows/j/k/Page Up/Page Down, q/Esc exits"@
}

pub open spec fn scroll_help() -> Seq<char> {
    "scroll: arrows/j/k/Page Up/Page Down, / search, q/Esc exits"@
}

pub open spec fn viewer_help() -> Seq<char> {
    "viewer: j/k arrows Home/End gg/G Ctrl-u/d Ctrl-b/f / ? n/N"@
}

pub open spec fn unsupported() -> ActionView {
    ActionView::Status("unsupported prefix command"@)
}

pub open spec fn filename_line(filename: Seq<u8>) -> ActionView {
    ActionView::Status("save scrollback file: "@ + shown(filename))
}

pub open spec fn search_line(query: Seq<u8>) -> ActionView {
    ActionView::Status("/"@ + shown(query))
}

pub open spec fn search_mark(forward: bool) -> Seq<char> {
    if forward {
        "/"@
    } else {
        "?"@
    }
}

pub open spec fn viewer_search_line(forward: bool, query: Seq<u8>) -> Seq<char> {
    search_mark(forward) + shown(query)
}

/// What a command typed after the prefix key asks for; `None` while a longer
/// sequence may still complete it.
pub open spec fn prefix_command(prefix: u8, s: Seq<u8>) -> Option<ActionView> {
    if s.len() == 1 && s[0] != 27 {
        let b = s[0];
        Some(
            if b == prefix {
                ActionView::Forward(seq![prefix])
            } else if b == 99 {
                ActionView::CreateTab
            } else if b == 110 {
                ActionView::NextTab
            } else if b == 112 {
                ActionView::PreviousTab
            } else if 49 <= b <= 57 {
                ActionView::SelectTab((b - 49) as usize)
            } else if b == 48 {
                ActionView::SelectTab(9)
            } else if b == 124 {
                ActionView::Split(Split::LeftRight)
            } else if b == 45 {
                ActionView::Split(Split::TopBottom)
            } else if b == 114 {
                ActionView::Status(resize_help())
            } else if b == 120 {
                ActionView::Status("close pane? (y/n)"@)
            } else if b == 100 {
                ActionView::Detach
            } else if b == 63 {
                ActionView::HelpView
            } else if b == 91 {
                ActionView::ScrollView
            } else if b == 118 || b == 86 {
                ActionView::ViewPrompt(false)
            } else if b == 67 {
                ActionView::ClearScrollback
            } else if b == 83 {
                ActionView::Status("save scrollback file: "@)
            } else {
                unsupported()
            },
        )
    } else if seq1(s, 27) || csi_or_ss3(s) || seq3(s, 27, 91, 49) || seq4(s, 27, 91, 49, 59)
        || seq5(s, 27, 91, 49, 59, 53) {
        None
    } else if s.len() == 3 && s[0] == 27 && (s[1] == 91 || s[1] == 79) && 65 <= s[2] <= 68 {
        Some(ActionView::Focus(arrow_direction(s[2])))
    } else if s.len() == 6 && s[0] == 27 && s[1] == 91 && s[2] == 49 && s[3] == 59 && s[4] == 53
        && 65 <= s[5] <= 68 {
        Some(ActionView::Resize(arrow_direction(s[5])))
    } else if s.len() > 0 && 0x40 <= s.last() <= 0x7e {
        Some(unsupported())
    } else if s.len() >= 8 {
        Some(unsupported())
    } else {
        None
    }
}

/// The mode that a completed prefix command leaves.
pub open spec fn prefix_next_mode(s: Seq<u8>) -> ModeView {
    if seq1(s, 120) {
        ModeView::ConfirmClose(false)
    } else if seq1(s, 83) {
        ModeView::Filename(Seq::empty())
    } else if seq1(s, 114) {
        ModeView::Resize(Seq::empty())
    } else if seq1(s, 63) {
        ModeView::Help(Seq::empty())
    } else if seq1(s, 91) {
        ModeView::Scroll(Seq::empty())
    } else if seq1(s, 118) || seq1(s, 86) {
        ModeView::ViewPrompt(Seq::empty(), false)
    } else {
        ModeView::Normal
    }
}

/// Keys of resize mode; `None` while a cursor key is incomplete.
pub open spec fn resize_command(s: Seq<u8>) -> Option<ActionView> {
    if s.len() == 3 && s[0] == 27 && (s[1] == 91 || s[1] == 79) && 65 <= s[2] <= 68 {
        Some(ActionView::Resize(arrow_direction(s[2])))
    } else if seq1(s, 27) || csi_or_ss3(s) {
        None
    } else {
        Some(ActionView::Status(resize_help()))
    }
}

/// Page Up or Page Down begun but not finished.
pub open spec fn page_key_begun(s: Seq<u8>) -> bool {
    seq1(s, 27) || csi_or_ss3(s) || seq3(s, 27, 91, 53) || seq3(s, 27, 91, 54)
}

/// Keys of the help view.
pub open spec fn help_command(s: Seq<u8>) -> Option<ActionView> {
    if seq1(s, 113) || seq1(s, 3) {
        Some(ActionView::ExitHelpView)
    } else if seq1(s, 107) || arrow(s, 65) {
        Some(ActionView::HelpScroll(-1i32))
    } else if seq1(s, 106) || arrow(s, 66) {
        Some(ActionView::HelpScroll(1))
    } else if seq4(s, 27, 91, 53, 126) {
        Some(ActionView::HelpScroll(i32::MIN))
    } else if seq4(s, 27, 91, 54, 126) {
        Some(ActionView::HelpScroll(i32::MAX))
    } else if page_key_begun(s) {
        None
    } else {
        Some(ActionView::Status(help_help()))
    }
}

/// Keys of the scrollback view.
pub open spec fn scroll_command(s: Seq<u8>) -> Option<ActionView> {
    if seq1(s, 113) || seq1(s, 3) {
        Some(ActionView::ExitScrollView)
    } else if seq1(s, 107) || arrow(s, 65) {
        Some(ActionView::Scroll(1))
    } else if seq1(s, 106) || arrow(s, 66) {
        Some(ActionView::Scroll(-1i32))
    } else if seq4(s, 27, 91, 53, 126) {
        Some(ActionView::Scroll(i32::MAX))
    } else if seq4(s, 27, 91, 54, 126) {
        Some(ActionView::Scroll(i32::MIN))
    } else if seq1(s, 103) {
        Some(ActionView::ScrollTop)
    } else if seq1(s, 71) {
        Some(ActionView::ScrollBottom)
    } else if seq1(s, 110) {
        Some(ActionView::SearchNext(true))
    } else if seq1(s, 78) {
        Some(ActionView::SearchNext(false))
    } else if page_key_begun(s) {
        None
    } else {
        Some(ActionView::Status(scroll_help()))
    }
}

/// A viewer key sequence begun but not finished.
pub open spec fn viewer_key_begun(s: Seq<u8>) -> bool {
    seq1(s, 27) || csi_or_ss3(s) || seq3(s, 27, 91, 49) || seq3(s, 27, 91, 52) || seq3(
        s,
        27,
        91,
        53,
    ) || seq3(s, 27, 91, 54) || seq3(s, 27, 91, 55) || seq3(s, 27, 91, 56) || seq4(
        s,
        27,
        91,
        49,
        59,
    ) || seq5(s, 27, 91, 49, 59, 53) || seq4(s, 27, 91, 52, 59) || seq5(s, 27, 91, 52, 59, 53)
}

/// Keys of the file viewer.
pub open spec fn viewer_command(s: Seq<u8>) -> Option<ActionView> {
    if seq1(s, 107) || arrow(s, 65) {
        Some(ActionView::ViewerScroll(-1i32))
    } else if seq1(s, 106) || arrow(s, 66) {
        Some(ActionView::ViewerScroll(1))
    } else if seq4(s, 27, 91, 53, 126) {
        Some(ActionView::ViewerPage(false))
    } else if seq4(s, 27, 91, 54, 126) {
        Some(ActionView::ViewerPage(true))
    } else if seq1(s, 21) {
        Some(ActionView::ViewerHalfPage(false))
    } else if seq1(s, 4) {
        Some(ActionView::ViewerHalfPage(true))
    } else if seq1(s, 6) {
        Some(ActionView::ViewerPage(true))
    } else if seq1(s, 5) {
        Some(ActionView::ViewerViewport(1))
    } else if seq1(s, 25) {
        Some(ActionView::ViewerViewport(-1i32))
    } else if seq1(s, 48) || seq3(s, 27, 91, 72) || seq4(s, 27, 91, 49, 126) || seq4(
        s,
        27,
        91,
        55,
        126,
    ) {
        Some(ActionView::ViewerLineStart)
    } else if seq1(s, 36) || seq3(s, 27, 91, 70) || seq4(s, 27, 91, 52, 126) || seq4(
        s,
        27,
        91,
        56,
        126,
    ) {
        Some(ActionView::ViewerLineEnd)
    } else if seq6(s, 27, 91, 49, 59, 53, 72) || seq6(s, 27, 91, 49, 59, 53, 126) {
        Some(ActionView::ViewerTop)
    } else if seq6(s, 27, 91, 49, 59, 53, 70) || seq6(s, 27, 91, 52, 59, 53, 126) {
        Some(ActionView::ViewerBottom)
    } else if seq1(s, 71) {
        Some(ActionView::ViewerBottom)
    } else if seq1(s, 47) {
        Some(ActionView::ViewerSearchPrompt(true))
    } else if seq1(s, 63) {
        Some(ActionView::ViewerSearchPrompt(false))
    } else if seq1(s, 110) {
        Some(ActionView::ViewerSearchNext(true))
    } else if seq1(s, 78) {
        Some(ActionView::ViewerSearchNext(false))
    } else if viewer_key_begun(s) {
        None
    } else {
        Some(ActionView::Status(viewer_help()))
    }
}

/// ASCII control bytes.
pub open spec fn is_ascii_control(byte: u8) -> bool {
    byte < 32 || byte == 127
}

pub open spec fn stay(mode: ModeView, actions: Seq<ActionView>) -> KeyView {
    KeyView { mode, actions, timer: Timer::Keep, forwards: false }
}

pub open spec fn mode_depth(mode: ModeView) -> nat {
    match mode {
        ModeView::ViewerPrefix => 2,
        ModeView::ViewerG => 1,
        _ => 0,
    }
}

pub open spec fn prefix_key(prefix: u8, sequence: Seq<u8>, byte: u8) -> KeyView {
    let s = sequence.push(byte);
    match prefix_command(prefix, s) {
        Some(action) => stay(prefix_next_mode(s), seq![action]),
        None => stay(ModeView::Prefix(s), Seq::empty()),
    }
}

pub open spec fn confirm_key(return_viewer: bool, byte: u8) -> KeyView {
    if byte == 121 || byte == 89 {
        stay(ModeView::Normal, seq![ActionView::ClosePane])
    } else {
        stay(
            if return_viewer {
                ModeView::Viewer(Seq::empty())
            } else {
                ModeView::Normal
            },
            seq![ActionView::Status("close cancelled"@)],
        )
    }
}

pub open spec fn filename_key(filename: Seq<u8>, byte: u8) -> KeyView {
    if byte == 3 || byte == 27 {
        stay(ModeView::Normal, seq![ActionView::Status("scrollback export cancelled"@)])
    } else if byte == 8 || byte == 127 {
        let rest = if filename.len() > 0 {
            filename.drop_last()
        } else {
            filename
        };
        stay(ModeView::Filename(rest), seq![filename_line(rest)])
    } else if byte == 13 || byte == 10 {
        stay(
            ModeView::Normal,
            seq![
                if !valid_utf8(filename) {
                    ActionView::Status("filename must be UTF-8"@)
                } else if filename.len() == 0 {
                    ActionView::Status("scrollback export cancelled"@)
                } else {
                    ActionView::SaveScrollback(decode_utf8(filename))
                },
            ],
        )
    } else if filename.len() == MAX_FILENAME_BYTES {
        stay(ModeView::Filename(filename), seq![ActionView::Status("filename is too long"@)])
    } else {
        stay(ModeView::Filename(filename.push(byte)), seq![filename_line(filename.push(byte))])
    }
}

pub open spec fn resize_key(sequence: Seq<u8>, byte: u8) -> KeyView {
    let s = sequence.push(byte);
    match resize_command(s) {
        Some(action) => stay(
            ModeView::Resize(Seq::empty()),
            if action is Resize {
                seq![action, ActionView::Status(resize_help())]
            } else {
                seq![action]
            },
        ),
        None => stay(ModeView::Resize(s), Seq::empty()),
    }
}

pub open spec fn help_key(sequence: Seq<u8>, byte: u8) -> KeyView {
    let s = sequence.push(byte);
    match help_command(s) {
        Some(action) => stay(
            if action is ExitHelpView {
                ModeView::Normal
            } else {
                ModeView::Help(Seq::empty())
            },
            seq![action],
        ),
        None => stay(ModeView::Help(s), Seq::empty()),
    }
}

pub open spec fn scroll_key(sequence: Seq<u8>, byte: u8) -> KeyView {
    if byte == 47 {
        stay(ModeView::Search(Seq::empty()), seq![ActionView::Status("/"@)])
    } else {
        let s = sequence.push(byte);
        match scroll_command(s) {
            Some(action) => stay(
                if action is ExitScrollView {
                    ModeView::Normal
                } else {
                    ModeView::Scroll(Seq::empty())
                },
                seq![action],
            ),
            None => stay(ModeView::Scroll(s), Seq::empty()),
        }
    }
}

pub open spec fn search_key(query: Seq<u8>, byte: u8) -> KeyView {
    if byte == 3 || byte == 27 {
        stay(ModeView::Scroll(Seq::empty()), seq![ActionView::SearchCancelled])
    } else if byte == 8 || byte == 127 {
        let rest = if query.len() > 0 {
            query.drop_last()
        } else {
            query
        };
        stay(ModeView::Search(rest), seq![search_line(rest)])
    } else if byte == 13 || byte == 10 {
        stay(
            ModeView::Scroll(Seq::empty()),
            seq![
                if !valid_utf8(query) {
                    ActionView::Status("search must be UTF-8"@)
                } else if query.len() == 0 {
                    ActionView::Status("search is empty"@)
                } else {
                    ActionView::Search(decode_utf8(query))
                },
            ],
        )
    } else if query.len() == MAX_SEARCH_BYTES {
        stay(ModeView::Search(query), seq![ActionView::Status("search is too long"@)])
    } else {
        stay(ModeView::Search(query.push(byte)), seq![search_line(query.push(byte))])
    }
}

pub open spec fn view_prompt_key(path: Seq<u8>, return_viewer: bool, byte: u8) -> KeyView {
    let here = ModeView::ViewPrompt(path, return_viewer);
    if byte == 14 || byte == 16 {
        stay(here, seq![ActionView::ViewSelect(if byte == 14 { 1i32 } else { -1i32 })])
    } else if byte == 3 || byte == 27 {
        stay(
            if return_viewer {
                ModeView::Viewer(Seq::empty())
            } else {
                ModeView::Normal
            },
            seq![ActionView::ViewCancelled],
        )
    } else if byte == 8 || byte == 127 {
        if path.len() > 0 {
            stay(
                ModeView::ViewPrompt(path.drop_last(), return_viewer),
                seq![ActionView::ViewQuery(path.drop_last())],
            )
        } else {
            stay(here, seq![ActionView::ViewParent])
        }
    } else if byte == 47 || byte == 92 {
        stay(here, seq![ActionView::ViewDirectory { query: path, separator: byte }])
    } else if byte == 9 {
        stay(here, seq![ActionView::ViewComplete(path)])
    } else if byte == 13 || byte == 10 {
        stay(here, seq![ActionView::OpenViewer(path)])
    } else if path.len() == MAX_VIEW_PATH_BYTES {
        stay(here, seq![ActionView::Status("viewer path is too long"@)])
    } else if is_ascii_control(byte) {
        stay(here, seq![ActionView::Status("viewer path accepts printable text"@)])
    } else {
        stay(
            ModeView::ViewPrompt(path.push(byte), return_viewer),
            seq![ActionView::ViewQuery(path.push(byte))],
        )
    }
}

pub open spec fn viewer_sequence_key(sequence: Seq<u8>, byte: u8) -> KeyView {
    let s = sequence.push(byte);
    match viewer_command(s) {
        Some(action) => stay(
            match action {
                ActionView::ViewerSearchPrompt(forward) => ModeView::ViewerSearch(
                    Seq::empty(),
                    forward,
                ),
                _ => ModeView::Viewer(Seq::empty()),
            },
            seq![action],
        ),
        None => stay(ModeView::Viewer(s), Seq::empty()),
    }
}

pub open spec fn viewer_key(prefix: u8, sequence: Seq<u8>, byte: u8) -> KeyView {
    if sequence.len() == 0 && byte == prefix {
        KeyView {
            mode: ModeView::ViewerPrefix,
            actions: Seq::empty(),
            timer: Timer::Start,
            forwards: false,
        }
    } else if sequence.len() == 0 && byte == 2 {
        stay(ModeView::Viewer(Seq::empty()), seq![ActionView::ViewerPage(false)])
    } else if sequence.len() == 0 && byte == 103 {
        stay(ModeView::ViewerG, Seq::empty())
    } else {
        viewer_sequence_key(sequence, byte)
    }
}

pub open spec fn viewer_search_key(query: Seq<u8>, forward: bool, byte: u8) -> KeyView {
    let here = ModeView::ViewerSearch(query, forward);
    if byte == 3 || byte == 27 {
        stay(ModeView::Viewer(Seq::empty()), seq![ActionView::ViewerSearchCancelled])
    } else if byte == 8 || byte == 127 {
        let rest = if query.len() > 0 {
            query.drop_last()
        } else {
            query
        };
        stay(
            ModeView::ViewerSearch(rest, forward),
            if rest.len() == 0 {
                seq![
                    ActionView::ViewerSearchQuery(rest, forward),
                    ActionView::Status(search_mark(forward)),
                ]
            } else {
                seq![ActionView::ViewerSearchQuery(rest, forward)]
            },
        )
    } else if byte == 13 || byte == 10 {
        if query.len() == 0 {
            stay(here, seq![ActionView::Status("viewer search is empty"@)])
        } else {
            stay(ModeView::Viewer(Seq::empty()), seq![ActionView::ViewerSearch(query, forward)])
        }
    } else if query.len() == MAX_SEARCH_BYTES {
        stay(here, seq![ActionView::Status("viewer search is too long"@)])
    } else if is_ascii_control(byte) {
        stay(here, seq![ActionView::Status("viewer search accepts printable text"@)])
    } else {
        stay(
            ModeView::ViewerSearch(query.push(byte), forward),
            seq![
                ActionView::ViewerSearchQuery(query.push(byte), forward),
                ActionView::Status(viewer_search_line(forward, query.push(byte))),
            ],
        )
    }
}

/// What one byte does in a mode, for the session whose prefix key is `prefix`.
pub open spec fn key(prefix: u8, mode: ModeView, byte: u8) -> KeyView
    decreases mode_depth(mode),
{
    match mode {
        ModeView::ViewerPrefix => {
            if byte == 120 {
                KeyView {
                    mode: ModeView::ConfirmClose(true),
                    actions: seq![ActionView::Status("close viewer tab? (y/n)"@)],
                    timer: Timer::Stop,
                    forwards: false,
                }
            } else if byte == 118 || byte == 86 {
                KeyView {
                    mode: ModeView::ViewPrompt(Seq::empty(), true),
                    actions: seq![ActionView::ViewPrompt(true)],
                    timer: Timer::Stop,
                    forwards: false,
                }
            } else {
                let inner = key(prefix, ModeView::Viewer(Seq::empty()), byte);
                KeyView {
                    mode: inner.mode,
                    actions: seq![ActionView::ViewerPage(false)] + inner.actions,
                    timer: then_timer(Timer::Stop, inner.timer),
                    forwards: false,
                }
            }
        },
        ModeView::ViewerG => {
            if byte == 103 {
                stay(ModeView::Viewer(Seq::empty()), seq![ActionView::ViewerTop])
            } else {
                key(prefix, ModeView::Viewer(Seq::empty()), byte)
            }
        },
        ModeView::Normal => {
            if byte == prefix {
                stay(ModeView::Prefix(Seq::empty()), Seq::empty())
            } else {
                KeyView {
                    mode: ModeView::Normal,
                    actions: Seq::empty(),
                    timer: Timer::Keep,
                    forwards: true,
                }
            }
        },
        ModeView::Prefix(s) => prefix_key(prefix, s, byte),
        ModeView::ConfirmClose(return_viewer) => confirm_key(return_viewer, byte),
        ModeView::Filename(f) => filename_key(f, byte),
        ModeView::Resize(s) => resize_key(s, byte),
        ModeView::Help(s) => help_key(s, byte),
        ModeView::Scroll(s) => scroll_key(s, byte),
        ModeView::Search(q) => search_key(q, byte),
        ModeView::ViewPrompt(p, r) => view_prompt_key(p, r, byte),
        ModeView::Viewer(s) => viewer_key(prefix, s, byte),
        ModeView::ViewerSearch(q, f) => viewer_search_key(q, f, byte),
    }
}

pub open spec fn option_view(action: Option<Action>) -> Option<ActionView> {
    match action {
        Some(a) => Some(a@),
        None => None,
    }
}

/// A string that std's `char::is_control` would call a control character.
fn is_control_char(c: char) -> (r: bool)
    ensures
        r == is_control(c),
{
    let v = c as u32;
    v < 0x20 || (0x7f <= v && v < 0xa0)
}

/// `String::push` appends one character.
pub assume_specification[ String::push ](string: &mut String, ch: char)
    ensures
        final(string)@ == old(string)@.push(ch),
;

/// `String::from_utf8_lossy`: the text that the bytes encode, with each invalid
/// sequence shown as the replacement character; valid UTF-8 is decoded as it is.
#[verifier::external_body]
pub(crate) fn utf8_lossy(bytes: &[u8]) -> (r: String)
    ensures
        r@ == lossy_utf8(bytes@),
        valid_utf8(bytes@) ==> r@ == decode_utf8(bytes@),
{
    String::from_utf8_lossy(bytes).into_owned()
}

fn visible_text(bytes: &[u8]) -> (r: String)
    ensures
        r@ == shown(bytes@),
{
    let text = utf8_lossy(bytes);
    let mut out = String::new();
    for c in it: text.as_str().chars()
        invariant
            it.seq() == text@,
            out@ == visible(it.seq().take(it.index() as int)),
    {
        proof {
            assert(it.seq().take(it.index() as int + 1).drop_last() == it.seq().take(
                it.index() as int,
            ));
        }
        if !is_control_char(c) {
            out.push(c);
        }
    }
    proof {
        assert(text@.take(text@.len() as int) == text@);
    }
    out
}

fn status(text: &str) -> (a: Action)
    ensures
        a@ == ActionView::Status(text@),
{
    Action::Status(String::from_str(text))
}

fn filename_status(filename: &[u8]) -> (a: Action)
    ensures
        a@ == filename_line(filename@),
{
    let mut line = String::from_str("save scrollback file: ");
    let shown = visible_text(filename);
    line.append(shown.as_str());
    Action::Status(line)
}

fn search_status(query: &[u8]) -> (a: Action)
    ensures
        a@ == search_line(query@),
{
    let mut line = String::from_str("/");
    let shown = visible_text(query);
    line.append(shown.as_str());
    Action::Status(line)
}

/// The line of the viewer's search prompt: `/` or `?` by direction, then what was
/// typed without control characters.
pub fn viewer_search_status(forward: bool, query: &[u8]) -> (r: String)
    ensures
        r@ == viewer_search_line(forward, query@),
{
    let mut line = if forward {
        String::from_str("/")
    } else {
        String::from_str("?")
    };
    let shown = visible_text(query);
    line.append(shown.as_str());
    line
}

fn one(a: Action) -> (v: Vec<Action>)
    ensures
        views(v@) == seq![a@],
{
    let mut v = Vec::new();
    v.push(a);
    proof {
        assert(views(v@) =~= seq![a@]);
    }
    v
}

fn two(a: Action, b: Action) -> (v: Vec<Action>)
    ensures
        views(v@) == seq![a@, b@],
{
    let mut v = Vec::new();
    v.push(a);
    v.push(b);
    proof {
        assert(views(v@) =~= seq![a@, b@]);
    }
    v
}

fn none() -> (v: Vec<Action>)
    ensures
        views(v@) == Seq::<ActionView>::empty(),
{
    let v = Vec::new();
    proof {
        assert(views(v@) =~= Seq::<ActionView>::empty());
    }
    v
}

fn eq1(s: &[u8], a: u8) -> (r: bool)
    ensures
        r == seq1(s@, a),
{
    s.len() == 1 && s[0] == a
}

fn eq2(s: &[u8], a: u8, b: u8) -> (r: bool)
    ensures
        r == seq2(s@, a, b),
{
    s.len() == 2 && s[0] == a && s[1] == b
}

fn eq3(s: &[u8], a: u8, b: u8, c: u8) -> (r: bool)
    ensures
        r == seq3(s@, a, b, c),
{
    s.len() == 3 && s[0] == a && s[1] == b && s[2] == c
}

fn eq4(s: &[u8], a: u8, b: u8, c: u8, d: u8) -> (r: bool)
    ensures
        r == seq4(s@, a, b, c, d),
{
    s.len() == 4 && s[0] == a && s[1] == b && s[2] == c && s[3] == d
}

fn eq5(s: &[u8], a: u8, b: u8, c: u8, d: u8, e: u8) -> (r: bool)
    ensures
        r == seq5(s@, a, b, c, d, e),
{
    s.len() == 5 && s[0] == a && s[1] == b && s[2] == c && s[3] == d && s[4] == e
}

fn eq6(s: &[u8], a: u8, b: u8, c: u8, d: u8, e: u8, f: u8) -> (r: bool)
    ensures
        r == seq6(s@, a, b, c, d, e, f),
{
    s.len() == 6 && s[0] == a && s[1] == b && s[2] == c && s[3] == d && s[4] == e && s[5] == f
}

fn is_arrow(s: &[u8], last: u8) -> (r: bool)
    ensures
        r == arrow(s@, last),
{
    s.len() == 3 && s[0] == 27 && (s[1] == 91 || s[1] == 79) && s[2] == last
}

fn is_csi_or_ss3(s: &[u8]) -> (r: bool)
    ensures
        r == csi_or_ss3(s@),
{
    s.len() == 2 && s[0] == 27 && (s[1] == 91 || s[1] == 79)
}

fn direction(final_byte: u8) -> (d: Direction)
    ensures
        d == arrow_direction(final_byte),
{
    if final_byte == 65 {
        Direction::Up
    } else if final_byte == 66 {
        Direction::Down
    } else if final_byte == 67 {
        Direction::Right
    } else {
        Direction::Left
    }
}

fn prefix_action(prefix: u8, sequence: &[u8]) -> (r: Option<Action>)
    ensures
        option_view(r) == prefix_command(prefix, sequence@),
{
    if sequence.len() == 1 && sequence[0] != 27 {
        let b = sequence[0];
        let action = if b == prefix {
            let mut bytes = Vec::new();
            bytes.push(prefix);
            proof {
                assert(bytes@ =~= seq![prefix]);
            }
            Action::Forward(bytes)
        } else if b == 99 {
            Action::CreateTab
        } else if b == 110 {
            Action::NextTab
        } else if b == 112 {
            Action::PreviousTab
        } else if 49 <= b && b <= 57 {
            Action::SelectTab((b - 49) as usize)
        } else if b == 48 {
            Action::SelectTab(9)
        } else if b == 124 {
            Action::Split(Split::LeftRight)
        } else if b == 45 {
            Action::Split(Split::TopBottom)
        } else if b == 114 {
            status("resize mode: arrows resize, Esc exits")
        } else if b == 120 {
            status("close pane? (y/n)")
        } else if b == 100 {
            Action::Detach
        } else if b == 63 {
            Action::HelpView
        } else if b == 91 {
            Action::ScrollView
        } else if b == 118 || b == 86 {
            Action::ViewPrompt(false)
        } else if b == 67 {
            Action::ClearScrollback
        } else if b == 83 {
            status("save scrollback file: ")
        } else {
            status("unsupported prefix command")
        };
        return Some(action);
    }
    let s = sequence;
    if eq1(s, 27) || is_csi_or_ss3(s) || eq3(s, 27, 91, 49) || eq4(s, 27, 91, 49, 59)
        || eq5(s, 27, 91, 49, 59, 53) {
        None
    } else if s.len() == 3 && s[0] == 27 && (s[1] == 91 || s[1] == 79) && 65 <= s[2]
        && s[2] <= 68 {
        Some(Action::Focus(direction(s[2])))
    } else if s.len() == 6 && s[0] == 27 && s[1] == 91 && s[2] == 49 && s[3] == 59 && s[4]
        == 53 && 65 <= s[5] && s[5] <= 68 {
        Some(Action::Resize(direction(s[5])))
    } else if s.len() > 0 && 0x40 <= s[s.len() - 1] && s[s.len() - 1] <= 0x7e {
        Some(status("unsupported prefix command"))
    } else if s.len() >= 8 {
        Some(status("unsupported prefix command"))
    } else {
        None
    }
}

fn prefix_next_mode_of(s: &[u8]) -> (m: Mode)
    ensures
        m@ == prefix_next_mode(s@),
{
    if eq1(s, 120) {
        Mode::ConfirmClose(false)
    } else if eq1(s, 83) {
        Mode::Filename(Vec::new())
    } else if eq1(s, 114) {
        Mode::Resize(Vec::new())
    } else if eq1(s, 63) {
        Mode::Help(Vec::new())
    } else if eq1(s, 91) {
        Mode::Scroll(Vec::new())
    } else if eq1(s, 118) || eq1(s, 86) {
        Mode::ViewPrompt(Vec::new(), false)
    } else {
        Mode::Normal
    }
}

fn resize_action(s: &[u8]) -> (r: Option<Action>)
    ensures
        option_view(r) == resize_command(s@),
{
    if s.len() == 3 && s[0] == 27 && (s[1] == 91 || s[1] == 79) && 65 <= s[2] && s[2] <= 68 {
        Some(Action::Resize(direction(s[2])))
    } else if eq1(s, 27) || is_csi_or_ss3(s) {
        None
    } else {
        Some(status("resize mode: arrows resize, Esc exits"))
    }
}

fn is_page_key_begun(s: &[u8]) -> (r: bool)
    ensures
        r == page_key_begun(s@),
{
    eq1(s, 27) || is_csi_or_ss3(s) || eq3(s, 27, 91, 53) || eq3(s, 27, 91, 54)
}

fn help_action(s: &[u8]) -> (r: Option<Action>)
    ensures
        option_view(r) == help_command(s@),
{
    if eq1(s, 113) || eq1(s, 3) {
        Some(Action::ExitHelpView)
    } else if eq1(s, 107) || is_arrow(s, 65) {
        Some(Action::HelpScroll(-1))
    } else if eq1(s, 106) || is_arrow(s, 66) {
        Some(Action::HelpScroll(1))
    } else if eq4(s, 27, 91, 53, 126) {
        Some(Action::HelpScroll(i32::MIN))
    } else if eq4(s, 27, 91, 54, 126) {
        Some(Action::HelpScroll(i32::MAX))
    } else if is_page_key_begun(s) {
        None
    } else {
        Some(status("help: arrows/j/k/Page Up/Page Down, q/Esc exits"))
    }
}

fn scroll_action(s: &[u8]) -> (r: Option<Action>)
    ensures
        option_view(r) == scroll_command(s@),
{
    if eq1(s, 113) || eq1(s, 3) {
        Some(Action::ExitScrollView)
    } else if eq1(s, 107) || is_arrow(s, 65) {
        Some(Action::Scroll(1))
    } else if eq1(s, 106) || is_arrow(s, 66) {
        Some(Action::Scroll(-1))
    } else if eq4(s, 27, 91, 53, 126) {
        Some(Action::Scroll(i32::MAX))
    } else if eq4(s, 27, 91, 54, 126) {
        Some(Action::Scroll(i32::MIN))
    } else if eq1(s, 103) {
        Some(Action::ScrollTop)
    } else if eq1(s, 71) {
        Some(Action::ScrollBottom)
    } else if eq1(s, 110) {
        Some(Action::SearchNext(true))
    } else if eq1(s, 78) {
        Some(Action::SearchNext(false))
    } else if is_page_key_begun(s) {
        None
    } else {
        Some(status("scroll: arrows/j/k/Page Up/Page Down, / search, q/Esc exits"))
    }
}

fn is_viewer_key_begun(s: &[u8]) -> (r: bool)
    ensures
        r == viewer_key_begun(s@),
{
    eq1(s, 27) || is_csi_or_ss3(s) || eq3(s, 27, 91, 49) || eq3(s, 27, 91, 52) || eq3(
        s,
        27,
        91,
        53,
    ) || eq3(s, 27, 91, 54) || eq3(s, 27, 91, 55) || eq3(s, 27, 91, 56) || eq4(s, 27, 91, 49, 59)
        || eq5(s, 27, 91, 49, 59, 53) || eq4(s, 27, 91, 52, 59) || eq5(s, 27, 91, 52, 59, 53)
}

fn viewer_action(s: &[u8]) -> (r: Option<Action>)
    ensures
        option_view(r) == viewer_command(s@),
{
    if eq1(s, 107) || is_arrow(s, 65) {
        Some(Action::ViewerScroll(-1))
    } else if eq1(s, 106) || is_arrow(s, 66) {
        Some(Action::ViewerScroll(1))
    } else if eq4(s, 27, 91, 53, 126) {
        Some(Action::ViewerPage(false))
    } else if eq4(s, 27, 91, 54, 126) {
        Some(Action::ViewerPage(true))
    } else if eq1(s, 21) {
        Some(Action::ViewerHalfPage(false))
    } else if eq1(s, 4) {
        Some(Action::ViewerHalfPage(true))
    } else if eq1(s, 6) {
        Some(Action::ViewerPage(true))
    } else if eq1(s, 5) {
        Some(Action::ViewerViewport(1))
    } else if eq1(s, 25) {
        Some(Action::ViewerViewport(-1))
    } else if eq1(s, 48) || eq3(s, 27, 91, 72) || eq4(s, 27, 91, 49, 126) || eq4(
        s,
        27,
        91,
        55,
        126,
    ) {
        Some(Action::ViewerLineStart)
    } else if eq1(s, 36) || eq3(s, 27, 91, 70) || eq4(s, 27, 91, 52, 126) || eq4(
        s,
        27,
        91,
        56,
        126,
    ) {
        Some(Action::ViewerLineEnd)
    } else if eq6(s, 27, 91, 49, 59, 53, 72) || eq6(s, 27, 91, 49, 59, 53, 126) {
        Some(Action::ViewerTop)
    } else if eq6(s, 27, 91, 49, 59, 53, 70) || eq6(s, 27, 91, 52, 59, 53, 126) {
        Some(Action::ViewerBottom)
    } else if eq1(s, 71) {
        Some(Action::ViewerBottom)
    } else if eq1(s, 47) {
        Some(Action::ViewerSearchPrompt(true))
    } else if eq1(s, 63) {
        Some(Action::ViewerSearchPrompt(false))
    } else if eq1(s, 110) {
        Some(Action::ViewerSearchNext(true))
    } else if eq1(s, 78) {
        Some(Action::ViewerSearchNext(false))
    } else if is_viewer_key_begun(s) {
        None
    } else {
        Some(status("viewer: j/k arrows Home/End gg/G Ctrl-u/d Ctrl-b/f / ? n/N"))
    }
}

/// The effect of one byte: the next mode, the actions it asks for, what it does to
/// the timer, and whether it goes to the pane.
struct Key {
    mode: Mode,
    actions: Vec<Action>,
    timer: Timer,
    forwards: bool,
}

impl View for Key {
    type V = KeyView;

    closed spec fn view(&self) -> KeyView {
        KeyView {
            mode: self.mode@,
            actions: views(self.actions@),
            timer: self.timer,
            forwards: self.forwards,
        }
    }
}

fn keep(mode: Mode, actions: Vec<Action>) -> (k: Key)
    ensures
        k@ == stay(mode@, views(actions@)),
{
    Key { mode, actions, timer: Timer::Keep, forwards: false }
}

fn press_prefix(prefix: u8, sequence: Vec<u8>, byte: u8) -> (k: Key)
    ensures
        k@ == prefix_key(prefix, sequence@, byte),
{
    let mut s = sequence;
    s.push(byte);
    match prefix_action(prefix, s.as_slice()) {
        Some(action) => {
            let mode = prefix_next_mode_of(s.as_slice());
            keep(mode, one(action))
        },
        None => keep(Mode::Prefix(s), none()),
    }
}

fn press_confirm(return_viewer: bool, byte: u8) -> (k: Key)
    ensures
        k@ == confirm_key(return_viewer, byte),
{
    if byte == 121 || byte == 89 {
        keep(Mode::Normal, one(Action::ClosePane))
    } else {
        let mode = if return_viewer {
            Mode::Viewer(Vec::new())
        } else {
            Mode::Normal
        };
        keep(mode, one(status("close cancelled")))
    }
}

fn press_filename(filename: Vec<u8>, byte: u8) -> (k: Key)
    ensures
        k@ == filename_key(filename@, byte),
{
    let mut filename = filename;
    if byte == 3 || byte == 27 {
        keep(Mode::Normal, one(status("scrollback export cancelled")))
    } else if byte == 8 || byte == 127 {
        filename.pop();
        let action = filename_status(filename.as_slice());
        keep(Mode::Filename(filename), one(action))
    } else if byte == 13 || byte == 10 {
        let empty = filename.len() == 0;
        let action = match string_from_utf8(filename) {
            Some(text) => if empty {
                status("scrollback export cancelled")
            } else {
                Action::SaveScrollback(text)
            },
            None => status("filename must be UTF-8"),
        };
        keep(Mode::Normal, one(action))
    } else if filename.len() == MAX_FILENAME_BYTES {
        keep(Mode::Filename(filename), one(status("filename is too long")))
    } else {
        filename.push(byte);
        let action = filename_status(filename.as_slice());
        keep(Mode::Filename(filename), one(action))
    }
}

fn press_resize(sequence: Vec<u8>, byte: u8) -> (k: Key)
    ensures
        k@ == resize_key(sequence@, byte),
{
    let mut s = sequence;
    s.push(byte);
    match resize_action(s.as_slice()) {
        Some(action) => {
            let actions = if let Action::Resize(_) = action {
                two(action, status("resize mode: arrows resize, Esc exits"))
            } else {
                one(action)
            };
            keep(Mode::Resize(Vec::new()), actions)
        },
        None => keep(Mode::Resize(s), none()),
    }
}

fn press_help(sequence: Vec<u8>, byte: u8) -> (k: Key)
    ensures
        k@ == help_key(sequence@, byte),
{
    let mut s = sequence;
    s.push(byte);
    match help_action(s.as_slice()) {
        Some(action) => {
            let mode = if let Action::ExitHelpView = action {
                Mode::Normal
            } else {
                Mode::Help(Vec::new())
            };
            keep(mode, one(action))
        },
        None => keep(Mode::Help(s), none()),
    }
}

fn press_scroll(sequence: Vec<u8>, byte: u8) -> (k: Key)
    ensures
        k@ == scroll_key(sequence@, byte),
{
    if byte == 47 {
        return keep(Mode::Search(Vec::new()), one(status("/")));
    }
    let mut s = sequence;
    s.push(byte);
    match scroll_action(s.as_slice()) {
        Some(action) => {
            let mode = if let Action::ExitScrollView = action {
                Mode::Normal
            } else {
                Mode::Scroll(Vec::new())
            };
            keep(mode, one(action))
        },
        None => keep(Mode::Scroll(s), none()),
    }
}

fn press_search(query: Vec<u8>, byte: u8) -> (k: Key)
    ensures
        k@ == search_key(query@, byte),
{
    let mut query = query;
    if byte == 3 || byte == 27 {
        keep(Mode::Scroll(Vec::new()), one(Action::SearchCancelled))
    } else if byte == 8 || byte == 127 {
        query.pop();
        let action = search_status(query.as_slice());
        keep(Mode::Search(query), one(action))
    } else if byte == 13 || byte == 10 {
        let empty = query.len() == 0;
        let action = match string_from_utf8(query) {
            Some(text) => if empty {
                status("search is empty")
            } else {
                Action::Search(text)
            },
            None => status("search must be UTF-8"),
        };
        keep(Mode::Scroll(Vec::new()), one(action))
    } else if query.len() == MAX_SEARCH_BYTES {
        keep(Mode::Search(query), one(status("search is too long")))
    } else {
        query.push(byte);
        let action = search_status(query.as_slice());
        keep(Mode::Search(query), one(action))
    }
}

fn press_view_prompt(path: Vec<u8>, return_viewer: bool, byte: u8) -> (k: Key)
    ensures
        k@ == view_prompt_key(path@, return_viewer, byte),
{
    let mut path = path;
    if byte == 14 || byte == 16 {
        let step: i32 = if byte == 14 {
            1
        } else {
            -1
        };
        keep(Mode::ViewPrompt(path, return_viewer), one(Action::ViewSelect(step)))
    } else if byte == 3 || byte == 27 {
        let mode = if return_viewer {
            Mode::Viewer(Vec::new())
        } else {
            Mode::Normal
        };
        keep(mode, one(Action::ViewCancelled))
    } else if byte == 8 || byte == 127 {
        if path.len() > 0 {
            path.pop();
            let query = path.clone();
            keep(Mode::ViewPrompt(path, return_viewer), one(Action::ViewQuery(query)))
        } else {
            keep(Mode::ViewPrompt(path, return_viewer), one(Action::ViewParent))
        }
    } else if byte == 47 || byte == 92 {
        let query = path.clone();
        keep(
            Mode::ViewPrompt(path, return_viewer),
            one(Action::ViewDirectory { query, separator: byte }),
        )
    } else if byte == 9 {
        let query = path.clone();
        keep(Mode::ViewPrompt(path, return_viewer), one(Action::ViewComplete(query)))
    } else if byte == 13 || byte == 10 {
        let query = path.clone();
        keep(Mode::ViewPrompt(path, return_viewer), one(Action::OpenViewer(query)))
    } else if path.len() == MAX_VIEW_PATH_BYTES {
        keep(Mode::ViewPrompt(path, return_viewer), one(status("viewer path is too long")))
    } else if byte < 32 || byte == 127 {
        keep(
            Mode::ViewPrompt(path, return_viewer),
            one(status("viewer path accepts printable text")),
        )
    } else {
        path.push(byte);
        let query = path.clone();
        keep(Mode::ViewPrompt(path, return_viewer), one(Action::ViewQuery(query)))
    }
}

fn press_viewer_sequence(sequence: Vec<u8>, byte: u8) -> (k: Key)
    ensures
        k@ == viewer_sequence_key(sequence@, byte),
{
    let mut s = sequence;
    s.push(byte);
    match viewer_action(s.as_slice()) {
        Some(action) => {
            let mode = match action {
                Action::ViewerSearchPrompt(forward) => Mode::ViewerSearch(Vec::new(), forward),
                _ => Mode::Viewer(Vec::new()),
            };
            keep(mode, one(action))
        },
        None => keep(Mode::Viewer(s), none()),
    }
}

fn press_viewer(prefix: u8, sequence: Vec<u8>, byte: u8) -> (k: Key)
    ensures
        k@ == viewer_key(prefix, sequence@, byte),
{
    if sequence.len() == 0 && byte == prefix {
        Key { mode: Mode::ViewerPrefix, actions: none(), timer: Timer::Start, forwards: false }
    } else if sequence.len() == 0 && byte == 2 {
        keep(Mode::Viewer(Vec::new()), one(Action::ViewerPage(false)))
    } else if sequence.len() == 0 && byte == 103 {
        keep(Mode::ViewerG, none())
    } else {
        press_viewer_sequence(sequence, byte)
    }
}

fn press_viewer_search(query: Vec<u8>, forward: bool, byte: u8) -> (k: Key)
    ensures
        k@ == viewer_search_key(query@, forward, byte),
{
    let mut query = query;
    if byte == 3 || byte == 27 {
        keep(Mode::Viewer(Vec::new()), one(Action::ViewerSearchCancelled))
    } else if byte == 8 || byte == 127 {
        query.pop();
        let shown = query.clone();
        let actions = if query.len() == 0 {
            let mark = if forward {
                "/"
            } else {
                "?"
            };
            two(Action::ViewerSearchQuery(shown, forward), status(mark))
        } else {
            one(Action::ViewerSearchQuery(shown, forward))
        };
        keep(Mode::ViewerSearch(query, forward), actions)
    } else if byte == 13 || byte == 10 {
        if query.len() == 0 {
            keep(Mode::ViewerSearch(query, forward), one(status("viewer search is empty")))
        } else {
            keep(Mode::Viewer(Vec::new()), one(Action::ViewerSearch(query, forward)))
        }
    } else if query.len() == MAX_SEARCH_BYTES {
        keep(Mode::ViewerSearch(query, forward), one(status("viewer search is too long")))
    } else if byte < 32 || byte == 127 {
        keep(
            Mode::ViewerSearch(query, forward),
            one(status("viewer search accepts printable text")),
        )
    } else {
        query.push(byte);
        let shown = query.clone();
        let line = viewer_search_status(forward, query.as_slice());
        keep(
            Mode::ViewerSearch(query, forward),
            two(Action::ViewerSearchQuery(shown, forward), Action::Status(line)),
        )
    }
}

/// One byte in one mode.
fn press(prefix: u8, mode: Mode, byte: u8) -> (k: Key)
    ensures
        k@ == key(prefix, mode@, byte),
    decreases mode_depth(mode@),
{
    match mode {
        Mode::ViewerPrefix => {
            if byte == 120 {
                Key {
                    mode: Mode::ConfirmClose(true),
                    actions: one(status("close viewer tab? (y/n)")),
                    timer: Timer::Stop,
                    forwards: false,
                }
            } else if byte == 118 || byte == 86 {
                Key {
                    mode: Mode::ViewPrompt(Vec::new(), true),
                    actions: one(Action::ViewPrompt(true)),
                    timer: Timer::Stop,
                    forwards: false,
                }
            } else {
                let inner = press(prefix, Mode::Viewer(Vec::new()), byte);
                let mut actions = one(Action::ViewerPage(false));
                let mut rest = inner.actions;
                proof {
                    assert(views(actions@ + rest@) =~= views(actions@) + views(rest@));
                }
                actions.append(&mut rest);
                let timer = if inner.timer == Timer::Keep {
                    Timer::Stop
                } else {
                    inner.timer
                };
                Key { mode: inner.mode, actions, timer, forwards: false }
            }
        },
        Mode::ViewerG => {
            if byte == 103 {
                keep(Mode::Viewer(Vec::new()), one(Action::ViewerTop))
            } else {
                press(prefix, Mode::Viewer(Vec::new()), byte)
            }
        },
        Mode::Normal => {
            if byte == prefix {
                keep(Mode::Prefix(Vec::new()), none())
            } else {
                Key { mode: Mode::Normal, actions: none(), timer: Timer::Keep, forwards: true }
            }
        },
        Mode::Prefix(s) => press_prefix(prefix, s, byte),
        Mode::ConfirmClose(return_viewer) => press_confirm(return_viewer, byte),
        Mode::Filename(f) => press_filename(f, byte),
        Mode::Resize(s) => press_resize(s, byte),
        Mode::Help(s) => press_help(s, byte),
        Mode::Scroll(s) => press_scroll(s, byte),
        Mode::Search(q) => press_search(q, byte),
        Mode::ViewPrompt(p, r) => press_view_prompt(p, r, byte),
        Mode::Viewer(s) => press_viewer(prefix, s, byte),
        Mode::ViewerSearch(q, f) => press_viewer_search(q, f, byte),
    }
}

/// What the bytes at a mouse report's start amount to.
#[derive(Clone, Copy, Debug, PartialEq, Eq, Structural)]
pub enum MouseParse {
    /// A whole report, and the bytes it took.
    Complete(MouseEvent, usize),
    /// A report that more bytes may complete.
    Incomplete,
    /// Not a mouse report.
    Invalid,
}

/// What the bytes at the start of viewer-prompt input amount to.
#[derive(Clone, Copy, Debug, PartialEq, Eq, Structural)]
pub enum ViewPromptParse {
    Complete(Direction, usize),
    Incomplete,
    Invalid,
}

/// The bytes agree with `ESC [ <` as far as either goes.
pub open spec fn mouse_intro(bytes: Seq<u8>) -> bool {
    (bytes.len() >= 1 ==> bytes[0] == 27) && (bytes.len() >= 2 ==> bytes[1] == 91) && (
    bytes.len() >= 3 ==> bytes[2] == 60)
}

/// The first `M` or `m` at or after `i` among the first bytes that a report may take.
pub open spec fn final_at(bytes: Seq<u8>, i: int) -> Option<int>
    decreases MAX_MOUSE_SEQUENCE_BYTES - i,
{
    if i < 0 || i >= bytes.len() || i >= MAX_MOUSE_SEQUENCE_BYTES {
        None
    } else if bytes[i] == 77 || bytes[i] == 109 {
        Some(i)
    } else {
        final_at(bytes, i + 1)
    }
}

/// The first `;` at or after `i`.
pub open spec fn semicolon_at(s: Seq<u8>, i: int) -> Option<int>
    decreases s.len() - i,
{
    if i < 0 || i >= s.len() {
        None
    } else if s[i] == 59 {
        Some(i)
    } else {
        semicolon_at(s, i + 1)
    }
}

pub open spec fn all_digits(s: Seq<u8>) -> bool {
    forall|i: int| 0 <= i < s.len() ==> 48 <= #[trigger] s[i] <= 57
}

/// The number that decimal digits write.
pub open spec fn digits_value(s: Seq<u8>) -> nat
    decreases s.len(),
{
    if s.len() == 0 {
        0
    } else {
        digits_value(s.drop_last()) * 10 + (s.last() - 48) as nat
    }
}

/// A field as `str::parse::<u16>` reads it: an optional `+`, then decimal digits.
pub open spec fn number(field: Seq<u8>) -> Option<u16> {
    let d = if field.len() > 0 && field[0] == 43 {
        field.subrange(1, field.len() as int)
    } else {
        field
    };
    if d.len() > 0 && all_digits(d) && digits_value(d) <= u16::MAX {
        Some(digits_value(d) as u16)
    } else {
        None
    }
}

/// The three numbers of a report's parameters, split at `;`.
pub open spec fn mouse_fields(p: Seq<u8>) -> Option<(u16, u16, u16)> {
    match semicolon_at(p, 0) {
        None => None,
        Some(a) => match semicolon_at(p, a + 1) {
            None => None,
            Some(b) => if semicolon_at(p, b + 1) is Some {
                None
            } else {
                match (
                    number(p.subrange(0, a)),
                    number(p.subrange(a + 1, b)),
                    number(p.subrange(b + 1, p.len() as int)),
                ) {
                    (Some(code), Some(x), Some(y)) => Some((code, x, y)),
                    _ => None,
                }
            },
        },
    }
}

/// An SGR mouse report `ESC [ < code ; x ; y M` (or `m` on release) at the start of
/// the bytes, with one-based coordinates.
pub open spec fn mouse_report(bytes: Seq<u8>) -> MouseParse {
    if !mouse_intro(bytes) {
        MouseParse::Invalid
    } else if bytes.len() < 3 {
        MouseParse::Incomplete
    } else {
        match final_at(bytes, 0) {
            None => if bytes.len() < MAX_MOUSE_SEQUENCE_BYTES {
                MouseParse::Incomplete
            } else {
                MouseParse::Invalid
            },
            Some(i) => match mouse_fields(bytes.subrange(3, i)) {
                Some((code, x, y)) => if x == 0 || y == 0 {
                    MouseParse::Invalid
                } else {
                    MouseParse::Complete(
                        MouseEvent {
                            code,
                            x: (x - 1) as u16,
                            y: (y - 1) as u16,
                            release: bytes[i] == 109,
                        },
                        (i + 1) as usize,
                    )
                },
                None => MouseParse::Invalid,
            },
        }
    }
}

/// A cursor key at the start of viewer-prompt input.
pub open spec fn view_prompt_report(b: Seq<u8>) -> ViewPromptParse {
    if b.len() >= 3 && b[0] == 27 && (b[1] == 91 || b[1] == 79) && 65 <= b[2] <= 68 {
        ViewPromptParse::Complete(arrow_direction(b[2]), 3)
    } else if b.len() < 3 && (b.len() == 0 || (b[0] == 27 && (b.len() == 1 || b[1] == 91 || b[1]
        == 79))) {
        ViewPromptParse::Incomplete
    } else {
        ViewPromptParse::Invalid
    }
}

/// The end of a mouse report found from `i` is the first `M` or `m` there, within the
/// length a report may have.
pub proof fn lemma_final_at(bytes: Seq<u8>, i: int)
    requires
        0 <= i,
    ensures
        final_at(bytes, i) matches Some(j) ==> i <= j < bytes.len() && j < MAX_MOUSE_SEQUENCE_BYTES
            && (bytes[j] == 77 || bytes[j] == 109),
        final_at(bytes, i) matches Some(j) ==> forall|k: int|
            i <= k < j ==> !(#[trigger] bytes[k] == 77 || bytes[k] == 109),
    decreases MAX_MOUSE_SEQUENCE_BYTES - i,
{
    if i < bytes.len() && i < MAX_MOUSE_SEQUENCE_BYTES && !(bytes[i] == 77 || bytes[i] == 109) {
        lemma_final_at(bytes, i + 1);
    }
}

proof fn lemma_semicolon_at(s: Seq<u8>, i: int)
    requires
        0 <= i,
    ensures
        semicolon_at(s, i) matches Some(j) ==> i <= j < s.len() && s[j] == 59,
    decreases s.len() - i,
{
    if i < s.len() && s[i] != 59 {
        lemma_semicolon_at(s, i + 1);
    }
}

proof fn lemma_digits_prefix(s: Seq<u8>, k: int)
    requires
        all_digits(s),
        0 <= k <= s.len(),
    ensures
        digits_value(s.take(k)) <= digits_value(s),
    decreases s.len(),
{
    if k < s.len() {
        assert(s.drop_last().take(k) =~= s.take(k));
        lemma_digits_prefix(s.drop_last(), k);
    } else {
        assert(s.take(k) =~= s);
    }
}

fn parse_number(field: &[u8]) -> (r: Option<u16>)
    ensures
        r == number(field@),
{
    let d = if field.len() > 0 && field[0] == 43 {
        vstd::slice::slice_subrange(field, 1, field.len())
    } else {
        field
    };
    if d.len() == 0 {
        return None;
    }
    let mut value: u32 = 0;
    let mut k: usize = 0;
    while k < d.len()
        invariant
            0 <= k <= d@.len(),
            d@ == (if field@.len() > 0 && field@[0] == 43 {
                field@.subrange(1, field@.len() as int)
            } else {
                field@
            }),
            all_digits(d@.take(k as int)),
            value == digits_value(d@.take(k as int)),
            value <= u16::MAX,
        decreases d.len() - k,
    {
        let c = d[k];
        if c < 48 || c > 57 {
            return None;
        }
        proof {
            assert(d@.take(k + 1).drop_last() =~= d@.take(k as int));
        }
        let next = value * 10 + (c - 48) as u32;
        if next > 65535 {
            proof {
                if all_digits(d@) {
                    lemma_digits_prefix(d@, k + 1);
                }
            }
            return None;
        }
        value = next;
        k += 1;
    }
    proof {
        assert(d@.take(d@.len() as int) =~= d@);
    }
    Some(value as u16)
}

fn semicolon_from(s: &[u8], start: usize) -> (r: Option<usize>)
    ensures
        match r {
            Some(j) => semicolon_at(s@, start as int) == Some(j as int),
            None => semicolon_at(s@, start as int) is None,
        },
{
    let mut i = start;
    while i < s.len()
        invariant
            start <= i,
            semicolon_at(s@, i as int) == semicolon_at(s@, start as int),
        decreases s.len() - i,
    {
        if s[i] == 59 {
            return Some(i);
        }
        i += 1;
    }
    None
}

fn parse_mouse_fields(p: &[u8]) -> (r: Option<(u16, u16, u16)>)
    ensures
        r == mouse_fields(p@),
{
    let n = p.len();
    let a = match semicolon_from(p, 0) {
        None => return None,
        Some(a) => a,
    };
    proof {
        lemma_semicolon_at(p@, 0);
        assert(a < p@.len());
    }
    let b = match semicolon_from(p, a + 1) {
        None => return None,
        Some(b) => b,
    };
    proof {
        lemma_semicolon_at(p@, a + 1);
        assert(b < p@.len());
    }
    if semicolon_from(p, b + 1).is_some() {
        return None;
    }
    let code = parse_number(vstd::slice::slice_subrange(p, 0, a));
    let x = parse_number(vstd::slice::slice_subrange(p, a + 1, b));
    let y = parse_number(vstd::slice::slice_subrange(p, b + 1, p.len()));
    match (code, x, y) {
        (Some(code), Some(x), Some(y)) => Some((code, x, y)),
        _ => None,
    }
}

fn parse_mouse(bytes: &[u8]) -> (r: MouseParse)
    ensures
        r == mouse_report(bytes@),
{
    if (bytes.len() >= 1 && bytes[0] != 27) || (bytes.len() >= 2 && bytes[1] != 91) || (
    bytes.len() >= 3 && bytes[2] != 60) {
        return MouseParse::Invalid;
    }
    if bytes.len() < 3 {
        return MouseParse::Incomplete;
    }
    let mut i: usize = 0;
    while i < bytes.len() && i < MAX_MOUSE_SEQUENCE_BYTES && bytes[i] != 77 && bytes[i] != 109
        invariant
            i <= bytes@.len(),
            i <= MAX_MOUSE_SEQUENCE_BYTES,
            final_at(bytes@, i as int) == final_at(bytes@, 0),
        decreases bytes.len() - i,
    {
        i += 1;
    }
    if i >= bytes.len() || i >= MAX_MOUSE_SEQUENCE_BYTES {
        return if bytes.len() < MAX_MOUSE_SEQUENCE_BYTES {
            MouseParse::Incomplete
        } else {
            MouseParse::Invalid
        };
    }
    proof {
        lemma_final_at(bytes@, 0);
        assert(i >= 3);
    }
    let fields = parse_mouse_fields(vstd::slice::slice_subrange(bytes, 3, i));
    match fields {
        Some((code, x, y)) => if x == 0 || y == 0 {
            MouseParse::Invalid
        } else {
            MouseParse::Complete(
                MouseEvent { code, x: x - 1, y: y - 1, release: bytes[i] == 109 },
                i + 1,
            )
        },
        None => MouseParse::Invalid,
    }
}

fn parse_view_prompt(b: &[u8]) -> (r: ViewPromptParse)
    ensures
        r == view_prompt_report(b@),
{
    if b.len() >= 3 && b[0] == 27 && (b[1] == 91 || b[1] == 79) && 65 <= b[2] && b[2] <= 68 {
        ViewPromptParse::Complete(direction(b[2]), 3)
    } else if b.len() < 3 && (b.len() == 0 || (b[0] == 27 && (b.len() == 1 || b[1] == 91 || b[1]
        == 79))) {
        ViewPromptParse::Incomplete
    } else {
        ViewPromptParse::Invalid
    }
}

/// A complete mouse report takes at least one byte and no more than there are.
pub proof fn lemma_mouse_report_length(bytes: Seq<u8>)
    ensures
        mouse_report(bytes) matches MouseParse::Complete(_, n) ==> 1 <= n <= bytes.len(),
{
    lemma_final_at(bytes, 0);
}

/// What `Duration` a value of time measures, in nanoseconds.
pub uninterp spec fn duration_nanos(d: Duration) -> nat;

/// `Instant::now`: the current time of the monotonic clock.
#[verifier::external_body]
fn instant_now() -> Instant {
    Instant::now()
}

/// `Instant::elapsed`: how long ago the instant was; nothing is stated, as it rests
/// on the clock.
#[verifier::external_body]
fn instant_elapsed(since: &Instant) -> Duration {
    since.elapsed()
}

/// `Duration::from_millis`: that many milliseconds.
#[verifier::external_body]
pub(crate) fn duration_from_millis(millis: u64) -> (d: Duration)
    ensures
        duration_nanos(d) == millis * 1_000_000,
{
    Duration::from_millis(millis)
}

/// `Duration::saturating_sub`: the difference, or zero where it would be negative.
#[verifier::external_body]
fn duration_saturating_sub(a: Duration, b: Duration) -> (d: Duration)
    ensures
        duration_nanos(d) == (if duration_nanos(a) >= duration_nanos(b) {
            duration_nanos(a) - duration_nanos(b)
        } else {
            0
        }),
{
    a.saturating_sub(b)
}

/// `Duration::is_zero`.
#[verifier::external_body]
fn duration_is_zero(d: &Duration) -> (z: bool)
    ensures
        z == (duration_nanos(*d) == 0),
{
    d.is_zero()
}

/// Input is held back and no time is left of its wait.
pub open spec fn ran_out(timed: bool, remaining: Option<Duration>) -> bool {
    timed && match remaining {
        Some(d) => duration_nanos(d) == 0,
        None => false,
    }
}

/// Turns bytes from the terminal into actions, one mode at a time.
#[derive(Debug)]
pub struct Input {
    prefix: u8,
    mouse: bool,
    pending_mouse: Vec<u8>,
    /// When the bytes held back began to wait, or when the viewer's prefix key was
    /// pressed.
    pub pending_since: Option<Instant>,
    mode: Mode,
}

/// The state of an `Input`.
pub struct InputView {
    pub prefix: u8,
    pub mouse: bool,
    /// Bytes held back until more arrive or their time runs out.
    pub pending: Seq<u8>,
    /// A wait is being timed.
    pub timed: bool,
    pub mode: ModeView,
}

impl View for Input {
    type V = InputView;

    closed spec fn view(&self) -> InputView {
        InputView {
            prefix: self.prefix,
            mouse: self.mouse,
            pending: self.pending_mouse@,
            timed: self.pending_since is Some,
            mode: self.mode@,
        }
    }
}

/// Where reading a run of bytes stands.
pub struct Reading {
    pub mode: ModeView,
    pub timed: bool,
    pub pending: Seq<u8>,
    /// Bytes for the pane, sent as one action when something else happens.
    pub forwarded: Seq<u8>,
    pub actions: Seq<ActionView>,
}

pub open spec fn flushed(forwarded: Seq<u8>) -> Seq<ActionView> {
    if forwarded.len() == 0 {
        Seq::empty()
    } else {
        seq![ActionView::Forward(forwarded)]
    }
}

pub open spec fn after_key(r: Reading, k: KeyView, byte: u8) -> Reading {
    if k.forwards {
        Reading {
            mode: k.mode,
            timed: timed_after(r.timed, k.timer),
            forwarded: r.forwarded.push(byte),
            ..r
        }
    } else {
        Reading {
            mode: k.mode,
            timed: timed_after(r.timed, k.timer),
            forwarded: Seq::empty(),
            actions: r.actions + flushed(r.forwarded) + k.actions,
            ..r
        }
    }
}

/// Modes in which a lone escape byte waits to see whether a key sequence follows.
pub open spec fn escape_waits(mode: ModeView) -> bool {
    match mode {
        ModeView::Resize(_) | ModeView::Scroll(_) | ModeView::Help(_) | ModeView::Search(_)
        | ModeView::ViewPrompt(_, _) | ModeView::Viewer(_) | ModeView::ViewerG
        | ModeView::ViewerSearch(_, _) => true,
        _ => false,
    }
}

/// What a cursor key does in the viewer prompt.
pub open spec fn prompt_arrow(mode: ModeView, direction: Direction) -> ActionView {
    match direction {
        Direction::Up => ActionView::ViewSelect(-1i32),
        Direction::Down => ActionView::ViewSelect(1i32),
        Direction::Left => ActionView::ViewParent,
        Direction::Right => ActionView::OpenViewer(
            match mode {
                ModeView::ViewPrompt(path, _) => path,
                _ => Seq::empty(),
            },
        ),
    }
}

/// Reads `input` from `offset` on: mouse reports when mouse input is on, cursor keys
/// in the viewer prompt, and every other byte by the mode it arrives in; stops where
/// a report or key sequence is incomplete, holding the rest back.
pub open spec fn read(prefix: u8, mouse: bool, r: Reading, input: Seq<u8>, offset: int) -> Reading
    decreases input.len() - offset,
{
    if offset < 0 || offset >= input.len() {
        r
    } else {
        let rest = input.subrange(offset, input.len() as int);
        let byte = input[offset];
        let report = mouse_report(rest);
        let arrow = view_prompt_report(rest);
        if mouse && byte == 27 && report is Complete {
            proof {
                lemma_mouse_report_length(rest);
            }
            read(
                prefix,
                mouse,
                Reading {
                    timed: false,
                    forwarded: Seq::empty(),
                    actions: r.actions + flushed(r.forwarded) + seq![ActionView::Mouse(report->0)],
                    ..r
                },
                input,
                offset + report->1,
            )
        } else if mouse && byte == 27 && report is Incomplete {
            Reading { timed: true, pending: rest, ..r }
        } else if byte == 27 && r.mode is ViewPrompt && arrow is Complete {
            read(
                prefix,
                mouse,
                Reading {
                    timed: false,
                    forwarded: Seq::empty(),
                    actions: r.actions + flushed(r.forwarded) + seq![
                        prompt_arrow(r.mode, arrow->0),
                    ],
                    ..r
                },
                input,
                offset + 3,
            )
        } else if byte == 27 && r.mode is ViewPrompt && arrow is Incomplete {
            Reading { timed: true, pending: rest, ..r }
        } else if byte == 27 && offset + 1 == input.len() && escape_waits(r.mode) {
            Reading { timed: true, pending: seq![27u8], ..r }
        } else {
            read(prefix, mouse, after_key(r, key(prefix, r.mode, byte), byte), input, offset + 1)
        }
    }
}

/// The state and actions after `advance` reads `bytes`.
pub open spec fn advanced(v: InputView, bytes: Seq<u8>) -> (InputView, Seq<ActionView>) {
    let start = Reading {
        mode: v.mode,
        timed: v.timed,
        pending: Seq::empty(),
        forwarded: Seq::empty(),
        actions: Seq::empty(),
    };
    let r = read(v.prefix, v.mouse, start, v.pending + bytes, 0);
    (
        InputView {
            prefix: v.prefix,
            mouse: v.mouse,
            pending: r.pending,
            timed: if r.pending.len() == 0 && !(r.mode is ViewerPrefix) {
                false
            } else {
                r.timed
            },
            mode: r.mode,
        },
        r.actions + flushed(r.forwarded),
    )
}

/// Every byte through its mode, none held back.
pub open spec fn feed(prefix: u8, r: Reading, input: Seq<u8>, i: int) -> Reading
    decreases input.len() - i,
{
    if i < 0 || i >= input.len() {
        r
    } else {
        feed(prefix, after_key(r, key(prefix, r.mode, input[i]), input[i]), input, i + 1)
    }
}

/// What a lone escape means once its wait is over.
pub open spec fn lone_escape(mode: ModeView, pending: Seq<u8>) -> (ModeView, Seq<ActionView>) {
    match mode {
        ModeView::Resize(_) => (ModeView::Normal, seq![ActionView::Status("resize mode ended"@)]),
        ModeView::Scroll(_) => (ModeView::Normal, seq![ActionView::ExitScrollView]),
        ModeView::Help(_) => (ModeView::Normal, seq![ActionView::ExitHelpView]),
        ModeView::Search(_) => (ModeView::Scroll(Seq::empty()), seq![ActionView::SearchCancelled]),
        ModeView::ViewPrompt(_, return_viewer) => (
            if return_viewer {
                ModeView::Viewer(Seq::empty())
            } else {
                ModeView::Normal
            },
            seq![ActionView::ViewCancelled],
        ),
        ModeView::Viewer(_) | ModeView::ViewerG => (ModeView::Viewer(Seq::empty()), Seq::empty()),
        ModeView::ViewerSearch(_, _) => (
            ModeView::Viewer(Seq::empty()),
            seq![ActionView::ViewerSearchCancelled],
        ),
        _ => (mode, seq![ActionView::Forward(pending)]),
    }
}

/// The state and actions once the wait for held-back bytes is over: the viewer's
/// prefix key turns the page, a lone escape leaves its mode, and any other bytes
/// are taken as keys.
pub open spec fn expired(v: InputView) -> (InputView, Seq<ActionView>) {
    if v.mode is ViewerPrefix {
        (InputView { timed: false, mode: ModeView::Viewer(Seq::empty()), ..v }, seq![ActionView::ViewerPage(false)])
    } else if v.pending == seq![27u8] {
        let (mode, actions) = lone_escape(v.mode, v.pending);
        (InputView { timed: false, pending: Seq::empty(), mode, ..v }, actions)
    } else {
        let start = Reading {
            mode: v.mode,
            timed: false,
            pending: Seq::empty(),
            forwarded: Seq::empty(),
            actions: Seq::empty(),
        };
        let r = feed(v.prefix, start, v.pending, 0);
        (
            InputView { timed: r.timed, pending: Seq::empty(), mode: r.mode, ..v },
            r.actions + flushed(r.forwarded),
        )
    }
}

/// How long held-back input may wait, in milliseconds.
pub open spec fn wait_millis(v: InputView) -> nat {
    if v.mode is ViewerPrefix {
        VIEWER_PREFIX_TIMEOUT_MS as nat
    } else if v.pending.len() > 0 && v.pending[0] == 27 && escape_waits(v.mode) {
        ESCAPE_SEQUENCE_TIMEOUT_MS as nat
    } else {
        MOUSE_SEQUENCE_TIMEOUT_MS as nat
    }
}

pub open spec fn reading_of(input: Input, actions: Seq<Action>, forwarded: Seq<u8>) -> Reading {
    Reading {
        mode: input@.mode,
        timed: input@.timed,
        pending: input@.pending,
        forwarded,
        actions: views(actions),
    }
}

fn push_forward(actions: &mut Vec<Action>, bytes: &mut Vec<u8>)
    ensures
        views(final(actions)@) == views(old(actions)@) + flushed(old(bytes)@),
        final(bytes)@ == Seq::<u8>::empty(),
{
    if bytes.len() > 0 {
        let mut taken = Vec::new();
        std::mem::swap(&mut taken, bytes);
        actions.push(Action::Forward(taken));
        proof {
            assert(views(final(actions)@) =~= views(old(actions)@) + flushed(old(bytes)@));
        }
    } else {
        proof {
            assert(views(final(actions)@) =~= views(old(actions)@) + flushed(old(bytes)@));
        }
    }
}

fn append_actions(actions: &mut Vec<Action>, more: Vec<Action>)
    ensures
        views(final(actions)@) == views(old(actions)@) + views(more@),
{
    let mut more = more;
    proof {
        assert(views(actions@ + more@) =~= views(actions@) + views(more@));
    }
    actions.append(&mut more);
}

impl Input {
    pub fn new(prefix: u8, mouse: bool) -> (r: Input)
        ensures
            r@ == (InputView {
                prefix,
                mouse,
                pending: Seq::empty(),
                timed: false,
                mode: ModeView::Normal,
            }),
    {
        Input { prefix, mouse, pending_mouse: Vec::new(), pending_since: None, mode: Mode::Normal }
    }

    pub fn prefix(&self) -> (r: u8)
        ensures
            r == self@.prefix,
    {
        self.prefix
    }

    /// In the scrollback view or its search prompt.
    pub fn is_scroll_mode(&self) -> (r: bool)
        ensures
            r == (self@.mode is Scroll || self@.mode is Search),
    {
        match self.mode {
            Mode::Scroll(_) | Mode::Search(_) => true,
            _ => false,
        }
    }

    pub fn enter_viewer(&mut self)
        ensures
            final(self)@ == (InputView { mode: ModeView::Viewer(Seq::empty()), ..old(self)@ }),
    {
        self.mode = Mode::Viewer(Vec::new());
    }

    /// Replaces the path typed in the viewer prompt; elsewhere nothing changes.
    pub fn set_view_prompt(&mut self, path: Vec<u8>)
        ensures
            match old(self)@.mode {
                ModeView::ViewPrompt(_, return_viewer) => final(self)@ == (InputView {
                    mode: ModeView::ViewPrompt(path@, return_viewer),
                    ..old(self)@
                }),
                _ => final(self)@ == old(self)@,
            },
    {
        let return_viewer = match &self.mode {
            Mode::ViewPrompt(_, return_viewer) => Some(*return_viewer),
            _ => None,
        };
        if let Some(return_viewer) = return_viewer {
            self.mode = Mode::ViewPrompt(path, return_viewer);
        }
    }

    fn waits_for_escape(&self) -> (r: bool)
        ensures
            r == escape_waits(self@.mode),
    {
        match self.mode {
            Mode::Resize(_) | Mode::Scroll(_) | Mode::Help(_) | Mode::Search(_) | Mode::ViewPrompt(
                _,
                _,
            )
            | Mode::Viewer(_) | Mode::ViewerG | Mode::ViewerSearch(_, _) => true,
            _ => false,
        }
    }

    fn advance_byte(&mut self, byte: u8, actions: &mut Vec<Action>, forwarded: &mut Vec<u8>)
        ensures
            reading_of(*final(self), final(actions)@, final(forwarded)@) == after_key(
                reading_of(*old(self), old(actions)@, old(forwarded)@),
                key(old(self)@.prefix, old(self)@.mode, byte),
                byte,
            ),
            final(self)@.prefix == old(self)@.prefix,
            final(self)@.mouse == old(self)@.mouse,
    {
        let mut mode = Mode::Normal;
        std::mem::swap(&mut mode, &mut self.mode);
        let k = press(self.prefix, mode, byte);
        self.mode = k.mode;
        match k.timer {
            Timer::Keep => {},
            Timer::Stop => {
                self.pending_since = None;
            },
            Timer::Start => {
                self.pending_since = Some(instant_now());
            },
        }
        if k.forwards {
            forwarded.push(byte);
        } else {
            push_forward(actions, forwarded);
            append_actions(actions, k.actions);
        }
    }

    /// Reads bytes from the terminal, together with any held back from before.
    pub fn advance(&mut self, bytes: &[u8]) -> (actions: Vec<Action>)
        ensures
            final(self)@ == advanced(old(self)@, bytes@).0,
            views(actions@) == advanced(old(self)@, bytes@).1,
    {
        let mut actions: Vec<Action> = Vec::new();
        let mut forwarded: Vec<u8> = Vec::new();
        let mut input: Vec<u8> = Vec::new();
        std::mem::swap(&mut input, &mut self.pending_mouse);
        let mut tail = vstd::slice::slice_to_vec(bytes);
        input.append(&mut tail);
        proof {
            assert(views(actions@) =~= Seq::<ActionView>::empty());
        }
        let ghost goal = read(
            self.prefix,
            self.mouse,
            Reading {
                mode: old(self)@.mode,
                timed: old(self)@.timed,
                pending: Seq::empty(),
                forwarded: Seq::empty(),
                actions: Seq::empty(),
            },
            old(self)@.pending + bytes@,
            0,
        );
        let mut offset: usize = 0;
        loop
            invariant_except_break
                self@.pending == Seq::<u8>::empty(),
            invariant
                self@.prefix == old(self)@.prefix,
                self@.mouse == old(self)@.mouse,
                input@ == old(self)@.pending + bytes@,
                offset <= input@.len(),
                read(
                    self@.prefix,
                    self@.mouse,
                    reading_of(*self, actions@, forwarded@),
                    input@,
                    offset as int,
                ) == goal,
            ensures
                self@.prefix == old(self)@.prefix,
                self@.mouse == old(self)@.mouse,
                reading_of(*self, actions@, forwarded@) == goal,
            decreases input.len() - offset,
        {
            if offset >= input.len() {
                break;
            }
            let byte = input[offset];
            let rest = vstd::slice::slice_subrange(input.as_slice(), offset, input.len());
            if self.mouse && byte == 27 {
                match parse_mouse(rest) {
                    MouseParse::Complete(event, length) => {
                        proof {
                            lemma_mouse_report_length(rest@);
                        }
                        push_forward(&mut actions, &mut forwarded);
                        let ghost before = actions@;
                        actions.push(Action::Mouse(event));
                        proof {
                            assert(views(actions@) =~= views(before) + seq![
                                ActionView::Mouse(event),
                            ]);
                        }
                        offset += length;
                        self.pending_since = None;
                        continue ;
                    },
                    MouseParse::Incomplete => {
                        self.pending_mouse = vstd::slice::slice_to_vec(rest);
                        if self.pending_since.is_none() {
                            self.pending_since = Some(instant_now());
                        }
                        break;
                    },
                    MouseParse::Invalid => {},
                }
            }
            let prompt_path = match &self.mode {
                Mode::ViewPrompt(path, _) => Some(path.clone()),
                _ => None,
            };
            if byte == 27 && prompt_path.is_some() {
                match parse_view_prompt(rest) {
                    ViewPromptParse::Complete(direction, length) => {
                        push_forward(&mut actions, &mut forwarded);
                        let action = match direction {
                            Direction::Up => Action::ViewSelect(-1),
                            Direction::Down => Action::ViewSelect(1),
                            Direction::Left => Action::ViewParent,
                            Direction::Right => match prompt_path {
                                Some(path) => Action::OpenViewer(path),
                                None => Action::OpenViewer(Vec::new()),
                            },
                        };
                        let ghost before = actions@;
                        let ghost shown = action@;
                        actions.push(action);
                        proof {
                            assert(views(actions@) =~= views(before) + seq![shown]);
                        }
                        offset += length;
                        self.pending_since = None;
                        continue ;
                    },
                    ViewPromptParse::Incomplete => {
                        self.pending_mouse = vstd::slice::slice_to_vec(rest);
                        if self.pending_since.is_none() {
                            self.pending_since = Some(instant_now());
                        }
                        break;
                    },
                    ViewPromptParse::Invalid => {},
                }
            }
            if byte == 27 && offset + 1 == input.len() && self.waits_for_escape() {
                self.pending_mouse.push(27);
                if self.pending_since.is_none() {
                    self.pending_since = Some(instant_now());
                }
                break;
            }
            self.advance_byte(byte, &mut actions, &mut forwarded);
            offset += 1;
        }
        let viewer_prefix = match self.mode {
            Mode::ViewerPrefix => true,
            _ => false,
        };
        if self.pending_mouse.len() == 0 && !viewer_prefix {
            self.pending_since = None;
        }
        push_forward(&mut actions, &mut forwarded);
        actions
    }

    fn wait_limit(&self) -> (r: u64)
        ensures
            r == wait_millis(self@),
    {
        match self.mode {
            Mode::ViewerPrefix => VIEWER_PREFIX_TIMEOUT_MS,
            _ => if self.pending_mouse.len() > 0 && self.pending_mouse[0] == 27
                && self.waits_for_escape() {
                ESCAPE_SEQUENCE_TIMEOUT_MS
            } else {
                MOUSE_SEQUENCE_TIMEOUT_MS
            },
        }
    }

    /// How much longer held-back input may wait; `None` when nothing waits. The time
    /// is the clock's: it is at most the limit for the mode and the bytes held back.
    pub fn pending_timeout(&self) -> (r: Option<Duration>)
        ensures
            r is Some <==> self@.timed,
            r matches Some(d) ==> duration_nanos(d) <= wait_millis(self@) * 1_000_000,
    {
        match &self.pending_since {
            None => None,
            Some(since) => {
                let limit = duration_from_millis(self.wait_limit());
                let elapsed = instant_elapsed(since);
                Some(duration_saturating_sub(limit, elapsed))
            },
        }
    }

    fn expire(&mut self) -> (actions: Vec<Action>)
        ensures
            (final(self)@, views(actions@)) == expired(old(self)@),
    {
        if let Mode::ViewerPrefix = self.mode {
            self.pending_since = None;
            self.mode = Mode::Viewer(Vec::new());
            return one(Action::ViewerPage(false));
        }
        self.pending_since = None;
        let mut input: Vec<u8> = Vec::new();
        std::mem::swap(&mut input, &mut self.pending_mouse);
        if input.len() == 1 && input[0] == 27 {
            proof {
                assert(input@ =~= seq![27u8]);
            }
            let mut mode = Mode::Normal;
            std::mem::swap(&mut mode, &mut self.mode);
            match mode {
                Mode::Resize(_) => {
                    self.mode = Mode::Normal;
                    return one(status("resize mode ended"));
                },
                Mode::Scroll(_) => {
                    self.mode = Mode::Normal;
                    return one(Action::ExitScrollView);
                },
                Mode::Help(_) => {
                    self.mode = Mode::Normal;
                    return one(Action::ExitHelpView);
                },
                Mode::Search(_) => {
                    self.mode = Mode::Scroll(Vec::new());
                    return one(Action::SearchCancelled);
                },
                Mode::ViewPrompt(_, return_viewer) => {
                    self.mode = if return_viewer {
                        Mode::Viewer(Vec::new())
                    } else {
                        Mode::Normal
                    };
                    return one(Action::ViewCancelled);
                },
                Mode::Viewer(_) | Mode::ViewerG => {
                    self.mode = Mode::Viewer(Vec::new());
                    return none();
                },
                Mode::ViewerSearch(_, _) => {
                    self.mode = Mode::Viewer(Vec::new());
                    return one(Action::ViewerSearchCancelled);
                },
                other => {
                    self.mode = other;
                    return one(Action::Forward(input));
                },
            }
        }
        let mut actions: Vec<Action> = Vec::new();
        let mut forwarded: Vec<u8> = Vec::new();
        proof {
            assert(views(actions@) =~= Seq::<ActionView>::empty());
        }
        let ghost goal = feed(
            self@.prefix,
            Reading {
                mode: old(self)@.mode,
                timed: false,
                pending: Seq::empty(),
                forwarded: Seq::empty(),
                actions: Seq::empty(),
            },
            input@,
            0,
        );
        let mut i: usize = 0;
        while i < input.len()
            invariant
                self@.prefix == old(self)@.prefix,
                self@.mouse == old(self)@.mouse,
                self@.pending == Seq::<u8>::empty(),
                input@ == old(self)@.pending,
                i <= input@.len(),
                feed(self@.prefix, reading_of(*self, actions@, forwarded@), input@, i as int)
                    == goal,
            decreases input.len() - i,
        {
            self.advance_byte(input[i], &mut actions, &mut forwarded);
            i += 1;
        }
        push_forward(&mut actions, &mut forwarded);
        actions
    }

    /// Once held-back input has waited its time, takes it as keys (or a lone escape as
    /// leaving its mode), and ends a pending viewer prefix.
    pub fn flush_pending_mouse(&mut self) -> (actions: Vec<Action>)
        ensures
            !old(self)@.timed ==> final(self)@ == old(self)@ && actions@.len() == 0,
            (final(self)@ == old(self)@ && actions@.len() == 0) || (old(self)@.timed && (
            final(self)@,
            views(actions@),
            ) == expired(old(self)@)),
    {
        let remaining = self.pending_timeout();
        self.flush_after(remaining)
    }

    /// Takes held-back input as keys once `remaining`, what is left of its wait,
    /// has run out; with time left, or nothing held back, nothing changes.
    pub fn flush_after(&mut self, remaining: Option<Duration>) -> (actions: Vec<Action>)
        ensures
            ran_out(old(self)@.timed, remaining) ==> (
            final(self)@,
            views(actions@),
            ) == expired(old(self)@),
            !ran_out(old(self)@.timed, remaining) ==> (final(self)@
                == old(self)@ && actions@.len() == 0),
    {
        let timed = self.pending_since.is_some();
        match remaining {
            Some(timeout) => {
                if timed && duration_is_zero(&timeout) {
                    self.expire()
                } else {
                    Vec::new()
                }
            },
            None => Vec::new(),
        }
    }
}

/// Reading bytes in normal mode, without mouse reports, where none is the prefix
/// key: each is kept to be forwarded, and nothing else changes.
proof fn lemma_plain_read(prefix: u8, r: Reading, input: Seq<u8>, offset: int)
    requires
        r.mode == ModeView::Normal,
        0 <= offset <= input.len(),
        forall|i: int| offset <= i < input.len() ==> input[i] != prefix,
    ensures
        read(prefix, false, r, input, offset) == (Reading {
            forwarded: r.forwarded + input.subrange(offset, input.len() as int),
            ..r
        }),
    decreases input.len() - offset,
{
    if offset == input.len() {
        assert(input.subrange(offset, input.len() as int) =~= Seq::<u8>::empty());
        assert(r.forwarded + Seq::<u8>::empty() =~= r.forwarded);
    } else {
        let byte = input[offset];
        let next = after_key(r, key(prefix, r.mode, byte), byte);
        assert(next == (Reading { forwarded: r.forwarded.push(byte), ..r }));
        lemma_plain_read(prefix, next, input, offset + 1);
        assert(r.forwarded.push(byte) + input.subrange(offset + 1, input.len() as int)
            =~= r.forwarded + input.subrange(offset, input.len() as int));
    }
}

/// In normal mode, without mouse reports and with nothing held back, input that
/// holds no prefix key is forwarded whole as one action, and the state stays.
pub proof fn lemma_plain_input_forwarded(v: InputView, bytes: Seq<u8>)
    requires
        v.mode == ModeView::Normal,
        !v.mouse,
        v.pending.len() == 0,
        forall|i: int| 0 <= i < bytes.len() ==> bytes[i] != v.prefix,
    ensures
        advanced(v, bytes) == (InputView { timed: false, ..v }, flushed(bytes)),
{
    let start = Reading {
        mode: v.mode,
        timed: v.timed,
        pending: Seq::empty(),
        forwarded: Seq::empty(),
        actions: Seq::empty(),
    };
    assert(v.pending =~= Seq::<u8>::empty());
    assert(v.pending + bytes =~= bytes);
    lemma_plain_read(v.prefix, start, bytes, 0);
    assert(Seq::<u8>::empty() + bytes.subrange(0, bytes.len() as int) =~= bytes);
    assert(Seq::<ActionView>::empty() + flushed(bytes) =~= flushed(bytes));
}

/// The bytes that a run of actions forwards to the pane.
pub open spec fn forwarded_bytes(actions: Seq<ActionView>) -> Seq<u8>
    decreases actions.len(),
{
    if actions.len() == 0 {
        Seq::empty()
    } else {
        let rest = forwarded_bytes(actions.drop_last());
        match actions.last() {
            ActionView::Forward(b) => rest + b,
            _ => rest,
        }
    }
}

/// Plain input split across two reads, in normal mode without mouse reports, leaves
/// the same state and forwards the same bytes, in the same order, as one read.
pub proof fn lemma_plain_input_split(v: InputView, a: Seq<u8>, b: Seq<u8>)
    requires
        v.mode == ModeView::Normal,
        !v.mouse,
        v.pending.len() == 0,
        forall|i: int| 0 <= i < a.len() ==> a[i] != v.prefix,
        forall|i: int| 0 <= i < b.len() ==> b[i] != v.prefix,
    ensures
        advanced(advanced(v, a).0, b).0 == advanced(v, a + b).0,
        forwarded_bytes(advanced(v, a).1 + advanced(advanced(v, a).0, b).1)
            == forwarded_bytes(advanced(v, a + b).1),
        forwarded_bytes(advanced(v, a + b).1) == a + b,
{
    lemma_plain_input_forwarded(v, a);
    let w = advanced(v, a).0;
    lemma_plain_input_forwarded(w, b);
    assert forall|i: int| 0 <= i < (a + b).len() implies (a + b)[i] != v.prefix by {
        if i < a.len() {
            assert((a + b)[i] == a[i]);
        } else {
            assert((a + b)[i] == b[i - a.len()]);
        }
    }
    lemma_plain_input_forwarded(v, a + b);
    lemma_forwarded_flushed(a);
    lemma_forwarded_flushed(b);
    lemma_forwarded_flushed(a + b);
    lemma_forwarded_bytes_append(flushed(a), flushed(b));
}

proof fn lemma_forwarded_flushed(bytes: Seq<u8>)
    ensures
        forwarded_bytes(flushed(bytes)) == bytes,
{
    if bytes.len() > 0 {
        let one = seq![ActionView::Forward(bytes)];
        assert(one.drop_last() =~= Seq::<ActionView>::empty());
        assert(forwarded_bytes(one.drop_last()) == Seq::<u8>::empty());
        assert(Seq::<u8>::empty() + bytes =~= bytes);
    } else {
        assert(bytes =~= Seq::<u8>::empty());
    }
}

proof fn lemma_forwarded_bytes_append(x: Seq<ActionView>, y: Seq<ActionView>)
    ensures
        forwarded_bytes(x + y) == forwarded_bytes(x) + forwarded_bytes(y),
    decreases y.len(),
{
    if y.len() == 0 {
        assert(x + y =~= x);
        assert(forwarded_bytes(x) + Seq::<u8>::empty() =~= forwarded_bytes(x));
    } else {
        lemma_forwarded_bytes_append(x, y.drop_last());
        assert((x + y).drop_last() =~= x + y.drop_last());
        assert((x + y).last() == y.last());
        match y.last() {
            ActionView::Forward(b) => {
                assert(forwarded_bytes(x) + forwarded_bytes(y.drop_last()) + b
                    =~= forwarded_bytes(x) + (forwarded_bytes(y.drop_last()) + b));
            },
            _ => {},
        }
    }
}

/// The shortcuts after the prefix key, from normal mode without mouse reports: the
/// prefix again sends the prefix itself to the application; `c` creates a tab; `n`
/// and `p` step to the next and the previous tab; `1` to `9` select tabs one to
/// nine and `0` tab ten; `|` splits into left and right and `-` into top and bottom
/// panes; `x` asks before closing the pane; `d` detaches. Any other key but escape
/// is one action that sends nothing to the application.
pub proof fn lemma_prefix_shortcuts(v: InputView, b: u8)
    requires
        v.mode == ModeView::Normal,
        !v.mouse,
        v.pending.len() == 0,
        b != 27,
    ensures
        ({
            let out = advanced(v, seq![v.prefix, b]).1;
            &&& b == v.prefix ==> out == seq![ActionView::Forward(seq![v.prefix])]
            &&& b != v.prefix ==> {
                &&& out.len() == 1
                &&& !(out[0] is Forward)
                &&& b == 99 ==> out[0] == ActionView::CreateTab
                &&& b == 110 ==> out[0] == ActionView::NextTab
                &&& b == 112 ==> out[0] == ActionView::PreviousTab
                &&& 49 <= b <= 57 ==> out[0] == ActionView::SelectTab((b - 49) as usize)
                &&& b == 48 ==> out[0] == ActionView::SelectTab(9)
                &&& b == 124 ==> out[0] == ActionView::Split(Split::LeftRight)
                &&& b == 45 ==> out[0] == ActionView::Split(Split::TopBottom)
                &&& b == 100 ==> out[0] == ActionView::Detach
                &&& b == 120 ==> advanced(v, seq![v.prefix, b]).0.mode == ModeView::ConfirmClose(false)
            }
        }),
{
    let input = seq![v.prefix, b];
    assert(v.pending =~= Seq::<u8>::empty());
    assert(v.pending + input =~= input);
    let start = Reading {
        mode: v.mode,
        timed: v.timed,
        pending: Seq::empty(),
        forwarded: Seq::empty(),
        actions: Seq::empty(),
    };
    let first = after_key(start, key(v.prefix, start.mode, v.prefix), v.prefix);
    assert(read(v.prefix, false, start, input, 0) == read(v.prefix, false, first, input, 1));
    assert(first.mode == ModeView::Prefix(Seq::empty()));
    assert(first.forwarded.len() == 0 && first.actions.len() == 0);
    let second = after_key(first, key(v.prefix, first.mode, b), b);
    assert(read(v.prefix, false, first, input, 1) == read(v.prefix, false, second, input, 2));
    assert(read(v.prefix, false, second, input, 2) == second);
    assert(seq![b] =~= Seq::<u8>::empty().push(b));
    assert(second.forwarded.len() == 0);
    assert(second.actions + flushed(second.forwarded) =~= second.actions);
}

} // verus!
