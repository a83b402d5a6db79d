use termfold::server::PendingInput;
use termfold::session::Size;
use termfold::terminal::{
    Cell, Color, GuardStep, MouseMode, SequenceGuard, State, TerminalError, MAX_CONTROL_SEQUENCE,
};
use vte::{Params, Parser, Perform};

struct Performer<'a>(&'a mut State);

impl Perform for Performer<'_> {
    fn print(&mut self, character: char) {
        self.0.print(character);
    }

    fn execute(&mut self, byte: u8) {
        self.0.execute(byte);
    }

    fn esc_dispatch(&mut self, intermediates: &[u8], ignore: bool, byte: u8) {
        self.0.esc_dispatch(intermediates, ignore, byte);
    }

    fn csi_dispatch(&mut self, params: &Params, intermediates: &[u8], ignore: bool, action: char) {
        let params: Vec<Vec<u16>> = params.iter().map(|param| param.to_vec()).collect();
        self.0.csi_dispatch(&params, intermediates, ignore, action);
    }
}

struct Terminal {
    parser: Parser<MAX_CONTROL_SEQUENCE>,
    guard: SequenceGuard,
    state: State,
}

impl Terminal {
    fn new(size: Size) -> Result<Self, TerminalError> {
        Ok(Self {
            parser: Parser::default(),
            guard: SequenceGuard::Ground,
            state: State::new(size)?,
        })
    }

    fn advance(&mut self, bytes: &[u8]) {
        for &byte in bytes {
            let overflow = matches!(
                self.guard,
                SequenceGuard::Sequence { length: MAX_CONTROL_SEQUENCE, .. }
            );
            if self.guard.accept(byte) {
                self.parser.advance(&mut Performer(&mut self.state), &[byte]);
            } else if overflow {
                self.parser = Parser::default();
            }
        }
    }
}

fn terminal(columns: u16, rows: u16) -> Terminal {
    Terminal::new(Size { columns, rows }).unwrap()
}

fn line(terminal: &Terminal, row: usize) -> String {
    terminal.state.screen().rows()[row]
        .iter()
        .filter(|cell| !cell.is_continuation())
        .map(Cell::character)
        .collect()
}

#[test]
fn parses_text_width_cursor_editing_and_scrolling() {
    let mut terminal = terminal(5, 2);
    terminal.advance("a界\u{301}bcdef".as_bytes());
    assert_eq!(line(&terminal, 0), "a界bc");
    assert_eq!(line(&terminal, 1), "def  ");
    assert_eq!(terminal.state.screen().rows()[0][1].combining(), "\u{301}");

    terminal.advance(b"\x1b[2;1H\x1b[2@XY\x1b[1P");
    assert_eq!(line(&terminal, 1), "XYef ");
    terminal.advance(b"\r\nnext\r\nlast");
    assert_eq!(line(&terminal, 0), "next ");
    assert_eq!(line(&terminal, 1), "last ");
}

#[test]
fn tracks_sgr_buffers_and_input_modes() {
    let mut terminal = terminal(8, 2);
    terminal.advance(b"\x1b[1;38;5;42;48;2;1;2;3mX\x1b[?1;1002;1006;2004h");
    let attributes = terminal.state.screen().rows()[0][0].attributes();
    assert!(attributes.bold);
    assert_eq!(attributes.foreground, Color::Indexed(42));
    assert_eq!(attributes.background, Color::Rgb(1, 2, 3));
    assert_eq!(terminal.state.modes().mouse, MouseMode::Drag);
    assert!(terminal.state.modes().application_cursor_keys);
    assert!(terminal.state.modes().sgr_mouse);
    assert!(terminal.state.modes().bracketed_paste);

    terminal.advance(b"\x1b[38:2::4:5:6mY");
    assert_eq!(
        terminal.state.screen().rows()[0][1].attributes().foreground,
        Color::Rgb(4, 5, 6)
    );

    terminal.advance(b"\x1b[?1049hALT\x1b[?1049l");
    assert!(!terminal.state.in_alternate_screen());
    assert_eq!(line(&terminal, 0), "XY      ");
}

#[test]
fn bounds_sizes_sequences_and_ignores_osc_52() {
    assert_eq!(
        Terminal::new(Size {
            columns: u16::MAX,
            rows: u16::MAX,
        })
        .err(),
        Some(TerminalError::ScreenTooLarge)
    );

    let mut terminal = terminal(8, 1);
    let mut oversized = b"\x1b]52;c;".to_vec();
    oversized.extend(std::iter::repeat_n(b'x', MAX_CONTROL_SEQUENCE));
    oversized.extend_from_slice(b"\x07safe");
    terminal.advance(&oversized);
    assert_eq!(line(&terminal, 0), "safe    ");

    let mut oversized_csi = b"\x1b[".to_vec();
    oversized_csi.extend(std::iter::repeat_n(b'1', MAX_CONTROL_SEQUENCE - 2));
    oversized_csi.extend_from_slice(b"mOK");
    terminal.advance(&oversized_csi);
    assert_eq!(line(&terminal, 0), "safeOK  ");
}

#[test]
fn emits_standard_terminal_reports_and_resizes_without_reflow() {
    let mut terminal = terminal(4, 2);
    terminal.advance(b"abc\x1b[6n\x1b[c");
    assert_eq!(terminal.state.take_responses(), b"\x1b[1;4R\x1b[?1;2c");
    terminal
        .state
        .resize(Size {
            columns: 3,
            rows: 3,
        })
        .unwrap();
    assert_eq!(line(&terminal, 0), "abc");
    assert_eq!(line(&terminal, 2), "   ");
}

#[test]
fn tab_stops_erasure_and_scrolling_regions() {
    let mut terminal = terminal(20, 4);
    terminal.advance(b"a\tb\x1b[3g");
    assert_eq!(terminal.state.screen().cursor().column, 9);
    terminal.advance(b"\r\tc");
    assert_eq!(terminal.state.screen().cursor().column, 19);
    terminal.advance(b"\x1b[1;1H1234567890\x1b[1;4H\x1b[K");
    assert_eq!(line(&terminal, 0), "123                 ");
    terminal.advance(b"\x1b[2;3r\x1b[2;1Hrow2\x1b[3;1Hrow3\x1b[S");
    assert_eq!(line(&terminal, 1).trim_end(), "row3");
    assert_eq!(line(&terminal, 2).trim_end(), "");
    terminal.advance(b"\x1b[5n");
    assert_eq!(terminal.state.take_responses(), b"\x1b[0n");
    terminal.advance(b"\x1b[2J");
    assert_eq!(line(&terminal, 0).trim_end(), "");
    assert_eq!(
        termfold::terminal::TerminalError::InvalidSize.message(),
        "terminal dimensions must be non-zero"
    );
}

#[test]
fn wide_characters_and_origin_reports_are_checked_before_dispatch() {
    let narrow = State::new(Size { columns: 1, rows: 2 }).unwrap();
    assert!(!narrow.can_print('界'));
    assert!(narrow.can_print('a'));
    let wide = State::new(Size { columns: 4, rows: 2 }).unwrap();
    assert!(wide.can_print('界'));
    assert!(wide.can_dispatch(&[vec![6]], b"?", false, 'n'));
    assert!(!wide.can_dispatch(&[vec![]], b"", false, 'm'));
}

#[test]
fn guard_feeds_holds_and_resets_overlong_sequences() {
    let mut guard = SequenceGuard::Ground;
    assert_eq!(guard.step(b'a'), GuardStep::Feed);
    assert_eq!(guard.step(0x1b), GuardStep::Feed);
    assert_eq!(guard.step(b']'), GuardStep::Feed);
    for _ in 2..MAX_CONTROL_SEQUENCE {
        assert_eq!(guard.step(b'x'), GuardStep::Feed);
    }
    assert_eq!(guard.step(b'x'), GuardStep::Reset);
    assert_eq!(guard.step(b'x'), GuardStep::Hold);
    assert_eq!(guard.step(0x07), GuardStep::Hold);
    assert_eq!(guard.step(b'b'), GuardStep::Feed);
}

#[test]
fn terminal_protocol_responses_use_the_pane_input_queue() {
    let mut terminal = terminal(80, 24);
    terminal.advance(b"\x1b[6n\x1b[c");

    let mut pending = PendingInput::new();
    pending.push(terminal.state.take_responses());
    let mut output = Vec::new();
    pending.flush(&mut output);

    assert_eq!(output, b"\x1b[1;1R\x1b[?1;2c");
    assert!(pending.is_empty());
}
