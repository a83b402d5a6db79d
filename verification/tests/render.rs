use std::time::{Duration, UNIX_EPOCH};
use termfold::render::clock_key;
use termfold::outer::{select, Capabilities};
use termfold::paint::{border, set_attributes};
use termfold::render::{changes, full, snapshot, View};
use termfold::session::{Session, Size, Split};
use termfold::status::{
    help_max_offset, parse_cpu_sample, parse_memory_usage, parse_temperature, status_segments,
    status_tab_at, text_width, truncate, Metrics, StatusLine,
};
use termfold::terminal::{Attributes, Color, SequenceGuard, State, TerminalError, MAX_CONTROL_SEQUENCE};
use vte::{Params, Parser, Perform};

struct Performer<'a>(&'a mut State);

impl Perform for Performer<'_> {
    fn print(&mut self, character: char) {
        self.0.print(character);
    }

    fn execute(&mut self, byte: u8) {
        self.0.execute(byte);
    }

    fn esc_dispatch(&mut self, intermediates: &[u8], ignore: bool, byte: u8) {
        self.0.esc_dispatch(intermediates, ignore, byte);
    }

    fn csi_dispatch(&mut self, params: &Params, intermediates: &[u8], ignore: bool, action: char) {
        let params: Vec<Vec<u16>> = params.iter().map(|param| param.to_vec()).collect();
        self.0.csi_dispatch(&params, intermediates, ignore, action);
    }
}

struct Terminal {
    parser: Parser<MAX_CONTROL_SEQUENCE>,
    guard: SequenceGuard,
    state: State,
}

impl Terminal {
    fn new(size: Size) -> Result<Self, TerminalError> {
        Ok(Self {
            parser: Parser::default(),
            guard: SequenceGuard::Ground,
            state: State::new(size)?,
        })
    }

    fn advance(&mut self, bytes: &[u8]) {
        for &byte in bytes {
            let overflow = matches!(
                self.guard,
                SequenceGuard::Sequence { length: MAX_CONTROL_SEQUENCE, .. }
            );
            if self.guard.accept(byte) {
                self.parser.advance(&mut Performer(&mut self.state), &[byte]);
            } else if overflow {
                self.parser = Parser::default();
            }
        }
    }
}

const DATE: &str = "2026-07-19";
const TIME: &str = "18:42";

fn capabilities() -> Capabilities {
    select("auto", "xterm-256color", "truecolor").capabilities
}

fn status_line(metrics: &Metrics) -> StatusLine<'_> {
    StatusLine {
        date_format: "%Y-%m-%d",
        time_format: "%H:%M",
        format: "[{session}]  {tabs}{fill}|  {date} {time}",
        label: "",
        metrics,
        foreground: Color::Indexed(0),
        background: Color::Indexed(6),
        label_foreground: Color::Indexed(15),
        label_background: Color::Indexed(1),
        active_foreground: Color::Indexed(0),
        active_background: Color::Indexed(11),
    }
}

#[test]
fn status_keeps_active_then_time_then_session_when_narrow() {
    let metrics = Metrics::default();
    let (segments, width) = status_segments(
        "demo",
        3,
        1,
        "2026-07-19",
        "18:42",
        status_line(&metrics),
        20,
    );
    let text = segments
        .into_iter()
        .map(|segment| segment.text)
        .collect::<String>();
    assert_eq!(width, 20);
    assert_eq!(text, "[2:shell]  18:42  [d");
}

#[test]
fn status_removes_furthest_inactive_tabs_first() {
    let metrics = Metrics::default();
    let (segments, _) =
        status_segments("s", 5, 2, "2026-07-19", "18:42", status_line(&metrics), 49);
    let text = segments
        .into_iter()
        .map(|segment| segment.text)
        .collect::<String>();
    assert!(text.contains("< "), "{text}");
    assert!(text.contains("[3:shell]"), "{text}");
    assert!(text.contains(" >"), "{text}");
    assert!(!text.contains("1:shell"));
    assert!(!text.contains("5:shell"));
}

#[test]
fn status_fills_to_right_align_unicode_and_samples_linux_metrics() {
    let mut metrics = Metrics::default();
    metrics.record_cpu_sample((100, 40));
    metrics.record_cpu_sample((200, 70));
    assert_eq!(metrics.cpu_usage(), "70");
    assert_eq!(
        parse_memory_usage("MemTotal: 1000 kB\nMemAvailable: 250 kB\n"),
        Some(75)
    );

    let line = StatusLine {
        format: "[{session}] {tabs} │ {label}{fill}CPU {cpu_usage}% {date} {time}",
        label: "PROD",
        ..status_line(&metrics)
    };
    let (segments, width) = status_segments("s", 1, 0, "2026-07-25", "18:42", line, 60);
    let text = segments
        .into_iter()
        .map(|segment| segment.text)
        .collect::<String>();
    assert_eq!(width, 60);
    assert_eq!(text_width(&text), 60);
    assert!(text.ends_with("CPU 70% 2026-07-25 18:42"), "{text}");
}

#[test]
fn status_tab_hit_testing_matches_rendered_tabs() {
    let metrics = Metrics::default();
    let mut session = Session::new("s".into());
    session.create_tab().unwrap();
    let size = Size {
        columns: 80,
        rows: 24,
    };
    assert_eq!(
        status_tab_at(&session, size, status_line(&metrics), None, 5, DATE, TIME),
        Some(0)
    );
    assert_eq!(
        status_tab_at(&session, size, status_line(&metrics), None, 14, DATE, TIME),
        Some(1)
    );
}

#[test]
fn pane_border_uses_box_drawing_with_ascii_fallback() {
    let mut session = Session::new("s".into());
    session
        .split_active(
            Split::LeftRight,
            Size {
                columns: 5,
                rows: 2,
            },
        )
        .unwrap();
    let active = session.active_pane();
    let rects = session.pane_rects(Size {
        columns: 5,
        rows: 2,
    });
    assert_eq!(border(&rects, active, 2, 0, true), '┃');
    assert_eq!(border(&rects, None, 2, 0, true), '│');
    assert_eq!(border(&rects, active, 2, 0, false), '#');
    assert_eq!(border(&rects, None, 2, 0, false), '|');
}

#[test]
fn full_render_includes_pane_content_and_status() {
    let metrics = Metrics::default();
    let session = Session::new("s".into());
    let pane = session.active_pane().unwrap();
    let mut terminal = Terminal::new(Size {
        columns: 40,
        rows: 2,
    })
    .unwrap();
    terminal.advance(b"hello");
    let output = full(
        &session,
        &[(pane, &terminal.state)],
        Size {
            columns: 40,
            rows: 3,
        },
        status_line(&metrics),
        None,
        View::Live,
        capabilities(),
        DATE,
        TIME,
    );
    let output = String::from_utf8_lossy(&output);
    assert!(output.contains("hello"));
    assert!(output.contains("[s]"));
    assert!(output.contains("[1:shell]"));
}

#[test]
fn help_uses_the_configured_prefix_and_pages() {
    let metrics = Metrics::default();
    let session = Session::new("s".into());
    let output = full(
        &session,
        &[],
        Size {
            columns: 80,
            rows: 8,
        },
        status_line(&metrics),
        Some("HELP 1/3  Up/Down j/k PgUp/PgDn q/Esc"),
        View::Help {
            offset: 0,
            prefix: 1,
        },
        capabilities(),
        DATE,
        TIME,
    );
    let output = String::from_utf8_lossy(&output);
    assert!(output.contains("Ctrl-a c"));
    assert!(output.contains("= Create tab"));
    assert!(output.contains("HELP 1/3"));
    assert!(help_max_offset(8, 1) > 0);
}

#[test]
fn content_change_updates_its_cell_without_clearing() {
    let session = Session::new("s".into());
    let pane = session.active_pane().unwrap();
    let mut terminal = Terminal::new(Size {
        columns: 10,
        rows: 2,
    })
    .unwrap();
    let previous = snapshot(&[(pane, &terminal.state)]);
    terminal.advance(b"\x1b[2;3HX");

    let output = changes(
        &session,
        &[(pane, &terminal.state)],
        Size {
            columns: 10,
            rows: 3,
        },
        &previous,
        capabilities(),
    );

    assert!(!output.windows(4).any(|bytes| bytes == b"\x1b[2J"));
    assert!(output.windows(6).any(|bytes| bytes == b"\x1b[2;3H"));
    assert!(output.contains(&b'X'));
}

#[test]
fn multiline_output_restores_the_application_cursor() {
    let session = Session::new("s".into());
    let pane = session.active_pane().unwrap();
    let mut terminal = Terminal::new(Size {
        columns: 20,
        rows: 4,
    })
    .unwrap();
    let previous = snapshot(&[(pane, &terminal.state)]);
    terminal.advance(b"$ command\r\nresult\r\n$ ");

    let output = changes(
        &session,
        &[(pane, &terminal.state)],
        Size {
            columns: 20,
            rows: 5,
        },
        &previous,
        capabilities(),
    );

    assert!(output.ends_with(b"\x1b[3;3H\x1b[?25h"));
}

#[test]
fn colors_and_attributes_downgrade_without_extended_sequences() {
    let mut output = Vec::new();
    let mut current = None;
    let capabilities = select("linux", "xterm-256color", "truecolor").capabilities;
    set_attributes(
        &mut output,
        &mut current,
        Attributes {
            foreground: Color::Rgb(255, 0, 0),
            italic: true,
            ..Attributes::default()
        },
        capabilities,
    );
    let output = String::from_utf8(output).unwrap();
    assert!(output.contains(";91m"), "{output:?}");
    assert!(!output.contains(";3;"), "{output:?}");
    assert!(!output.contains(";2;"), "{output:?}");
}

#[test]
fn status_status_line_draws_message_and_restores_cursor() {
    let metrics = Metrics::default();
    let session = Session::new("s".into());
    let output = termfold::render::status(
        &session,
        Size {
            columns: 30,
            rows: 5,
        },
        status_line(&metrics),
        Some("saved"),
        true,
        capabilities(),
        DATE,
        TIME,
    );
    let output = String::from_utf8(output).unwrap();
    assert!(output.starts_with("\x1b7\x1b[5;1H"), "{output:?}");
    assert!(output.contains("[1:shell]"));
    assert!(output.contains("  [s]"));
    assert!(output.contains("  saved"));
    assert!(output.ends_with("\x1b[0m\x1b8"), "{output:?}");
}

#[test]
fn truncation_keeps_whole_characters_that_fit() {
    assert_eq!(truncate("a界b", 2), "a");
    assert_eq!(truncate("a界b", 3), "a界");
    assert_eq!(truncate("abc", 0), "");
}

#[test]
fn processor_samples_and_sensor_readings_parse() {
    assert_eq!(
        parse_cpu_sample("cpu  10 0 5 80 5 0 0\ncpu0 1 2 3\n"),
        Some((100, 85))
    );
    assert_eq!(parse_cpu_sample("intr 1 2\n"), None);
    assert_eq!(parse_cpu_sample("cpu 1 x 3\n"), None);
    assert_eq!(parse_cpu_sample(""), None);
    assert_eq!(parse_memory_usage("MemTotal 1000 kB\n"), None);
    assert_eq!(parse_memory_usage("MemTotal: 0 kB\nMemAvailable: 0 kB\n"), None);
    assert_eq!(parse_temperature(" 42000\n"), Some(42000));
    assert_eq!(parse_temperature("-5"), Some(-5));
    assert_eq!(parse_temperature("warm"), None);
    let mut metrics = Metrics::default();
    metrics.refresh(None, Some(40), Some(42500));
    assert_eq!(metrics.memory_usage(), "40");
    assert_eq!(metrics.cpu_temperature(), "42C");
    assert_eq!(metrics.cpu_usage(), "-");
    metrics.refresh(None, None, Some(-1500));
    assert_eq!(metrics.cpu_temperature(), "-1C");
}

#[test]
fn the_clock_key_counts_seconds_or_minutes_since_the_epoch() {
    let moment = UNIX_EPOCH + Duration::from_secs(125);
    assert_eq!(clock_key(moment, true), 125);
    assert_eq!(clock_key(moment, false), 2);
    assert_eq!(clock_key(UNIX_EPOCH - Duration::from_secs(5), true), 0);
    assert_ne!(
        clock_key(moment, false),
        clock_key(moment + Duration::from_secs(60), false)
    );
    assert_eq!(
        clock_key(moment, false),
        clock_key(moment + Duration::from_secs(30), false)
    );
}
