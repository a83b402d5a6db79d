use std::time::{Duration, Instant};

use termfold::input::{Action, Input, MouseEvent};
use termfold::session::{Direction, Split};

const VIEWER_PREFIX_TIMEOUT: Duration = Duration::from_millis(250);
const ESCAPE_SEQUENCE_TIMEOUT: Duration = Duration::from_millis(100);

#[test]
fn parses_forwarding_commands_and_prompts_across_reads() {
    let mut input = Input::new(2, false);
    assert_eq!(
        input.advance(b"abc"),
        vec![Action::Forward(b"abc".to_vec())]
    );
    assert!(input.advance(b"\x02\x1b[").is_empty());
    assert_eq!(
        input.advance(b"D\x02\x1b[1;5C"),
        vec![
            Action::Focus(Direction::Left),
            Action::Resize(Direction::Right)
        ]
    );
    assert_eq!(
        input.advance(b"\x02x"),
        vec![Action::Status("close pane? (y/n)".into())]
    );
    assert_eq!(input.advance(b"y"), vec![Action::ClosePane]);
    assert_eq!(
        input.advance(b"\x02Slog.txt\r"),
        vec![
            Action::Status("save scrollback file: ".into()),
            Action::Status("save scrollback file: l".into()),
            Action::Status("save scrollback file: lo".into()),
            Action::Status("save scrollback file: log".into()),
            Action::Status("save scrollback file: log.".into()),
            Action::Status("save scrollback file: log.t".into()),
            Action::Status("save scrollback file: log.tx".into()),
            Action::Status("save scrollback file: log.txt".into()),
            Action::SaveScrollback("log.txt".into()),
        ]
    );
}

#[test]
fn maps_every_single_byte_prefix_command() {
    for (bytes, action) in [
        (&b"\x02\x02"[..], Action::Forward(vec![2])),
        (b"\x02c", Action::CreateTab),
        (b"\x02n", Action::NextTab),
        (b"\x02p", Action::PreviousTab),
        (b"\x021", Action::SelectTab(0)),
        (b"\x020", Action::SelectTab(9)),
        (b"\x02|", Action::Split(Split::LeftRight)),
        (b"\x02-", Action::Split(Split::TopBottom)),
        (b"\x02d", Action::Detach),
        (b"\x02C", Action::ClearScrollback),
        (b"\x02[", Action::ScrollView),
        (b"\x02v", Action::ViewPrompt(false)),
        (b"\x02V", Action::ViewPrompt(false)),
    ] {
        let mut input = Input::new(2, false);
        assert_eq!(input.advance(bytes), vec![action]);
    }
    let mut input = Input::new(2, false);
    assert_eq!(input.advance(b"\x02["), vec![Action::ScrollView]);
    assert_eq!(input.advance(b"q"), vec![Action::ExitScrollView]);
    assert_eq!(input.advance(b"\x02?"), vec![Action::HelpView]);
    assert_eq!(input.advance(b"q"), vec![Action::ExitHelpView]);
    assert_eq!(
        input.advance(b"\x02xN"),
        vec![
            Action::Status("close pane? (y/n)".into()),
            Action::Status("close cancelled".into())
        ]
    );
    assert_eq!(
        input.advance(b"\x02Signored\x1b"),
        vec![
            Action::Status("save scrollback file: ".into()),
            Action::Status("save scrollback file: i".into()),
            Action::Status("save scrollback file: ig".into()),
            Action::Status("save scrollback file: ign".into()),
            Action::Status("save scrollback file: igno".into()),
            Action::Status("save scrollback file: ignor".into()),
            Action::Status("save scrollback file: ignore".into()),
            Action::Status("save scrollback file: ignored".into()),
            Action::Status("scrollback export cancelled".into()),
        ]
    );
}

#[test]
fn viewer_prompt_and_navigation_are_consumed() {
    let mut input = Input::new(2, false);
    assert_eq!(input.advance(b"\x02v"), vec![Action::ViewPrompt(false)]);
    assert!(input.advance(b"\x1b").is_empty());
    assert_eq!(
        input.advance(b"[A\x1b[B\x1b[C\x1b[D\x0e\x10"),
        vec![
            Action::ViewSelect(-1),
            Action::ViewSelect(1),
            Action::OpenViewer(Vec::new()),
            Action::ViewParent,
            Action::ViewSelect(1),
            Action::ViewSelect(-1),
        ]
    );
    assert_eq!(
        input.advance(b"log"),
        vec![
            Action::ViewQuery(b"l".to_vec()),
            Action::ViewQuery(b"lo".to_vec()),
            Action::ViewQuery(b"log".to_vec()),
        ]
    );
    assert_eq!(
        input.advance(b"\t"),
        vec![Action::ViewComplete(b"log".to_vec())]
    );
    assert_eq!(
        input.advance(b"\\"),
        vec![Action::ViewDirectory {
            query: b"log".to_vec(),
            separator: b'\\',
        }]
    );
    assert_eq!(
        input.advance(b"\r"),
        vec![Action::OpenViewer(b"log".to_vec())]
    );
    input.enter_viewer();
    assert_eq!(
        input.advance(b"jkG/q"),
        vec![
            Action::ViewerScroll(1),
            Action::ViewerScroll(-1),
            Action::ViewerBottom,
            Action::ViewerSearchPrompt(true),
            Action::ViewerSearchQuery(b"q".to_vec(), true),
            Action::Status("/q".into()),
        ]
    );
    assert_eq!(
        input.advance(b"\r"),
        vec![Action::ViewerSearch(b"q".to_vec(), true)]
    );
}

#[test]
fn viewer_uses_vim_navigation_and_prefix_kill() {
    let mut input = Input::new(2, false);
    input.enter_viewer();
    assert_eq!(
        input.advance(b"0$G"),
        vec![
            Action::ViewerLineStart,
            Action::ViewerLineEnd,
            Action::ViewerBottom,
        ]
    );
    assert!(input.advance(b"g").is_empty());
    assert_eq!(input.advance(b"g"), vec![Action::ViewerTop]);
    assert_eq!(
        input.advance(b"\x15\x04\x06\x05\x19"),
        vec![
            Action::ViewerHalfPage(false),
            Action::ViewerHalfPage(true),
            Action::ViewerPage(true),
            Action::ViewerViewport(1),
            Action::ViewerViewport(-1),
        ]
    );
    assert_eq!(
        input.advance(b"\x1b[H\x1b[F\x1b[1;5H\x1b[1;5F"),
        vec![
            Action::ViewerLineStart,
            Action::ViewerLineEnd,
            Action::ViewerTop,
            Action::ViewerBottom,
        ]
    );
    assert!(input.advance(b"\x02").is_empty());
    input.pending_since = Some(Instant::now() - VIEWER_PREFIX_TIMEOUT);
    assert_eq!(input.flush_pending_mouse(), vec![Action::ViewerPage(false)]);
    assert_eq!(
        input.advance(b"\x02x"),
        vec![Action::Status("close viewer tab? (y/n)".into())]
    );
    assert_eq!(
        input.advance(b"n"),
        vec![Action::Status("close cancelled".into())]
    );
    assert!(matches!(
        input.advance(b"q").as_slice(),
        [Action::Status(_)]
    ));
    assert!(input.advance(b"\x1b").is_empty());
    input.pending_since = Some(Instant::now() - ESCAPE_SEQUENCE_TIMEOUT);
    assert!(input.flush_pending_mouse().is_empty());
    assert_eq!(input.advance(b"\x02v"), vec![Action::ViewPrompt(true)]);
    assert_eq!(input.advance(b"\x03"), vec![Action::ViewCancelled]);
    assert_eq!(input.advance(b"\x02V"), vec![Action::ViewPrompt(true)]);
    assert_eq!(input.advance(b"\x03"), vec![Action::ViewCancelled]);
    assert_eq!(input.advance(b"j"), vec![Action::ViewerScroll(1)]);
}

#[test]
fn scroll_view_consumes_navigation_until_exit() {
    let mut input = Input::new(2, false);
    assert_eq!(input.advance(b"\x02["), vec![Action::ScrollView]);
    assert!(input.advance(b"\x1b").is_empty());
    input.pending_since = Some(Instant::now() - Duration::from_millis(50));
    assert!(input.flush_pending_mouse().is_empty());
    assert_eq!(
        input.advance(b"OA\x1b[Ajk"),
        vec![
            Action::Scroll(1),
            Action::Scroll(1),
            Action::Scroll(-1),
            Action::Scroll(1),
        ]
    );
    assert!(input.advance(b"\x1b").is_empty());
    assert_eq!(input.advance(b"[5~"), vec![Action::Scroll(i32::MAX)]);
    assert!(input.advance(b"\x1b").is_empty());
    assert_eq!(
        input.advance(b"[6~gG/error\rnN"),
        vec![
            Action::Scroll(i32::MIN),
            Action::ScrollTop,
            Action::ScrollBottom,
            Action::Status("/".into()),
            Action::Status("/e".into()),
            Action::Status("/er".into()),
            Action::Status("/err".into()),
            Action::Status("/erro".into()),
            Action::Status("/error".into()),
            Action::Search("error".into()),
            Action::SearchNext(true),
            Action::SearchNext(false),
        ]
    );
    assert!(input.advance(b"\x1b").is_empty());
    input.pending_since = Some(Instant::now() - ESCAPE_SEQUENCE_TIMEOUT);
    assert_eq!(input.flush_pending_mouse(), vec![Action::ExitScrollView]);
    assert_eq!(input.advance(b"x"), vec![Action::Forward(b"x".to_vec())]);
}

#[test]
fn help_view_pages_and_escape_exits() {
    let mut input = Input::new(2, false);
    assert_eq!(input.advance(b"\x02?"), vec![Action::HelpView]);
    assert_eq!(
        input.advance(b"j\x1b[5~"),
        vec![Action::HelpScroll(1), Action::HelpScroll(i32::MIN)]
    );
    assert!(input.advance(b"\x1b").is_empty());
    input.pending_since = Some(Instant::now() - ESCAPE_SEQUENCE_TIMEOUT);
    assert_eq!(input.flush_pending_mouse(), vec![Action::ExitHelpView]);
}

#[test]
fn resize_mode_repeats_until_escape() {
    let mut input = Input::new(2, false);
    assert_eq!(
        input.advance(b"\x02r"),
        vec![Action::Status(
            "resize mode: arrows resize, Esc exits".into()
        )]
    );
    assert_eq!(
        input.advance(b"\x1b[C\x1b[A"),
        vec![
            Action::Resize(Direction::Right),
            Action::Status("resize mode: arrows resize, Esc exits".into()),
            Action::Resize(Direction::Up),
            Action::Status("resize mode: arrows resize, Esc exits".into()),
        ]
    );
    assert!(input.advance(b"\x1b").is_empty());
    input.pending_since = Some(Instant::now() - ESCAPE_SEQUENCE_TIMEOUT);
    assert_eq!(
        input.flush_pending_mouse(),
        vec![Action::Status("resize mode ended".into())]
    );
    assert_eq!(input.advance(b"x"), vec![Action::Forward(b"x".to_vec())]);
}

#[test]
fn application_cursor_arrows_drive_termfold_modes() {
    let mut input = Input::new(2, false);
    assert_eq!(
        input.advance(b"\x02\x1bOA"),
        vec![Action::Focus(Direction::Up)]
    );
    assert_eq!(
        input.advance(b"\x02r"),
        vec![Action::Status(
            "resize mode: arrows resize, Esc exits".into()
        )]
    );
    assert_eq!(
        input.advance(b"\x1bOD"),
        vec![
            Action::Resize(Direction::Left),
            Action::Status("resize mode: arrows resize, Esc exits".into())
        ]
    );
}

#[test]
fn parses_bounded_sgr_mouse_across_reads() {
    let mut input = Input::new(2, true);
    assert!(input.advance(b"\x1b[<0;12").is_empty());
    assert_eq!(
        input.advance(b";7M"),
        vec![Action::Mouse(MouseEvent {
            code: 0,
            x: 11,
            y: 6,
            release: false,
        })]
    );
    assert_eq!(
        input.advance(b"\x1b[<64;2;3M"),
        vec![Action::Mouse(MouseEvent {
            code: 64,
            x: 1,
            y: 2,
            release: false,
        })]
    );
    assert_eq!(
        input.advance(b"\x1b[A"),
        vec![Action::Forward(b"\x1b[A".to_vec())]
    );
    assert_eq!(
        Input::new(2, false).advance(b"\x1b[<0;12;7M"),
        vec![Action::Forward(b"\x1b[<0;12;7M".to_vec())]
    );
}

#[test]
fn held_back_input_flushes_only_when_its_wait_runs_out() {
    let mut input = Input::new(2, false);
    assert_eq!(input.advance(b"\x02?"), vec![Action::HelpView]);
    assert!(input.advance(b"\x1b").is_empty());
    assert!(input.flush_after(Some(Duration::from_millis(5))).is_empty());
    assert!(input.flush_after(None).is_empty());
    assert_eq!(input.flush_after(Some(Duration::ZERO)), vec![Action::ExitHelpView]);
    assert!(input.flush_after(Some(Duration::ZERO)).is_empty());
}

#[test]
fn plain_input_is_forwarded_whole_however_it_is_split() {
    let mut whole = Input::new(2, false);
    assert_eq!(whole.advance(b"abc\x1b[A"), vec![Action::Forward(b"abc\x1b[A".to_vec())]);
    let mut split = Input::new(2, false);
    assert_eq!(split.advance(b"ab"), vec![Action::Forward(b"ab".to_vec())]);
    assert_eq!(split.advance(b"c\x1b[A"), vec![Action::Forward(b"c\x1b[A".to_vec())]);
    assert!(split.pending_timeout().is_none());
    assert!(split.advance(b"").is_empty());
}
