use std::path::PathBuf;
use std::time::Duration;

use termfold::input::{Action, MouseEvent};
use termfold::server::{
    complete_viewer_entry_among, select_viewer_entry_among, ViewerEntry,
    encode_mouse, forwards_mouse, new_viewer_search_state, prompt_drive_root, prompt_root,
    resize_border, scroll_status_message, selected_viewer_entry, viewer_wrap_status,
    PendingViewerSearch, ViewerGate, ViewerGateDecision, ViewerIntent, ViewerNavigation,
    ViewerPrompt, LISTENER_POLL_DELAY_MS, attach_capabilities, moved, mouse_step, view_after,
    ClientView, MouseEffect, MouseState, event_timeout, pane_size, rects_fit, render_view,
    status_line, viewer_prompt_status, prompt_entries, frame_for, Frame, prompt_directory,
    prompt_open_target,
};
use termfold::config::Config;
use termfold::render::View;
use termfold::session::PaneId;
use termfold::status::{Metrics, StatusLine};
use termfold::terminal::Color;
use termfold::session::{Rect, Session, Size, Split};
use termfold::terminal::MouseMode;
use termfold::viewer::{RepeatDirection, SearchDirection, SearchMode};

#[test]
fn viewer_ready_keeps_the_existing_idle_poll_delay() {
    assert_eq!(
        Duration::from_millis(LISTENER_POLL_DELAY_MS),
        Duration::from_millis(50)
    );
}

#[test]
fn repeat_search_completion_has_no_new_recorded_state() {
    let new_search = PendingViewerSearch::New {
        client_id: 7,
        query: b"foo".to_vec(),
        mode: SearchMode::Matching,
        direction: SearchDirection::Forward,
    };
    assert_eq!(
        new_viewer_search_state(&new_search),
        Some((7, SearchMode::Matching, SearchDirection::Forward))
    );

    let repeat = PendingViewerSearch::Repeat {
        client_id: 7,
        relation: RepeatDirection::Opposite,
    };
    assert_eq!(new_viewer_search_state(&repeat), None);
}

#[test]
fn viewer_wrap_status_names_the_boundary_and_direction() {
    assert_eq!(
        viewer_wrap_status(SearchDirection::Forward),
        "search hit BOTTOM, continuing at TOP"
    );
    assert_eq!(
        viewer_wrap_status(SearchDirection::Reverse),
        "search hit TOP, continuing at BOTTOM"
    );
}

#[test]
fn viewer_gate_drops_held_page_repeats() {
    let intent = ViewerIntent::Page {
        rows: 8,
        forward: true,
    };
    let mut gate = ViewerGate::default();
    assert!(matches!(
        gate.accept(ViewerNavigation {
            intent,
            client_id: 1
        }),
        ViewerGateDecision::Dispatch(_)
    ));
    gate.begin(intent);

    for _ in 0..1_000 {
        assert!(matches!(
            gate.accept(ViewerNavigation {
                intent,
                client_id: 1
            }),
            ViewerGateDecision::Dropped
        ));
    }
    assert!(gate.replacement.is_none());
}

#[test]
fn viewer_gate_handles_horizontal_repeats_and_reversals() {
    let left = ViewerIntent::Horizontal(-1);
    let right = ViewerIntent::Horizontal(1);
    let mut gate = ViewerGate::default();
    gate.begin(left);

    for _ in 0..1_000 {
        assert!(matches!(
            gate.accept(ViewerNavigation {
                intent: left,
                client_id: 1,
            }),
            ViewerGateDecision::Dropped
        ));
    }
    assert!(matches!(
        gate.accept(ViewerNavigation {
            intent: right,
            client_id: 1,
        }),
        ViewerGateDecision::Replaced
    ));
    assert_eq!(
        gate.finish(),
        Some(ViewerNavigation {
            intent: right,
            client_id: 1,
        })
    );
}

#[test]
fn viewer_gate_stops_after_the_current_frame() {
    let intent = ViewerIntent::Page {
        rows: 8,
        forward: true,
    };
    let mut gate = ViewerGate::default();
    gate.begin(intent);

    assert!(gate.finish().is_none());
    assert!(!gate.in_flight);
    assert!(gate.replacement.is_none());
}

#[test]
fn viewer_gate_keeps_one_direction_reversal() {
    let down = ViewerIntent::Page {
        rows: 8,
        forward: true,
    };
    let up = ViewerIntent::Page {
        rows: 8,
        forward: false,
    };
    let mut gate = ViewerGate::default();
    gate.begin(down);

    assert!(matches!(
        gate.accept(ViewerNavigation {
            intent: up,
            client_id: 2
        }),
        ViewerGateDecision::Replaced
    ));
    assert_eq!(
        gate.replacement,
        Some(ViewerNavigation {
            intent: up,
            client_id: 2
        })
    );
    assert!(matches!(
        gate.accept(ViewerNavigation {
            intent: up,
            client_id: 3
        }),
        ViewerGateDecision::Dropped
    ));
}

#[test]
fn viewer_gate_latest_changed_intent_wins() {
    let down = ViewerIntent::Page {
        rows: 8,
        forward: true,
    };
    let up = ViewerIntent::Page {
        rows: 8,
        forward: false,
    };
    let mut gate = ViewerGate::default();
    gate.begin(down);
    gate.accept(ViewerNavigation {
        intent: up,
        client_id: 1,
    });
    gate.accept(ViewerNavigation {
        intent: down,
        client_id: 2,
    });

    assert_eq!(
        gate.replacement,
        Some(ViewerNavigation {
            intent: down,
            client_id: 2
        })
    );
}

#[test]
fn viewer_gate_close_clears_pending_navigation() {
    let down = ViewerIntent::Page {
        rows: 8,
        forward: true,
    };
    let up = ViewerIntent::Page {
        rows: 8,
        forward: false,
    };
    let mut gate = ViewerGate::default();
    gate.begin(down);
    gate.accept(ViewerNavigation {
        intent: up,
        client_id: 1,
    });
    let generation = gate.generation;

    gate.cancel();

    assert!(gate.generation > generation);
    assert!(!gate.in_flight);
    assert!(gate.current_intent.is_none());
    assert!(gate.replacement.is_none());
}

#[test]
fn mouse_forwarding_translates_to_pane_coordinates() {
    let event = MouseEvent {
        code: 0,
        x: 12,
        y: 7,
        release: false,
    };
    assert_eq!(
        encode_mouse(
            event,
            Rect {
                x: 10,
                y: 5,
                width: 20,
                height: 10,
            },
            true,
        ),
        Some(b"\x1b[<0;3;3M".to_vec())
    );
    assert!(forwards_mouse(MouseMode::Press, event));
}

#[test]
fn mouse_drag_resizes_the_selected_border() {
    let mut session = Session::new("s".into());
    let size = Size {
        columns: 9,
        rows: 3,
    };
    session
        .split_active(Split::LeftRight, size)
        .unwrap();

    assert_eq!(
        resize_border(&mut session, size, (4, 1), 6, 1),
        Some((6, 1))
    );
    let rects = session.pane_rects(size);
    assert_eq!(rects[0].1.width, 6);
    assert_eq!(rects[1].1.width, 2);
}

#[test]
fn scroll_status_reminder_adapts_to_width() {
    assert_eq!(
        scroll_status_message(40, 37, None),
        "SCROLL 37% | j/k Pg / Esc"
    );
    let detailed = scroll_status_message(120, 37, Some("error"));
    assert!(detailed.contains("g/G ends"));
    assert!(detailed.contains("n/N match"));
    assert!(detailed.ends_with("/error"));
}

#[test]
fn viewer_prompt_root_uses_unix_separator() {
    let directory = PathBuf::from("/tmp");
    assert_eq!(prompt_root(&directory, b'/'), Some(PathBuf::from("/")));
    assert_eq!(prompt_root(&directory, b'\\'), None);
    assert_eq!(prompt_drive_root(b"C:"), None);
}

#[test]
fn empty_tilde_prompt_has_no_selected_entry() {
    for query in [
        b"~".as_slice(),
        b"prefix~".as_slice(),
        b"~/".as_slice(),
        b"~\\".as_slice(),
    ] {
        let prompt = ViewerPrompt {
            directory: PathBuf::from("/definitely/missing"),
            query: query.to_vec(),
            filter: query.to_vec(),
            selected: 0,
        };
        assert_eq!(selected_viewer_entry(&prompt, &[], query, false), None);
        assert_eq!(selected_viewer_entry(&prompt, &[], query, true), None);
    }
}

#[test]
fn scroll_and_help_status_follow_the_position() {
    assert_eq!(termfold::server::scroll_percent(0, 10), 100);
    assert_eq!(termfold::server::scroll_percent(10, 10), 0);
    assert_eq!(termfold::server::scroll_percent(3, 10), 70);
    assert_eq!(termfold::server::scroll_percent(5, 0), 100);
    let size = Size { columns: 80, rows: 11 };
    assert_eq!(
        termfold::server::help_status_message(Some(size), 25, 41),
        "HELP 3/6 | Up/Down or j/k line PgUp/PgDn page q/Esc exit"
    );
    assert_eq!(
        termfold::server::help_status_message(None, 0, 0),
        "HELP 1/1 | j/k Pg q/Esc"
    );
    assert_eq!(
        scroll_status_message(80, 5, Some("x")),
        "SCROLL 5% | Up/Down j/k PgUp/PgDn / n/N q/Esc  /x"
    );
}

#[test]
fn search_steps_to_the_nearest_match_and_wraps() {
    let matches = [2, 5, 9];
    assert_eq!(termfold::server::next_match(&matches, 5, true), Some(9));
    assert_eq!(termfold::server::next_match(&matches, 9, true), Some(2));
    assert_eq!(termfold::server::next_match(&matches, 5, false), Some(2));
    assert_eq!(termfold::server::next_match(&matches, 2, false), Some(9));
    assert_eq!(termfold::server::next_match(&[], 2, false), None);
}

#[test]
fn pending_input_is_written_in_order_across_partial_writes() {
    let mut pending = termfold::server::PendingInput::new();
    assert!(pending.is_empty());
    pending.push(b"abc".to_vec());
    pending.push(Vec::new());
    pending.push(b"de".to_vec());
    assert_eq!(pending.unwritten(), Some(&b"abc"[..]));
    pending.consume(2);
    assert_eq!(pending.unwritten(), Some(&b"c"[..]));
    pending.consume(1);
    assert_eq!(pending.unwritten(), Some(&b"de"[..]));
    pending.consume(2);
    assert!(pending.is_empty());
    assert_eq!(pending.unwritten(), None);
}

#[test]
fn prompt_selection_moves_and_completes_among_entries() {
    let entries = vec![
        ViewerEntry { name: "alpha".into(), directory: false },
        ViewerEntry { name: "alpine".into(), directory: true },
        ViewerEntry { name: "beta".into(), directory: false },
    ];
    let mut prompt = ViewerPrompt {
        directory: PathBuf::from("/tmp"),
        query: Vec::new(),
        filter: Vec::new(),
        selected: 0,
    };
    assert_eq!(select_viewer_entry_among(&mut prompt, &entries, 1).unwrap(), b"alpine");
    assert_eq!(select_viewer_entry_among(&mut prompt, &entries, -2).unwrap(), b"beta");
    assert_eq!(select_viewer_entry_among(&mut prompt, &entries, 1).unwrap(), b"alpha");
    assert_eq!(prompt.selected, 0);
    assert_eq!(complete_viewer_entry_among(&mut prompt, &entries).unwrap(), b"alpine");
    assert_eq!(prompt.selected, 1);
    assert_eq!(selected_viewer_entry(&prompt, &entries, b"alpha", true), Some(1));
    assert_eq!(selected_viewer_entry(&prompt, &entries, b"alpine", true), Some(1));
    assert!(select_viewer_entry_among(&mut prompt, &[], 1).is_err());
}

#[test]
fn classic_mouse_reports_need_small_coordinates() {
    let rect = Rect { x: 0, y: 0, width: 300, height: 300 };
    let event = MouseEvent { code: 0, x: 4, y: 9, release: true };
    assert_eq!(encode_mouse(event, rect, false), Some(vec![27, b'[', b'M', 35, 37, 42]));
    let far = MouseEvent { code: 0, x: 250, y: 1, release: false };
    assert_eq!(encode_mouse(far, rect, false), None);
    assert_eq!(encode_mouse(far, Rect { x: 251, y: 0, width: 1, height: 1 }, true), None);
    let motion = MouseEvent { code: 35, x: 0, y: 0, release: false };
    assert!(!forwards_mouse(MouseMode::Drag, motion));
    assert!(forwards_mouse(MouseMode::Motion, motion));
    assert!(!forwards_mouse(MouseMode::Off, event));
}

#[test]
fn scroll_and_help_offsets_stay_in_range() {
    assert_eq!(moved(5, 3, 10, 6), 6);
    assert_eq!(moved(5, -3, 10, 6), 2);
    assert_eq!(moved(5, i32::MIN, 10, 6), 0);
    assert_eq!(moved(0, i32::MAX, 4, 100), 4);
    let size = Size { columns: 80, rows: 10 };
    let view = ClientView { scroll_offset: None, help_offset: None };
    let help = view_after(view, &Action::HelpView, size, 9, 50).unwrap();
    assert_eq!(help, ClientView { scroll_offset: None, help_offset: Some(0) });
    let paged = view_after(help, &Action::HelpScroll(i32::MAX), size, 9, 50).unwrap();
    assert_eq!(paged.help_offset, Some(9));
    let scrolled = view_after(paged, &Action::ScrollView, size, 9, 50).unwrap();
    assert_eq!(scrolled, ClientView { scroll_offset: Some(0), help_offset: None });
    let top = view_after(scrolled, &Action::ScrollTop, size, 9, 50).unwrap();
    assert_eq!(top.scroll_offset, Some(50));
    assert_eq!(view_after(top, &Action::NextTab, size, 9, 50), None);
}

#[test]
fn attach_requires_a_known_profile_with_cursor_addressing() {
    assert_eq!(attach_capabilities(200, 0).unwrap_err(), "invalid outer-terminal profile");
}

#[test]
fn mouse_press_on_status_line_selects_the_tab() {
    let metrics = Metrics::default();
    let line = StatusLine {
        date_format: "%Y-%m-%d",
        time_format: "%H:%M",
        format: "[{session}]  {tabs}{fill}|  {date} {time}",
        label: "",
        metrics: &metrics,
        foreground: Color::Indexed(0),
        background: Color::Indexed(6),
        label_foreground: Color::Indexed(15),
        label_background: Color::Indexed(1),
        active_foreground: Color::Indexed(0),
        active_background: Color::Indexed(11),
    };
    let mut session = Session::new("s".into());
    session.create_tab().unwrap();
    assert_eq!(session.active_tab(), Some(1));
    let size = Size { columns: 80, rows: 24 };
    let mut state = MouseState { help_open: false, capture: None, scroll_offset: Some(3), scroll_mode: false };
    let press = MouseEvent { code: 0, x: 5, y: 23, release: false };
    let effect = mouse_step(&mut session, &mut state, press, size, line, None, "2026-07-19", "18:42", None, 0);
    assert_eq!(effect, MouseEffect::Resized);
    assert_eq!(session.active_tab(), Some(0));
    assert_eq!(state.scroll_offset, None);

    let wheel = MouseEvent { code: 64, x: 5, y: 5, release: false };
    let effect = mouse_step(&mut session, &mut state, wheel, size, line, None, "2026-07-19", "18:42", None, 10);
    assert_eq!(effect, MouseEffect::Scrolled);
    assert_eq!(state.scroll_offset, Some(3));

    state.help_open = true;
    let effect = mouse_step(&mut session, &mut state, press, size, line, None, "2026-07-19", "18:42", None, 10);
    assert_eq!(effect, MouseEffect::Nothing);
}

#[test]
fn prompt_status_lists_entries_around_the_selection() {
    let entries: Vec<ViewerEntry> = (0..10)
        .map(|i| ViewerEntry { name: format!("f{i}"), directory: i == 9 })
        .collect();
    let prompt = ViewerPrompt {
        directory: PathBuf::from("/srv"),
        query: b"f9".to_vec(),
        filter: Vec::new(),
        selected: 0,
    };
    assert_eq!(
        viewer_prompt_status(&prompt, &entries, "/srv"),
        "VIEW /srv > f9 | f2 f3 f4 f5 f6 f7 f8 [f9/] | arrows/C-n/p select Right/Enter open Left parent Backspace edit/parent Tab complete Esc cancel"
    );
    let prompt = ViewerPrompt { query: Vec::new(), selected: 11, ..prompt };
    assert_eq!(
        viewer_prompt_status(&prompt, &entries[..2], "/"),
        "VIEW / >  | f0 [f1] | arrows/C-n/p select Right/Enter open Left parent Backspace edit/parent Tab complete Esc cancel"
    );
    assert_eq!(
        viewer_prompt_status(&prompt, &[], "/"),
        "VIEW / >  | | arrows/C-n/p select Right/Enter open Left parent Backspace edit/parent Tab complete Esc cancel"
    );
}

#[test]
fn event_timeout_is_the_shortest_wait() {
    assert_eq!(event_timeout(&[]), Duration::from_millis(LISTENER_POLL_DELAY_MS));
    assert_eq!(
        event_timeout(&[None, Some(Duration::from_millis(20)), Some(Duration::from_millis(30))]),
        Duration::from_millis(20)
    );
    assert_eq!(event_timeout(&[Some(Duration::from_millis(70))]), Duration::from_millis(50));
}

#[test]
fn pane_areas_must_fit_a_screen() {
    let rect = |width, height| Rect { x: 0, y: 0, width, height };
    let mut session = Session::new("s".into());
    let size = Size { columns: 80, rows: 24 };
    let second: PaneId = session.split_active(Split::LeftRight, size).unwrap();
    let first: PaneId = session.pane_rects(size).iter().map(|(id, _)| *id).find(|id| *id != second).unwrap();
    assert!(rects_fit(&[(first, rect(80, 24)), (second, rect(1, 1))]));
    assert!(!rects_fit(&[(first, rect(0, 24))]));
    assert!(!rects_fit(&[(first, rect(1000, 1000))]));
    let fallback = Size { columns: 9, rows: 9 };
    assert_eq!(pane_size(&[(first, rect(80, 24))], first, fallback), Size { columns: 80, rows: 24 });
    assert_eq!(pane_size(&[(first, rect(80, 24))], second, fallback), fallback);
}

#[test]
fn client_screen_view_prefers_the_key_reminder() {
    assert_eq!(render_view(Some(3), Some(1), 2), View::Help { offset: 1, prefix: 2 });
    assert_eq!(render_view(Some(3), None, 2), View::Scroll(3));
    assert_eq!(render_view(None, None, 2), View::Live);
}

#[test]
fn status_line_takes_the_configured_formats_and_colours() {
    let config = Config::default();
    let metrics = Metrics::default();
    let line = status_line(&config, &metrics);
    assert_eq!(line.date_format, config.date_format);
    assert_eq!(line.format, config.status_format);
    assert_eq!(line.foreground, config.status_foreground);
    assert_eq!(line.active_background, config.active_tab_background);
}

#[test]
fn prompt_lists_matching_entries_by_name() {
    let entry = |name: &str, directory| ViewerEntry { name: name.to_string(), directory };
    let found = vec![entry("beta", false), entry("alpha", true), entry("Zed", false), entry("alp", false)];
    let listed = prompt_entries(&found, b"al");
    let names: Vec<&str> = listed.iter().map(|e| e.name.as_str()).collect();
    assert_eq!(names, vec!["alp", "alpha"]);
    let all = prompt_entries(&found, b"");
    let names: Vec<&str> = all.iter().map(|e| e.name.as_str()).collect();
    assert_eq!(names, vec!["Zed", "alp", "alpha", "beta"]);
    let many: Vec<ViewerEntry> = (0..300).map(|i| entry(&format!("f{i:03}"), false)).collect();
    let listed = prompt_entries(&many, b"f");
    assert_eq!(listed.len(), 256);
    assert_eq!(listed[0].name, "f000");
    assert_eq!(listed[255].name, "f255");
}

#[test]
fn frames_follow_what_changed() {
    let live = ClientView { scroll_offset: None, help_offset: None };
    let scrolled = ClientView { scroll_offset: Some(2), help_offset: None };
    assert_eq!(frame_for(true, true, true, live, true), Frame::Full);
    assert_eq!(frame_for(false, true, true, live, true), Frame::Changes);
    assert_eq!(frame_for(false, true, false, scrolled, true), Frame::Full);
    assert_eq!(frame_for(false, true, false, live, false), Frame::Full);
    assert_eq!(frame_for(false, false, true, live, true), Frame::Status);
    assert_eq!(frame_for(false, false, false, live, true), Frame::Nothing);
}

#[test]
fn prompt_separator_enters_home_root_or_selected_directory() {
    let prompt = ViewerPrompt {
        directory: PathBuf::from("/srv"),
        query: Vec::new(),
        filter: Vec::new(),
        selected: 0,
    };
    let entries = vec![
        ViewerEntry { name: "data".into(), directory: true },
        ViewerEntry { name: "notes.txt".into(), directory: false },
    ];
    let home = Some(PathBuf::from("/home/u"));
    assert_eq!(prompt_directory(&prompt, b"~", b'/', home.clone(), &entries), Ok(PathBuf::from("/home/u")));
    assert_eq!(
        prompt_directory(&prompt, b"~", b'/', None, &entries),
        Err("home directory is unavailable".to_string())
    );
    assert_eq!(prompt_directory(&prompt, b"/", b'/', None, &entries), Ok(PathBuf::from("/")));
    assert_eq!(
        prompt_directory(&prompt, b"", b'/', None, &entries),
        Err("absolute path must start with the native separator".to_string())
    );
    assert_eq!(prompt_directory(&prompt, b"data", b'/', None, &entries), Ok(PathBuf::from("/srv/data")));
    assert_eq!(
        prompt_directory(&prompt, b"notes.txt", b'/', None, &entries[1..]),
        Err("select a matching directory before the path separator".to_string())
    );
    assert_eq!(
        prompt_open_target(&prompt, b"notes.txt", &entries),
        Ok((PathBuf::from("/srv/notes.txt"), false))
    );
    assert_eq!(prompt_open_target(&prompt, b"data", &entries), Ok((PathBuf::from("/srv/data"), true)));
    assert_eq!(
        prompt_open_target(&prompt, b"x", &[]),
        Err("no matching file or directory".to_string())
    );
}
