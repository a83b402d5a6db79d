use std::time::{Duration, UNIX_EPOCH};
use termfold::dispatch::{clock_shows_seconds, metrics_due, metrics_key, pane_exited, shows_metrics};
use termfold::session::{CloseResult, Split};
use std::path::PathBuf;

use termfold::dispatch::{action_step, message_step, ClientState, Effect, Failure, SessionResult};
use termfold::input::Action;
use termfold::ipc::Message;
use termfold::server::{ClientView, ViewerPrompt};
use termfold::session::{Session, Size, StateError};

const SIZE: Size = Size {
    columns: 80,
    rows: 24,
};

fn fresh() -> ClientState {
    ClientState {
        size: Some(SIZE),
        status: None,
        view: ClientView {
            scroll_offset: None,
            help_offset: None,
        },
        search_query: None,
        prompt: None,
    }
}

fn step(session: &mut Session, client: ClientState, action: Action) -> (ClientState, Vec<Effect>, SessionResult) {
    action_step(session, client, action, SIZE, 0, 0, &[])
}

#[test]
fn a_new_tab_starts_its_shell_and_resizes_the_panes() {
    let mut session = Session::new("work".into());
    let (client, effects, result) = step(&mut session, fresh(), Action::CreateTab);
    let pane = session.active_pane().unwrap();
    assert_eq!(pane.get(), 2);
    assert_eq!(result, SessionResult::Pane(Ok(pane)));
    assert_eq!(
        effects,
        vec![Effect::StartPane(pane), Effect::Redraw, Effect::Resize(SIZE, Failure::Status)]
    );
    assert_eq!(client.status, None);
    assert_eq!(session.tab_count(), 2);
}

#[test]
fn selecting_a_missing_tab_reports_it() {
    let mut session = Session::new("work".into());
    let (client, effects, result) = step(&mut session, fresh(), Action::SelectTab(99));
    assert_eq!(result, SessionResult::Selected(false));
    assert_eq!(client.status.as_deref(), Some("tab does not exist"));
    assert_eq!(effects, vec![Effect::Redraw]);

    // The same status again does not draw the screen again.
    let (client, effects, _) = step(&mut session, client, Action::SelectTab(99));
    assert_eq!(client.status.as_deref(), Some("tab does not exist"));
    assert!(effects.is_empty());
}

#[test]
fn stepping_tabs_with_a_single_tab_succeeds() {
    let mut session = Session::new("work".into());
    let (_, effects, result) = step(&mut session, fresh(), Action::NextTab);
    assert_eq!(result, SessionResult::Unit(Ok(())));
    assert_eq!(effects, vec![Effect::Redraw, Effect::Resize(SIZE, Failure::Status)]);
}

#[test]
fn detaching_removes_only_the_client() {
    let mut session = Session::new("work".into());
    let (_, effects, result) = step(&mut session, fresh(), Action::Detach);
    assert_eq!(result, SessionResult::Untouched);
    assert_eq!(effects, vec![Effect::Remove]);
    assert_eq!(session.tab_count(), 1);
}

#[test]
fn closing_the_last_pane_ends_the_session() {
    let mut session = Session::new("work".into());
    let pane = session.active_pane().unwrap();
    let (_, effects, _) = step(&mut session, fresh(), Action::ClosePane);
    assert_eq!(effects, vec![Effect::EndPane(pane), Effect::Terminate]);
}

#[test]
fn forwarded_keys_clear_the_status() {
    let mut session = Session::new("work".into());
    let mut client = fresh();
    client.status = Some("old".to_owned());
    let (client, effects, _) = step(&mut session, client, Action::Forward(b"ls".to_vec()));
    assert_eq!(client.status, None);
    assert_eq!(effects, vec![Effect::Redraw, Effect::Forward(b"ls".to_vec())]);
}

#[test]
fn a_status_action_is_shown() {
    let mut session = Session::new("work".into());
    let (client, effects, _) = step(&mut session, fresh(), Action::Status("unknown command".to_owned()));
    assert_eq!(client.status.as_deref(), Some("unknown command"));
    assert_eq!(effects, vec![Effect::Redraw]);
}

#[test]
fn repeating_a_search_without_one_reports_it() {
    let mut session = Session::new("work".into());
    let (client, effects, _) = step(&mut session, fresh(), Action::SearchNext(true));
    assert_eq!(client.status.as_deref(), Some("no previous search"));
    assert_eq!(effects, vec![Effect::Redraw]);
}

#[test]
fn the_viewer_prompt_query_resets_the_selection() {
    let mut session = Session::new("work".into());
    let mut client = fresh();
    client.prompt = Some(ViewerPrompt {
        directory: PathBuf::from("/tmp"),
        query: Vec::new(),
        filter: Vec::new(),
        selected: 3,
    });
    let (client, effects, _) = step(&mut session, client, Action::ViewQuery(b"ab".to_vec()));
    let prompt = client.prompt.as_ref().unwrap();
    assert_eq!(prompt.query, b"ab".to_vec());
    assert_eq!(prompt.filter, b"ab".to_vec());
    assert_eq!(prompt.selected, 0);
    assert_eq!(effects, vec![Effect::PromptStatus, Effect::Redraw]);

    let (client, effects, _) = step(&mut session, client, Action::ViewParent);
    let prompt = client.prompt.as_ref().unwrap();
    assert_eq!(prompt.directory, PathBuf::from("/"));
    assert!(prompt.query.is_empty());
    assert_eq!(
        effects,
        vec![Effect::PromptInput(Vec::new()), Effect::PromptStatus, Effect::Redraw]
    );

    let (client, effects, _) = step(&mut session, client, Action::ViewParent);
    assert_eq!(client.status.as_deref(), Some("already at filesystem root"));
    assert_eq!(effects, vec![Effect::Redraw]);

    let (client, effects, _) = step(&mut session, client, Action::ViewCancelled);
    assert!(client.prompt.is_none());
    assert_eq!(client.status, None);
    assert_eq!(effects, vec![Effect::Redraw]);
}

#[test]
fn a_full_tab_limit_becomes_the_status() {
    let mut session = Session::new("work".into());
    loop {
        match session.create_tab() {
            Ok(_) => {}
            Err(StateError::TabLimit) => break,
            Err(other) => panic!("unexpected {other:?}"),
        }
    }
    let (client, effects, result) = step(&mut session, fresh(), Action::CreateTab);
    assert_eq!(result, SessionResult::Pane(Err(StateError::TabLimit)));
    assert!(client.status.is_some());
    assert_eq!(effects, vec![Effect::Redraw]);
}

#[test]
fn kill_and_detach_messages() {
    assert_eq!(
        message_step(true, Some(SIZE), Message::Kill, SIZE, false, 1, 1),
        vec![Effect::Terminate]
    );
    assert_eq!(
        message_step(true, Some(SIZE), Message::Detach, SIZE, false, 1, 1),
        vec![Effect::Remove]
    );
    assert_eq!(
        message_step(true, Some(SIZE), Message::Attached, SIZE, false, 1, 1),
        vec![Effect::Remove]
    );
}

#[test]
fn messages_from_a_client_that_is_not_attached_drop_it() {
    assert_eq!(
        message_step(false, None, Message::Resize { columns: 90, rows: 30 }, SIZE, false, 1, 1),
        vec![Effect::Remove]
    );
    assert_eq!(
        message_step(false, None, Message::Input(b"x".to_vec()), SIZE, false, 1, 1),
        vec![Effect::Remove]
    );
}

#[test]
fn input_from_a_client_of_another_size_resizes_first() {
    let other = Size {
        columns: 100,
        rows: 40,
    };
    assert_eq!(
        message_step(true, Some(other), Message::Input(b"x".to_vec()), SIZE, false, 1, 1),
        vec![
            Effect::Resize(other, Failure::Remove),
            Effect::Redraw,
            Effect::Keys(b"x".to_vec())
        ]
    );
    assert_eq!(
        message_step(true, Some(SIZE), Message::Input(b"x".to_vec()), SIZE, false, 1, 1),
        vec![Effect::Resize(SIZE, Failure::Remove), Effect::Keys(b"x".to_vec())]
    );
}

#[test]
fn status_requests_and_bad_attaches_are_answered() {
    assert_eq!(
        message_step(false, None, Message::StatusRequest, SIZE, false, 42, 3),
        vec![Effect::Send(Message::Status {
            pid: 42,
            attached_clients: 3
        })]
    );
    assert_eq!(
        message_step(
            false,
            None,
            Message::Attach {
                columns: 80,
                rows: 24,
                profile: 250,
                color: 0
            },
            SIZE,
            false,
            1,
            1
        ),
        vec![Effect::Send(Message::Error(
            "invalid outer-terminal profile".to_owned()
        ))]
    );
}

#[test]
fn metrics_are_sampled_once_per_period() {
    let now = UNIX_EPOCH + Duration::from_secs(125);
    assert_eq!(metrics_key(now, true, 5), Some(25));
    assert_eq!(metrics_key(now, true, 0), Some(125));
    assert_eq!(metrics_key(now, false, 5), None);
    assert!(metrics_due(Some(25), None));
    assert!(metrics_due(Some(25), Some(24)));
    assert!(!metrics_due(Some(25), Some(25)));
    assert!(!metrics_due(None, Some(25)));
}

#[test]
fn an_exited_shell_closes_its_pane() {
    let mut session = Session::new("work".into());
    let first = session.active_pane().unwrap();
    session.split_active(Split::LeftRight, SIZE).unwrap();
    let (effects, result) = pane_exited(&mut session, first, SIZE);
    assert_eq!(result, Ok(CloseResult::PaneClosed));
    assert_eq!(effects, vec![Effect::Resize(SIZE, Failure::End), Effect::Redraw]);
    let last = session.active_pane().unwrap();
    let (effects, result) = pane_exited(&mut session, last, SIZE);
    assert_eq!(result, Ok(CloseResult::SessionEmpty));
    assert_eq!(effects, vec![Effect::Terminate]);
}

#[test]
fn the_formats_say_what_the_status_line_needs() {
    assert!(shows_metrics("{session} {cpu_usage}"));
    assert!(shows_metrics("{memory_usage}"));
    assert!(shows_metrics("x{cpu_temp}"));
    assert!(!shows_metrics("{session} {time}"));
    assert!(clock_shows_seconds("%Y-%m-%d", "%H:%M:%S"));
    assert!(clock_shows_seconds("%S", "%H:%M"));
    assert!(!clock_shows_seconds("%Y-%m-%d", "%H:%M"));
}
