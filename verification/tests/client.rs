use termfold::client::{
    attach_reply, check_new_session, discover, on_session_message, query_status, startup_step,
    AttachedStep, SessionInfo, Startup,
};
use termfold::ipc::Message;

fn info(name: &str, pid: u32, attached_clients: u32) -> SessionInfo {
    SessionInfo { name: name.to_string(), pid, attached_clients }
}

#[test]
fn discovered_sessions_are_ordered_by_pid() {
    let sessions = discover(vec![info("c", 30, 0), info("a", 10, 1), info("b", 20, 0), info("d", 10, 0)]);
    let order: Vec<(&str, u32)> = sessions.iter().map(|s| (s.name.as_str(), s.pid)).collect();
    assert_eq!(order, vec![("a", 10), ("d", 10), ("b", 20), ("c", 30)]);
    assert!(discover(Vec::new()).is_empty());
}

#[test]
fn attached_sessions_are_reported() {
    assert!(info("a", 1, 2).is_attached());
    assert!(!info("a", 1, 0).is_attached());
}

#[test]
fn status_replies_become_session_information() {
    assert_eq!(
        query_status("work", Some(Message::Status { pid: 42, attached_clients: 1 })),
        Ok(info("work", 42, 1))
    );
    assert_eq!(
        query_status("work", Some(Message::Attached)),
        Err("session 'work' returned an invalid status".to_string())
    );
    assert_eq!(query_status("work", None), Err("session 'work' returned an invalid status".to_string()));
}

#[test]
fn new_sessions_need_a_free_name_and_room() {
    let running = vec![info("work", 1, 0)];
    assert_eq!(check_new_session(&running, "logs"), Ok(()));
    assert_eq!(check_new_session(&running, "work"), Err("session 'work' already exists".to_string()));
    let full: Vec<SessionInfo> = (0..32).map(|i| info(&format!("s{i}"), i, 0)).collect();
    assert_eq!(check_new_session(&full, "more"), Err("current user already has 32 sessions".to_string()));
}

#[test]
fn attach_replies_are_checked() {
    assert_eq!(attach_reply(Some(Message::Attached)), Ok(()));
    assert_eq!(attach_reply(Some(Message::Error("no".into()))), Err("no".to_string()));
    assert_eq!(
        attach_reply(Some(Message::Detach)),
        Err("session returned an unexpected attach response".to_string())
    );
    assert_eq!(attach_reply(None), Err("session disconnected during attach".to_string()));
}

#[test]
fn attached_client_follows_session_messages() {
    assert_eq!(on_session_message(Some(Message::Screen(vec![1, 2]))), AttachedStep::Show(vec![1, 2]));
    assert_eq!(on_session_message(Some(Message::Error("bad".into()))), AttachedStep::Fail("bad".into()));
    assert_eq!(on_session_message(Some(Message::Terminating)), AttachedStep::Done);
    assert_eq!(on_session_message(None), AttachedStep::Done);
    assert_eq!(
        on_session_message(Some(Message::Kill)),
        AttachedStep::Fail("session returned an unexpected message".into())
    );
}

#[test]
fn server_startup_waits_for_its_own_process() {
    assert_eq!(startup_step("work", &Ok(info("work", 7, 0)), 7, true), Startup::Started);
    assert_eq!(
        startup_step("work", &Ok(info("work", 8, 0)), 7, true),
        Startup::Taken("session 'work' already exists".into())
    );
    assert_eq!(startup_step("work", &Err("refused".into()), 7, true), Startup::Wait);
    assert_eq!(
        startup_step("work", &Err("refused".into()), 7, false),
        Startup::Failed("session server did not start: refused".into())
    );
}
