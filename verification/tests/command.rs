use termfold::command::{color_level_name, parse_command, kill_confirmed, select, select_pid, session_lines, view_session, valid_dimension, valid_name, yes_no, Command, Selection, HELP};
use termfold::client::SessionInfo;
use termfold::outer::ColorLevel;
use termfold::session::Size;

fn arguments(values: &[&str]) -> Vec<String> {
    values.iter().map(|value| value.to_string()).collect()
}

#[test]
fn parses_public_commands_and_validates_names() {
    assert!(matches!(
        parse_command(vec!["diagnose".into()]),
        Ok(Command::Diagnose)
    ));
    assert!(matches!(
        parse_command(vec!["123".into()]),
        Ok(Command::SelectPid(value)) if value == "123"
    ));
    assert_eq!(valid_name("logs_1").unwrap(), "logs_1");
    assert!(valid_name("../logs").is_err());
    assert!(valid_name(&"a".repeat(65)).is_err());
}

#[test]
fn parses_every_command_form() {
    assert_eq!(parse_command(Vec::new()), Ok(Command::Select));
    assert_eq!(parse_command(arguments(&["--help"])), Ok(Command::Help));
    assert_eq!(parse_command(arguments(&["--version"])), Ok(Command::Version));
    assert_eq!(parse_command(arguments(&["list"])), Ok(Command::List));
    assert_eq!(parse_command(arguments(&["new"])), Ok(Command::New("default".into())));
    assert_eq!(parse_command(arguments(&["attach", "work"])), Ok(Command::Attach("work".into())));
    assert_eq!(
        parse_command(arguments(&["kill", "--yes"])),
        Ok(Command::Kill { name: "default".into(), yes: true })
    );
    assert_eq!(
        parse_command(arguments(&["kill", "--yes", "work"])),
        Ok(Command::Kill { name: "work".into(), yes: true })
    );
    assert_eq!(
        parse_command(arguments(&["view", "notes.txt", "--session", "work"])),
        Ok(Command::View { path: "notes.txt".into(), session: Some("work".into()) })
    );
    assert_eq!(
        parse_command(arguments(&["view", "--session", "work", "notes.txt"])),
        Ok(Command::View { path: "notes.txt".into(), session: Some("work".into()) })
    );
    assert_eq!(
        parse_command(arguments(&["--server", "work", "80", "24"])),
        Ok(Command::Server { name: "work".into(), size: Size { columns: 80, rows: 24 } })
    );
    assert_eq!(
        parse_command(arguments(&["--server", "work", "0", "24"])),
        Err("server terminal dimensions must be non-zero u16 values".into())
    );
    assert_eq!(
        parse_command(arguments(&["new", "a/b"])),
        Err("session name must match [A-Za-z0-9_-]{1,64}".into())
    );
    assert_eq!(
        parse_command(arguments(&["view", ""])),
        Err(format!("invalid command\n{HELP}"))
    );
    assert_eq!(valid_dimension("+80"), Ok(80));
    assert_eq!(valid_dimension("65536").is_err(), true);
    assert_eq!(color_level_name(ColorLevel::Indexed256), "256 colours");
    assert_eq!(yes_no(true), "yes");
}

fn running(name: &str, pid: u32, attached_clients: u32) -> SessionInfo {
    SessionInfo { name: name.to_string(), pid, attached_clients }
}

#[test]
fn bare_command_picks_a_session() {
    assert_eq!(select(&Vec::new()), Selection::Create("default".into()));
    assert_eq!(
        select(&vec![running("a", 1, 1), running("b", 2, 0)]),
        Selection::Attach("b".into())
    );
    assert_eq!(select(&vec![running("a", 1, 0), running("b", 2, 0)]), Selection::List);
    assert_eq!(select(&vec![running("a", 1, 1)]), Selection::List);
}

#[test]
fn pid_prefix_picks_one_detached_session() {
    let sessions = vec![running("a", 123, 0), running("b", 456, 0), running("c", 129, 1)];
    assert_eq!(select_pid(&sessions, "12"), Selection::Attach("a".into()));
    assert_eq!(select_pid(&sessions, "4"), Selection::Attach("b".into()));
    assert_eq!(select_pid(&sessions, "9"), Selection::List);
    assert_eq!(select_pid(&vec![running("a", 12, 0), running("b", 13, 0)], "1"), Selection::List);
}

#[test]
fn listed_sessions_show_pid_name_and_state() {
    assert_eq!(
        session_lines(&vec![running("work", 42, 2), running("logs", 7, 0)]),
        vec!["42 work attached".to_string(), "7 logs detached".to_string()]
    );
}

#[test]
fn only_an_exact_yes_confirms_kill() {
    assert!(kill_confirmed(Some("yes")));
    assert!(!kill_confirmed(Some("no")));
    assert!(!kill_confirmed(Some("y")));
    assert!(!kill_confirmed(Some("yes ")));
    assert!(!kill_confirmed(Some("\u{1b}")));
    assert!(!kill_confirmed(Some("")));
    assert!(!kill_confirmed(None));
}

#[test]
fn viewer_session_comes_from_the_command_line_or_the_shell() {
    assert_eq!(view_session(Some("work".into()), Some("other".into())), Ok("work".to_string()));
    assert_eq!(view_session(None, Some("other".into())), Ok("other".to_string()));
    assert_eq!(
        view_session(None, None),
        Err("termfold view requires an explicit session outside Termfold".to_string())
    );
    assert_eq!(
        view_session(None, Some("bad name".into())),
        Err("session name must match [A-Za-z0-9_-]{1,64}".to_string())
    );
}
