use termfold::config::{config_path, Config};
use termfold::document::{lookup, parse_toml, Setting};
use termfold::profile::{parse, LaunchTarget, Node, Profile, SplitDirection};
use termfold::terminal::Color;

fn parse_source(source: &str) -> Result<Vec<(String, Profile)>, String> {
    parse(&parse_toml(source)?)
}

fn named<'a>(profiles: &'a [(String, Profile)], name: &str) -> &'a Profile {
    &profiles.iter().find(|(key, _)| key == name).unwrap().1
}

fn split_tree(leaves: usize) -> String {
    if leaves == 1 {
        shell().to_owned()
    } else {
        let first = leaves / 2;
        format!(
            "{{ split = \"left-right\", panes = [{}, {}] }}",
            split_tree(first),
            split_tree(leaves - first)
        )
    }
}

fn shell() -> &'static str {
    "{ shell = true }"
}

#[test]
fn parses_terminal_configuration_and_rejects_invalid_values() {
    let config = Config::parse(
        "terminal_profile = \"tmux-256color\"\n\
         inner_term = \"xterm-256color\"\n\
         windows_shell = [\"C:\\\\msys64\\\\usr\\\\bin\\\\bash.exe\", \"--login\"]",
    )
    .unwrap();
    assert_eq!(config.terminal_profile, "tmux-256color");
    assert_eq!(config.inner_term, "xterm-256color");
    assert_eq!(
        config.windows_shell,
        ["C:\\msys64\\usr\\bin\\bash.exe", "--login"]
    );

    assert_eq!(
        Config::parse("terminal_profile = \"unknown\"").unwrap_err(),
        "configuration field 'terminal_profile': unknown built-in terminal profile"
    );
    assert_eq!(
        Config::parse("inner_term = \"screen-256color\"").unwrap_err(),
        "configuration field 'inner_term': unsupported inner terminal value"
    );
}

#[test]
fn validates_viewer_tab_width() {
    assert_eq!(Config::parse("").unwrap().viewer_tab_width, 8);
    assert_eq!(
        Config::parse("viewer_tab_width = 1")
            .unwrap()
            .viewer_tab_width,
        1
    );
    assert_eq!(
        Config::parse("viewer_tab_width = 16")
            .unwrap()
            .viewer_tab_width,
        16
    );
    for value in ["0", "17"] {
        assert_eq!(
            Config::parse(&format!("viewer_tab_width = {value}")).unwrap_err(),
            "configuration field 'viewer_tab_width': expected an integer from 1 through 16"
        );
    }
    assert_eq!(
        Config::parse("viewer_tab_width = 1\nviewer_tab_width = 2")
            .unwrap_err()
            .contains("duplicate key"),
        true
    );
}

#[test]
fn accepts_toml_syntax_rejects_unknown_types_and_retains_profiles() {
    let config = Config::parse(
        "prefix = 'C-a' # standard TOML literal string\n\
         windows_shell = [\n\
             'C:\\msys64\\usr\\bin\\bash.exe',\n\
             '--login',\n\
         ]\n\
         [profiles.default]\n\
         directory = '/tmp'\n\
         tabs = [{ shell = true }]",
    )
    .unwrap();
    assert_eq!(config.prefix, 1);
    assert_eq!(
        config.windows_shell,
        ["C:\\msys64\\usr\\bin\\bash.exe", "--login"]
    );
    assert_eq!(
        lookup(&config.document, "profiles")
            .and_then(Setting::as_table)
            .and_then(|profiles| lookup(profiles, "default"))
            .and_then(Setting::as_table)
            .and_then(|profile| lookup(profile, "directory"))
            .and_then(Setting::as_str),
        Some("/tmp")
    );

    assert_eq!(
        Config::parse("unknown = true").unwrap_err(),
        "configuration field 'unknown': unknown field"
    );
    assert_eq!(
        Config::parse("mouse = \"false\"").unwrap_err(),
        "configuration field 'mouse': expected true or false"
    );
    assert!(
        Config::parse("prefix = \"C-b\" = true")
            .unwrap_err()
            .contains("invalid TOML")
    );
    assert_eq!(
        Config::parse_bytes(b"prefix = \"C-b\"\xff").unwrap_err(),
        "configuration: invalid UTF-8"
    );
}

#[test]
fn parses_status_configuration_and_rejects_unsafe_formats() {
    let config = Config::parse(
        "status_format = \"[{session}] {tabs}{fill}{label} {cpu_usage}% {date} {time}\"\n\
         status_label = \"PROD │ db-02\"\n\
         status_refresh_seconds = 5\n\
         cpu_temperature_path = \"/sys/class/thermal/thermal_zone0/temp\"\n\
         status_foreground = \"#010203\"\n\
         active_tab_background = \"bright-yellow\"",
    )
    .unwrap();
    assert_eq!(config.status_label, "PROD │ db-02");
    assert_eq!(config.status_refresh_seconds, 5);
    assert_eq!(config.status_foreground, Color::Rgb(1, 2, 3));
    assert_eq!(config.active_tab_background, Color::Indexed(11));

    assert_eq!(
        Config::parse("status_format = \"{session}{tabs}{fill}{date}\"").unwrap_err(),
        "configuration field 'status_format': must contain {session}, {tabs}, {date}, and {time}"
    );
    assert_eq!(
        Config::parse("status_background = \"transparent\"").unwrap_err(),
        "configuration field 'status_background': expected default, an ANSI colour name, or #RRGGBB"
    );
    assert_eq!(
        Config::parse("cpu_temperature_path = \"/tmp/sensor\"").unwrap_err(),
        "configuration field 'cpu_temperature_path': expected an absolute path below /sys"
    );
}

#[test]
fn applies_status_themes_before_individual_colour_overrides() {
    let config =
        Config::parse("status_foreground = \"#010203\"\nstatus_theme = \"catppuccin-mocha\"")
            .unwrap();
    assert_eq!(config.status_foreground, Color::Rgb(1, 2, 3));
    assert_eq!(config.status_background, Color::Rgb(30, 30, 46));
    assert_eq!(config.active_tab_background, Color::Rgb(137, 180, 250));

    assert_eq!(
        Config::parse("status_theme = \"unknown\"").unwrap_err(),
        "configuration field 'status_theme': unknown built-in status theme"
    );
}

#[test]
fn configuration_defaults_and_field_checks() {
    let config = Config::parse("").unwrap();
    assert_eq!(config.prefix, 2);
    assert_eq!(config.status_format, "[{session}]  {tabs}{fill}|  {date} {time}");
    assert_eq!(config.cpu_temperature_path, None);
    assert_eq!(
        Config::parse("prefix = \"C-B\"").unwrap_err(),
        "configuration field 'prefix': expected one key from C-a through C-z"
    );
    assert_eq!(
        Config::parse("date_format = \"%Q\"").unwrap_err(),
        "configuration field 'date_format': contains an unsupported time directive"
    );
    assert_eq!(
        Config::parse("status_label = \"a\\u0007\"").unwrap_err(),
        "configuration field 'status_label': must not contain control characters"
    );
    assert_eq!(
        Config::parse(&format!("status_label = \"{}\"", "x".repeat(65))).unwrap_err(),
        "configuration field 'status_label': must contain at most 64 characters"
    );
    assert_eq!(
        Config::parse("status_format = \"{session}{tabs}{date}{time}{fill}}\"").unwrap_err(),
        "configuration field 'status_format': contains an unmatched closing brace"
    );
    assert_eq!(
        Config::parse("status_format = \"{session}{tabs}{date}{time}\"").unwrap_err(),
        "configuration field 'status_format': must contain exactly one {fill}"
    );
    assert_eq!(
        Config::parse("status_format = \"{session}{tabs}{date}{time}{fill}{nope}\"").unwrap_err(),
        "configuration field 'status_format': contains an unknown placeholder"
    );
    assert_eq!(
        Config::parse("cpu_temperature_path = \"/sys/../etc\"").unwrap_err(),
        "configuration field 'cpu_temperature_path': expected an absolute path below /sys"
    );
    assert_eq!(
        Config::parse("cpu_temperature_path = \"/./sys/x\"").unwrap().cpu_temperature_path,
        Some("/./sys/x".to_owned())
    );
    assert_eq!(Config::parse("status_background = \"#+f0a0b\"").unwrap().status_background, Color::Rgb(15, 10, 11));
    assert_eq!(
        Config::parse("scrollback_lines = 10001").unwrap_err(),
        "configuration field 'scrollback_lines': expected an integer from 0 through 10000"
    );
    assert_eq!(
        Config::parse("profiles = 3").unwrap_err(),
        "configuration field 'profiles': expected a table"
    );
}

#[test]
fn parses_default_named_profiles_and_targets() {
    let shell = shell();
    let profiles = parse_source(&format!(
        "[profiles.default]\ntabs = [{shell}, {{ command = [\"/bin/echo\", \"hello world\", \"\"] }}]\n\n[profiles.dev]\ntabs = [{{ split = \"left-right\", panes = [{shell}, {{ split = \"top-bottom\", panes = [{shell}, {shell}] }}] }}]"
    ))
    .unwrap();
    assert_eq!(profiles.len(), 2);
    assert!(matches!(
        named(&profiles, "default").tabs[0].node,
        Node::Leaf {
            target: LaunchTarget::Shell,
            ..
        }
    ));
    assert!(matches!(
        named(&profiles, "default").tabs[1].node,
        Node::Leaf {
            target: LaunchTarget::Command { .. },
            ..
        }
    ));
    assert!(matches!(
        named(&profiles, "dev").tabs[0].node,
        Node::Split {
            direction: SplitDirection::LeftRight,
            ..
        }
    ));
}

#[test]
fn resolves_directory_inheritance_and_override_without_filesystem_work() {
    let profiles = parse_source(
        "[profiles.default]\ndirectory = \"/does/not/exist\"\ntabs = [{ shell = true, directory = \"/override\" }, { shell = true }]",
    )
    .unwrap();
    let profile = named(&profiles, "default");
    assert_eq!(profile.directory.0.as_deref(), Some("/does/not/exist"));
    assert!(
        matches!(&profile.tabs[0].node, Node::Leaf { directory, .. } if directory.0.as_deref() == Some("/override"))
    );
    assert!(
        matches!(&profile.tabs[1].node, Node::Leaf { directory, .. } if directory.0.as_deref() == Some("/does/not/exist"))
    );
}

#[test]
fn rejects_missing_empty_and_oversized_profiles() {
    let error = parse_source("[profiles.default]\ndirectory = \"/tmp\"").unwrap_err();
    assert!(
        error.contains("profiles.default': missing required field"),
        "{error}"
    );
    assert!(
        parse_source("[profiles.default]\ntabs = []")
            .unwrap_err()
            .contains("profiles.default.tabs': must not be empty")
    );
    let tabs = std::iter::repeat(shell())
        .take(33)
        .collect::<Vec<_>>()
        .join(", ");
    assert!(
        parse_source(&format!("[profiles.default]\ntabs = [{tabs}]"))
            .unwrap_err()
            .contains("at most 32 tabs")
    );
    let node = split_tree(17);
    assert!(
        parse_source(&format!("[profiles.default]\ntabs = [{node}]"))
            .unwrap_err()
            .contains("at most 16 leaf panes")
    );
}

#[test]
fn rejects_invalid_nodes_with_complete_paths() {
    for (source, path) in [
        (
            "tabs = [{ shell = false }]",
            "profiles.default.tabs[0].shell",
        ),
        (
            "tabs = [{ command = [\"relative\"] }]",
            "profiles.default.tabs[0].command[0]",
        ),
        (
            "tabs = [{ command = [\"\"] }]",
            "profiles.default.tabs[0].command[0]",
        ),
        (
            "tabs = [{ split = \"diagonal\", panes = [{ shell = true }, { shell = true }] }]",
            "profiles.default.tabs[0].split",
        ),
        (
            "tabs = [{ split = \"left-right\", panes = [{ shell = true }] }]",
            "profiles.default.tabs[0].panes",
        ),
        (
            "tabs = [{ shell = true, title = \"tab\" }]",
            "profiles.default.tabs[0].title",
        ),
        (
            "tabs = [{ shell = true, panes = [] }]",
            "profiles.default.tabs[0].panes",
        ),
        (
            "tabs = [{ shell = true, directory = \"relative\" }]",
            "profiles.default.tabs[0].directory",
        ),
        (
            "tabs = [{ split = \"left-right\", directory = \"/tmp\", panes = [{ shell = true }, { shell = true }] }]",
            "profiles.default.tabs[0].directory",
        ),
    ] {
        let source = format!("[profiles.default]\n{source}");
        assert!(
            parse_source(&source).unwrap_err().contains(path),
            "{source}"
        );
    }
    assert!(parse_source("[profiles.bad.name]\ntabs = [{ shell = true }]").is_err());
}

#[test]
fn rejects_conflicting_and_unknown_nested_fields() {
    let error =
        parse_source("[profiles.default]\ntabs = [{ shell = true, command = [\"/bin/sh\"] }]")
            .unwrap_err();
    assert!(error.contains("profiles.default.tabs[0]"));
    let error = parse_source(
        "[profiles.default]\ntabs = [{ split = \"left-right\", panes = [{ shell = true, extra = true }, { shell = true }] }]",
    )
    .unwrap_err();
    assert!(error.contains("profiles.default.tabs[0].panes[0].extra"));
    let error = parse_source(
        "[profiles.default]\ntabs = [{ shell = true, tab_title = \"not supported\" }]",
    )
    .unwrap_err();
    assert!(error.contains("tab_title"));
}

#[test]
fn keeps_absent_directory_unset() {
    let profiles = parse_source("[profiles.default]\ntabs = [{ shell = true }]").unwrap();
    assert_eq!(named(&profiles, "default").directory.0, None);
}

#[test]
fn rejects_non_table_profiles() {
    let document = vec![("profiles".to_owned(), Setting::Text("bad".into()))];
    assert!(parse(&document).unwrap_err().contains("profiles"));
}

#[test]
fn configuration_file_location() {
    assert_eq!(config_path(Some("/xdg"), Some("/home/u")), Some("/xdg/termfold/config.toml".to_string()));
    assert_eq!(config_path(Some("/xdg/"), None), Some("/xdg/termfold/config.toml".to_string()));
    assert_eq!(config_path(Some(""), Some("/home/u")), Some("/home/u/.config/termfold/config.toml".to_string()));
    assert_eq!(config_path(None, Some("")), None);
    assert_eq!(config_path(None, None), None);
}

#[test]
fn profile_nodes_tell_leaves_from_splits() {
    let shell = shell();
    let profiles = parse_source(&format!(
        "[profiles.dev]\ntabs = [{{ split = \"left-right\", panes = [{shell}, {shell}] }}, {shell}]"
    ))
    .unwrap();
    let dev = named(&profiles, "dev");
    let (direction, first, second) = dev.tabs[0].node.split().unwrap();
    assert_eq!(direction, SplitDirection::LeftRight);
    assert!(dev.tabs[0].node.leaf().is_none());
    assert!(matches!(first.leaf(), Some((LaunchTarget::Shell, _))));
    assert!(second.split().is_none());
    assert!(matches!(dev.tabs[1].node.leaf(), Some((LaunchTarget::Shell, _))));
}

#[test]
fn a_parsed_document_gives_the_same_settings() {
    let document = vec![
        ("mouse".to_owned(), Setting::Boolean(false)),
        ("viewer_tab_width".to_owned(), Setting::Integer(4)),
    ];
    let config = Config::from_document(document).unwrap();
    assert!(!config.mouse);
    assert_eq!(config.viewer_tab_width, 4);
    let parsed = Config::parse("mouse = false\nviewer_tab_width = 4").unwrap();
    assert_eq!(parsed.mouse, config.mouse);
    assert_eq!(parsed.viewer_tab_width, config.viewer_tab_width);

    let wrong = vec![("viewer_tab_width".to_owned(), Setting::Integer(0))];
    assert_eq!(
        Config::from_document(wrong).unwrap_err(),
        Config::parse("viewer_tab_width = 0").unwrap_err()
    );
}
