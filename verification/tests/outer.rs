use termfold::outer::{built_in, from_wire, select, to_wire, ColorLevel, MatchReason, Profile};

#[test]
fn selection_precedence_and_hints_are_conservative() {
    let selected = select("linux", "xterm-256color", "truecolor");
    assert_eq!(selected.capabilities.profile, Profile::Linux);
    assert_eq!(selected.capabilities.color, ColorLevel::Ansi16);
    assert_eq!(selected.reason, MatchReason::Override);

    let selected = select("auto", "xterm-kitty", "24bit");
    assert_eq!(selected.capabilities.profile, Profile::Xterm256);
    assert_eq!(selected.capabilities.color, ColorLevel::TrueColor);
    assert_eq!(selected.reason, MatchReason::Alias);

    let selected = select("auto", "unknown", "truecolor");
    assert_eq!(selected.capabilities.profile, Profile::Ansi);
    assert_eq!(selected.capabilities.color, ColorLevel::Ansi16);
    assert_eq!(selected.reason, MatchReason::Fallback);
}

#[test]
fn families_are_matched_by_prefix_and_colour_suffix() {
    let selected = select("auto", "rxvt-unicode-256color", "");
    assert_eq!(selected.capabilities.profile, Profile::Xterm256);
    assert_eq!(selected.reason, MatchReason::Family);
    let selected = select("auto", "screen.xterm", "TrueColor");
    assert_eq!(selected.capabilities.profile, Profile::Screen);
    assert_eq!(selected.capabilities.color, ColorLevel::Ansi16);
    let selected = select("auto", "tmux-direct", "TRUECOLOR");
    assert_eq!(selected.capabilities.profile, Profile::Tmux);
    assert_eq!(selected.capabilities.color, ColorLevel::TrueColor);
    assert_eq!(select("auto", "vt100", "").reason, MatchReason::Exact);
}

#[test]
fn every_profile_is_found_by_its_name() {
    for profile in [
        Profile::Dumb,
        Profile::Ansi,
        Profile::Vt100,
        Profile::Linux,
        Profile::Xterm,
        Profile::Xterm256,
        Profile::Screen,
        Profile::Screen256,
        Profile::Tmux,
        Profile::Tmux256,
    ] {
        assert_eq!(built_in(profile.name()), Some(profile));
    }
    assert_eq!(built_in("xterm-kitty"), None);
    assert_eq!(MatchReason::Fallback.name(), "conservative ANSI fallback");
}

#[test]
fn wire_capabilities_never_exceed_the_profile() {
    let capabilities = from_wire(5, 2).unwrap();
    assert_eq!(capabilities.profile, Profile::Xterm256);
    assert_eq!(capabilities.color, ColorLevel::Indexed256);
    assert_eq!(from_wire(5, 3).unwrap().color, ColorLevel::TrueColor);
    assert_eq!(from_wire(6, 3), None);
    assert_eq!(from_wire(0, 1), None);
    assert_eq!(from_wire(3, 0).unwrap().color, ColorLevel::Monochrome);
    assert_eq!(from_wire(10, 0), None);
    assert_eq!(from_wire(1, 4), None);
}

#[test]
fn announced_capabilities_come_back_from_the_wire() {
    for term in ["xterm-256color", "screen", "dumb", "alacritty", "vt100"] {
        for colorterm in ["", "truecolor"] {
            let selected = select("auto", term, colorterm).capabilities;
            let (profile, color) = to_wire(selected);
            assert_eq!(from_wire(profile, color), Some(selected));
        }
    }
    assert_eq!(to_wire(select("auto", "xterm", "").capabilities), (4, 1));
}
