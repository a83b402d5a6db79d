use vstd::prelude::*;

use crate::text::{
    contains_bytes, contains_str, eq_ascii_lowercase, lower_bytes, starts_with, str_eq, utf8,
};

verus! {

/// A built-in description of an outer terminal.
#[derive(Clone, Copy, Debug, Eq, PartialEq, Structural)]
pub enum Profile {
    Dumb,
    Ansi,
    Vt100,
    Linux,
    Xterm,
    Xterm256,
    Screen,
    Screen256,
    Tmux,
    Tmux256,
}

/// How many colours the outer terminal shows, from fewest to most.
#[derive(Clone, Copy, Debug, Eq, Ord, PartialEq, PartialOrd, Structural)]
pub enum ColorLevel {
    Monochrome,
    Ansi16,
    Indexed256,
    TrueColor,
}

/// What the outer terminal can do.
#[derive(Clone, Copy, Debug, Eq, PartialEq, Structural)]
pub struct Capabilities {
    pub profile: Profile,
    pub color: ColorLevel,
    pub cursor_addressing: bool,
    pub cursor_visibility: bool,
    pub alternate_screen: bool,
    pub mouse: bool,
    pub faint: bool,
    pub italic: bool,
    pub blink: bool,
    pub strike: bool,
}

/// Why a profile was chosen.
#[derive(Clone, Copy, Debug, Eq, PartialEq, Structural)]
pub enum MatchReason {
    Override,
    Exact,
    Alias,
    Family,
    Fallback,
}

/// The capabilities chosen for the outer terminal, and why.
#[derive(Clone, Copy, Debug, Eq, PartialEq, Structural)]
pub struct Selection {
    pub capabilities: Capabilities,
    pub reason: MatchReason,
}

pub open spec fn reason_name(reason: MatchReason) -> Seq<char> {
    match reason {
        MatchReason::Override => "configuration override"@,
        MatchReason::Exact => "exact built-in name"@,
        MatchReason::Alias => "built-in alias"@,
        MatchReason::Family => "audited family match"@,
        MatchReason::Fallback => "conservative ANSI fallback"@,
    }
}

impl MatchReason {
    pub fn name(self) -> (r: &'static str)
        ensures
            r@ == reason_name(self),
    {
        match self {
            MatchReason::Override => "configuration override",
            MatchReason::Exact => "exact built-in name",
            MatchReason::Alias => "built-in alias",
            MatchReason::Family => "audited family match",
            MatchReason::Fallback => "conservative ANSI fallback",
        }
    }
}

/// The terminal name of a profile.
pub open spec fn profile_name(profile: Profile) -> Seq<char> {
    match profile {
        Profile::Dumb => "dumb"@,
        Profile::Ansi => "ansi"@,
        Profile::Vt100 => "vt100"@,
        Profile::Linux => "linux"@,
        Profile::Xterm => "xterm"@,
        Profile::Xterm256 => "xterm-256color"@,
        Profile::Screen => "screen"@,
        Profile::Screen256 => "screen-256color"@,
        Profile::Tmux => "tmux"@,
        Profile::Tmux256 => "tmux-256color"@,
    }
}

/// The profile of a built-in terminal name.
pub open spec fn profile_named(name: Seq<char>) -> Option<Profile> {
    if name == "dumb"@ {
        Some(Profile::Dumb)
    } else if name == "ansi"@ {
        Some(Profile::Ansi)
    } else if name == "vt100"@ {
        Some(Profile::Vt100)
    } else if name == "linux"@ {
        Some(Profile::Linux)
    } else if name == "xterm"@ {
        Some(Profile::Xterm)
    } else if name == "xterm-256color"@ {
        Some(Profile::Xterm256)
    } else if name == "screen"@ {
        Some(Profile::Screen)
    } else if name == "screen-256color"@ {
        Some(Profile::Screen256)
    } else if name == "tmux"@ {
        Some(Profile::Tmux)
    } else if name == "tmux-256color"@ {
        Some(Profile::Tmux256)
    } else {
        None
    }
}

/// The number of a colour level: its place from fewest colours to most.
pub open spec fn color_rank(color: ColorLevel) -> nat {
    match color {
        ColorLevel::Monochrome => 0,
        ColorLevel::Ansi16 => 1,
        ColorLevel::Indexed256 => 2,
        ColorLevel::TrueColor => 3,
    }
}

/// Xterm and the terminal multiplexers.
pub open spec fn multiplexed_or_xterm(profile: Profile) -> bool {
    matches!(profile, Profile::Xterm | Profile::Xterm256 | Profile::Screen | Profile::Screen256 | Profile::Tmux | Profile::Tmux256)
}

/// Profiles whose terminals are trusted when the environment claims true colour.
pub open spec fn trusts_true_color(profile: Profile) -> bool {
    matches!(profile, Profile::Xterm | Profile::Xterm256 | Profile::Tmux | Profile::Tmux256)
}

/// What a profile's terminal can do.
pub open spec fn base_capabilities(profile: Profile) -> Capabilities {
    Capabilities {
        profile,
        color: match profile {
            Profile::Dumb | Profile::Vt100 => ColorLevel::Monochrome,
            Profile::Xterm256 | Profile::Screen256 | Profile::Tmux256 => ColorLevel::Indexed256,
            _ => ColorLevel::Ansi16,
        },
        cursor_addressing: profile != Profile::Dumb,
        cursor_visibility: profile == Profile::Linux || multiplexed_or_xterm(profile),
        alternate_screen: multiplexed_or_xterm(profile),
        mouse: multiplexed_or_xterm(profile),
        faint: profile == Profile::Linux || multiplexed_or_xterm(profile),
        italic: trusts_true_color(profile),
        blink: profile != Profile::Dumb,
        strike: trusts_true_color(profile),
    }
}

fn color_number(color: ColorLevel) -> (r: u8)
    ensures
        r == color_rank(color),
{
    match color {
        ColorLevel::Monochrome => 0,
        ColorLevel::Ansi16 => 1,
        ColorLevel::Indexed256 => 2,
        ColorLevel::TrueColor => 3,
    }
}

impl Profile {
    pub fn name(self) -> (r: &'static str)
        ensures
            r@ == profile_name(self),
    {
        match self {
            Profile::Dumb => "dumb",
            Profile::Ansi => "ansi",
            Profile::Vt100 => "vt100",
            Profile::Linux => "linux",
            Profile::Xterm => "xterm",
            Profile::Xterm256 => "xterm-256color",
            Profile::Screen => "screen",
            Profile::Screen256 => "screen-256color",
            Profile::Tmux => "tmux",
            Profile::Tmux256 => "tmux-256color",
        }
    }

    fn base(self) -> (r: Capabilities)
        ensures
            r == base_capabilities(self),
    {
        let color = match self {
            Profile::Dumb | Profile::Vt100 => ColorLevel::Monochrome,
            Profile::Ansi | Profile::Linux | Profile::Xterm | Profile::Screen | Profile::Tmux => {
                ColorLevel::Ansi16
            },
            Profile::Xterm256 | Profile::Screen256 | Profile::Tmux256 => ColorLevel::Indexed256,
        };
        let multiplexed_or_xterm = match self {
            Profile::Xterm | Profile::Xterm256 | Profile::Screen | Profile::Screen256
            | Profile::Tmux | Profile::Tmux256 => true,
            _ => false,
        };
        let linux = match self {
            Profile::Linux => true,
            _ => false,
        };
        let dumb = match self {
            Profile::Dumb => true,
            _ => false,
        };
        let styled = self.accepts_true_color_hint();
        Capabilities {
            profile: self,
            color,
            cursor_addressing: !dumb,
            cursor_visibility: linux || multiplexed_or_xterm,
            alternate_screen: multiplexed_or_xterm,
            mouse: multiplexed_or_xterm,
            faint: linux || multiplexed_or_xterm,
            italic: styled,
            blink: !dumb,
            strike: styled,
        }
    }

    fn accepts_true_color_hint(self) -> (r: bool)
        ensures
            r == trusts_true_color(self),
    {
        match self {
            Profile::Xterm | Profile::Xterm256 | Profile::Tmux | Profile::Tmux256 => true,
            _ => false,
        }
    }
}

/// The profile named by a built-in terminal name.
pub fn built_in(name: &str) -> (r: Option<Profile>)
    ensures
        r == profile_named(name@),
{
    if str_eq(name, "dumb") {
        Some(Profile::Dumb)
    } else if str_eq(name, "ansi") {
        Some(Profile::Ansi)
    } else if str_eq(name, "vt100") {
        Some(Profile::Vt100)
    } else if str_eq(name, "linux") {
        Some(Profile::Linux)
    } else if str_eq(name, "xterm") {
        Some(Profile::Xterm)
    } else if str_eq(name, "xterm-256color") {
        Some(Profile::Xterm256)
    } else if str_eq(name, "screen") {
        Some(Profile::Screen)
    } else if str_eq(name, "screen-256color") {
        Some(Profile::Screen256)
    } else if str_eq(name, "tmux") {
        Some(Profile::Tmux)
    } else if str_eq(name, "tmux-256color") {
        Some(Profile::Tmux256)
    } else {
        None
    }
}

/// The bytes of `text` begin with those of `prefix`.
pub open spec fn begins(text: Seq<char>, prefix: Seq<char>) -> bool {
    utf8(prefix).is_prefix_of(utf8(text))
}

/// The bytes of `needle` occur in those of `text`.
pub open spec fn holds(text: Seq<char>, needle: Seq<char>) -> bool {
    contains_bytes(utf8(text), utf8(needle))
}

/// Terminals that are xterm in all but name.
pub open spec fn xterm_alias(term: Seq<char>) -> bool {
    term == "xterm-kitty"@ || term == "foot"@ || term == "foot-extra"@ || term == "alacritty"@
        || term == "wezterm"@
}

/// The profile for `TERM` (or the configured override) and why.
pub open spec fn chosen_profile(override_name: Seq<char>, term: Seq<char>) -> (Profile, MatchReason) {
    if override_name != "auto"@ {
        (profile_named(override_name)->0, MatchReason::Override)
    } else if profile_named(term) is Some {
        (profile_named(term)->0, MatchReason::Exact)
    } else if xterm_alias(term) {
        (Profile::Xterm256, MatchReason::Alias)
    } else if begins(term, "xterm"@) || begins(term, "rxvt"@) || begins(term, "st-"@) {
        (
            if holds(term, "256color"@) {
                Profile::Xterm256
            } else {
                Profile::Xterm
            },
            MatchReason::Family,
        )
    } else if begins(term, "screen"@) {
        (
            if holds(term, "256color"@) {
                Profile::Screen256
            } else {
                Profile::Screen
            },
            MatchReason::Family,
        )
    } else if begins(term, "tmux"@) {
        (
            if holds(term, "256color"@) {
                Profile::Tmux256
            } else {
                Profile::Tmux
            },
            MatchReason::Family,
        )
    } else {
        (Profile::Ansi, MatchReason::Fallback)
    }
}

/// `COLORTERM` claims true colour, in any letter case.
pub open spec fn claims_true_color(colorterm: Seq<char>) -> bool {
    lower_bytes(utf8(colorterm)) == utf8("truecolor"@) || lower_bytes(utf8(colorterm)) == utf8(
        "24bit"@,
    )
}

/// The selection for an override (or `auto`), `TERM` and `COLORTERM`.
pub open spec fn selection(override_name: Seq<char>, term: Seq<char>, colorterm: Seq<char>) -> Selection {
    let (profile, reason) = chosen_profile(override_name, term);
    let base = base_capabilities(profile);
    Selection {
        capabilities: if trusts_true_color(profile) && claims_true_color(colorterm) {
            Capabilities { color: ColorLevel::TrueColor, ..base }
        } else {
            base
        },
        reason,
    }
}

/// Chooses the outer terminal's capabilities: the configured profile when it is not
/// `auto`, else one from `TERM`; `COLORTERM` raises the colours only of terminals
/// that are trusted with it.
pub fn select(override_name: &str, term: &str, colorterm: &str) -> (r: Selection)
    requires
        override_name@ == "auto"@ || profile_named(override_name@) is Some,
    ensures
        r == selection(override_name@, term@, colorterm@),
{
    let (profile, reason) = if !str_eq(override_name, "auto") {
        match built_in(override_name) {
            Some(profile) => (profile, MatchReason::Override),
            None => (Profile::Ansi, MatchReason::Override),
        }
    } else if let Some(profile) = built_in(term) {
        (profile, MatchReason::Exact)
    } else if str_eq(term, "xterm-kitty") || str_eq(term, "foot") || str_eq(term, "foot-extra")
        || str_eq(term, "alacritty") || str_eq(term, "wezterm") {
        (Profile::Xterm256, MatchReason::Alias)
    } else if starts_with(term, "xterm") || starts_with(term, "rxvt") || starts_with(term, "st-") {
        (
            if contains_str(term, "256color") {
                Profile::Xterm256
            } else {
                Profile::Xterm
            },
            MatchReason::Family,
        )
    } else if starts_with(term, "screen") {
        (
            if contains_str(term, "256color") {
                Profile::Screen256
            } else {
                Profile::Screen
            },
            MatchReason::Family,
        )
    } else if starts_with(term, "tmux") {
        (
            if contains_str(term, "256color") {
                Profile::Tmux256
            } else {
                Profile::Tmux
            },
            MatchReason::Family,
        )
    } else {
        (Profile::Ansi, MatchReason::Fallback)
    };
    let mut capabilities = profile.base();
    if profile.accepts_true_color_hint() && (eq_ascii_lowercase(colorterm, "truecolor")
        || eq_ascii_lowercase(colorterm, "24bit")) {
        capabilities.color = ColorLevel::TrueColor;
    }
    Selection { capabilities, reason }
}

/// The profile with a number on the wire: its place in the list of built-in names.
pub open spec fn wire_profile(number: u8) -> Option<Profile> {
    if number == 0 {
        Some(Profile::Dumb)
    } else if number == 1 {
        Some(Profile::Ansi)
    } else if number == 2 {
        Some(Profile::Vt100)
    } else if number == 3 {
        Some(Profile::Linux)
    } else if number == 4 {
        Some(Profile::Xterm)
    } else if number == 5 {
        Some(Profile::Xterm256)
    } else if number == 6 {
        Some(Profile::Screen)
    } else if number == 7 {
        Some(Profile::Screen256)
    } else if number == 8 {
        Some(Profile::Tmux)
    } else if number == 9 {
        Some(Profile::Tmux256)
    } else {
        None
    }
}

/// The colour level with a number on the wire.
pub open spec fn wire_color(number: u8) -> Option<ColorLevel> {
    if number == 0 {
        Some(ColorLevel::Monochrome)
    } else if number == 1 {
        Some(ColorLevel::Ansi16)
    } else if number == 2 {
        Some(ColorLevel::Indexed256)
    } else if number == 3 {
        Some(ColorLevel::TrueColor)
    } else {
        None
    }
}

/// The capabilities that a client announces: its profile's, with the colours it
/// claims, provided that they are no more than the profile's or true colour on a
/// terminal trusted with it.
pub open spec fn wire_capabilities(profile: u8, color: u8) -> Option<Capabilities> {
    match (wire_profile(profile), wire_color(color)) {
        (Some(p), Some(c)) => {
            let base = base_capabilities(p);
            if color_rank(c) > color_rank(base.color) && !(c == ColorLevel::TrueColor
                && trusts_true_color(p)) {
                None
            } else {
                Some(Capabilities { color: c, ..base })
            }
        },
        _ => None,
    }
}

/// The capabilities that a client announced by number.
pub fn from_wire(profile: u8, color: u8) -> (r: Option<Capabilities>)
    ensures
        r == wire_capabilities(profile, color),
{
    let profile = match profile {
        0 => Profile::Dumb,
        1 => Profile::Ansi,
        2 => Profile::Vt100,
        3 => Profile::Linux,
        4 => Profile::Xterm,
        5 => Profile::Xterm256,
        6 => Profile::Screen,
        7 => Profile::Screen256,
        8 => Profile::Tmux,
        9 => Profile::Tmux256,
        _ => return None,
    };
    let color = match color {
        0 => ColorLevel::Monochrome,
        1 => ColorLevel::Ansi16,
        2 => ColorLevel::Indexed256,
        3 => ColorLevel::TrueColor,
        _ => return None,
    };
    let mut capabilities = profile.base();
    let true_color = match color {
        ColorLevel::TrueColor => true,
        _ => false,
    };
    if color_number(color) > color_number(capabilities.color) && !(true_color
        && profile.accepts_true_color_hint()) {
        return None;
    }
    capabilities.color = color;
    Some(capabilities)
}

/// Each built-in profile is found again by its name.
pub proof fn lemma_built_in_names(profile: Profile)
    ensures
        profile_named(profile_name(profile)) == Some(profile),
{
    reveal_strlit("dumb");
    reveal_strlit("ansi");
    reveal_strlit("vt100");
    reveal_strlit("linux");
    reveal_strlit("xterm");
    reveal_strlit("xterm-256color");
    reveal_strlit("screen");
    reveal_strlit("screen-256color");
    reveal_strlit("tmux");
    reveal_strlit("tmux-256color");
    let name = profile_name(profile);
    match profile {
        Profile::Dumb => {
        },
        Profile::Ansi => {
            assert(name != "dumb"@) by {
                if name == "dumb"@ {
                    assert(name.len() == "dumb"@.len());
                    assert(name[0] == "dumb"@[0]);
                }
            }
        },
        Profile::Vt100 => {
            assert(name != "dumb"@) by {
                if name == "dumb"@ {
                    assert(name.len() == "dumb"@.len());
                }
            }
            assert(name != "ansi"@) by {
                if name == "ansi"@ {
                    assert(name.len() == "ansi"@.len());
                }
            }
        },
        Profile::Linux => {
            assert(name != "dumb"@) by {
                if name == "dumb"@ {
                    assert(name.len() == "dumb"@.len());
                }
            }
            assert(name != "ansi"@) by {
                if name == "ansi"@ {
                    assert(name.len() == "ansi"@.len());
                }
            }
            assert(name != "vt100"@) by {
                if name == "vt100"@ {
                    assert(name.len() == "vt100"@.len());
                    assert(name[0] == "vt100"@[0]);
                }
            }
        },
        Profile::Xterm => {
            assert(name != "dumb"@) by {
                if name == "dumb"@ {
                    assert(name.len() == "dumb"@.len());
                }
            }
            assert(name != "ansi"@) by {
                if name == "ansi"@ {
                    assert(name.len() == "ansi"@.len());
                }
            }
            assert(name != "vt100"@) by {
                if name == "vt100"@ {
                    assert(name.len() == "vt100"@.len());
                    assert(name[0] == "vt100"@[0]);
                }
            }
            assert(name != "linux"@) by {
                if name == "linux"@ {
                    assert(name.len() == "linux"@.len());
                    assert(name[0] == "linux"@[0]);
                }
            }
        },
        Profile::Xterm256 => {
            assert(name != "dumb"@) by {
                if name == "dumb"@ {
                    assert(name.len() == "dumb"@.len());
                }
            }
            assert(name != "ansi"@) by {
                if name == "ansi"@ {
                    assert(name.len() == "ansi"@.len());
                }
            }
            assert(name != "vt100"@) by {
                if name == "vt100"@ {
                    assert(name.len() == "vt100"@.len());
                }
            }
            assert(name != "linux"@) by {
                if name == "linux"@ {
                    assert(name.len() == "linux"@.len());
                }
            }
            assert(name != "xterm"@) by {
                if name == "xterm"@ {
                    assert(name.len() == "xterm"@.len());
                }
            }
        },
        Profile::Screen => {
            assert(name != "dumb"@) by {
                if name == "dumb"@ {
                    assert(name.len() == "dumb"@.len());
                }
            }
            assert(name != "ansi"@) by {
                if name == "ansi"@ {
                    assert(name.len() == "ansi"@.len());
                }
            }
            assert(name != "vt100"@) by {
                if name == "vt100"@ {
                    assert(name.len() == "vt100"@.len());
                }
            }
            assert(name != "linux"@) by {
                if name == "linux"@ {
                    assert(name.len() == "linux"@.len());
                }
            }
            assert(name != "xterm"@) by {
                if name == "xterm"@ {
                    assert(name.len() == "xterm"@.len());
                }
            }
            assert(name != "xterm-256color"@) by {
                if name == "xterm-256color"@ {
                    assert(name.len() == "xterm-256color"@.len());
                }
            }
        },
        Profile::Screen256 => {
            assert(name != "dumb"@) by {
                if name == "dumb"@ {
                    assert(name.len() == "dumb"@.len());
                }
            }
            assert(name != "ansi"@) by {
                if name == "ansi"@ {
                    assert(name.len() == "ansi"@.len());
                }
            }
            assert(name != "vt100"@) by {
                if name == "vt100"@ {
                    assert(name.len() == "vt100"@.len());
                }
            }
            assert(name != "linux"@) by {
                if name == "linux"@ {
                    assert(name.len() == "linux"@.len());
                }
            }
            assert(name != "xterm"@) by {
                if name == "xterm"@ {
                    assert(name.len() == "xterm"@.len());
                }
            }
            assert(name != "xterm-256color"@) by {
                if name == "xterm-256color"@ {
                    assert(name.len() == "xterm-256color"@.len());
                }
            }
            assert(name != "screen"@) by {
                if name == "screen"@ {
                    assert(name.len() == "screen"@.len());
                }
            }
        },
        Profile::Tmux => {
            assert(name != "dumb"@) by {
                if name == "dumb"@ {
                    assert(name.len() == "dumb"@.len());
                    assert(name[0] == "dumb"@[0]);
                }
            }
            assert(name != "ansi"@) by {
                if name == "ansi"@ {
                    assert(name.len() == "ansi"@.len());
                    assert(name[0] == "ansi"@[0]);
                }
            }
            assert(name != "vt100"@) by {
                if name == "vt100"@ {
                    assert(name.len() == "vt100"@.len());
                }
            }
            assert(name != "linux"@) by {
                if name == "linux"@ {
                    assert(name.len() == "linux"@.len());
                }
            }
            assert(name != "xterm"@) by {
                if name == "xterm"@ {
                    assert(name.len() == "xterm"@.len());
                }
            }
            assert(name != "xterm-256color"@) by {
                if name == "xterm-256color"@ {
                    assert(name.len() == "xterm-256color"@.len());
                }
            }
            assert(name != "screen"@) by {
                if name == "screen"@ {
                    assert(name.len() == "screen"@.len());
                }
            }
            assert(name != "screen-256color"@) by {
                if name == "screen-256color"@ {
                    assert(name.len() == "screen-256color"@.len());
                }
            }
        },
        Profile::Tmux256 => {
            assert(name != "dumb"@) by {
                if name == "dumb"@ {
                    assert(name.len() == "dumb"@.len());
                }
            }
            assert(name != "ansi"@) by {
                if name == "ansi"@ {
                    assert(name.len() == "ansi"@.len());
                }
            }
            assert(name != "vt100"@) by {
                if name == "vt100"@ {
                    assert(name.len() == "vt100"@.len());
                }
            }
            assert(name != "linux"@) by {
                if name == "linux"@ {
                    assert(name.len() == "linux"@.len());
                }
            }
            assert(name != "xterm"@) by {
                if name == "xterm"@ {
                    assert(name.len() == "xterm"@.len());
                }
            }
            assert(name != "xterm-256color"@) by {
                if name == "xterm-256color"@ {
                    assert(name.len() == "xterm-256color"@.len());
                }
            }
            assert(name != "screen"@) by {
                if name == "screen"@ {
                    assert(name.len() == "screen"@.len());
                }
            }
            assert(name != "screen-256color"@) by {
                if name == "screen-256color"@ {
                    assert(name.len() == "screen-256color"@.len());
                }
            }
            assert(name != "tmux"@) by {
                if name == "tmux"@ {
                    assert(name.len() == "tmux"@.len());
                }
            }
        },
    }
}


/// The numbers a client announces its terminal by: the profile's place among the
/// built-in names and the colour level's.
pub fn to_wire(capabilities: Capabilities) -> (r: (u8, u8))
    ensures
        wire_profile(r.0) == Some(capabilities.profile),
        wire_color(r.1) == Some(capabilities.color),
{
    let profile: u8 = match capabilities.profile {
        Profile::Dumb => 0,
        Profile::Ansi => 1,
        Profile::Vt100 => 2,
        Profile::Linux => 3,
        Profile::Xterm => 4,
        Profile::Xterm256 => 5,
        Profile::Screen => 6,
        Profile::Screen256 => 7,
        Profile::Tmux => 8,
        Profile::Tmux256 => 9,
    };
    let color: u8 = match capabilities.color {
        ColorLevel::Monochrome => 0,
        ColorLevel::Ansi16 => 1,
        ColorLevel::Indexed256 => 2,
        ColorLevel::TrueColor => 3,
    };
    (profile, color)
}

/// What a client selects for its terminal, announced by number, is what the server
/// takes it to be.
pub proof fn lemma_selection_survives_the_wire(
    override_name: Seq<char>,
    term: Seq<char>,
    colorterm: Seq<char>,
    profile: u8,
    color: u8,
)
    requires
        wire_profile(profile) == Some(selection(override_name, term, colorterm).capabilities.profile),
        wire_color(color) == Some(selection(override_name, term, colorterm).capabilities.color),
    ensures
        wire_capabilities(profile, color) == Some(selection(override_name, term, colorterm).capabilities),
{
}

} // verus!
