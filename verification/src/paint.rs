use vstd::prelude::*;

use crate::outer::{color_rank, Capabilities, ColorLevel};
use crate::server::{inside, neighbor, neighbor_of};
use crate::session::{PaneId, Rect};
use crate::terminal::{plain, renditions, rendition, sgr_applied, Attributes, Color};
use crate::text::{decimal, push_decimal, utf8};

verus! {

/// The ANSI colour nearest to a colour of the 6x6x6 cube: one bit for each strong
/// component, bright when any is very strong.
pub open spec fn ansi_of(red: u8, green: u8, blue: u8) -> u8 {
    let brightest = if red >= green && red >= blue {
        red
    } else if green >= blue {
        green
    } else {
        blue
    };
    ((if brightest >= 192 {
        8int
    } else {
        0
    }) + (if red >= 128 {
        1int
    } else {
        0
    }) + 2 * (if green >= 128 {
        1int
    } else {
        0
    }) + 4 * (if blue >= 128 {
        1int
    } else {
        0
    })) as u8
}

/// A component's step in the 6x6x6 cube.
pub open spec fn cube_of(value: u8) -> u8 {
    ((value * 5 + 127) / 255) as u8
}

pub open spec fn component_of(step: u8) -> u8 {
    if step == 0 {
        0
    } else {
        (55 + step * 40) as u8
    }
}

/// The red, green and blue of a colour of the 256-colour palette above the first 16.
pub open spec fn palette_rgb(index: u8) -> (u8, u8, u8) {
    if index >= 232 {
        let value = (8 + (index - 232) * 10) as u8;
        (value, value, value)
    } else {
        let i = if index >= 16 {
            (index - 16) as u8
        } else {
            0u8
        };
        (component_of(i / 36), component_of(i % 36 / 6), component_of(i % 6))
    }
}

/// A colour as the outer terminal can show it.
pub open spec fn adapted_color(color: Color, level: ColorLevel) -> Color {
    match color {
        Color::Default => Color::Default,
        Color::Indexed(index) => if level == ColorLevel::Monochrome {
            Color::Default
        } else if level == ColorLevel::Ansi16 {
            if index <= 15 {
                Color::Indexed(index)
            } else {
                let (r, g, b) = palette_rgb(index);
                Color::Indexed(ansi_of(r, g, b))
            }
        } else {
            color
        },
        Color::Rgb(r, g, b) => if level == ColorLevel::Monochrome {
            Color::Default
        } else if level == ColorLevel::Ansi16 {
            Color::Indexed(ansi_of(r, g, b))
        } else if level == ColorLevel::Indexed256 {
            Color::Indexed((16 + 36 * cube_of(r) + 6 * cube_of(g) + cube_of(b)) as u8)
        } else {
            color
        },
    }
}

fn cube(value: u8) -> (r: u8)
    ensures
        r == cube_of(value),
        r <= 5,
{
    ((value as u16 * 5 + 127) / 255) as u8
}

fn rgb_ansi(red: u8, green: u8, blue: u8) -> (r: u8)
    ensures
        r == ansi_of(red, green, blue),
        r <= 15,
{
    let brightest = if red >= green && red >= blue {
        red
    } else if green >= blue {
        green
    } else {
        blue
    };
    let bright: u8 = if brightest >= 192 {
        8
    } else {
        0
    };
    bright + (if red >= 128 {
        1
    } else {
        0
    }) + 2 * (if green >= 128 {
        1
    } else {
        0
    }) + 4 * (if blue >= 128 {
        1
    } else {
        0
    })
}

fn component(step: u8) -> (r: u8)
    requires
        step <= 5,
    ensures
        r == component_of(step),
{
    if step == 0 {
        0
    } else {
        55 + step * 40
    }
}

fn indexed_rgb(index: u8) -> (r: (u8, u8, u8))
    ensures
        r == palette_rgb(index),
{
    if index >= 232 {
        let value = 8 + (index - 232) * 10;
        return (value, value, value);
    }
    let i = if index >= 16 {
        index - 16
    } else {
        0
    };
    (component(i / 36), component(i % 36 / 6), component(i % 6))
}

fn adapt_color(color: Color, level: ColorLevel) -> (r: Color)
    ensures
        r == adapted_color(color, level),
{
    match color {
        Color::Default => Color::Default,
        Color::Indexed(index) => match level {
            ColorLevel::Monochrome => Color::Default,
            ColorLevel::Ansi16 => if index <= 15 {
                Color::Indexed(index)
            } else {
                let (red, green, blue) = indexed_rgb(index);
                Color::Indexed(rgb_ansi(red, green, blue))
            },
            _ => color,
        },
        Color::Rgb(red, green, blue) => match level {
            ColorLevel::Monochrome => Color::Default,
            ColorLevel::Ansi16 => Color::Indexed(rgb_ansi(red, green, blue)),
            ColorLevel::Indexed256 => Color::Indexed(
                16 + 36 * cube(red) + 6 * cube(green) + cube(blue),
            ),
            ColorLevel::TrueColor => color,
        },
    }
}

/// Colours never ask more of the outer terminal than its level: none in monochrome,
/// the 16 ANSI colours at that level, and no direct colour below true colour.
pub proof fn lemma_adapted_color_fits(color: Color, level: ColorLevel)
    ensures
        level == ColorLevel::Monochrome ==> adapted_color(color, level) == Color::Default,
        level == ColorLevel::Ansi16 ==> match adapted_color(color, level) {
            Color::Indexed(index) => index <= 15,
            Color::Default => true,
            Color::Rgb(_, _, _) => false,
        },
        level == ColorLevel::Indexed256 ==> !(adapted_color(color, level) is Rgb),
        color == Color::Default ==> adapted_color(color, level) == Color::Default,
{
    match color {
        Color::Indexed(index) => {
            if level == ColorLevel::Ansi16 && index > 15 {
                let (r, g, b) = palette_rgb(index);
                assert(ansi_of(r, g, b) <= 15);
            }
        },
        Color::Rgb(r, g, b) => {
            assert(ansi_of(r, g, b) <= 15);
        },
        _ => {},
    }
}

/// Attributes as the outer terminal can show them: in monochrome, colour turns into
/// bold (text) or inverse (background); colours are adapted; underline colour needs
/// 256 colours; styles the terminal lacks are dropped.
pub open spec fn adapted_attributes(wanted: Attributes, capabilities: Capabilities) -> Attributes {
    let mono = capabilities.color == ColorLevel::Monochrome;
    Attributes {
        bold: wanted.bold || (mono && wanted.foreground != Color::Default),
        inverse: wanted.inverse || (mono && wanted.background != Color::Default),
        foreground: adapted_color(wanted.foreground, capabilities.color),
        background: adapted_color(wanted.background, capabilities.color),
        underline_color: if color_rank(capabilities.color) >= 2 {
            adapted_color(wanted.underline_color, capabilities.color)
        } else {
            Color::Default
        },
        faint: wanted.faint && capabilities.faint,
        italic: wanted.italic && capabilities.italic,
        blink: wanted.blink && capabilities.blink,
        strike: wanted.strike && capabilities.strike,
        ..wanted
    }
}

fn adapt_attributes(wanted: Attributes, capabilities: Capabilities) -> (r: Attributes)
    ensures
        r == adapted_attributes(wanted, capabilities),
{
    let mut wanted = wanted;
    let mono = match capabilities.color {
        ColorLevel::Monochrome => true,
        _ => false,
    };
    if mono {
        let colored_text = match wanted.foreground {
            Color::Default => false,
            _ => true,
        };
        let colored_background = match wanted.background {
            Color::Default => false,
            _ => true,
        };
        wanted.bold = wanted.bold || colored_text;
        wanted.inverse = wanted.inverse || colored_background;
    }
    wanted.foreground = adapt_color(wanted.foreground, capabilities.color);
    wanted.background = adapt_color(wanted.background, capabilities.color);
    let many = match capabilities.color {
        ColorLevel::Indexed256 | ColorLevel::TrueColor => true,
        _ => false,
    };
    wanted.underline_color = if many {
        adapt_color(wanted.underline_color, capabilities.color)
    } else {
        Color::Default
    };
    wanted.faint = wanted.faint && capabilities.faint;
    wanted.italic = wanted.italic && capabilities.italic;
    wanted.blink = wanted.blink && capabilities.blink;
    wanted.strike = wanted.strike && capabilities.strike;
    wanted
}

/// The parameters that select a colour: the short forms for the first 8 (and the
/// bright 8) where they exist, else the extended 256-colour or direct form.
pub open spec fn color_parameters(color: Color, extended: u8, normal: u8, bright: u8) -> Seq<u8> {
    match color {
        Color::Default => Seq::empty(),
        Color::Indexed(index) => if index <= 7 && normal != 0 {
            seq![59u8] + decimal((normal + index) as nat)
        } else if 8 <= index <= 15 && bright != 0 {
            seq![59u8] + decimal((bright + index - 8) as nat)
        } else {
            seq![59u8] + decimal(extended as nat) + seq![59u8, 53u8, 59u8] + decimal(index as nat)
        },
        Color::Rgb(r, g, b) => seq![59u8] + decimal(extended as nat) + seq![59u8, 50u8, 59u8]
            + decimal(r as nat) + seq![59u8] + decimal(g as nat) + seq![59u8] + decimal(b as nat),
    }
}

/// `;` and the one-digit code of a style that is on.
pub open spec fn style_parameter(enabled: bool, code: u8) -> Seq<u8> {
    if enabled {
        seq![59u8, (48 + code) as u8]
    } else {
        Seq::empty()
    }
}

/// Each style of the attributes with its code, in order.
pub open spec fn style_flags(a: Attributes) -> Seq<(bool, u8)> {
    seq![
        (a.bold, 1u8),
        (a.faint, 2u8),
        (a.italic, 3u8),
        (a.underline, 4u8),
        (a.blink, 5u8),
        (a.inverse, 7u8),
        (a.hidden, 8u8),
        (a.strike, 9u8),
    ]
}

/// The parameters of the styles that are on.
pub open spec fn flagged(flags: Seq<(bool, u8)>) -> Seq<u8>
    decreases flags.len(),
{
    if flags.len() == 0 {
        Seq::empty()
    } else {
        flagged(flags.drop_last()) + style_parameter(flags.last().0, flags.last().1)
    }
}

/// The style parameters of the attributes, in order.
pub open spec fn style_parameters(a: Attributes) -> Seq<u8> {
    flagged(style_flags(a))
}

/// The colour parameters of the attributes: text, background, underline.
pub open spec fn colors_parameters(a: Attributes) -> Seq<u8> {
    color_parameters(a.foreground, 38, 30, 90) + color_parameters(a.background, 48, 40, 100)
        + color_parameters(a.underline_color, 58, 0, 0)
}

/// The select-graphic-rendition sequence that draws with these attributes from a
/// reset.
pub open spec fn sgr_sequence(a: Attributes) -> Seq<u8> {
    seq![27u8, 91u8, 48u8] + style_parameters(a) + colors_parameters(a) + seq![109u8]
}

fn push_style(output: &mut Vec<u8>, enabled: bool, code: u8)
    requires
        code <= 9,
    ensures
        final(output)@ == old(output)@ + style_parameter(enabled, code),
{
    if enabled {
        output.push(59);
        output.push(48 + code);
        proof {
            assert(final(output)@ =~= old(output)@ + style_parameter(enabled, code));
        }
    } else {
        proof {
            assert(final(output)@ =~= old(output)@ + style_parameter(enabled, code));
        }
    }
}

fn push_color(output: &mut Vec<u8>, color: Color, extended: u8, normal: u8, bright: u8)
    requires
        normal <= 100,
        bright <= 100,
    ensures
        final(output)@ == old(output)@ + color_parameters(color, extended, normal, bright),
{
    let ghost start = output@;
    match color {
        Color::Default => {
            proof {
                assert(output@ =~= start + color_parameters(color, extended, normal, bright));
            }
        },
        Color::Indexed(index) => {
            output.push(59);
            if index <= 7 && normal != 0 {
                push_decimal(output, (normal + index) as u64);
            } else if 8 <= index && index <= 15 && bright != 0 {
                push_decimal(output, (bright + index - 8) as u64);
            } else {
                push_decimal(output, extended as u64);
                output.push(59);
                output.push(53);
                output.push(59);
                push_decimal(output, index as u64);
            }
            proof {
                assert(output@ =~= start + color_parameters(color, extended, normal, bright));
            }
        },
        Color::Rgb(red, green, blue) => {
            output.push(59);
            push_decimal(output, extended as u64);
            output.push(59);
            output.push(50);
            output.push(59);
            push_decimal(output, red as u64);
            output.push(59);
            push_decimal(output, green as u64);
            output.push(59);
            push_decimal(output, blue as u64);
            proof {
                assert(output@ =~= start + color_parameters(color, extended, normal, bright));
            }
        },
    }
}

fn push_styles(output: &mut Vec<u8>, a: Attributes)
    ensures
        final(output)@ == old(output)@ + style_parameters(a),
{
    let flags: [(bool, u8); 8] = [
        (a.bold, 1),
        (a.faint, 2),
        (a.italic, 3),
        (a.underline, 4),
        (a.blink, 5),
        (a.inverse, 7),
        (a.hidden, 8),
        (a.strike, 9),
    ];
    proof {
        assert(flags@ =~= style_flags(a));
    }
    let ghost s0 = output@;
    let mut i: usize = 0;
    while i < 8
        invariant
            i <= 8,
            flags@ == style_flags(a),
            output@ == s0 + flagged(flags@.take(i as int)),
        decreases 8 - i,
    {
        let (enabled, code) = flags[i];
        proof {
            assert(flags@.take(i + 1).drop_last() =~= flags@.take(i as int));
            assert(flags@.take(i + 1).last() == (enabled, code));
        }
        push_style(output, enabled, code);
        i += 1;
        proof {
            assert(output@ =~= s0 + flagged(flags@.take(i as int)));
        }
    }
    proof {
        assert(flags@.take(8) =~= flags@);
    }
}

fn push_colors(output: &mut Vec<u8>, a: Attributes)
    ensures
        final(output)@ == old(output)@ + colors_parameters(a),
{
    let ghost s0 = output@;
    push_color(output, a.foreground, 38, 30, 90);
    push_color(output, a.background, 48, 40, 100);
    push_color(output, a.underline_color, 58, 0, 0);
    proof {
        assert(output@ =~= s0 + colors_parameters(a));
    }
}

fn sgr_bytes(wanted: Attributes) -> (r: Vec<u8>)
    ensures
        r@ == sgr_sequence(wanted),
{
    let mut sequence: Vec<u8> = Vec::new();
    sequence.push(27);
    sequence.push(91);
    sequence.push(48);
    let ghost intro = sequence@;
    push_styles(&mut sequence, wanted);
    let ghost styled = sequence@;
    push_colors(&mut sequence, wanted);
    let ghost colored = sequence@;
    sequence.push(109);
    proof {
        assert(intro =~= seq![27u8, 91u8, 48u8]);
        assert(sequence@ =~= colored.push(109u8));
        assert(sequence@ =~= sgr_sequence(wanted));
    }
    sequence
}

/// Switches the outer terminal to the attributes, as it can show them, unless they
/// are already in effect.
pub fn set_attributes(
    output: &mut Vec<u8>,
    current: &mut Option<Attributes>,
    wanted: Attributes,
    capabilities: Capabilities,
)
    ensures
        ({
            let adapted = adapted_attributes(wanted, capabilities);
            &&& *final(current) == Some(adapted)
            &&& final(output)@ == if *old(current) == Some(adapted) {
                old(output)@
            } else {
                old(output)@ + sgr_sequence(adapted)
            }
        }),
{
    let wanted = adapt_attributes(wanted, capabilities);
    let same = match *current {
        Some(attributes) => attributes == wanted,
        None => false,
    };
    if same {
        return;
    }
    *current = Some(wanted);
    let sequence = sgr_bytes(wanted);
    let ghost before = output@;
    let mut sequence = sequence;
    output.append(&mut sequence);
}

/// The sequence that moves the cursor to a zero-based cell.
pub open spec fn cursor_sequence(row: u16, column: u16) -> Seq<u8> {
    seq![27u8, 91u8] + decimal((row + 1) as nat) + seq![59u8] + decimal((column + 1) as nat)
        + seq![72u8]
}

pub fn move_cursor(output: &mut Vec<u8>, row: u16, column: u16)
    requires
        row < u16::MAX,
        column < u16::MAX,
    ensures
        final(output)@ == old(output)@ + cursor_sequence(row, column),
{
    let ghost start = output@;
    output.push(27);
    output.push(91);
    push_decimal(output, (row + 1) as u64);
    output.push(59);
    push_decimal(output, (column + 1) as u64);
    output.push(72);
    proof {
        assert(output@ =~= start + cursor_sequence(row, column));
    }
}

/// Appends a character in UTF-8.
pub fn push_char(output: &mut Vec<u8>, character: char)
    ensures
        final(output)@ == old(output)@ + utf8(seq![character]),
{
    let mut text = String::new();
    text.push(character);
    proof {
        assert(text@ =~= seq![character]);
    }
    let bytes = text.as_str().as_bytes();
    let mut encoded = vstd::slice::slice_to_vec(bytes);
    output.append(&mut encoded);
}

/// The pane next to a cell, when the cell exists.
pub open spec fn beside(rects: Seq<(PaneId, Rect)>, x: Option<u16>, y: Option<u16>) -> Option<PaneId> {
    neighbor_of(rects, x, y)
}

/// The character drawn on a cell that no pane covers: a line between the panes on
/// either side, heavy (or `#` without box drawing) where it borders the active pane.
pub open spec fn border_char(rects: Seq<(PaneId, Rect)>, active: Option<PaneId>, x: u16, y: u16, unicode: bool) -> char {
    let left = beside(rects, if x > 0 { Some((x - 1) as u16) } else { None }, Some(y));
    let right = beside(rects, Some(if x < u16::MAX { (x + 1) as u16 } else { x }), Some(y));
    let above = beside(rects, Some(x), if y > 0 { Some((y - 1) as u16) } else { None });
    let below = beside(rects, Some(x), Some(if y < u16::MAX { (y + 1) as u16 } else { y }));
    let touches = |p: Option<PaneId>| p is Some && active == p;
    let near_active = touches(left) || touches(right) || touches(above) || touches(below);
    let across = left is Some || right is Some;
    let along = above is Some || below is Some;
    if unicode {
        if !across && !along {
            ' '
        } else if near_active {
            if across && along {
                '╋'
            } else if across {
                '┃'
            } else {
                '━'
            }
        } else if across && along {
            '┼'
        } else if across {
            '│'
        } else {
            '─'
        }
    } else if near_active {
        '#'
    } else if across && along {
        '+'
    } else if across {
        '|'
    } else if along {
        '-'
    } else {
        ' '
    }
}

fn is_active(pane: Option<PaneId>, active: Option<PaneId>) -> (r: bool)
    ensures
        r == (pane is Some && active == pane),
{
    match (pane, active) {
        (Some(p), Some(a)) => p == a,
        _ => false,
    }
}

pub fn border(rects: &[(PaneId, Rect)], active: Option<PaneId>, x: u16, y: u16, unicode: bool) -> (r: char)
    ensures
        r == border_char(rects@, active, x, y, unicode),
{
    let left = neighbor(rects, if x > 0 { Some(x - 1) } else { None }, Some(y));
    let right = neighbor(rects, Some(x.saturating_add(1)), Some(y));
    let above = neighbor(rects, Some(x), if y > 0 { Some(y - 1) } else { None });
    let below = neighbor(rects, Some(x), Some(y.saturating_add(1)));
    let near_active = is_active(left, active) || is_active(right, active) || is_active(above, active)
        || is_active(below, active);
    let across = left.is_some() || right.is_some();
    let along = above.is_some() || below.is_some();
    if unicode {
        if !across && !along {
            ' '
        } else if near_active {
            if across && along {
                '╋'
            } else if across {
                '┃'
            } else {
                '━'
            }
        } else if across && along {
            '┼'
        } else if across {
            '│'
        } else {
            '─'
        }
    } else if near_active {
        '#'
    } else if across && along {
        '+'
    } else if across {
        '|'
    } else if along {
        '-'
    } else {
        ' '
    }
}


/// A piece of output: bytes as they are, or bytes drawn with attributes.
pub enum Stroke {
    Raw(Seq<u8>),
    Styled(Attributes, Seq<u8>),
}

/// The bytes that draw the strokes, starting with `current` attributes in effect,
/// and the attributes in effect after them: an attribute sequence is sent before
/// styled bytes only when their attributes, as the terminal can show them, are not
/// already in effect.
#[verifier::opaque]
pub open spec fn stroked(strokes: Seq<Stroke>, current: Option<Attributes>, capabilities: Capabilities) -> (
    Seq<u8>,
    Option<Attributes>,
)
    decreases strokes.len(),
{
    if strokes.len() == 0 {
        (Seq::empty(), current)
    } else {
        let (before, now) = stroked(strokes.drop_last(), current, capabilities);
        match strokes.last() {
            Stroke::Raw(bytes) => (before + bytes, now),
            Stroke::Styled(attributes, bytes) => {
                let adapted = adapted_attributes(attributes, capabilities);
                (
                    before + (if now == Some(adapted) {
                        Seq::empty()
                    } else {
                        sgr_sequence(adapted)
                    }) + bytes,
                    Some(adapted),
                )
            },
        }
    }
}

/// One more styled stroke drawn after `strokes`.
pub proof fn lemma_stroked_styled(
    strokes: Seq<Stroke>,
    current: Option<Attributes>,
    capabilities: Capabilities,
    attributes: Attributes,
    bytes: Seq<u8>,
)
    ensures
        ({
            let (before, now) = stroked(strokes, current, capabilities);
            let adapted = adapted_attributes(attributes, capabilities);
            stroked(strokes.push(Stroke::Styled(attributes, bytes)), current, capabilities) == (
                before + (if now == Some(adapted) {
                    Seq::empty()
                } else {
                    sgr_sequence(adapted)
                }) + bytes,
                Some(adapted),
            )
        }),
{
    reveal(stroked);
    assert(strokes.push(Stroke::Styled(attributes, bytes)).drop_last() =~= strokes);
}

/// One more raw stroke drawn after `strokes`.
pub proof fn lemma_stroked_raw(
    strokes: Seq<Stroke>,
    current: Option<Attributes>,
    capabilities: Capabilities,
    bytes: Seq<u8>,
)
    ensures
        ({
            let (before, now) = stroked(strokes, current, capabilities);
            stroked(strokes.push(Stroke::Raw(bytes)), current, capabilities) == (before + bytes, now)
        }),
{
    reveal(stroked);
    assert(strokes.push(Stroke::Raw(bytes)).drop_last() =~= strokes);
}

/// Nothing drawn yet.
pub proof fn lemma_stroked_empty(current: Option<Attributes>, capabilities: Capabilities)
    ensures
        stroked(Seq::empty(), current, capabilities) == (Seq::<u8>::empty(), current),
{
    reveal(stroked);
}

/// The parameters of the styles that are on hold the byte `'0' + code` of each such
/// style, and nothing else but separators.
proof fn lemma_flagged_holds(flags: Seq<(bool, u8)>, x: u8)
    requires
        forall|k: int| 0 <= k < flags.len() ==> (#[trigger] flags[k]).1 <= 9,
        x != 59,
    ensures
        flagged(flags).contains(x) <==> exists|k: int|
            0 <= k < flags.len() && (#[trigger] flags[k]).0 && 48 + flags[k].1 == x,
    decreases flags.len(),
{
    if flags.len() > 0 {
        let rest = flags.drop_last();
        assert forall|k: int| 0 <= k < rest.len() implies (#[trigger] rest[k]).1 <= 9 by {
            assert(rest[k] == flags[k]);
        }
        lemma_flagged_holds(rest, x);
        let last = flags.last();
        let tail = style_parameter(last.0, last.1);
        assert(flagged(flags) == flagged(rest) + tail);
        if flagged(flags).contains(x) {
            let i = choose|i: int| 0 <= i < flagged(flags).len() && flagged(flags)[i] == x;
            if i < flagged(rest).len() {
                assert(flagged(rest)[i] == x);
                let k = choose|k: int| 0 <= k < rest.len() && (#[trigger] rest[k]).0 && 48 + rest[k].1 == x;
                assert(flags[k] == rest[k]);
            } else {
                assert(tail[i - flagged(rest).len()] == x);
                assert(flags[flags.len() - 1] == last);
            }
        }
        if exists|k: int| 0 <= k < flags.len() && (#[trigger] flags[k]).0 && 48 + flags[k].1 == x {
            let k = choose|k: int| 0 <= k < flags.len() && (#[trigger] flags[k]).0 && 48 + flags[k].1 == x;
            if k < rest.len() {
                assert(rest[k] == flags[k]);
                let i = choose|i: int| 0 <= i < flagged(rest).len() && flagged(rest)[i] == x;
                assert((flagged(rest) + tail)[i] == x);
            } else {
                assert(tail[1] == x);
                assert((flagged(rest) + tail)[flagged(rest).len() as int + 1] == x);
            }
        }
    }
}

/// The styles in the SGR sequence drawn for attributes, each as its ECMA-48 code
/// after `\x1b[0`: `1` is there exactly when bold is on, `2` exactly when faint is,
/// and so `3` italic, `4` underline, `5` blink, `7` inverse, `8` hidden and `9`
/// strike; no other code is.
pub proof fn lemma_style_codes(a: Attributes)
    ensures
        sgr_sequence(a) == seq![27u8, 91u8, 48u8] + style_parameters(a) + colors_parameters(a) + seq![109u8],
        style_parameters(a).contains(49u8) <==> a.bold,
        style_parameters(a).contains(50u8) <==> a.faint,
        style_parameters(a).contains(51u8) <==> a.italic,
        style_parameters(a).contains(52u8) <==> a.underline,
        style_parameters(a).contains(53u8) <==> a.blink,
        style_parameters(a).contains(55u8) <==> a.inverse,
        style_parameters(a).contains(56u8) <==> a.hidden,
        style_parameters(a).contains(57u8) <==> a.strike,
        !style_parameters(a).contains(48u8),
        !style_parameters(a).contains(54u8),
{
    let flags = style_flags(a);
    assert forall|k: int| 0 <= k < flags.len() implies (#[trigger] flags[k]).1 <= 9 by {}
    lemma_flagged_holds(flags, 49);
    lemma_flagged_holds(flags, 50);
    lemma_flagged_holds(flags, 51);
    lemma_flagged_holds(flags, 52);
    lemma_flagged_holds(flags, 53);
    lemma_flagged_holds(flags, 55);
    lemma_flagged_holds(flags, 56);
    lemma_flagged_holds(flags, 57);
    lemma_flagged_holds(flags, 48);
    lemma_flagged_holds(flags, 54);
    assert(flags[0] == (a.bold, 1u8));
    assert(flags[1] == (a.faint, 2u8));
    assert(flags[2] == (a.italic, 3u8));
    assert(flags[3] == (a.underline, 4u8));
    assert(flags[4] == (a.blink, 5u8));
    assert(flags[5] == (a.inverse, 7u8));
    assert(flags[6] == (a.hidden, 8u8));
    assert(flags[7] == (a.strike, 9u8));
}

/// The colour parameters drawn for attributes, by the standard SGR codes: text
/// colours 0-7 as `30`-`37` and 8-15 as `90`-`97`, backgrounds as `40`-`47` and
/// `100`-`107`, other indexed colours as `38;5;n` and `48;5;n`, direct colours as
/// `38;2;r;g;b` and `48;2;r;g;b`, and the underline colour always as `58;5;n` or
/// `58;2;r;g;b`; the default colour adds nothing.
pub proof fn lemma_color_codes(a: Attributes)
    ensures
        colors_parameters(a) == color_parameters(a.foreground, 38, 30, 90) + color_parameters(a.background, 48, 40, 100)
            + color_parameters(a.underline_color, 58, 0, 0),
        a.foreground == Color::Default ==> color_parameters(a.foreground, 38, 30, 90) == Seq::<u8>::empty(),
        a.foreground matches Color::Indexed(i) ==> color_parameters(a.foreground, 38, 30, 90) == (if i < 8 {
            seq![59u8] + decimal(30 + i as nat)
        } else if i < 16 {
            seq![59u8] + decimal(90 + (i - 8) as nat)
        } else {
            seq![59u8, 51, 56, 59, 53, 59] + decimal(i as nat)
        }),
        a.foreground matches Color::Rgb(r, g, b) ==> color_parameters(a.foreground, 38, 30, 90) == seq![59u8, 51, 56, 59, 50, 59]
            + decimal(r as nat) + seq![59u8] + decimal(g as nat) + seq![59u8] + decimal(b as nat),
        a.background == Color::Default ==> color_parameters(a.background, 48, 40, 100) == Seq::<u8>::empty(),
        a.background matches Color::Indexed(i) ==> color_parameters(a.background, 48, 40, 100) == (if i < 8 {
            seq![59u8] + decimal(40 + i as nat)
        } else if i < 16 {
            seq![59u8] + decimal(100 + (i - 8) as nat)
        } else {
            seq![59u8, 52, 56, 59, 53, 59] + decimal(i as nat)
        }),
        a.background matches Color::Rgb(r, g, b) ==> color_parameters(a.background, 48, 40, 100) == seq![59u8, 52, 56, 59, 50, 59]
            + decimal(r as nat) + seq![59u8] + decimal(g as nat) + seq![59u8] + decimal(b as nat),
        a.underline_color matches Color::Indexed(i) ==> color_parameters(a.underline_color, 58, 0, 0)
            == seq![59u8, 53, 56, 59, 53, 59] + decimal(i as nat),
        a.underline_color matches Color::Rgb(r, g, b) ==> color_parameters(a.underline_color, 58, 0, 0) == seq![59u8, 53, 56, 59, 50, 59]
            + decimal(r as nat) + seq![59u8] + decimal(g as nat) + seq![59u8] + decimal(b as nat),
{
    reveal_with_fuel(decimal, 3);
    assert(decimal(38) =~= seq![51u8, 56]);
    assert(decimal(48) =~= seq![52u8, 56]);
    assert(decimal(58) =~= seq![53u8, 56]);
}

/// A graphic-rendition value that turns one style on.
pub open spec fn is_style_code(x: u16) -> bool {
    1 <= x <= 9 && x != 6
}

/// Whether the style that `code` turns on is on.
pub open spec fn style_on(a: Attributes, code: u16) -> bool {
    if code == 1 {
        a.bold
    } else if code == 2 {
        a.faint
    } else if code == 3 {
        a.italic
    } else if code == 4 {
        a.underline
    } else if code == 5 {
        a.blink
    } else if code == 7 {
        a.inverse
    } else if code == 8 {
        a.hidden
    } else {
        a.strike
    }
}

proof fn lemma_renditions_styles(a: Attributes, v: Seq<Seq<u16>>, i: int, code: u16)
    requires
        0 <= i <= v.len(),
        forall|j: int| i <= j < v.len() ==> (#[trigger] v[j]).len() >= 1 && is_style_code(v[j][0]),
        is_style_code(code),
    ensures
        style_on(renditions(a, v, i), code) == (style_on(a, code) || exists|j: int|
            i <= j < v.len() && (#[trigger] v[j])[0] == code),
    decreases v.len() - i,
{
    if i < v.len() {
        let x = v[i][0];
        assert(is_style_code(x));
        let next = rendition(a, x);
        assert(renditions(a, v, i) == renditions(next, v, i + 1));
        assert(style_on(next, code) == (style_on(a, code) || x == code));
        lemma_renditions_styles(next, v, i + 1, code);
        if exists|j: int| i <= j < v.len() && (#[trigger] v[j])[0] == code {
            let j = choose|j: int| i <= j < v.len() && (#[trigger] v[j])[0] == code;
            if j > i {
                assert(i + 1 <= j < v.len() && v[j][0] == code);
            }
        }
    }
}

/// The style values in parameters drawn as `;` and one digit each.
pub open spec fn read_back(p: Seq<u8>) -> Seq<Seq<u16>> {
    Seq::new(p.len() / 2, |j: int| seq![(p[2 * j + 1] - 48) as u16])
}

proof fn lemma_flagged_shape(flags: Seq<(bool, u8)>)
    requires
        forall|k: int| 0 <= k < flags.len() ==> is_style_code((#[trigger] flags[k]).1 as u16),
    ensures
        flagged(flags).len() % 2 == 0,
        forall|j: int| 0 <= j < flagged(flags).len() / 2 ==> #[trigger] flagged(flags)[2 * j] == 59u8,
        forall|j: int| 0 <= j < flagged(flags).len() / 2 ==> is_style_code((flagged(flags)[2 * j + 1] - 48) as u16)
            && 49 <= #[trigger] flagged(flags)[2 * j + 1] <= 57,
    decreases flags.len(),
{
    if flags.len() > 0 {
        let rest = flags.drop_last();
        assert forall|k: int| 0 <= k < rest.len() implies is_style_code((#[trigger] rest[k]).1 as u16) by {
            assert(rest[k] == flags[k]);
        }
        lemma_flagged_shape(rest);
        let last = flags.last();
        assert(is_style_code(flags[flags.len() - 1].1 as u16));
        let p = flagged(flags);
        let q = flagged(rest);
        assert(p == q + style_parameter(last.0, last.1));
        let h = q.len() / 2;
        assert(q.len() == 2 * h);
        if last.0 {
            assert(p.len() == 2 * h + 2);
        } else {
            assert(p =~= q);
        }
        assert forall|j: int| 0 <= j < p.len() / 2 implies #[trigger] p[2 * j] == 59u8 && is_style_code((p[2 * j + 1] - 48) as u16)
            && 49 <= p[2 * j + 1] <= 57 by {
            if j < h {
                assert(q[2 * j] == 59u8);
                assert(49 <= q[2 * j + 1] <= 57);
                assert(p[2 * j] == q[2 * j]);
                assert(p[2 * j + 1] == q[2 * j + 1]);
            } else {
                assert(j == h);
                assert(last.0);
                assert(p[2 * j] == style_parameter(last.0, last.1)[0]);
                assert(p[2 * j + 1] == style_parameter(last.0, last.1)[1]);
            }
        }
        assert(p.len() % 2 == 0);
    } else {
        assert(flagged(flags) =~= Seq::<u8>::empty());
    }
}

/// Drawing attributes and reading the drawing back as a terminal does gives the
/// same styles: after the reset `0`, the style values of the SGR sequence drawn for
/// `a` turn on exactly the styles of `a`, whatever was in effect before.
#[verifier::spinoff_prover]
#[verifier::rlimit(80)]
pub proof fn lemma_styles_read_back(a: Attributes, before: Attributes)
    ensures
        ({
            let back = sgr_applied(before, seq![seq![0u16]] + read_back(style_parameters(a)));
            &&& back.bold == a.bold
            &&& back.faint == a.faint
            &&& back.italic == a.italic
            &&& back.underline == a.underline
            &&& back.blink == a.blink
            &&& back.inverse == a.inverse
            &&& back.hidden == a.hidden
            &&& back.strike == a.strike
        }),
{
    let flags = style_flags(a);
    assert forall|k: int| 0 <= k < flags.len() implies is_style_code((#[trigger] flags[k]).1 as u16) by {}
    lemma_flagged_shape(flags);
    lemma_style_codes(a);
    let p = style_parameters(a);
    let values = seq![seq![0u16]] + read_back(p);
    assert(values[0] == seq![0u16]);
    assert(renditions(before, values, 0) == renditions(plain(), values, 1));
    assert forall|j: int| 1 <= j < values.len() implies (#[trigger] values[j]).len() >= 1 && is_style_code(values[j][0]) by {
        assert(values[j] == read_back(p)[j - 1]);
        assert(49 <= p[2 * (j - 1) + 1] <= 57);
    }
    let back = renditions(plain(), values, 1);
    assert forall|code: u16| is_style_code(code) implies style_on(back, code) == p.contains((48 + code) as u8) by {
        lemma_renditions_styles(plain(), values, 1, code);
        let x = (48 + code) as u8;
        if p.contains(x) {
            let i = choose|i: int| 0 <= i < p.len() && p[i] == x;
            let j = i / 2;
            if i % 2 == 0 {
                assert(i == 2 * j);
                assert(p[2 * j] == 59u8);
            } else {
                assert(i == 2 * j + 1);
                assert(49 <= p[2 * j + 1] <= 57);
                assert(values[j + 1] == read_back(p)[j]);
                assert(values[j + 1][0] == code);
            }
        }
        if exists|j: int| 1 <= j < values.len() && (#[trigger] values[j])[0] == code {
            let j = choose|j: int| 1 <= j < values.len() && (#[trigger] values[j])[0] == code;
            assert(values[j] == read_back(p)[j - 1]);
            assert(49 <= p[2 * (j - 1) + 1] <= 57);
            assert(p[2 * (j - 1) + 1] == x);
        }
    }
    assert(style_on(back, 1) == p.contains(49u8));
    assert(style_on(back, 2) == p.contains(50u8));
    assert(style_on(back, 3) == p.contains(51u8));
    assert(style_on(back, 4) == p.contains(52u8));
    assert(style_on(back, 5) == p.contains(53u8));
    assert(style_on(back, 7) == p.contains(55u8));
    assert(style_on(back, 8) == p.contains(56u8));
    assert(style_on(back, 9) == p.contains(57u8));
}

} // verus!
