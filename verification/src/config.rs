use vstd::prelude::*;

use crate::document::{
    lemma_viewed_entries, lemma_viewed_list, viewed, viewed_entries, viewed_list, Setting,
    SettingView,
};
use crate::input::is_control;
use crate::document::{entry, parse_toml, toml_entries};
use crate::outer::{built_in, profile_named};
use crate::profile::{parse as parse_profiles, profiles_of, profiles_view, Profile, ProfileView};
use crate::status::{append, chars_of, first_index, lemma_first_index, owned};
use crate::terminal::Color;
use crate::text::{decimal_text, push_decimal_text, str_eq};

verus! {

/// The text of an error in a configuration field.
pub open spec fn field_message(field: Seq<char>, message: Seq<char>) -> Seq<char> {
    "configuration field '"@ + field + "': "@ + message
}

/// An error in a configuration field.
pub fn field_error(field: &str, message: &str) -> (r: String)
    ensures
        r@ == field_message(field@, message@),
{
    let mut out = owned("configuration field '");
    append(&mut out, field);
    append(&mut out, "': ");
    append(&mut out, message);
    out
}

/// A quoted string.
pub open spec fn text_of(v: SettingView) -> Result<Seq<char>, Seq<char>> {
    match v {
        SettingView::Text(t) => Ok(t),
        _ => Err("expected a quoted string"@),
    }
}

pub fn parse_string(field: &str, value: &Setting) -> (r: Result<String, String>)
    ensures
        match text_of(viewed(*value)) {
            Ok(t) => r matches Ok(s) && s@ == t,
            Err(m) => r matches Err(e) && e@ == field_message(field@, m),
        },
{
    match value {
        Setting::Text(text) => Ok(text.clone()),
        _ => Err(field_error(field, "expected a quoted string")),
    }
}

/// A non-empty array of quoted strings, none holding a NUL character.
pub open spec fn string_list(v: SettingView) -> Option<Seq<Seq<char>>> {
    match v {
        SettingView::List(items) => if items.len() > 0 && forall|i: int|
            0 <= i < items.len() ==> (#[trigger] items[i] matches SettingView::Text(t) && !t.contains('\0')) {
            Some(Seq::new(items.len(), |i: int| items[i]->Text_0))
        } else {
            None
        },
        _ => None,
    }
}

fn has_nul(text: &String) -> (r: bool)
    ensures
        r == text@.contains('\0'),
{
    let chars = chars_of(text.as_str());
    let mut i: usize = 0;
    while i < chars.len()
        invariant
            0 <= i <= chars@.len(),
            chars@ == text@,
            forall|j: int| 0 <= j < i ==> chars@[j] != '\0',
        decreases chars.len() - i,
    {
        if chars[i] == '\0' {
            return true;
        }
        i += 1;
    }
    false
}

pub fn parse_string_array(field: &str, value: &Setting) -> (r: Result<Vec<String>, String>)
    ensures
        match string_list(viewed(*value)) {
            Some(l) => r matches Ok(v) && v@.map_values(|s: String| s@) == l,
            None => r matches Err(e) && e@ == field_message(field@, "expected a non-empty array of quoted strings"@),
        },
{
    let items = match value {
        Setting::List(items) => items,
        _ => return Err(field_error(field, "expected a non-empty array of quoted strings")),
    };
    proof {
        lemma_viewed_list(items@);
    }
    let ghost view = viewed_list(items@);
    if items.len() == 0 {
        return Err(field_error(field, "expected a non-empty array of quoted strings"));
    }
    let mut out: Vec<String> = Vec::new();
    let mut i: usize = 0;
    while i < items.len()
        invariant
            0 <= i <= items@.len(),
            view == viewed_list(items@),
            viewed(*value) == SettingView::List(view),
            view.len() == items@.len(),
            forall|j: int| 0 <= j < items@.len() ==> #[trigger] view[j] == viewed(items@[j]),
            forall|j: int| 0 <= j < i ==> (#[trigger] view[j] matches SettingView::Text(t) && !t.contains('\0')),
            out@.map_values(|s: String| s@) == Seq::new(i as nat, |j: int| view[j]->Text_0),
        decreases items.len() - i,
    {
        match &items[i] {
            Setting::Text(text) => {
                assert(view[i as int] == viewed(items@[i as int]));
                assert(view[i as int] == SettingView::Text(text@));
                if has_nul(text) {
                    return Err(field_error(field, "expected a non-empty array of quoted strings"));
                }
                let copy = text.clone();
                let ghost prev = out@;
                out.push(copy);
                assert(out@ =~= prev.push(copy));
                assert(out@.map_values(|s: String| s@) =~= prev.map_values(|s: String| s@).push(copy@));
                assert(out@.map_values(|s: String| s@) =~= Seq::new((i + 1) as nat, |j: int| view[j]->Text_0));
            },
            _ => {
                assert(view[i as int] == viewed(items@[i as int]));
                return Err(field_error(field, "expected a non-empty array of quoted strings"));
            },
        }
        i += 1;
    }
    Ok(out)
}

/// The prefix key: `C-` and a lower-case letter, as the control code it sends.
pub open spec fn prefix_of(v: SettingView) -> Result<u8, Seq<char>> {
    match text_of(v) {
        Err(m) => Err(m),
        Ok(t) => if t.len() == 3 && t[0] == 'C' && t[1] == '-' && 'a' <= t[2] && t[2] <= 'z' {
            Ok((t[2] as u8 - 96) as u8)
        } else {
            Err("expected one key from C-a through C-z"@)
        },
    }
}

pub fn parse_prefix(field: &str, value: &Setting) -> (r: Result<u8, String>)
    ensures
        match prefix_of(viewed(*value)) {
            Ok(p) => r == Ok::<u8, String>(p),
            Err(m) => r matches Err(e) && e@ == field_message(field@, m),
        },
{
    let text = parse_string(field, value)?;
    let chars = chars_of(text.as_str());
    if chars.len() == 3 && chars[0] == 'C' && chars[1] == '-' && 'a' <= chars[2] && chars[2] <= 'z' {
        Ok((chars[2] as u8) - 96)
    } else {
        Err(field_error(field, "expected one key from C-a through C-z"))
    }
}

pub open spec fn bool_of(v: SettingView) -> Result<bool, Seq<char>> {
    match v {
        SettingView::Boolean(b) => Ok(b),
        _ => Err("expected true or false"@),
    }
}

pub fn parse_bool(field: &str, value: &Setting) -> (r: Result<bool, String>)
    ensures
        match bool_of(viewed(*value)) {
            Ok(b) => r == Ok::<bool, String>(b),
            Err(m) => r matches Err(e) && e@ == field_message(field@, m),
        },
{
    match value {
        Setting::Boolean(flag) => Ok(*flag),
        _ => Err(field_error(field, "expected true or false")),
    }
}

/// An integer from `low` through `high`.
pub open spec fn ranged(v: SettingView, low: int, high: int) -> Option<int> {
    match v {
        SettingView::Integer(i) => if low <= i <= high {
            Some(i as int)
        } else {
            None
        },
        _ => None,
    }
}

fn integer_in(value: &Setting, low: i64, high: i64) -> (r: Option<i64>)
    ensures
        match ranged(viewed(*value), low as int, high as int) {
            Some(i) => r == Some(i as i64),
            None => r is None,
        },
{
    match value {
        Setting::Integer(number) => if low <= *number && *number <= high {
            Some(*number)
        } else {
            None
        },
        _ => None,
    }
}

pub fn parse_scrollback(field: &str, value: &Setting) -> (r: Result<u16, String>)
    ensures
        match ranged(viewed(*value), 0, 10000) {
            Some(i) => r == Ok::<u16, String>(i as u16),
            None => r matches Err(e) && e@ == field_message(field@, "expected an integer from 0 through 10000"@),
        },
{
    match integer_in(value, 0, 10000) {
        Some(number) => Ok(number as u16),
        None => Err(field_error(field, "expected an integer from 0 through 10000")),
    }
}

pub fn parse_tab_width(field: &str, value: &Setting) -> (r: Result<u8, String>)
    ensures
        match ranged(viewed(*value), 1, 16) {
            Some(i) => r == Ok::<u8, String>(i as u8),
            None => r matches Err(e) && e@ == field_message(field@, "expected an integer from 1 through 16"@),
        },
{
    match integer_in(value, 1, 16) {
        Some(number) => Ok(number as u8),
        None => Err(field_error(field, "expected an integer from 1 through 16")),
    }
}

pub fn parse_refresh(field: &str, value: &Setting) -> (r: Result<u16, String>)
    ensures
        match ranged(viewed(*value), 1, 3600) {
            Some(i) => r == Ok::<u16, String>(i as u16),
            None => r matches Err(e) && e@ == field_message(field@, "expected an integer from 1 through 3600"@),
        },
{
    match integer_in(value, 1, 3600) {
        Some(number) => Ok(number as u16),
        None => Err(field_error(field, "expected an integer from 1 through 3600")),
    }
}

/// Every `%` begins a directive `strftime` is asked for: a year, month, day, hour (24
/// or 12), minute, second, half of the day, or a `%` sign.
pub open spec fn directives_ok(t: Seq<char>) -> bool
    decreases t.len(),
{
    if t.len() == 0 {
        true
    } else if t[0] != '%' {
        directives_ok(t.drop_first())
    } else {
        t.len() >= 2 && (t[1] == 'Y' || t[1] == 'm' || t[1] == 'd' || t[1] == 'H' || t[1] == 'I'
            || t[1] == 'M' || t[1] == 'S' || t[1] == 'p' || t[1] == '%') && directives_ok(t.skip(2))
    }
}

pub open spec fn has_control(t: Seq<char>) -> bool {
    exists|i: int| 0 <= i < t.len() && is_control(#[trigger] t[i])
}

/// A date or time format: a string of at most 64 characters, no control characters,
/// and only the directives allowed.
pub open spec fn format_of(v: SettingView) -> Result<Seq<char>, Seq<char>> {
    match text_of(v) {
        Err(m) => Err(m),
        Ok(t) => if t.len() > 64 {
            Err("must contain at most 64 characters"@)
        } else if has_control(t) {
            Err("must not contain control characters"@)
        } else if !directives_ok(t) {
            Err("contains an unsupported time directive"@)
        } else {
            Ok(t)
        },
    }
}

fn control_in(chars: &Vec<char>) -> (r: bool)
    ensures
        r == has_control(chars@),
{
    let mut i: usize = 0;
    while i < chars.len()
        invariant
            0 <= i <= chars@.len(),
            forall|j: int| 0 <= j < i ==> !is_control(#[trigger] chars@[j]),
        decreases chars.len() - i,
    {
        let v = chars[i] as u32;
        if v < 0x20 || (0x7f <= v && v < 0xa0) {
            assert(is_control(chars@[i as int]));
            return true;
        }
        i += 1;
    }
    false
}

fn directives_valid(chars: &Vec<char>) -> (r: bool)
    ensures
        r == directives_ok(chars@),
{
    let mut i: usize = 0;
    assert(chars@.skip(0) =~= chars@);
    while i < chars.len()
        invariant
            0 <= i <= chars@.len(),
            directives_ok(chars@.skip(i as int)) == directives_ok(chars@),
        decreases chars.len() - i,
    {
        let ghost rest = chars@.skip(i as int);
        assert(rest[0] == chars@[i as int]);
        if chars[i] != '%' {
            assert(rest.drop_first() =~= chars@.skip(i + 1));
            i += 1;
        } else {
            if i + 1 >= chars.len() {
                return false;
            }
            let next = chars[i + 1];
            assert(rest[1] == next);
            if !(next == 'Y' || next == 'm' || next == 'd' || next == 'H' || next == 'I' || next == 'M'
                || next == 'S' || next == 'p' || next == '%') {
                return false;
            }
            assert(rest.skip(2) =~= chars@.skip(i + 2));
            i += 2;
        }
    }
    assert(chars@.skip(i as int).len() == 0);
    true
}

pub fn parse_format(field: &str, value: &Setting) -> (r: Result<String, String>)
    ensures
        match format_of(viewed(*value)) {
            Ok(t) => r matches Ok(s) && s@ == t,
            Err(m) => r matches Err(e) && e@ == field_message(field@, m),
        },
{
    let text = parse_string(field, value)?;
    let chars = chars_of(text.as_str());
    if chars.len() > 64 {
        return Err(field_error(field, "must contain at most 64 characters"));
    }
    if control_in(&chars) {
        return Err(field_error(field, "must not contain control characters"));
    }
    if !directives_valid(&chars) {
        return Err(field_error(field, "contains an unsupported time directive"));
    }
    Ok(text)
}

/// A string of at most `maximum` characters and no control characters.
pub open spec fn limited_text(v: SettingView, maximum: nat) -> Result<Seq<char>, Seq<char>> {
    match text_of(v) {
        Err(m) => Err(m),
        Ok(t) => if t.len() > maximum {
            Err("must contain at most "@ + decimal_text(maximum) + " characters"@)
        } else if has_control(t) {
            Err("must not contain control characters"@)
        } else {
            Ok(t)
        },
    }
}

pub fn parse_text(field: &str, value: &Setting, maximum: usize) -> (r: Result<String, String>)
    ensures
        match limited_text(viewed(*value), maximum as nat) {
            Ok(t) => r matches Ok(s) && s@ == t,
            Err(m) => r matches Err(e) && e@ == field_message(field@, m),
        },
{
    let text = parse_string(field, value)?;
    let chars = chars_of(text.as_str());
    if chars.len() > maximum {
        let mut message = owned("must contain at most ");
        push_decimal_text(&mut message, maximum as u64);
        append(&mut message, " characters");
        return Err(field_error(field, message.as_str()));
    }
    if control_in(&chars) {
        return Err(field_error(field, "must not contain control characters"));
    }
    Ok(text)
}


/// The fields a status format names so far: `{session}`, `{tabs}`, `{date}` and
/// `{time}`, and how many `{fill}` fields.
pub struct Placeholders {
    pub session: bool,
    pub tabs: bool,
    pub date: bool,
    pub time: bool,
    pub fill: nat,
}

/// Checks the fields of a status format from `rest` on: each `{` must be closed and
/// name a known field; after the last field no `}` may stand; the format must name
/// the session, the tabs, the date and the time, and hold exactly one fill.
pub open spec fn placeholders_ok(rest: Seq<char>, seen: Placeholders) -> Option<Seq<char>>
    decreases rest.len(),
{
    match first_index(rest, '{') {
        None => if rest.contains('}') {
            Some("contains an unmatched closing brace"@)
        } else if !(seen.session && seen.tabs && seen.date && seen.time) {
            Some("must contain {session}, {tabs}, {date}, and {time}"@)
        } else if seen.fill != 1 {
            Some("must contain exactly one {fill}"@)
        } else {
            None
        },
        Some(start) => {
            let after = rest.skip(start + 1 as int);
            match first_index(after, '}') {
                None => Some("contains an unterminated placeholder"@),
                Some(end) => {
                    proof {
                        lemma_first_index(rest, '{');
                        lemma_first_index(after, '}');
                    }
                    let name = after.take(end as int);
                    let next = after.skip(end + 1 as int);
                    if name == "session"@ {
                        placeholders_ok(next, Placeholders { session: true, ..seen })
                    } else if name == "tabs"@ {
                        placeholders_ok(next, Placeholders { tabs: true, ..seen })
                    } else if name == "date"@ {
                        placeholders_ok(next, Placeholders { date: true, ..seen })
                    } else if name == "time"@ {
                        placeholders_ok(next, Placeholders { time: true, ..seen })
                    } else if name == "fill"@ {
                        placeholders_ok(next, Placeholders { fill: seen.fill + 1, ..seen })
                    } else if name == "label"@ || name == "cpu_usage"@ || name == "memory_usage"@
                        || name == "cpu_temp"@ {
                        placeholders_ok(next, seen)
                    } else {
                        Some("contains an unknown placeholder"@)
                    }
                },
            }
        },
    }
}

/// A status format: a string of at most 512 characters whose fields check out.
pub open spec fn status_format_of(v: SettingView) -> Result<Seq<char>, Seq<char>> {
    match limited_text(v, 512) {
        Err(m) => Err(m),
        Ok(t) => match placeholders_ok(t, Placeholders { session: false, tabs: false, date: false, time: false, fill: 0 }) {
            Some(m) => Err(m),
            None => Ok(t),
        },
    }
}

fn contains_char(chars: &Vec<char>, from: usize, c: char) -> (r: bool)
    requires
        from <= chars@.len(),
    ensures
        r == chars@.skip(from as int).contains(c),
{
    match crate::status::find_char(chars, from, c) {
        Some(i) => {
            assert(chars@.skip(from as int)[i - from] == c);
            true
        },
        None => {
            assert forall|j: int| 0 <= j < chars@.skip(from as int).len() implies chars@.skip(from as int)[j] != c by {
                assert(chars@.skip(from as int)[j] == chars@[from + j]);
            }
            false
        },
    }
}

pub fn parse_status_format(field: &str, value: &Setting) -> (r: Result<String, String>)
    ensures
        match status_format_of(viewed(*value)) {
            Ok(t) => r matches Ok(s) && s@ == t,
            Err(m) => r matches Err(e) && e@ == field_message(field@, m),
        },
{
    let text = parse_text(field, value, 512)?;
    let chars = chars_of(text.as_str());
    let ghost start_seen = Placeholders { session: false, tabs: false, date: false, time: false, fill: 0 };
    let mut session = false;
    let mut tabs = false;
    let mut date = false;
    let mut time = false;
    let mut fill: usize = 0;
    let mut pos: usize = 0;
    assert(chars@.skip(0) =~= chars@);
    loop
        invariant
            chars@ == text@,
            pos <= chars@.len(),
            fill <= pos,
            chars@.len() <= 512,
            start_seen == (Placeholders { session: false, tabs: false, date: false, time: false, fill: 0 }),
            status_format_of(viewed(*value)) == (match placeholders_ok(chars@, start_seen) {
                Some(m) => Err(m),
                None => Ok(chars@),
            }),
            placeholders_ok(chars@.skip(pos as int), Placeholders { session, tabs, date, time, fill: fill as nat })
                == placeholders_ok(chars@, start_seen),
        decreases chars@.len() - pos,
    {
        let ghost rest = chars@.skip(pos as int);
        let open = crate::status::find_char(&chars, pos, '{');
        proof {
            crate::status::lemma_found(chars@, pos as int, '{', open);
        }
        match open {
            None => {
                if contains_char(&chars, pos, '}') {
                    return Err(field_error(field, "contains an unmatched closing brace"));
                }
                if !(session && tabs && date && time) {
                    return Err(field_error(field, "must contain {session}, {tabs}, {date}, and {time}"));
                }
                if fill != 1 {
                    return Err(field_error(field, "must contain exactly one {fill}"));
                }
                return Ok(text);
            },
            Some(start) => {
                assert(start < chars.len());
                let ghost after = rest.skip(start - pos + 1);
                assert(after =~= chars@.skip(start + 1));
                let close = crate::status::find_char(&chars, start + 1, '}');
                proof {
                    crate::status::lemma_found(chars@, start + 1, '}', close);
                }
                match close {
                    None => return Err(field_error(field, "contains an unterminated placeholder")),
                    Some(end) => {
                        assert(end < chars.len());
                        let name = crate::status::string_of(&chars, start + 1, end);
                        assert(name@ =~= after.take(end - start - 1));
                        assert(after.skip(end - start - 1 + 1) =~= chars@.skip(end + 1));
                        let n = name.as_str();
                        if str_eq(n, "session") {
                            session = true;
                        } else if str_eq(n, "tabs") {
                            tabs = true;
                        } else if str_eq(n, "date") {
                            date = true;
                        } else if str_eq(n, "time") {
                            time = true;
                        } else if str_eq(n, "fill") {
                            fill += 1;
                        } else if str_eq(n, "label") || str_eq(n, "cpu_usage") || str_eq(n, "memory_usage")
                            || str_eq(n, "cpu_temp") {
                        } else {
                            return Err(field_error(field, "contains an unknown placeholder"));
                        }
                        pos = end + 1;
                    },
                }
            },
        }
    }
}

/// The `/`-separated pieces of a path, empty ones included.
pub open spec fn segments(t: Seq<char>) -> Seq<Seq<char>>
    decreases t.len(),
{
    match first_index(t, '/') {
        None => seq![t],
        Some(i) => {
            proof {
                lemma_first_index(t, '/');
            }
            seq![t.take(i as int)] + segments(t.skip(i + 1 as int))
        },
    }
}

/// The first piece of a path that names something: neither empty nor `.`.
pub open spec fn first_name(pieces: Seq<Seq<char>>) -> Option<Seq<char>>
    decreases pieces.len(),
{
    if pieces.len() == 0 {
        None
    } else if pieces[0].len() == 0 || pieces[0] == seq!['.'] {
        first_name(pieces.drop_first())
    } else {
        Some(pieces[0])
    }
}

/// A path below `/sys`, as `Path::starts_with` compares components, and with no `..`.
pub open spec fn below_sys(t: Seq<char>) -> bool {
    &&& t.len() > 0 && t[0] == '/'
    &&& first_name(segments(t)) == Some(seq!['s', 'y', 's'])
    &&& !segments(t).contains(seq!['.', '.'])
}

pub open spec fn temperature_path_of(v: SettingView) -> Result<Seq<char>, Seq<char>> {
    match text_of(v) {
        Err(m) => Err(m),
        Ok(t) => if below_sys(t) {
            Ok(t)
        } else {
            Err("expected an absolute path below /sys"@)
        },
    }
}

fn pieces_of(chars: &Vec<char>) -> (r: Vec<Vec<char>>)
    ensures
        crate::status::char_seqs(r@) == segments(chars@),
{
    let mut out: Vec<Vec<char>> = Vec::new();
    let mut cur: Vec<char> = Vec::new();
    let mut i: usize = 0;
    assert(chars@.skip(0) =~= chars@);
    while i < chars.len()
        invariant
            0 <= i <= chars@.len(),
            crate::status::char_seqs(out@) + segments(cur@ + chars@.skip(i as int)) == segments(chars@),
            !cur@.contains('/'),
        decreases chars.len() - i,
    {
        let ghost whole = cur@ + chars@.skip(i as int);
        proof {
            lemma_first_index(whole, '/');
        }
        if chars[i] == '/' {
            proof {
                assert(whole[cur@.len() as int] == '/');
                assert forall|j: int| 0 <= j < cur@.len() implies whole[j] != '/' by {
                    assert(whole[j] == cur@[j]);
                }
                match first_index(whole, '/') {
                    Some(k) => {
                        if k < cur@.len() {
                            assert(whole[k as int] == cur@[k as int]);
                        }
                    },
                    None => {},
                }
                assert(whole.take(cur@.len() as int) =~= cur@);
                assert(whole.skip(cur@.len() + 1 as int) =~= Seq::<char>::empty() + chars@.skip(i + 1));
            }
            let piece = cur;
            let ghost prev = out@;
            out.push(piece);
            proof {
                assert(crate::status::char_seqs(out@) =~= crate::status::char_seqs(prev).push(piece@));
            }
            cur = Vec::new();
            assert(cur@ + chars@.skip(i + 1) =~= chars@.skip(i + 1));
            assert(crate::status::char_seqs(out@) + segments(cur@ + chars@.skip(i + 1)) =~= segments(chars@));
        } else {
            let ghost before = cur@;
            cur.push(chars[i]);
            assert(cur@ + chars@.skip(i + 1) =~= before + chars@.skip(i as int));
        }
        i += 1;
    }
    proof {
        assert(cur@ + chars@.skip(i as int) =~= cur@);
        lemma_first_index(cur@, '/');
        if first_index(cur@, '/') is Some {
            let k = first_index(cur@, '/')->0;
            assert(cur@.contains('/')) by {
                assert(cur@[k as int] == '/');
            }
        }
    }
    let piece = cur;
    let ghost prev = out@;
    out.push(piece);
    assert(crate::status::char_seqs(out@) =~= crate::status::char_seqs(prev).push(piece@));
    assert(crate::status::char_seqs(out@) =~= segments(chars@));
    out
}

pub fn parse_temperature_path(field: &str, value: &Setting) -> (r: Result<String, String>)
    ensures
        match temperature_path_of(viewed(*value)) {
            Ok(t) => r matches Ok(s) && s@ == t,
            Err(m) => r matches Err(e) && e@ == field_message(field@, m),
        },
{
    let text = parse_string(field, value)?;
    let chars = chars_of(text.as_str());
    if chars.len() == 0 || chars[0] != '/' {
        return Err(field_error(field, "expected an absolute path below /sys"));
    }
    let pieces = pieces_of(&chars);
    let ghost all = crate::status::char_seqs(pieces@);
    let mut first: Option<usize> = None;
    let mut parent = false;
    let mut i: usize = 0;
    assert(all.skip(0) =~= all);
    while i < pieces.len()
        invariant
            0 <= i <= pieces@.len(),
            all == crate::status::char_seqs(pieces@),
            first matches Some(k) ==> k < i && first_name(all) == Some(all[k as int]),
            first is None ==> first_name(all.skip(i as int)) == first_name(all),
            parent == all.take(i as int).contains(seq!['.', '.']),
        decreases pieces.len() - i,
    {
        let piece = &pieces[i];
        assert(all[i as int] == piece@);
        let ghost rest = all.skip(i as int);
        assert(rest[0] == piece@);
        assert(rest.drop_first() =~= all.skip(i + 1));
        let empty_or_dot = piece.len() == 0 || (piece.len() == 1 && piece[0] == '.');
        assert(empty_or_dot == (piece@.len() == 0 || piece@ == seq!['.'])) by {
            if piece@.len() == 1 && piece@[0] == '.' {
                assert(piece@ =~= seq!['.']);
            }
        }
        if first.is_none() && !empty_or_dot {
            first = Some(i);
        }
        let dots = piece.len() == 2 && piece[0] == '.' && piece[1] == '.';
        assert(dots == (piece@ == seq!['.', '.'])) by {
            if piece@.len() == 2 && piece@[0] == '.' && piece@[1] == '.' {
                assert(piece@ =~= seq!['.', '.']);
            }
        }
        proof {
            assert(all.take(i + 1) =~= all.take(i as int).push(piece@));
            if all.take(i + 1).contains(seq!['.', '.']) && !dots {
                let j = choose|j: int| 0 <= j < all.take(i + 1).len() && #[trigger] all.take(i + 1)[j] == seq!['.', '.'];
                assert(all.take(i as int)[j] == seq!['.', '.']);
            }
            if dots {
                assert(all.take(i + 1)[i as int] == seq!['.', '.']);
            }
        }
        parent = parent || dots;
        i += 1;
    }
    assert(all.take(i as int) =~= all);
    let named_sys = match first {
        Some(k) => {
            let piece = &pieces[k];
            assert(all[k as int] == piece@);
            let sys = piece.len() == 3 && piece[0] == 's' && piece[1] == 'y' && piece[2] == 's';
            assert(sys == (piece@ == seq!['s', 'y', 's'])) by {
                if sys {
                    assert(piece@ =~= seq!['s', 'y', 's']);
                }
            }
            sys
        },
        None => {
            assert(all.skip(i as int).len() == 0);
            false
        },
    };
    if named_sys && !parent {
        Ok(text)
    } else {
        Err(field_error(field, "expected an absolute path below /sys"))
    }
}


/// The number of an ANSI colour name.
pub open spec fn color_named(t: Seq<char>) -> Option<u8> {
    if t == "black"@ {
        Some(0u8)
    } else if t == "red"@ {
        Some(1u8)
    } else if t == "green"@ {
        Some(2u8)
    } else if t == "yellow"@ {
        Some(3u8)
    } else if t == "blue"@ {
        Some(4u8)
    } else if t == "magenta"@ {
        Some(5u8)
    } else if t == "cyan"@ {
        Some(6u8)
    } else if t == "white"@ {
        Some(7u8)
    } else if t == "bright-black"@ {
        Some(8u8)
    } else if t == "bright-red"@ {
        Some(9u8)
    } else if t == "bright-green"@ {
        Some(10u8)
    } else if t == "bright-yellow"@ {
        Some(11u8)
    } else if t == "bright-blue"@ {
        Some(12u8)
    } else if t == "bright-magenta"@ {
        Some(13u8)
    } else if t == "bright-cyan"@ {
        Some(14u8)
    } else if t == "bright-white"@ {
        Some(15u8)
    } else {
        None
    }
}

fn color_by_name(t: &str) -> (r: Option<u8>)
    ensures
        r == color_named(t@),
{
    if str_eq(t, "black") {
        Some(0u8)
    } else if str_eq(t, "red") {
        Some(1u8)
    } else if str_eq(t, "green") {
        Some(2u8)
    } else if str_eq(t, "yellow") {
        Some(3u8)
    } else if str_eq(t, "blue") {
        Some(4u8)
    } else if str_eq(t, "magenta") {
        Some(5u8)
    } else if str_eq(t, "cyan") {
        Some(6u8)
    } else if str_eq(t, "white") {
        Some(7u8)
    } else if str_eq(t, "bright-black") {
        Some(8u8)
    } else if str_eq(t, "bright-red") {
        Some(9u8)
    } else if str_eq(t, "bright-green") {
        Some(10u8)
    } else if str_eq(t, "bright-yellow") {
        Some(11u8)
    } else if str_eq(t, "bright-blue") {
        Some(12u8)
    } else if str_eq(t, "bright-magenta") {
        Some(13u8)
    } else if str_eq(t, "bright-cyan") {
        Some(14u8)
    } else if str_eq(t, "bright-white") {
        Some(15u8)
    } else {
        None
    }
}

/// The value of a hexadecimal digit.
pub open spec fn hex_value(c: char) -> Option<u8> {
    if '0' <= c && c <= '9' {
        Some((c as u32 - 48) as u8)
    } else if 'a' <= c && c <= 'f' {
        Some((c as u32 - 87) as u8)
    } else if 'A' <= c && c <= 'F' {
        Some((c as u32 - 55) as u8)
    } else {
        None
    }
}

fn hex_digit(c: char) -> (r: Option<u8>)
    ensures
        r == hex_value(c),
{
    if '0' <= c && c <= '9' {
        Some((c as u32 - 48) as u8)
    } else if 'a' <= c && c <= 'f' {
        Some((c as u32 - 87) as u8)
    } else if 'A' <= c && c <= 'F' {
        Some((c as u32 - 55) as u8)
    } else {
        None
    }
}

/// Two characters read as a hexadecimal byte, as `u8::from_str_radix` reads them: two
/// digits, or a `+` and one digit.
pub open spec fn hex_pair(a: char, b: char) -> Option<u8> {
    if a == '+' {
        hex_value(b)
    } else {
        match (hex_value(a), hex_value(b)) {
            (Some(x), Some(y)) => Some((x * 16 + y) as u8),
            _ => None,
        }
    }
}

fn hex_byte(a: char, b: char) -> (r: Option<u8>)
    ensures
        r == hex_pair(a, b),
{
    if a == '+' {
        hex_digit(b)
    } else {
        match (hex_digit(a), hex_digit(b)) {
            (Some(x), Some(y)) => Some(x * 16 + y),
            _ => None,
        }
    }
}

/// A colour: `default`, one of the sixteen ANSI names, or `#RRGGBB`.
pub open spec fn color_of(v: SettingView) -> Result<Color, Seq<char>> {
    match text_of(v) {
        Err(m) => Err(m),
        Ok(t) => if t == "default"@ {
            Ok(Color::Default)
        } else if color_named(t) is Some {
            Ok(Color::Indexed(color_named(t)->0))
        } else if t.len() == 7 && t[0] == '#' && hex_pair(t[1], t[2]) is Some && hex_pair(t[3], t[4]) is Some
            && hex_pair(t[5], t[6]) is Some {
            Ok(Color::Rgb(hex_pair(t[1], t[2])->0, hex_pair(t[3], t[4])->0, hex_pair(t[5], t[6])->0))
        } else {
            Err("expected default, an ANSI colour name, or #RRGGBB"@)
        },
    }
}

pub fn parse_color(field: &str, value: &Setting) -> (r: Result<Color, String>)
    ensures
        match color_of(viewed(*value)) {
            Ok(c) => r == Ok::<Color, String>(c),
            Err(m) => r matches Err(e) && e@ == field_message(field@, m),
        },
{
    let text = parse_string(field, value)?;
    let t = text.as_str();
    if str_eq(t, "default") {
        return Ok(Color::Default);
    }
    if let Some(index) = color_by_name(t) {
        return Ok(Color::Indexed(index));
    }
    let chars = chars_of(t);
    if chars.len() == 7 && chars[0] == '#' {
        if let (Some(red), Some(green), Some(blue)) = (
            hex_byte(chars[1], chars[2]),
            hex_byte(chars[3], chars[4]),
            hex_byte(chars[5], chars[6]),
        ) {
            return Ok(Color::Rgb(red, green, blue));
        }
    }
    Err(field_error(field, "expected default, an ANSI colour name, or #RRGGBB"))
}

/// A colour written as `0xRRGGBB`.
pub open spec fn rgb(value: u32) -> Color {
    Color::Rgb((value / 65536 % 256) as u8, (value / 256 % 256) as u8, (value % 256) as u8)
}

fn rgb_of(value: u32) -> (r: Color)
    ensures
        r == rgb(value),
{
    Color::Rgb((value / 65536 % 256) as u8, (value / 256 % 256) as u8, (value % 256) as u8)
}

/// The colours of a built-in status theme: the status line's foreground and
/// background, the label's, and the active tab's.
pub open spec fn theme_colors(name: Seq<char>) -> Option<Seq<Color>> {
    if false {
        None
    } else if name == "catppuccin-latte"@ {
        Some(seq![rgb(0x4c4f69), rgb(0xeff1f5), rgb(0xeff1f5), rgb(0xd20f39), rgb(0xeff1f5), rgb(0x1e66f5)])
    } else if name == "catppuccin-mocha"@ {
        Some(seq![rgb(0xcdd6f4), rgb(0x1e1e2e), rgb(0x1e1e2e), rgb(0xf38ba8), rgb(0x1e1e2e), rgb(0x89b4fa)])
    } else if name == "solarized-light"@ {
        Some(seq![rgb(0x657b83), rgb(0xfdf6e3), rgb(0xfdf6e3), rgb(0xdc322f), rgb(0xfdf6e3), rgb(0x268bd2)])
    } else if name == "solarized-dark"@ {
        Some(seq![rgb(0x839496), rgb(0x002b36), rgb(0xfdf6e3), rgb(0xdc322f), rgb(0xfdf6e3), rgb(0x268bd2)])
    } else if name == "gruvbox-light"@ {
        Some(seq![rgb(0x3c3836), rgb(0xfbf1c7), rgb(0xfbf1c7), rgb(0xcc241d), rgb(0xfbf1c7), rgb(0x458588)])
    } else if name == "gruvbox-dark"@ {
        Some(seq![rgb(0xebdbb2), rgb(0x282828), rgb(0xfbf1c7), rgb(0xcc241d), rgb(0x282828), rgb(0xd79921)])
    } else if name == "tokyo-night-day"@ {
        Some(seq![rgb(0x3760bf), rgb(0xe1e2e7), rgb(0xe1e2e7), rgb(0xf52a65), rgb(0xe1e2e7), rgb(0x2e7de9)])
    } else if name == "tokyo-night"@ {
        Some(seq![rgb(0xc0caf5), rgb(0x1a1b26), rgb(0x1a1b26), rgb(0xf7768e), rgb(0x1a1b26), rgb(0x7aa2f7)])
    } else if name == "dracula"@ {
        Some(seq![rgb(0xf8f8f2), rgb(0x282a36), rgb(0x282a36), rgb(0xff5555), rgb(0x282a36), rgb(0x8be9fd)])
    } else if name == "nord"@ {
        Some(seq![rgb(0xd8dee9), rgb(0x2e3440), rgb(0x2e3440), rgb(0xbf616a), rgb(0x2e3440), rgb(0x88c0d0)])
    } else {
        None
    }
}

/// The colours of a built-in status theme.
pub fn theme(name: &str) -> (r: Option<[Color; 6]>)
    ensures
        match theme_colors(name@) {
            Some(c) => r matches Some(a) && a@ == c,
            None => r is None,
        },
{
    let values: [u32; 6] = if false {
        [0, 0, 0, 0, 0, 0]
    } else if str_eq(name, "catppuccin-latte") {
        [0x4c4f69, 0xeff1f5, 0xeff1f5, 0xd20f39, 0xeff1f5, 0x1e66f5]
    } else if str_eq(name, "catppuccin-mocha") {
        [0xcdd6f4, 0x1e1e2e, 0x1e1e2e, 0xf38ba8, 0x1e1e2e, 0x89b4fa]
    } else if str_eq(name, "solarized-light") {
        [0x657b83, 0xfdf6e3, 0xfdf6e3, 0xdc322f, 0xfdf6e3, 0x268bd2]
    } else if str_eq(name, "solarized-dark") {
        [0x839496, 0x002b36, 0xfdf6e3, 0xdc322f, 0xfdf6e3, 0x268bd2]
    } else if str_eq(name, "gruvbox-light") {
        [0x3c3836, 0xfbf1c7, 0xfbf1c7, 0xcc241d, 0xfbf1c7, 0x458588]
    } else if str_eq(name, "gruvbox-dark") {
        [0xebdbb2, 0x282828, 0xfbf1c7, 0xcc241d, 0x282828, 0xd79921]
    } else if str_eq(name, "tokyo-night-day") {
        [0x3760bf, 0xe1e2e7, 0xe1e2e7, 0xf52a65, 0xe1e2e7, 0x2e7de9]
    } else if str_eq(name, "tokyo-night") {
        [0xc0caf5, 0x1a1b26, 0x1a1b26, 0xf7768e, 0x1a1b26, 0x7aa2f7]
    } else if str_eq(name, "dracula") {
        [0xf8f8f2, 0x282a36, 0x282a36, 0xff5555, 0x282a36, 0x8be9fd]
    } else if str_eq(name, "nord") {
        [0xd8dee9, 0x2e3440, 0x2e3440, 0xbf616a, 0x2e3440, 0x88c0d0]
    } else {
        return None;
    };
    let colors = [
        rgb_of(values[0]),
        rgb_of(values[1]),
        rgb_of(values[2]),
        rgb_of(values[3]),
        rgb_of(values[4]),
        rgb_of(values[5]),
    ];
    assert(colors@ =~= theme_colors(name@)->0);
    Some(colors)
}

pub open spec fn theme_name_of(v: SettingView) -> Result<Seq<char>, Seq<char>> {
    match text_of(v) {
        Err(m) => Err(m),
        Ok(t) => if t == "default"@ || theme_colors(t) is Some {
            Ok(t)
        } else {
            Err("unknown built-in status theme"@)
        },
    }
}

pub fn parse_status_theme(field: &str, value: &Setting) -> (r: Result<String, String>)
    ensures
        match theme_name_of(viewed(*value)) {
            Ok(t) => r matches Ok(s) && s@ == t,
            Err(m) => r matches Err(e) && e@ == field_message(field@, m),
        },
{
    let text = parse_string(field, value)?;
    if str_eq(text.as_str(), "default") || theme(text.as_str()).is_some() {
        Ok(text)
    } else {
        Err(field_error(field, "unknown built-in status theme"))
    }
}

pub open spec fn terminal_profile_of(v: SettingView) -> Result<Seq<char>, Seq<char>> {
    match text_of(v) {
        Err(m) => Err(m),
        Ok(t) => if t == "auto"@ || profile_named(t) is Some {
            Ok(t)
        } else {
            Err("unknown built-in terminal profile"@)
        },
    }
}

pub fn parse_profile(field: &str, value: &Setting) -> (r: Result<String, String>)
    ensures
        match terminal_profile_of(viewed(*value)) {
            Ok(t) => r matches Ok(s) && s@ == t,
            Err(m) => r matches Err(e) && e@ == field_message(field@, m),
        },
{
    let text = parse_string(field, value)?;
    if str_eq(text.as_str(), "auto") || built_in(text.as_str()).is_some() {
        Ok(text)
    } else {
        Err(field_error(field, "unknown built-in terminal profile"))
    }
}

pub open spec fn inner_term_of(v: SettingView) -> Result<Seq<char>, Seq<char>> {
    match text_of(v) {
        Err(m) => Err(m),
        Ok(t) => if t == "termfold-256color"@ || t == "xterm-256color"@ {
            Ok(t)
        } else {
            Err("unsupported inner terminal value"@)
        },
    }
}

pub fn parse_inner_term(field: &str, value: &Setting) -> (r: Result<String, String>)
    ensures
        match inner_term_of(viewed(*value)) {
            Ok(t) => r matches Ok(s) && s@ == t,
            Err(m) => r matches Err(e) && e@ == field_message(field@, m),
        },
{
    let text = parse_string(field, value)?;
    if str_eq(text.as_str(), "termfold-256color") || str_eq(text.as_str(), "xterm-256color") {
        Ok(text)
    } else {
        Err(field_error(field, "unsupported inner terminal value"))
    }
}


/// The settings of the program.
#[derive(Debug)]
pub struct Config {
    pub prefix: u8,
    pub mouse: bool,
    pub scrollback_lines: u16,
    pub viewer_tab_width: u8,
    pub date_format: String,
    pub time_format: String,
    pub status_format: String,
    pub status_label: String,
    pub status_theme: String,
    pub status_refresh_seconds: u16,
    pub cpu_temperature_path: Option<String>,
    pub status_foreground: Color,
    pub status_background: Color,
    pub label_foreground: Color,
    pub label_background: Color,
    pub active_tab_foreground: Color,
    pub active_tab_background: Color,
    pub terminal_profile: String,
    pub inner_term: String,
    pub windows_shell: Vec<String>,
    pub profiles: Vec<(String, Profile)>,
    pub document: Vec<(String, Setting)>,
}

/// The settings, as values.
pub struct ConfigView {
    pub prefix: u8,
    pub mouse: bool,
    pub scrollback_lines: u16,
    pub viewer_tab_width: u8,
    pub date_format: Seq<char>,
    pub time_format: Seq<char>,
    pub status_format: Seq<char>,
    pub status_label: Seq<char>,
    pub status_theme: Seq<char>,
    pub status_refresh_seconds: u16,
    pub cpu_temperature_path: Option<Seq<char>>,
    pub status_foreground: Color,
    pub status_background: Color,
    pub label_foreground: Color,
    pub label_background: Color,
    pub active_tab_foreground: Color,
    pub active_tab_background: Color,
    pub terminal_profile: Seq<char>,
    pub inner_term: Seq<char>,
    pub windows_shell: Seq<Seq<char>>,
    pub profiles: Seq<(Seq<char>, ProfileView)>,
    pub document: Seq<(Seq<char>, SettingView)>,
}

pub open spec fn texts(v: Seq<String>) -> Seq<Seq<char>> {
    v.map_values(|s: String| s@)
}

impl View for Config {
    type V = ConfigView;

    open spec fn view(&self) -> ConfigView {
        ConfigView {
            prefix: self.prefix,
            mouse: self.mouse,
            scrollback_lines: self.scrollback_lines,
            viewer_tab_width: self.viewer_tab_width,
            date_format: self.date_format@,
            time_format: self.time_format@,
            status_format: self.status_format@,
            status_label: self.status_label@,
            status_theme: self.status_theme@,
            status_refresh_seconds: self.status_refresh_seconds,
            cpu_temperature_path: match self.cpu_temperature_path {
                Some(p) => Some(p@),
                None => None,
            },
            status_foreground: self.status_foreground,
            status_background: self.status_background,
            label_foreground: self.label_foreground,
            label_background: self.label_background,
            active_tab_foreground: self.active_tab_foreground,
            active_tab_background: self.active_tab_background,
            terminal_profile: self.terminal_profile@,
            inner_term: self.inner_term@,
            windows_shell: texts(self.windows_shell@),
            profiles: profiles_view(self.profiles@),
            document: viewed_entries(self.document@),
        }
    }
}

/// The settings when the file sets none.
pub open spec fn config_default() -> ConfigView {
    ConfigView {
        prefix: 2,
        mouse: false,
        scrollback_lines: 2000,
        viewer_tab_width: 8,
        date_format: "%Y-%m-%d"@,
        time_format: "%H:%M"@,
        status_format: "[{session}]  {tabs}{fill}|  {date} {time}"@,
        status_label: Seq::empty(),
        status_theme: "default"@,
        status_refresh_seconds: 2,
        cpu_temperature_path: None,
        status_foreground: Color::Indexed(0),
        status_background: Color::Indexed(6),
        label_foreground: Color::Indexed(15),
        label_background: Color::Indexed(1),
        active_tab_foreground: Color::Indexed(0),
        active_tab_background: Color::Indexed(11),
        terminal_profile: "auto"@,
        inner_term: "termfold-256color"@,
        windows_shell: Seq::empty(),
        profiles: Seq::empty(),
        document: Seq::empty(),
    }
}

impl Default for Config {
    fn default() -> (r: Config)
        ensures
            r@ == config_default(),
    {
        let config = Config {
            prefix: 2,
            mouse: false,
            scrollback_lines: 2000,
            viewer_tab_width: 8,
            date_format: owned("%Y-%m-%d"),
            time_format: owned("%H:%M"),
            status_format: owned("[{session}]  {tabs}{fill}|  {date} {time}"),
            status_label: String::new(),
            status_theme: owned("default"),
            status_refresh_seconds: 2,
            cpu_temperature_path: None,
            status_foreground: Color::Indexed(0),
            status_background: Color::Indexed(6),
            label_foreground: Color::Indexed(15),
            label_background: Color::Indexed(1),
            active_tab_foreground: Color::Indexed(0),
            active_tab_background: Color::Indexed(11),
            terminal_profile: owned("auto"),
            inner_term: owned("termfold-256color"),
            windows_shell: Vec::new(),
            profiles: Vec::new(),
            document: Vec::new(),
        };
        proof {
            assert(texts(config.windows_shell@) =~= Seq::<Seq<char>>::empty());
            assert(profiles_view(config.profiles@) =~= Seq::<(Seq<char>, ProfileView)>::empty());
            assert(viewed_entries(config.document@) =~= Seq::<(Seq<char>, SettingView)>::empty());
        }
        config
    }
}

/// The settings after one field of the file is read, or the error it gives.
#[verifier::opaque]
pub open spec fn applied(c: ConfigView, field: Seq<char>, v: SettingView) -> Result<ConfigView, Seq<char>> {
    if field == "profiles"@ {
        if v is Table {
            Ok(c)
        } else {
            Err(field_message(field, "expected a table"@))
        }
    } else if field == "prefix"@ {
        match prefix_of(v) {
            Ok(x) => Ok(ConfigView { prefix: x, ..c }),
            Err(m) => Err(field_message(field, m)),
        }
    } else if field == "mouse"@ {
        match bool_of(v) {
            Ok(x) => Ok(ConfigView { mouse: x, ..c }),
            Err(m) => Err(field_message(field, m)),
        }
    } else if field == "scrollback_lines"@ {
        match ranged(v, 0, 10000) {
            Some(x) => Ok(ConfigView { scrollback_lines: x as u16, ..c }),
            None => Err(field_message(field, "expected an integer from 0 through 10000"@)),
        }
    } else if field == "viewer_tab_width"@ {
        match ranged(v, 1, 16) {
            Some(x) => Ok(ConfigView { viewer_tab_width: x as u8, ..c }),
            None => Err(field_message(field, "expected an integer from 1 through 16"@)),
        }
    } else if field == "date_format"@ {
        match format_of(v) {
            Ok(x) => Ok(ConfigView { date_format: x, ..c }),
            Err(m) => Err(field_message(field, m)),
        }
    } else if field == "time_format"@ {
        match format_of(v) {
            Ok(x) => Ok(ConfigView { time_format: x, ..c }),
            Err(m) => Err(field_message(field, m)),
        }
    } else if field == "terminal_profile"@ {
        match terminal_profile_of(v) {
            Ok(x) => Ok(ConfigView { terminal_profile: x, ..c }),
            Err(m) => Err(field_message(field, m)),
        }
    } else if field == "inner_term"@ {
        match inner_term_of(v) {
            Ok(x) => Ok(ConfigView { inner_term: x, ..c }),
            Err(m) => Err(field_message(field, m)),
        }
    } else if field == "windows_shell"@ {
        match string_list(v) {
            Some(x) => Ok(ConfigView { windows_shell: x, ..c }),
            None => Err(field_message(field, "expected a non-empty array of quoted strings"@)),
        }
    } else if field == "status_format"@ {
        match status_format_of(v) {
            Ok(x) => Ok(ConfigView { status_format: x, ..c }),
            Err(m) => Err(field_message(field, m)),
        }
    } else if field == "status_label"@ {
        match limited_text(v, 64) {
            Ok(x) => Ok(ConfigView { status_label: x, ..c }),
            Err(m) => Err(field_message(field, m)),
        }
    } else if field == "status_theme"@ {
        match theme_name_of(v) {
            Ok(x) => Ok(ConfigView { status_theme: x, ..c }),
            Err(m) => Err(field_message(field, m)),
        }
    } else if field == "status_refresh_seconds"@ {
        match ranged(v, 1, 3600) {
            Some(x) => Ok(ConfigView { status_refresh_seconds: x as u16, ..c }),
            None => Err(field_message(field, "expected an integer from 1 through 3600"@)),
        }
    } else if field == "cpu_temperature_path"@ {
        match temperature_path_of(v) {
            Ok(x) => Ok(ConfigView { cpu_temperature_path: Some(x), ..c }),
            Err(m) => Err(field_message(field, m)),
        }
    } else if field == "status_foreground"@ {
        match color_of(v) {
            Ok(x) => Ok(ConfigView { status_foreground: x, ..c }),
            Err(m) => Err(field_message(field, m)),
        }
    } else if field == "status_background"@ {
        match color_of(v) {
            Ok(x) => Ok(ConfigView { status_background: x, ..c }),
            Err(m) => Err(field_message(field, m)),
        }
    } else if field == "label_foreground"@ {
        match color_of(v) {
            Ok(x) => Ok(ConfigView { label_foreground: x, ..c }),
            Err(m) => Err(field_message(field, m)),
        }
    } else if field == "label_background"@ {
        match color_of(v) {
            Ok(x) => Ok(ConfigView { label_background: x, ..c }),
            Err(m) => Err(field_message(field, m)),
        }
    } else if field == "active_tab_foreground"@ {
        match color_of(v) {
            Ok(x) => Ok(ConfigView { active_tab_foreground: x, ..c }),
            Err(m) => Err(field_message(field, m)),
        }
    } else if field == "active_tab_background"@ {
        match color_of(v) {
            Ok(x) => Ok(ConfigView { active_tab_background: x, ..c }),
            Err(m) => Err(field_message(field, m)),
        }
    } else {
        Err(field_message(field, "unknown field"@))
    }
}

/// The settings after the first `k` fields of the document, read in order, or the
/// first error.
pub open spec fn configured(document: Seq<(Seq<char>, SettingView)>, k: nat) -> Result<ConfigView, Seq<char>>
    decreases k,
{
    if k == 0 {
        Ok(config_default())
    } else {
        match configured(document, (k - 1) as nat) {
            Err(e) => Err(e),
            Ok(c) => applied(c, document[k - 1].0, document[k - 1].1),
        }
    }
}

/// Once applying the settings fails, applying more of them fails the same way.
pub proof fn lemma_configured_failed(document: Seq<(Seq<char>, SettingView)>, k: nat, n: nat)
    requires
        k <= n,
        configured(document, k) is Err,
    ensures
        configured(document, n) == configured(document, k),
    decreases n - k,
{
    if k < n {
        lemma_configured_failed(document, k, (n - 1) as nat);
    }
}

/// The status colours: a built-in theme's, except those the file sets itself.
pub open spec fn themed(c: ConfigView, document: Seq<(Seq<char>, SettingView)>) -> ConfigView {
    match theme_colors(c.status_theme) {
        Some(colors) => {
            let pick = |field: Seq<char>, own: Color, i: int| if entry(document, field) is Some {
                own
            } else {
                colors[i]
            };
            ConfigView {
                status_foreground: pick("status_foreground"@, c.status_foreground, 0),
                status_background: pick("status_background"@, c.status_background, 1),
                label_foreground: pick("label_foreground"@, c.label_foreground, 2),
                label_background: pick("label_background"@, c.label_background, 3),
                active_tab_foreground: pick("active_tab_foreground"@, c.active_tab_foreground, 4),
                active_tab_background: pick("active_tab_background"@, c.active_tab_background, 5),
                ..c
            }
        },
        None => c,
    }
}

/// The settings a document gives: its profiles first, then its fields in order,
/// then the theme's colours; the document is kept.
pub open spec fn config_of(document: Seq<(Seq<char>, SettingView)>) -> Result<ConfigView, Seq<char>> {
    match profiles_of(document) {
        Err(e) => Err(e),
        Ok(p) => match configured(document, document.len()) {
            Err(e) => Err(e),
            Ok(c) => Ok(ConfigView { profiles: p, document, ..themed(c, document) }),
        },
    }
}

/// The settings a configuration text gives, or the error to report.
pub open spec fn config_text(source: Seq<char>) -> Result<ConfigView, Seq<char>> {
    match toml_entries(source) {
        Err(m) => Err("configuration: invalid TOML: "@ + m),
        Ok(document) => config_of(document),
    }
}


impl Config {
    /// Reads one field of the file into the settings.
    #[verifier::rlimit(60)]
    fn apply(&mut self, field: &str, value: &Setting) -> (r: Result<(), String>)
        ensures
            match applied(old(self)@, field@, viewed(*value)) {
                Ok(c) => r is Ok && final(self)@ == c,
                Err(m) => r matches Err(e) && e@ == m,
            },
    {
        reveal(applied);
        if str_eq(field, "profiles") {
            return match value {
                Setting::Table(_) => Ok(()),
                _ => Err(field_error(field, "expected a table")),
            };
        }
        if str_eq(field, "prefix") {
            self.prefix = parse_prefix(field, value)?;
        } else if str_eq(field, "mouse") {
            self.mouse = parse_bool(field, value)?;
        } else if str_eq(field, "scrollback_lines") {
            self.scrollback_lines = parse_scrollback(field, value)?;
        } else if str_eq(field, "viewer_tab_width") {
            self.viewer_tab_width = parse_tab_width(field, value)?;
        } else if str_eq(field, "date_format") {
            self.date_format = parse_format(field, value)?;
        } else if str_eq(field, "time_format") {
            self.time_format = parse_format(field, value)?;
        } else if str_eq(field, "terminal_profile") {
            self.terminal_profile = parse_profile(field, value)?;
        } else if str_eq(field, "inner_term") {
            self.inner_term = parse_inner_term(field, value)?;
        } else if str_eq(field, "windows_shell") {
            self.windows_shell = parse_string_array(field, value)?;
        } else if str_eq(field, "status_format") {
            self.status_format = parse_status_format(field, value)?;
        } else if str_eq(field, "status_label") {
            self.status_label = parse_text(field, value, 64)?;
        } else if str_eq(field, "status_theme") {
            self.status_theme = parse_status_theme(field, value)?;
        } else if str_eq(field, "status_refresh_seconds") {
            self.status_refresh_seconds = parse_refresh(field, value)?;
        } else if str_eq(field, "cpu_temperature_path") {
            self.cpu_temperature_path = Some(parse_temperature_path(field, value)?);
        } else if str_eq(field, "status_foreground") {
            self.status_foreground = parse_color(field, value)?;
        } else if str_eq(field, "status_background") {
            self.status_background = parse_color(field, value)?;
        } else if str_eq(field, "label_foreground") {
            self.label_foreground = parse_color(field, value)?;
        } else if str_eq(field, "label_background") {
            self.label_background = parse_color(field, value)?;
        } else if str_eq(field, "active_tab_foreground") {
            self.active_tab_foreground = parse_color(field, value)?;
        } else if str_eq(field, "active_tab_background") {
            self.active_tab_background = parse_color(field, value)?;
        } else {
            return Err(field_error(field, "unknown field"));
        }
        Ok(())
    }

    /// Gives the status colours a built-in theme's, except those the file sets.
    fn apply_theme(&mut self, document: &Vec<(String, Setting)>)
        ensures
            final(self)@ == themed(old(self)@, viewed_entries(document@)),
    {
        let colors = match theme(self.status_theme.as_str()) {
            Some(colors) => colors,
            None => return,
        };
        if crate::document::lookup(document, "status_foreground").is_none() {
            self.status_foreground = colors[0];
        }
        if crate::document::lookup(document, "status_background").is_none() {
            self.status_background = colors[1];
        }
        if crate::document::lookup(document, "label_foreground").is_none() {
            self.label_foreground = colors[2];
        }
        if crate::document::lookup(document, "label_background").is_none() {
            self.label_background = colors[3];
        }
        if crate::document::lookup(document, "active_tab_foreground").is_none() {
            self.active_tab_foreground = colors[4];
        }
        if crate::document::lookup(document, "active_tab_background").is_none() {
            self.active_tab_background = colors[5];
        }
    }

    /// The settings that a configuration text gives.
    pub fn parse(source: &str) -> (r: Result<Config, String>)
        ensures
            match config_text(source@) {
                Ok(c) => r matches Ok(config) && config@ == c,
                Err(m) => r matches Err(e) && e@ == m,
            },
    {
        let document = match parse_toml(source) {
            Ok(document) => document,
            Err(message) => {
                let mut out = owned("configuration: invalid TOML: ");
                append(&mut out, message.as_str());
                return Err(out);
            },
        };
        Config::from_document(document)
    }

    /// The settings that a parsed configuration document gives: its entries, each
    /// field applied in turn, then the theme, the profiles and the document kept.
    pub fn from_document(document: Vec<(String, Setting)>) -> (r: Result<Config, String>)
        ensures
            match config_of(viewed_entries(document@)) {
                Ok(c) => r matches Ok(config) && config@ == c,
                Err(m) => r matches Err(e) && e@ == m,
            },
    {
        let ghost doc = viewed_entries(document@);
        let profiles = parse_profiles(&document)?;
        proof {
            lemma_viewed_entries(document@);
        }
        let mut config = Config::default();
        let mut k: usize = 0;
        while k < document.len()
            invariant
                0 <= k <= document@.len(),
                doc == viewed_entries(document@),
                doc.len() == document@.len(),
                forall|j: int| 0 <= j < document@.len() ==> #[trigger] doc[j] == (document@[j].0@, viewed(document@[j].1)),
                configured(doc, k as nat) == Ok::<ConfigView, Seq<char>>(config@),
                config_of(doc) == (match configured(doc, doc.len()) {
                    Err(e) => Err(e),
                    Ok(c) => Ok(ConfigView { profiles: profiles_view(profiles@), document: doc, ..themed(c, doc) }),
                }),
            decreases document.len() - k,
        {
            assert(doc[k as int] == (document@[k as int].0@, viewed(document@[k as int].1)));
            match config.apply(document[k].0.as_str(), &document[k].1) {
                Ok(()) => {},
                Err(e) => {
                    proof {
                        lemma_configured_failed(doc, (k + 1) as nat, doc.len());
                    }
                    return Err(e);
                },
            }
            k += 1;
        }
        config.apply_theme(&document);
        config.profiles = profiles;
        config.document = document;
        Ok(config)
    }

    /// The settings that a configuration file's bytes give; the file must be UTF-8.
    pub fn parse_bytes(source: &[u8]) -> (r: Result<Config, String>)
        ensures
            !vstd::utf8::valid_utf8(source@) ==> (r matches Err(e) && e@ == "configuration: invalid UTF-8"@),
            vstd::utf8::valid_utf8(source@) ==> match config_text(vstd::utf8::decode_utf8(source@)) {
                Ok(c) => r matches Ok(config) && config@ == c,
                Err(m) => r matches Err(e) && e@ == m,
            },
    {
        match crate::text::string_from_utf8(vstd::slice::slice_to_vec(source)) {
            Some(text) => Config::parse(text.as_str()),
            None => Err(owned("configuration: invalid UTF-8")),
        }
    }
}


/// A path below a directory: one separator between them, none added where the
/// directory already ends with one.
pub open spec fn joined(root: Seq<char>, rest: Seq<char>) -> Seq<char> {
    if root.len() > 0 && root.last() == '/' {
        root + rest
    } else {
        root + seq!['/'] + rest
    }
}

/// Where the configuration file is: under `XDG_CONFIG_HOME` when that is set and not
/// empty, else under `.config` in `HOME` when that is set and not empty.
pub open spec fn config_file(xdg_config_home: Option<Seq<char>>, home: Option<Seq<char>>) -> Option<Seq<char>> {
    if xdg_config_home is Some && xdg_config_home->0.len() > 0 {
        Some(joined(xdg_config_home->0, "termfold/config.toml"@))
    } else if home is Some && home->0.len() > 0 {
        Some(joined(home->0, ".config/termfold/config.toml"@))
    } else {
        None
    }
}

fn joined_path(root: &str, rest: &str) -> (r: String)
    ensures
        r@ == joined(root@, rest@),
{
    let chars = chars_of(root);
    let mut out = owned(root);
    if !(chars.len() > 0 && chars[chars.len() - 1] == '/') {
        out.push('/');
    }
    append(&mut out, rest);
    out
}

/// The configuration file's path, given the values of `XDG_CONFIG_HOME` and `HOME`.
pub fn config_path(xdg_config_home: Option<&str>, home: Option<&str>) -> (r: Option<String>)
    ensures
        match r {
            Some(p) => config_file(
                match xdg_config_home {
                    Some(x) => Some(x@),
                    None => None,
                },
                match home {
                    Some(h) => Some(h@),
                    None => None,
                },
            ) == Some(p@),
            None => config_file(
                match xdg_config_home {
                    Some(x) => Some(x@),
                    None => None,
                },
                match home {
                    Some(h) => Some(h@),
                    None => None,
                },
            ) is None,
        },
{
    if let Some(root) = xdg_config_home {
        if chars_of(root).len() > 0 {
            return Some(joined_path(root, "termfold/config.toml"));
        }
    }
    if let Some(root) = home {
        if chars_of(root).len() > 0 {
            return Some(joined_path(root, ".config/termfold/config.toml"));
        }
    }
    None
}

/// A hexadecimal digit in either case.
pub open spec fn is_hex_digit(c: char) -> bool {
    ('0' <= c && c <= '9') || ('a' <= c && c <= 'f') || ('A' <= c && c <= 'F')
}

/// What a hexadecimal digit is worth: `0`-`9` count from zero, and `a`-`f` and
/// `A`-`F` alike from ten.
pub open spec fn digit_worth(c: char) -> int {
    if c <= '9' {
        c as int - '0' as int
    } else if c <= 'F' {
        c as int - 'A' as int + 10
    } else {
        c as int - 'a' as int + 10
    }
}

/// The digits of a hexadecimal colour are read in either case: each is a digit
/// exactly when it is `0`-`9`, `a`-`f` or `A`-`F`, and a capital letter is worth as
/// much as the small one, `A` to `F` being ten to fifteen.
pub proof fn lemma_hex_digits(c: char)
    ensures
        hex_value(c) is Some <==> is_hex_digit(c),
        is_hex_digit(c) ==> hex_value(c) == Some(digit_worth(c) as u8),
        is_hex_digit(c) ==> 0 <= digit_worth(c) < 16,
        'a' <= c && c <= 'f' ==> hex_value(c) == hex_value(((c as u32) - 32) as char)
            && hex_value(c) == Some((c as u32 - 'a' as u32 + 10) as u8),
{
}

/// `#RRGGBB` whose six digits are hexadecimal, in either case, is the colour of the
/// three bytes they spell, each pair worth sixteen times its first digit plus its
/// second.
pub proof fn lemma_hex_color(t: Seq<char>)
    requires
        t.len() == 7,
        t[0] == '#',
        forall|i: int| 1 <= i < 7 ==> is_hex_digit(#[trigger] t[i]),
    ensures
        color_of(SettingView::Text(t)) == Ok::<Color, Seq<char>>(Color::Rgb(
            (digit_worth(t[1]) * 16 + digit_worth(t[2])) as u8,
            (digit_worth(t[3]) * 16 + digit_worth(t[4])) as u8,
            (digit_worth(t[5]) * 16 + digit_worth(t[6])) as u8,
        )),
{
    reveal_strlit("default");
    reveal_strlit("black");
    reveal_strlit("red");
    reveal_strlit("green");
    reveal_strlit("yellow");
    reveal_strlit("blue");
    reveal_strlit("magenta");
    reveal_strlit("cyan");
    reveal_strlit("white");
    reveal_strlit("bright-black");
    reveal_strlit("bright-red");
    reveal_strlit("bright-green");
    reveal_strlit("bright-yellow");
    reveal_strlit("bright-blue");
    reveal_strlit("bright-magenta");
    reveal_strlit("bright-cyan");
    reveal_strlit("bright-white");
    assert(t != "default"@) by { assert(t[0] != "default"@[0]); }
    assert(t != "black"@) by { assert(t[0] != "black"@[0]); }
    assert(t != "red"@) by { assert(t[0] != "red"@[0]); }
    assert(t != "green"@) by { assert(t[0] != "green"@[0]); }
    assert(t != "yellow"@) by { assert(t[0] != "yellow"@[0]); }
    assert(t != "blue"@) by { assert(t[0] != "blue"@[0]); }
    assert(t != "magenta"@) by { assert(t[0] != "magenta"@[0]); }
    assert(t != "cyan"@) by { assert(t[0] != "cyan"@[0]); }
    assert(t != "white"@) by { assert(t[0] != "white"@[0]); }
    assert(t != "bright-black"@) by { assert(t[0] != "bright-black"@[0]); }
    assert(t != "bright-red"@) by { assert(t[0] != "bright-red"@[0]); }
    assert(t != "bright-green"@) by { assert(t[0] != "bright-green"@[0]); }
    assert(t != "bright-yellow"@) by { assert(t[0] != "bright-yellow"@[0]); }
    assert(t != "bright-blue"@) by { assert(t[0] != "bright-blue"@[0]); }
    assert(t != "bright-magenta"@) by { assert(t[0] != "bright-magenta"@[0]); }
    assert(t != "bright-cyan"@) by { assert(t[0] != "bright-cyan"@[0]); }
    assert(t != "bright-white"@) by { assert(t[0] != "bright-white"@[0]); }
    assert(color_named(t) is None);
    assert(is_hex_digit(t[1]) && is_hex_digit(t[2]) && is_hex_digit(t[3]));
    assert(is_hex_digit(t[4]) && is_hex_digit(t[5]) && is_hex_digit(t[6]));
    lemma_hex_digits(t[1]);
    lemma_hex_digits(t[2]);
    lemma_hex_digits(t[3]);
    lemma_hex_digits(t[4]);
    lemma_hex_digits(t[5]);
    lemma_hex_digits(t[6]);
}

/// The eight ANSI colour names, in the order of their numbers.
pub open spec fn ansi_names() -> Seq<Seq<char>> {
    seq!["black"@, "red"@, "green"@, "yellow"@, "blue"@, "magenta"@, "cyan"@, "white"@]
}

/// The ANSI colour names read as their numbers, 0 for black to 7 for white, and
/// each name with `bright-` before it as its number plus eight.
pub proof fn lemma_named_colors()
    ensures
        forall|k: int| 0 <= k < 8 ==> color_of(SettingView::Text(#[trigger] ansi_names()[k])) == Ok::<Color, Seq<char>>(
            Color::Indexed(k as u8),
        ),
        forall|k: int| 0 <= k < 8 ==> color_of(SettingView::Text("bright-"@ + #[trigger] ansi_names()[k]))
            == Ok::<Color, Seq<char>>(Color::Indexed((k + 8) as u8)),
{
    reveal_strlit("black");
    reveal_strlit("red");
    reveal_strlit("green");
    reveal_strlit("yellow");
    reveal_strlit("blue");
    reveal_strlit("magenta");
    reveal_strlit("cyan");
    reveal_strlit("white");
    reveal_strlit("bright-black");
    reveal_strlit("bright-red");
    reveal_strlit("bright-green");
    reveal_strlit("bright-yellow");
    reveal_strlit("bright-blue");
    reveal_strlit("bright-magenta");
    reveal_strlit("bright-cyan");
    reveal_strlit("bright-white");
    reveal_strlit("default");
    reveal_strlit("bright-");
    assert("bright-"@ + "black"@ =~= "bright-black"@);
    assert(ansi_names()[0] == "black"@);
    assert("bright-"@ + "red"@ =~= "bright-red"@);
    assert(ansi_names()[1] == "red"@);
    assert("bright-"@ + "green"@ =~= "bright-green"@);
    assert(ansi_names()[2] == "green"@);
    assert("bright-"@ + "yellow"@ =~= "bright-yellow"@);
    assert(ansi_names()[3] == "yellow"@);
    assert("bright-"@ + "blue"@ =~= "bright-blue"@);
    assert(ansi_names()[4] == "blue"@);
    assert("bright-"@ + "magenta"@ =~= "bright-magenta"@);
    assert(ansi_names()[5] == "magenta"@);
    assert("bright-"@ + "cyan"@ =~= "bright-cyan"@);
    assert(ansi_names()[6] == "cyan"@);
    assert("bright-"@ + "white"@ =~= "bright-white"@);
    assert(ansi_names()[7] == "white"@);
    assert forall|k: int| 0 <= k < 8 implies color_of(SettingView::Text("bright-"@ + #[trigger] ansi_names()[k]))
        == Ok::<Color, Seq<char>>(Color::Indexed((k + 8) as u8)) by {
        if k == 0 {
            assert(ansi_names()[k] == "black"@);
            assert("bright-"@ + ansi_names()[k] =~= "bright-black"@);
            assert("bright-black"@[7] != "bright-green"@[7]);
            assert("bright-black"@[7] != "bright-white"@[7]);
            assert(color_named("bright-black"@) == Some(8u8));
        } else if k == 1 {
            assert(ansi_names()[k] == "red"@);
            assert("bright-"@ + ansi_names()[k] =~= "bright-red"@);
            assert(color_named("bright-red"@) == Some(9u8));
        } else if k == 2 {
            assert(ansi_names()[k] == "green"@);
            assert("bright-"@ + ansi_names()[k] =~= "bright-green"@);
            assert("bright-green"@[7] != "bright-black"@[7]);
            assert("bright-green"@[7] != "bright-white"@[7]);
            assert(color_named("bright-green"@) == Some(10u8));
        } else if k == 3 {
            assert(ansi_names()[k] == "yellow"@);
            assert("bright-"@ + ansi_names()[k] =~= "bright-yellow"@);
            assert(color_named("bright-yellow"@) == Some(11u8));
        } else if k == 4 {
            assert(ansi_names()[k] == "blue"@);
            assert("bright-"@ + ansi_names()[k] =~= "bright-blue"@);
            assert("bright-blue"@[7] != "bright-cyan"@[7]);
            assert(color_named("bright-blue"@) == Some(12u8));
        } else if k == 5 {
            assert(ansi_names()[k] == "magenta"@);
            assert("bright-"@ + ansi_names()[k] =~= "bright-magenta"@);
            assert(color_named("bright-magenta"@) == Some(13u8));
        } else if k == 6 {
            assert(ansi_names()[k] == "cyan"@);
            assert("bright-"@ + ansi_names()[k] =~= "bright-cyan"@);
            assert("bright-cyan"@[7] != "bright-blue"@[7]);
            assert(color_named("bright-cyan"@) == Some(14u8));
        } else if k == 7 {
            assert(ansi_names()[k] == "white"@);
            assert("bright-"@ + ansi_names()[k] =~= "bright-white"@);
            assert("bright-white"@[7] != "bright-black"@[7]);
            assert("bright-white"@[7] != "bright-green"@[7]);
            assert(color_named("bright-white"@) == Some(15u8));
        }
    }
}

} // verus!
