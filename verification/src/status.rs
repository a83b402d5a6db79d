use vstd::prelude::*;

use vstd::std_specs::iter::IteratorSpec;

use unicode_width::UnicodeWidthStr;

use crate::session::{Session, Size};
use crate::terminal::{unicode_width, Color};
use crate::text::{decimal_text, push_decimal_text, str_eq};

verus! {

broadcast use {vstd::string::next_postcondition, vstd::string::axiom_spec_iter};

/// The characters of a text, one by one.
pub fn chars_of(text: &str) -> (r: Vec<char>)
    ensures
        r@ == text@,
{
    let mut chars = text.chars();
    let mut out: Vec<char> = Vec::new();
    loop
        invariant
            out@ + chars.remaining() == text@,
            chars.decrease() is Some,
        ensures
            out@ == text@,
        decreases chars.decrease()->0,
    {
        match chars.next() {
            Some(c) => {
                out.push(c);
            },
            None => {
                assert(out@ + chars.remaining() =~= out@);
                break;
            },
        }
    }
    out
}


/// A text made of a run of characters.
pub fn string_of(chars: &Vec<char>, from: usize, to: usize) -> (r: String)
    requires
        from <= to <= chars@.len(),
    ensures
        r@ == chars@.subrange(from as int, to as int),
{
    let mut out = String::new();
    let mut i = from;
    while i < to
        invariant
            from <= i <= to <= chars@.len(),
            out@ == chars@.subrange(from as int, i as int),
        decreases to - i,
    {
        out.push(chars[i]);
        i += 1;
        assert(out@ =~= chars@.subrange(from as int, i as int));
    }
    out
}

/// A copy of a text.
pub fn owned(text: &str) -> (r: String)
    ensures
        r@ == text@,
{
    text.to_owned()
}

/// `text` followed by `more`.
pub fn append(text: &mut String, more: &str)
    ensures
        final(text)@ == old(text)@ + more@,
{
    let chars = chars_of(more);
    let mut i: usize = 0;
    while i < chars.len()
        invariant
            0 <= i <= chars@.len(),
            chars@ == more@,
            text@ == old(text)@ + chars@.take(i as int),
        decreases chars.len() - i,
    {
        text.push(chars[i]);
        i += 1;
        assert(text@ =~= old(text)@ + chars@.take(i as int));
    }
    assert(chars@.take(chars@.len() as int) =~= chars@);
}

/// The columns a character takes in a status text: none for a control character.
pub open spec fn columns(c: char) -> nat {
    match unicode_width(c) {
        Some(w) => w as nat,
        None => 0,
    }
}

/// The longest start of `text` whose characters take at most `room` columns.
pub open spec fn kept(text: Seq<char>, room: int) -> Seq<char>
    decreases text.len(),
{
    if text.len() == 0 || columns(text[0]) > room {
        Seq::empty()
    } else {
        seq![text[0]] + kept(text.drop_first(), room - columns(text[0]))
    }
}

proof fn lemma_kept_step(text: Seq<char>, i: int, room: int)
    requires
        0 <= i < text.len(),
        columns(text[i]) <= room,
    ensures
        kept(text.skip(i), room) == seq![text[i]] + kept(text.skip(i + 1), room - columns(text[i])),
{
    assert(text.skip(i).drop_first() =~= text.skip(i + 1));
}

/// The start of `text` that fits in `width` columns, character by character.
pub fn truncate(text: &str, width: usize) -> (r: String)
    ensures
        r@ == kept(text@, width as int),
{
    let chars = chars_of(text);
    let mut out = String::new();
    let mut used: usize = 0;
    let mut i: usize = 0;
    assert(chars@.skip(0) =~= chars@);
    assert(out@ + kept(chars@, width as int) =~= kept(chars@, width as int));
    while i < chars.len()
        invariant_except_break
            out@ + kept(chars@.skip(i as int), width - used) == kept(text@, width as int),
        invariant
            chars@ == text@,
            0 <= i <= chars@.len(),
            used <= width,
        ensures
            out@ == kept(text@, width as int),
        decreases chars.len() - i,
    {
        let next = match crate::terminal::char_width(chars[i]) {
            Some(w) => w,
            None => 0,
        };
        if next > width - used {
            proof {
                assert(chars@.skip(i as int)[0] == chars@[i as int]);
                assert(out@ + kept(chars@.skip(i as int), width - used) =~= out@);
            }
            break;
        }
        proof {
            lemma_kept_step(chars@, i as int, width - used);
        }
        used += next;
        out.push(chars[i]);
        i += 1;
    }
    proof {
        if i == chars@.len() {
            assert(chars@.skip(i as int).len() == 0);
        }
    }
    out
}


/// How a status segment is drawn.
#[derive(Clone, Copy, Debug, PartialEq, Eq, Structural)]
pub enum SegmentStyle {
    Base,
    Fill,
    Label,
    Active,
}

/// A piece of the status line: its text, the tab it stands for, and its colours.
pub struct Segment {
    pub text: String,
    pub tab: Option<usize>,
    pub style: SegmentStyle,
}

/// What a segment holds, as values.
pub struct Piece {
    pub text: Seq<char>,
    pub tab: Option<usize>,
    pub style: SegmentStyle,
}

impl Segment {
    pub open spec fn piece(self) -> Piece {
        Piece { text: self.text@, tab: self.tab, style: self.style }
    }
}

pub open spec fn piece(text: Seq<char>, tab: Option<usize>, style: SegmentStyle) -> Piece {
    Piece { text, tab, style }
}

/// Plain text in the base colours.
pub open spec fn plain_piece(text: Seq<char>) -> Piece {
    piece(text, None, SegmentStyle::Base)
}

/// The pieces that segments hold.
pub open spec fn pieces(segments: Seq<Segment>) -> Seq<Piece> {
    segments.map_values(|s: Segment| s.piece())
}

pub fn segment(text: String, tab: Option<usize>, style: SegmentStyle) -> (r: Segment)
    ensures
        r.piece() == piece(text@, tab, style),
{
    Segment { text, tab, style }
}

proof fn lemma_pieces_push(segments: Seq<Segment>, s: Segment)
    ensures
        pieces(segments.push(s)) == pieces(segments).push(s.piece()),
{
    assert(pieces(segments.push(s)) =~= pieces(segments).push(s.piece()));
}

/// A tab's name: its number, counted from one, and the word `shell`.
pub open spec fn shell_text(index: nat) -> Seq<char> {
    decimal_text(index + 1) + seq![':', 's', 'h', 'e', 'l', 'l']
}

/// A tab's name, in brackets when it is the active tab.
pub open spec fn tab_text(index: nat, active: nat) -> Seq<char> {
    if index == active {
        seq!['['] + shell_text(index) + seq![']']
    } else {
        shell_text(index)
    }
}

/// The piece for a tab.
pub open spec fn tab_piece(index: nat, active: nat) -> Piece {
    piece(
        tab_text(index, active),
        Some(index as usize),
        if index == active {
            SegmentStyle::Active
        } else {
            SegmentStyle::Base
        },
    )
}

/// The tabs from `index` through `last`, two spaces between neighbours.
pub open spec fn tab_run(active: nat, first: nat, index: nat, last: nat) -> Seq<Piece>
    decreases last + 1 - index,
{
    if index > last {
        Seq::empty()
    } else {
        (if index > first {
            seq![plain_piece(seq![' ', ' '])]
        } else {
            Seq::empty()
        }) + seq![tab_piece(index, active)] + tab_run(active, first, index + 1, last)
    }
}

/// The tabs from `first` through `last`, marked `< ` and ` >` where tabs lie beyond.
pub open spec fn tab_pieces(count: nat, active: nat, first: nat, last: nat) -> Seq<Piece> {
    (if first > 0 {
        seq![plain_piece(seq!['<', ' '])]
    } else {
        Seq::empty()
    }) + tab_run(active, first, first, last) + (if last + 1 < count {
        seq![plain_piece(seq![' ', '>'])]
    } else {
        Seq::empty()
    })
}

/// `out` followed by the name of tab `index`.
pub fn push_shell_text(out: &mut String, index: usize)
    requires
        index < usize::MAX,
    ensures
        final(out)@ == old(out)@ + shell_text(index as nat),
{
    push_decimal_text(out, (index + 1) as u64);
    out.push(':');
    out.push('s');
    out.push('h');
    out.push('e');
    out.push('l');
    out.push('l');
    assert(out@ =~= old(out)@ + shell_text(index as nat));
}

/// The name of a tab, in brackets when it is the active tab.
pub fn tab_name(index: usize, active: usize) -> (r: String)
    requires
        index < usize::MAX,
    ensures
        r@ == tab_text(index as nat, active as nat),
{
    let mut out = String::new();
    if index == active {
        out.push('[');
        push_shell_text(&mut out, index);
        out.push(']');
        assert(out@ =~= tab_text(index as nat, active as nat));
    } else {
        push_shell_text(&mut out, index);
        assert(out@ =~= tab_text(index as nat, active as nat));
    }
    out
}

/// A two-character text.
fn pair(first: char, second: char) -> (r: String)
    ensures
        r@ == seq![first, second],
{
    let mut out = String::new();
    out.push(first);
    out.push(second);
    assert(out@ =~= seq![first, second]);
    out
}

/// The segments for the tabs from `first` through `last`.
pub fn tab_segments(count: usize, active: usize, first: usize, last: usize) -> (r: Vec<Segment>)
    requires
        last < usize::MAX,
    ensures
        pieces(r@) == tab_pieces(count as nat, active as nat, first as nat, last as nat),
{
    let ghost run = tab_run(active as nat, first as nat, first as nat, last as nat);
    let mut result: Vec<Segment> = Vec::new();
    if first > 0 {
        let s = segment(pair('<', ' '), None, SegmentStyle::Base);
        proof {
            lemma_pieces_push(result@, s);
        }
        result.push(s);
    }
    let ghost head = pieces(result@);
    let mut index = first;
    while index <= last
        invariant
            first <= index,
            index == first || index <= last + 1,
            last < usize::MAX,
            run == tab_run(active as nat, first as nat, first as nat, last as nat),
            pieces(result@) + tab_run(active as nat, first as nat, index as nat, last as nat)
                == head + run,
        decreases last + 1 - index,
    {
        let ghost before = pieces(result@);
        if index > first {
            let s = segment(pair(' ', ' '), None, SegmentStyle::Base);
            proof {
                lemma_pieces_push(result@, s);
            }
            result.push(s);
        }
        let style = if index == active {
            SegmentStyle::Active
        } else {
            SegmentStyle::Base
        };
        let s = segment(tab_name(index, active), Some(index), style);
        proof {
            lemma_pieces_push(result@, s);
        }
        result.push(s);
        proof {
            assert(pieces(result@) + tab_run(active as nat, first as nat, (index + 1) as nat, last as nat)
                =~= before + tab_run(active as nat, first as nat, index as nat, last as nat));
        }
        index += 1;
    }
    assert(tab_run(active as nat, first as nat, index as nat, last as nat) =~= Seq::<Piece>::empty());
    assert(pieces(result@) =~= head + run);
    if last + 1 < count {
        let s = segment(pair(' ', '>'), None, SegmentStyle::Base);
        proof {
            lemma_pieces_push(result@, s);
        }
        result.push(s);
    }
    assert(pieces(result@) =~= tab_pieces(count as nat, active as nat, first as nat, last as nat));
    result
}


/// Readings of the machine for the status line, kept between refreshes.
pub struct Metrics {
    cpu_sample: Option<(u64, u64)>,
    cpu_usage: Option<u8>,
    memory_usage: Option<u8>,
    cpu_temperature: Option<i64>,
}

/// What the readings hold: the last processor sample (total and idle time), the
/// processor and memory load in percent, and the temperature in degrees Celsius.
pub struct MetricsView {
    pub cpu_sample: Option<(u64, u64)>,
    pub cpu_usage: Option<u8>,
    pub memory_usage: Option<u8>,
    pub cpu_temperature: Option<i64>,
}

impl View for Metrics {
    type V = MetricsView;

    closed spec fn view(&self) -> MetricsView {
        MetricsView {
            cpu_sample: self.cpu_sample,
            cpu_usage: self.cpu_usage,
            memory_usage: self.memory_usage,
            cpu_temperature: self.cpu_temperature,
        }
    }
}

impl Default for Metrics {
    fn default() -> (r: Metrics)
        ensures
            r@ == (MetricsView {
                cpu_sample: None,
                cpu_usage: None,
                memory_usage: None,
                cpu_temperature: None,
            }),
    {
        Metrics { cpu_sample: None, cpu_usage: None, memory_usage: None, cpu_temperature: None }
    }
}

pub open spec fn sat_sub64(a: u64, b: u64) -> u64 {
    if a >= b {
        (a - b) as u64
    } else {
        0
    }
}

pub open spec fn sat_mul64(a: u64, b: u64) -> u64 {
    if a * b > u64::MAX {
        u64::MAX
    } else {
        (a * b) as u64
    }
}

/// The readings after a processor sample: the share of busy time since the
/// previous sample, in percent, when time has passed. The sample kept for the next
/// reading holds the total time and, after a first sample, the idle time that
/// passed since the previous one.
pub open spec fn sampled(m: MetricsView, total: u64, idle: u64) -> MetricsView {
    match m.cpu_sample {
        Some((previous_total, previous_idle)) => {
            let elapsed = sat_sub64(total, previous_total);
            let idle_time = sat_sub64(idle, previous_idle);
            let busy = sat_mul64(sat_sub64(elapsed, idle_time), 100);
            MetricsView {
                cpu_sample: Some((total, idle_time)),
                cpu_usage: if elapsed != 0 {
                    Some(
                        (if busy / elapsed > 100 {
                            100
                        } else {
                            busy / elapsed
                        }) as u8,
                    )
                } else {
                    m.cpu_usage
                },
                ..m
            }
        },
        None => MetricsView { cpu_sample: Some((total, idle)), ..m },
    }
}

/// A reading as text: its number, or `-` when there is none.
pub open spec fn percent_text(value: Option<u8>) -> Seq<char> {
    match value {
        Some(v) => decimal_text(v as nat),
        None => seq!['-'],
    }
}

/// A whole number as text, with a minus sign when it is negative.
pub open spec fn signed_text(value: int) -> Seq<char> {
    if value < 0 {
        seq!['-'] + decimal_text((-value) as nat)
    } else {
        decimal_text(value as nat)
    }
}

/// The temperature as text, in degrees with the letter `C`, or `-`.
pub open spec fn temperature_text(value: Option<i64>) -> Seq<char> {
    match value {
        Some(v) => signed_text(v as int) + seq!['C'],
        None => seq!['-'],
    }
}

/// A sensor reading in degrees: readings of a thousand or more (either way from
/// zero) are in thousandths of a degree, and are divided towards zero.
pub open spec fn degrees(value: int) -> int {
    if value >= 1000 {
        value / 1000
    } else if value <= -1000 {
        -((-value) / 1000)
    } else {
        value
    }
}

/// A sensor reading in degrees.
pub fn scaled_temperature(value: i64) -> (r: i64)
    requires
        value != i64::MIN,
    ensures
        r as int == degrees(value as int),
{
    if value >= 1000 {
        value / 1000
    } else if value <= -1000 {
        let magnitude = -value;
        -(magnitude / 1000)
    } else {
        value
    }
}

impl Metrics {
    /// Takes a processor sample: the total and the idle time since boot.
    pub fn record_cpu_sample(&mut self, sample: (u64, u64))
        ensures
            final(self)@ == sampled(old(self)@, sample.0, sample.1),
    {
        let (total, idle) = sample;
        match self.cpu_sample {
            Some((previous_total, previous_idle)) => {
                let elapsed = total.saturating_sub(previous_total);
                let idle_time = idle.saturating_sub(previous_idle);
                let busy_time = elapsed.saturating_sub(idle_time);
                let busy = if busy_time > u64::MAX / 100 {
                    u64::MAX
                } else {
                    busy_time * 100
                };
                if elapsed != 0 {
                    let usage = busy / elapsed;
                    self.cpu_usage = Some(
                        if usage > 100 {
                            100
                        } else {
                            usage as u8
                        },
                    );
                }
                self.cpu_sample = Some((total, idle_time));
            },
            None => {
                self.cpu_sample = Some((total, idle));
            },
        }
    }

    /// Takes the readings of one refresh: a processor sample when one could be
    /// taken, the memory load, and the raw temperature of the sensor.
    pub fn refresh(&mut self, sample: Option<(u64, u64)>, memory: Option<u8>, temperature: Option<i64>)
        requires
            temperature != Some(i64::MIN),
        ensures
            ({
                let after = match sample {
                    Some((total, idle)) => sampled(old(self)@, total, idle),
                    None => old(self)@,
                };
                final(self)@ == MetricsView {
                    memory_usage: memory,
                    cpu_temperature: match temperature {
                        Some(t) => Some(degrees(t as int) as i64),
                        None => None,
                    },
                    ..after
                }
            }),
    {
        if let Some(sample) = sample {
            self.record_cpu_sample(sample);
        }
        self.memory_usage = memory;
        self.cpu_temperature = match temperature {
            Some(value) => Some(scaled_temperature(value)),
            None => None,
        };
    }

    /// The processor load in percent, or `-`.
    pub fn cpu_usage(&self) -> (r: String)
        ensures
            r@ == percent_text(self@.cpu_usage),
    {
        percent(self.cpu_usage)
    }

    /// The memory load in percent, or `-`.
    pub fn memory_usage(&self) -> (r: String)
        ensures
            r@ == percent_text(self@.memory_usage),
    {
        percent(self.memory_usage)
    }

    /// The temperature, such as `42C`, or `-`.
    pub fn cpu_temperature(&self) -> (r: String)
        ensures
            r@ == temperature_text(self@.cpu_temperature),
    {
        let mut out = String::new();
        match self.cpu_temperature {
            Some(value) => {
                if value < 0 {
                    out.push('-');
                    let magnitude = (0 - (value as i128)) as u64;
                    push_decimal_text(&mut out, magnitude);
                } else {
                    push_decimal_text(&mut out, value as u64);
                }
                out.push('C');
                assert(out@ =~= temperature_text(self@.cpu_temperature));
            },
            None => {
                out.push('-');
                assert(out@ =~= temperature_text(self@.cpu_temperature));
            },
        }
        out
    }
}

fn percent(value: Option<u8>) -> (r: String)
    ensures
        r@ == percent_text(value),
{
    let mut out = String::new();
    match value {
        Some(v) => push_decimal_text(&mut out, v as u64),
        None => out.push('-'),
    }
    assert(out@ =~= percent_text(value));
    out
}


/// Where `c` first occurs in `s`.
pub open spec fn first_index(s: Seq<char>, c: char) -> Option<nat>
    decreases s.len(),
{
    if s.len() == 0 {
        None
    } else if s[0] == c {
        Some(0)
    } else {
        match first_index(s.drop_first(), c) {
            Some(i) => Some(i + 1),
            None => None,
        }
    }
}

/// `first_index` finds the first occurrence of the character, or none when it does
/// not occur.
pub proof fn lemma_first_index(s: Seq<char>, c: char)
    ensures
        match first_index(s, c) {
            Some(i) => i < s.len() && s[i as int] == c && forall|j: int| 0 <= j < i ==> s[j] != c,
            None => forall|j: int| 0 <= j < s.len() ==> s[j] != c,
        },
    decreases s.len(),
{
    if s.len() > 0 && s[0] != c {
        lemma_first_index(s.drop_first(), c);
        assert forall|j: int| 1 <= j < s.len() implies s[j] == s.drop_first()[j - 1] by {}
    }
}

/// The first position at or after `from` that holds `c`.
pub fn find_char(chars: &Vec<char>, from: usize, c: char) -> (r: Option<usize>)
    requires
        from <= chars@.len(),
    ensures
        match r {
            Some(i) => from <= i < chars@.len() && chars@[i as int] == c && forall|j: int|
                from <= j < i ==> chars@[j] != c,
            None => forall|j: int| from <= j < chars@.len() ==> chars@[j] != c,
        },
{
    let mut i = from;
    while i < chars.len()
        invariant
            from <= i <= chars@.len(),
            forall|j: int| from <= j < i ==> chars@[j] != c,
        decreases chars.len() - i,
    {
        if chars[i] == c {
            return Some(i);
        }
        i += 1;
    }
    None
}

/// `first_index` of the text from `from` on, as found by `find_char`.
pub proof fn lemma_found(chars: Seq<char>, from: int, c: char, found: Option<usize>)
    requires
        0 <= from <= chars.len(),
        match found {
            Some(i) => from <= i < chars.len() && chars[i as int] == c && forall|j: int|
                from <= j < i ==> chars[j] != c,
            None => forall|j: int| from <= j < chars.len() ==> chars[j] != c,
        },
    ensures
        first_index(chars.skip(from), c) == match found {
            Some(i) => Some((i - from) as nat),
            None => None::<nat>,
        },
{
    let rest = chars.skip(from);
    lemma_first_index(rest, c);
    match first_index(rest, c) {
        Some(k) => {
            assert(rest[k as int] == chars[from + k]);
            match found {
                Some(i) => {
                    assert(rest[i - from] == chars[i as int]);
                },
                None => {},
            }
        },
        None => {
            match found {
                Some(i) => {
                    assert(rest[i - from] == chars[i as int]);
                },
                None => {},
            }
        },
    }
}

/// What the fields of a status format stand for.
pub struct Fields {
    pub session: Seq<char>,
    pub tabs: Seq<Piece>,
    pub label: Seq<char>,
    pub date: Seq<char>,
    pub time: Seq<char>,
    pub cpu: Seq<char>,
    pub memory: Seq<char>,
    pub temperature: Seq<char>,
}

/// The fields, with the readings shown as text.
pub open spec fn fields(
    session: Seq<char>,
    tabs: Seq<Piece>,
    label: Seq<char>,
    date: Seq<char>,
    time: Seq<char>,
    metrics: MetricsView,
) -> Fields {
    Fields {
        session,
        tabs,
        label,
        date,
        time,
        cpu: percent_text(metrics.cpu_usage),
        memory: percent_text(metrics.memory_usage),
        temperature: temperature_text(metrics.cpu_temperature),
    }
}

/// The pieces a `{name}` field becomes; an unknown name becomes nothing.
pub open spec fn placeholder(name: Seq<char>, f: Fields) -> Seq<Piece> {
    if name == "session"@ {
        seq![plain_piece(f.session)]
    } else if name == "tabs"@ {
        f.tabs
    } else if name == "fill"@ {
        seq![piece(Seq::empty(), None, SegmentStyle::Fill)]
    } else if name == "label"@ {
        seq![piece(f.label, None, SegmentStyle::Label)]
    } else if name == "date"@ {
        seq![plain_piece(f.date)]
    } else if name == "time"@ {
        seq![plain_piece(f.time)]
    } else if name == "cpu_usage"@ {
        seq![plain_piece(f.cpu)]
    } else if name == "memory_usage"@ {
        seq![plain_piece(f.memory)]
    } else if name == "cpu_temp"@ {
        seq![plain_piece(f.temperature)]
    } else {
        Seq::empty()
    }
}

/// A status format with its fields filled in: the text between fields is kept as
/// it is, and a `{` that no `}` closes ends the format.
pub open spec fn expansion(format: Seq<char>, f: Fields) -> Seq<Piece>
    decreases format.len(),
{
    match first_index(format, '{') {
        None => if format.len() > 0 {
            seq![plain_piece(format)]
        } else {
            Seq::empty()
        },
        Some(start) => {
            let before = if start > 0 {
                seq![plain_piece(format.take(start as int))]
            } else {
                Seq::empty()
            };
            let after = format.skip(start + 1 as int);
            match first_index(after, '}') {
                None => before,
                Some(end) => {
                    proof {
                        lemma_first_index(format, '{');
                        lemma_first_index(after, '}');
                    }
                    before + placeholder(after.take(end as int), f) + expansion(
                        after.skip(end + 1 as int),
                        f,
                    )
                },
            }
        },
    }
}

/// A copy of a segment.
pub fn copy_segment(s: &Segment) -> (r: Segment)
    ensures
        r.piece() == s.piece(),
{
    Segment { text: s.text.clone(), tab: s.tab, style: s.style }
}

fn push_segment(result: &mut Vec<Segment>, s: Segment)
    ensures
        pieces(final(result)@) == pieces(old(result)@).push(s.piece()),
{
    proof {
        lemma_pieces_push(result@, s);
    }
    result.push(s);
}

/// Adds what the field `{name}` stands for.
fn push_field(
    result: &mut Vec<Segment>,
    name: &str,
    session: &str,
    tabs: &Vec<Segment>,
    label: &str,
    date: &str,
    time: &str,
    metrics: &Metrics,
)
    ensures
        pieces(final(result)@) == pieces(old(result)@) + placeholder(
            name@,
            fields(session@, pieces(tabs@), label@, date@, time@, metrics@),
        ),
{
    let ghost f = fields(session@, pieces(tabs@), label@, date@, time@, metrics@);
    if str_eq(name, "session") {
        push_segment(result, segment(owned(session), None, SegmentStyle::Base));
    } else if str_eq(name, "tabs") {
        let mut i: usize = 0;
        while i < tabs.len()
            invariant
                0 <= i <= tabs@.len(),
                pieces(result@) == pieces(old(result)@) + pieces(tabs@).take(i as int),
            decreases tabs.len() - i,
        {
            push_segment(result, copy_segment(&tabs[i]));
            i += 1;
            assert(pieces(result@) =~= pieces(old(result)@) + pieces(tabs@).take(i as int));
        }
        assert(pieces(tabs@).take(i as int) =~= pieces(tabs@));
    } else if str_eq(name, "fill") {
        push_segment(result, segment(String::new(), None, SegmentStyle::Fill));
    } else if str_eq(name, "label") {
        push_segment(result, segment(owned(label), None, SegmentStyle::Label));
    } else if str_eq(name, "date") {
        push_segment(result, segment(owned(date), None, SegmentStyle::Base));
    } else if str_eq(name, "time") {
        push_segment(result, segment(owned(time), None, SegmentStyle::Base));
    } else if str_eq(name, "cpu_usage") {
        push_segment(result, segment(metrics.cpu_usage(), None, SegmentStyle::Base));
    } else if str_eq(name, "memory_usage") {
        push_segment(result, segment(metrics.memory_usage(), None, SegmentStyle::Base));
    } else if str_eq(name, "cpu_temp") {
        push_segment(result, segment(metrics.cpu_temperature(), None, SegmentStyle::Base));
    }
    assert(pieces(result@) =~= pieces(old(result)@) + placeholder(name@, f));
}

/// The status format with its fields filled in.
pub fn expand_status(
    format: &str,
    session: &str,
    tabs: Vec<Segment>,
    label: &str,
    date: &str,
    time: &str,
    metrics: &Metrics,
) -> (r: Vec<Segment>)
    ensures
        pieces(r@) == expansion(
            format@,
            fields(session@, pieces(tabs@), label@, date@, time@, metrics@),
        ),
{
    let ghost f = fields(session@, pieces(tabs@), label@, date@, time@, metrics@);
    let chars = chars_of(format);
    let mut result: Vec<Segment> = Vec::new();
    let mut pos: usize = 0;
    assert(chars@.skip(0) =~= chars@);
    loop
        invariant_except_break
            pieces(result@) + expansion(chars@.skip(pos as int), f) == expansion(format@, f),
        invariant
            chars@ == format@,
            f == fields(session@, pieces(tabs@), label@, date@, time@, metrics@),
            pos <= chars@.len(),
        ensures
            pieces(result@) == expansion(format@, f),
        decreases chars@.len() - pos,
    {
        let ghost rest = chars@.skip(pos as int);
        let ghost before = pieces(result@);
        let open = find_char(&chars, pos, '{');
        proof {
            lemma_found(chars@, pos as int, '{', open);
        }
        match open {
            None => {
                if pos < chars.len() {
                    push_segment(&mut result, segment(string_of(&chars, pos, chars.len()), None, SegmentStyle::Base));
                    assert(chars@.subrange(pos as int, chars@.len() as int) =~= rest);
                }
                assert(pieces(result@) =~= before + expansion(rest, f));
                break;
            },
            Some(start) => {
                if start > pos {
                    push_segment(&mut result, segment(string_of(&chars, pos, start), None, SegmentStyle::Base));
                    assert(chars@.subrange(pos as int, start as int) =~= rest.take(start - pos));
                }
                let ghost middle = pieces(result@);
                let ghost after = rest.skip(start - pos + 1);
                assert(after =~= chars@.skip(start + 1));
                assert(start < chars.len());
                let close = find_char(&chars, start + 1, '}');
                proof {
                    lemma_found(chars@, start + 1, '}', close);
                }
                match close {
                    None => {
                        assert(pieces(result@) =~= before + expansion(rest, f));
                        break;
                    },
                    Some(end) => {
                        let name = string_of(&chars, start + 1, end);
                        assert(name@ =~= after.take(end - start - 1));
                        push_field(&mut result, name.as_str(), session, &tabs, label, date, time, metrics);
                        assert(after.skip(end - start - 1 + 1) =~= chars@.skip(end + 1));
                        assert(pieces(result@) + expansion(chars@.skip(end + 1), f) =~= before
                            + expansion(rest, f));
                        assert(end < chars.len());
                        pos = end + 1;
                    },
                }
            },
        }
    }
    result
}


/// The columns a text takes on the screen, as `unicode-width` reckons them.
pub uninterp spec fn display_width(text: Seq<char>) -> usize;

/// `UnicodeWidthStr::width`: the columns that the text takes. An empty text takes
/// none.
#[verifier::external_body]
pub fn text_width(text: &str) -> (r: usize)
    ensures
        r == display_width(text@),
        text@.len() == 0 ==> r == 0,
{
    UnicodeWidthStr::width(text)
}

/// A number, or `usize::MAX` when it is larger.
pub open spec fn capped(n: nat) -> usize {
    if n > usize::MAX {
        usize::MAX
    } else {
        n as usize
    }
}

/// The columns that the pieces take together.
pub open spec fn total_width(p: Seq<Piece>) -> nat
    decreases p.len(),
{
    if p.len() == 0 {
        0
    } else {
        total_width(p.drop_last()) + display_width(p.last().text) as nat
    }
}

/// The columns that the segments take together, up to `usize::MAX`.
pub fn segments_width(segments: &Vec<Segment>) -> (r: usize)
    ensures
        r == capped(total_width(pieces(segments@))),
{
    let mut total: usize = 0;
    let mut i: usize = 0;
    while i < segments.len()
        invariant
            0 <= i <= segments@.len(),
            total == capped(total_width(pieces(segments@).take(i as int))),
        decreases segments.len() - i,
    {
        let w = text_width(segments[i].text.as_str());
        proof {
            assert(pieces(segments@).take(i + 1).drop_last() =~= pieces(segments@).take(i as int));
        }
        total = total.saturating_add(w);
        i += 1;
    }
    assert(pieces(segments@).take(i as int) =~= pieces(segments@));
    total
}

/// Where the first fill piece stands.
pub open spec fn fill_index(p: Seq<Piece>) -> Option<nat>
    decreases p.len(),
{
    if p.len() == 0 {
        None
    } else if p[0].style == SegmentStyle::Fill {
        Some(0)
    } else {
        match fill_index(p.drop_first()) {
            Some(i) => Some(i + 1),
            None => None,
        }
    }
}

proof fn lemma_fill_index(p: Seq<Piece>)
    ensures
        match fill_index(p) {
            Some(i) => i < p.len() && p[i as int].style == SegmentStyle::Fill && forall|j: int|
                0 <= j < i ==> p[j].style != SegmentStyle::Fill,
            None => forall|j: int| 0 <= j < p.len() ==> p[j].style != SegmentStyle::Fill,
        },
    decreases p.len(),
{
    if p.len() > 0 && p[0].style != SegmentStyle::Fill {
        lemma_fill_index(p.drop_first());
        assert forall|j: int| 1 <= j < p.len() implies p[j] == p.drop_first()[j - 1] by {}
    }
}

/// `n` spaces.
pub open spec fn spaces(n: nat) -> Seq<char> {
    Seq::new(n, |_i: int| ' ')
}

/// The pieces with the first fill piece holding `padding` spaces.
pub open spec fn filled(p: Seq<Piece>, padding: nat) -> Seq<Piece> {
    match fill_index(p) {
        Some(i) => p.update(i as int, Piece { text: spaces(padding), ..p[i as int] }),
        None => p,
    }
}

fn space_text(n: usize) -> (r: String)
    ensures
        r@ == spaces(n as nat),
{
    let mut out = String::new();
    let mut i: usize = 0;
    while i < n
        invariant
            0 <= i <= n,
            out@ == spaces(i as nat),
        decreases n - i,
    {
        out.push(' ');
        i += 1;
        assert(out@ =~= spaces(i as nat));
    }
    out
}

fn fill(result: &mut Vec<Segment>, padding: usize)
    ensures
        pieces(final(result)@) == filled(pieces(old(result)@), padding as nat),
{
    proof {
        lemma_fill_index(pieces(result@));
    }
    let mut i: usize = 0;
    while i < result.len()
        invariant
            0 <= i <= result@.len(),
            result@ == old(result)@,
            forall|j: int| 0 <= j < i ==> result@[j].style != SegmentStyle::Fill,
        decreases result.len() - i,
    {
        if result[i].style == SegmentStyle::Fill {
            let replaced = Segment { text: space_text(padding), tab: result[i].tab, style: result[i].style };
            let ghost old_pieces = pieces(result@);
            proof {
                assert(old_pieces[i as int].style == SegmentStyle::Fill);
            }
            result.set(i, replaced);
            proof {
                assert(fill_index(old_pieces) == Some(i as nat)) by {
                    lemma_fill_index(old_pieces);
                    if fill_index(old_pieces) != Some(i as nat) {
                        match fill_index(old_pieces) {
                            Some(k) => {
                                if k < i {
                                    assert(old_pieces[k as int].style == result@[k as int].style);
                                }
                            },
                            None => {},
                        }
                    }
                }
                assert(pieces(result@) =~= filled(old_pieces, padding as nat));
            }
            return;
        }
        i += 1;
    }
    proof {
        lemma_fill_index(pieces(result@));
        if fill_index(pieces(result@)) is Some {
            let k = fill_index(pieces(result@))->0;
            assert(pieces(result@)[k as int].style == result@[k as int].style);
        }
    }
}

/// The lines of the status bar and their colours.
#[derive(Clone, Copy)]
pub struct StatusLine<'a> {
    pub date_format: &'a str,
    pub time_format: &'a str,
    pub format: &'a str,
    pub label: &'a str,
    pub metrics: &'a Metrics,
    pub foreground: Color,
    pub background: Color,
    pub label_foreground: Color,
    pub label_background: Color,
    pub active_foreground: Color,
    pub active_background: Color,
}

/// The status format filled in with the tabs from `first` through `last`.
pub open spec fn attempt(
    format: Seq<char>,
    f: Fields,
    count: nat,
    active: nat,
    first: nat,
    last: nat,
) -> Seq<Piece> {
    expansion(format, Fields { tabs: tab_pieces(count, active, first, last), ..f })
}

/// The measure that trimming tabs brings down.
pub open spec fn spread(active: nat, first: nat, last: nat) -> nat {
    ((if last > active {
        last - active
    } else {
        0
    }) + (if first < active {
        active - first
    } else {
        0
    })) as nat
}

/// The status line that fits in `width` columns, with the fill piece taking the
/// columns left over: the tab furthest from the active tab is left out until it
/// fits, the one after it first when both sides are as far. `None` when even the
/// active tab alone does not fit.
pub open spec fn trimmed(
    format: Seq<char>,
    f: Fields,
    count: nat,
    active: nat,
    first: nat,
    last: nat,
    width: nat,
) -> Option<Seq<Piece>>
    decreases spread(active, first, last),
{
    let result = attempt(format, f, count, active, first, last);
    let used = capped(total_width(result));
    if used <= width {
        Some(filled(result, (width - used) as nat))
    } else {
        let left: nat = if active >= first {
            (active - first) as nat
        } else {
            0
        };
        let right: nat = if last >= active {
            (last - active) as nat
        } else {
            0
        };
        if right >= left && last > active {
            trimmed(format, f, count, active, first, (last - 1) as nat, width)
        } else if first < active {
            trimmed(format, f, count, active, first + 1, last, width)
        } else {
            None
        }
    }
}

/// Texts shown one after the other, each cut to the columns left, until no column is
/// left; with the columns used.
pub open spec fn narrow(
    texts: Seq<(Seq<char>, Option<usize>, SegmentStyle)>,
    used: nat,
    width: nat,
) -> (Seq<Piece>, nat)
    decreases texts.len(),
{
    if texts.len() == 0 || width <= used {
        (Seq::empty(), used)
    } else {
        let text = kept(texts[0].0, width - used);
        let (rest, total) = narrow(
            texts.drop_first(),
            capped(used + display_width(text) as nat) as nat,
            width,
        );
        (seq![piece(text, texts[0].1, texts[0].2)] + rest, total)
    }
}

/// The active tab's name.
pub open spec fn active_text(active: nat) -> Seq<char> {
    tab_text(active, active)
}

/// What a status line too narrow for the format shows: the active tab, the time and
/// the session's name.
pub open spec fn narrow_texts(session: Seq<char>, active: nat, time: Seq<char>) -> Seq<
    (Seq<char>, Option<usize>, SegmentStyle),
> {
    seq![
        (active_text(active), Some(active as usize), SegmentStyle::Active),
        (seq![' ', ' '] + time, None, SegmentStyle::Base),
        (seq![' ', ' ', '['] + session + seq![']'], None, SegmentStyle::Base),
    ]
}

/// The status line: the format filled in, trimmed to fit, or else the narrow form;
/// with the columns it takes.
pub open spec fn status_pieces(
    format: Seq<char>,
    f: Fields,
    count: nat,
    active: nat,
    width: nat,
) -> (Seq<Piece>, nat) {
    match trimmed(format, f, count, active, 0, if count > 0 { (count - 1) as nat } else { 0 }, width) {
        Some(p) => (p, width),
        None => narrow(narrow_texts(f.session, active, f.time), 0, width),
    }
}

fn push_texts(
    result: &mut Vec<Segment>,
    used: &mut usize,
    texts: Vec<(String, Option<usize>, SegmentStyle)>,
    width: usize,
)
    ensures
        ({
            let texts_view = texts@.map_values(
                |t: (String, Option<usize>, SegmentStyle)| (t.0@, t.1, t.2),
            );
            let (p, total) = narrow(texts_view, *old(used) as nat, width as nat);
            &&& pieces(final(result)@) == pieces(old(result)@) + p
            &&& *final(used) as nat == total
        }),
{
    let ghost texts_view = texts@.map_values(
        |t: (String, Option<usize>, SegmentStyle)| (t.0@, t.1, t.2),
    );
    let mut i: usize = 0;
    assert(texts_view.skip(0) =~= texts_view);
    loop
        invariant_except_break
            ({
                let (p, total) = narrow(texts_view.skip(i as int), *used as nat, width as nat);
                let (q, total0) = narrow(texts_view, *old(used) as nat, width as nat);
                &&& pieces(old(result)@) + q == pieces(result@) + p
                &&& total == total0
            }),
        invariant
            0 <= i <= texts@.len(),
            texts_view == texts@.map_values(
                |t: (String, Option<usize>, SegmentStyle)| (t.0@, t.1, t.2),
            ),
        ensures
            ({
                let (p, total) = narrow(texts_view, *old(used) as nat, width as nat);
                &&& pieces(result@) == pieces(old(result)@) + p
                &&& *used as nat == total
            }),
        decreases texts@.len() - i,
    {
        let ghost rest = texts_view.skip(i as int);
        if i == texts.len() || *used >= width {
            proof {
                assert(pieces(result@) + narrow(rest, *used as nat, width as nat).0 =~= pieces(result@));
            }
            break;
        }
        let ghost used0 = *used;
        let text = truncate(texts[i].0.as_str(), width - *used);
        let w = text_width(text.as_str());
        let ghost before = pieces(result@);
        push_segment(result, segment(text, texts[i].1, texts[i].2));
        *used = (*used).saturating_add(w);
        proof {
            assert(rest[0] == texts_view[i as int]);
            assert(rest.drop_first() =~= texts_view.skip(i + 1));
            assert(pieces(result@) + narrow(texts_view.skip(i + 1), *used as nat, width as nat).0
                =~= before + narrow(rest, used0 as nat, width as nat).0);
        }
        i += 1;
    }
}


/// Texts shown one after the other, each cut to the columns left, until they fill
/// the width exactly; with the columns used.
pub open spec fn message_run(
    texts: Seq<(Seq<char>, Option<usize>, SegmentStyle)>,
    used: nat,
    width: nat,
) -> (Seq<Piece>, nat)
    decreases texts.len(),
{
    if texts.len() == 0 {
        (Seq::empty(), used)
    } else {
        let room: int = if width >= used {
            width - used
        } else {
            0
        };
        let text = kept(texts[0].0, room);
        let total = capped(used + display_width(text) as nat) as nat;
        let first = seq![piece(text, texts[0].1, texts[0].2)];
        if total == width {
            (first, total)
        } else {
            let (rest, end) = message_run(texts.drop_first(), total, width);
            (first + rest, end)
        }
    }
}

/// What the status line shows beside a message: the active tab and the session.
pub open spec fn message_texts(session: Seq<char>, active: nat, message: Seq<char>) -> Seq<
    (Seq<char>, Option<usize>, SegmentStyle),
> {
    seq![
        (active_text(active), Some(active as usize), SegmentStyle::Active),
        (seq![' ', ' ', '['] + session + seq![']'], None, SegmentStyle::Base),
        (seq![' ', ' '] + message, None, SegmentStyle::Base),
    ]
}

pub open spec fn texts_view(texts: Seq<(String, Option<usize>, SegmentStyle)>) -> Seq<
    (Seq<char>, Option<usize>, SegmentStyle),
> {
    texts.map_values(|t: (String, Option<usize>, SegmentStyle)| (t.0@, t.1, t.2))
}

fn push_message_texts(
    result: &mut Vec<Segment>,
    texts: Vec<(String, Option<usize>, SegmentStyle)>,
    width: usize,
) -> (used: usize)
    ensures
        ({
            let (p, total) = message_run(texts_view(texts@), 0, width as nat);
            &&& pieces(final(result)@) == pieces(old(result)@) + p
            &&& used as nat == total
        }),
{
    let ghost view = texts_view(texts@);
    let mut used: usize = 0;
    let mut i: usize = 0;
    assert(view.skip(0) =~= view);
    loop
        invariant_except_break
            ({
                let (p, total) = message_run(view.skip(i as int), used as nat, width as nat);
                let (q, total0) = message_run(view, 0, width as nat);
                &&& pieces(old(result)@) + q == pieces(result@) + p
                &&& total == total0
            }),
        invariant
            0 <= i <= texts@.len(),
            view == texts_view(texts@),
        ensures
            ({
                let (p, total) = message_run(view, 0, width as nat);
                &&& pieces(result@) == pieces(old(result)@) + p
                &&& used as nat == total
            }),
        decreases texts@.len() - i,
    {
        let ghost rest = view.skip(i as int);
        if i == texts.len() {
            proof {
                assert(pieces(result@) + message_run(rest, used as nat, width as nat).0 =~= pieces(result@));
            }
            break;
        }
        let ghost used0 = used;
        let text = truncate(texts[i].0.as_str(), width.saturating_sub(used));
        let w = text_width(text.as_str());
        let ghost before = pieces(result@);
        push_segment(result, segment(text, texts[i].1, texts[i].2));
        used = used.saturating_add(w);
        proof {
            assert(rest[0] == view[i as int]);
            assert(rest.drop_first() =~= view.skip(i + 1));
        }
        if used == width {
            proof {
                assert(pieces(result@) =~= before + message_run(rest, used0 as nat, width as nat).0);
            }
            break;
        }
        proof {
            assert(pieces(result@) + message_run(view.skip(i + 1), used as nat, width as nat).0
                =~= before + message_run(rest, used0 as nat, width as nat).0);
        }
        i += 1;
    }
    used
}

/// `"  "` followed by a text, and maybe a closing text.
fn framed(open: &str, text: &str, close: &str) -> (r: String)
    ensures
        r@ == open@ + text@ + close@,
{
    let mut out = owned(open);
    append(&mut out, text);
    append(&mut out, close);
    out
}

/// The status line beside a message: the active tab, the session's name and the
/// message, cut to the width; with the columns it takes.
pub fn message_segments(session: &str, active: usize, message: &str, width: usize) -> (r: (
    Vec<Segment>,
    usize,
))
    requires
        active < usize::MAX,
    ensures
        ({
            let (p, used) = message_run(message_texts(session@, active as nat, message@), 0, width as nat);
            pieces(r.0@) == p && r.1 as nat == used
        }),
{
    proof {
        reveal_strlit("  [");
        reveal_strlit("]");
        reveal_strlit("  ");
        reveal_strlit("");
        assert("  ["@ =~= seq![' ', ' ', '[']);
        assert("]"@ =~= seq![']']);
        assert("  "@ =~= seq![' ', ' ']);
        assert(""@ =~= Seq::<char>::empty());
    }
    let mut texts: Vec<(String, Option<usize>, SegmentStyle)> = Vec::new();
    texts.push((tab_name(active, active), Some(active), SegmentStyle::Active));
    texts.push((framed("  [", session, "]"), None, SegmentStyle::Base));
    texts.push((framed("  ", message, ""), None, SegmentStyle::Base));
    assert(texts_view(texts@)[1].0 =~= message_texts(session@, active as nat, message@)[1].0);
    assert(texts_view(texts@)[2].0 =~= message_texts(session@, active as nat, message@)[2].0);
    assert(texts_view(texts@) =~= message_texts(session@, active as nat, message@));
    let mut result: Vec<Segment> = Vec::new();
    let used = push_message_texts(&mut result, texts, width);
    assert(pieces(result@) =~= message_run(message_texts(session@, active as nat, message@), 0, width as nat).0);
    (result, used)
}

/// The status line for the session's tabs in `width` columns, with the columns it
/// takes.
pub fn status_segments(
    session: &str,
    tab_count: usize,
    active: usize,
    date: &str,
    time: &str,
    status_line: StatusLine<'_>,
    width: usize,
) -> (r: (Vec<Segment>, usize))
    requires
        active < usize::MAX,
    ensures
        ({
            let f = fields(session@, Seq::empty(), status_line.label@, date@, time@, status_line.metrics@);
            let (p, used) = status_pieces(status_line.format@, f, tab_count as nat, active as nat, width as nat);
            pieces(r.0@) == p && r.1 as nat == used
        }),
{
    let ghost f = fields(session@, Seq::empty(), status_line.label@, date@, time@, status_line.metrics@);
    let ghost format = status_line.format@;
    let mut first: usize = 0;
    let mut last: usize = if tab_count > 0 {
        tab_count - 1
    } else {
        0
    };
    let ghost last0 = last as nat;
    loop
        invariant_except_break
            trimmed(format, f, tab_count as nat, active as nat, first as nat, last as nat, width as nat)
                == trimmed(format, f, tab_count as nat, active as nat, 0, last0, width as nat),
        invariant
            last < usize::MAX,
            active < usize::MAX,
            format == status_line.format@,
            f == fields(session@, Seq::empty(), status_line.label@, date@, time@, status_line.metrics@),
            last0 == (if tab_count > 0 { (tab_count - 1) as nat } else { 0 }),
        ensures
            trimmed(format, f, tab_count as nat, active as nat, 0, last0, width as nat) is None,
        decreases spread(active as nat, first as nat, last as nat),
    {
        let tabs = tab_segments(tab_count, active, first, last);
        let ghost tab_view = pieces(tabs@);
        let mut result = expand_status(
            status_line.format,
            session,
            tabs,
            status_line.label,
            date,
            time,
            status_line.metrics,
        );
        proof {
            assert(fields(session@, tab_view, status_line.label@, date@, time@, status_line.metrics@)
                == Fields { tabs: tab_pieces(tab_count as nat, active as nat, first as nat, last as nat), ..f });
        }
        let used = segments_width(&result);
        if used <= width {
            fill(&mut result, width - used);
            return (result, width);
        }
        let left = active.saturating_sub(first);
        let right = last.saturating_sub(active);
        if right >= left && last > active {
            last -= 1;
        } else if first < active {
            first += 1;
        } else {
            break;
        }
    }
    proof {
        reveal_strlit("  [");
        reveal_strlit("]");
        reveal_strlit("  ");
        reveal_strlit("");
        assert("  ["@ =~= seq![' ', ' ', '[']);
        assert("]"@ =~= seq![']']);
        assert("  "@ =~= seq![' ', ' ']);
        assert(""@ =~= Seq::<char>::empty());
    }
    let mut texts: Vec<(String, Option<usize>, SegmentStyle)> = Vec::new();
    texts.push((tab_name(active, active), Some(active), SegmentStyle::Active));
    texts.push((framed("  ", time, ""), None, SegmentStyle::Base));
    texts.push((framed("  [", session, "]"), None, SegmentStyle::Base));
    assert(texts_view(texts@)[1].0 =~= narrow_texts(session@, active as nat, time@)[1].0);
    assert(texts_view(texts@)[2].0 =~= narrow_texts(session@, active as nat, time@)[2].0);
    assert(texts_view(texts@) =~= narrow_texts(session@, active as nat, time@));
    let mut result: Vec<Segment> = Vec::new();
    let mut used: usize = 0;
    push_texts(&mut result, &mut used, texts, width);
    assert(pieces(result@) =~= narrow(narrow_texts(session@, active as nat, time@), 0, width as nat).0);
    (result, used)
}


/// The tab whose piece covers column `x`, the pieces starting at column `start`.
pub open spec fn tab_hit(p: Seq<Piece>, start: nat, x: nat) -> Option<usize>
    decreases p.len(),
{
    if p.len() == 0 {
        None
    } else {
        let end = capped(start + display_width(p[0].text) as nat) as nat;
        if start <= x < end {
            p[0].tab
        } else {
            tab_hit(p.drop_first(), end, x)
        }
    }
}

/// What the status line shows: the message beside the active tab, or the tabs.
#[verifier::opaque]
pub open spec fn shown_pieces(
    session: Seq<char>,
    tab_count: nat,
    active: nat,
    status_line: StatusLine<'_>,
    message: Option<Seq<char>>,
    date: Seq<char>,
    time: Seq<char>,
    width: nat,
) -> Seq<Piece> {
    match message {
        Some(m) => message_run(message_texts(session, active, m), 0, width).0,
        None => status_pieces(
            status_line.format@,
            fields(session, Seq::empty(), status_line.label@, date, time, status_line.metrics@),
            tab_count,
            active,
            width,
        ).0,
    }
}

pub open spec fn message_view(message: Option<&str>) -> Option<Seq<char>> {
    match message {
        Some(m) => Some(m@),
        None => None,
    }
}

/// The segments of the status line, for the session as it stands.
pub fn shown_segments(
    session: &Session,
    width: usize,
    status_line: StatusLine<'_>,
    message: Option<&str>,
    active: usize,
    date: &str,
    time: &str,
) -> (r: Vec<Segment>)
    requires
        active < usize::MAX,
    ensures
        pieces(r@) == shown_pieces(
            session@.name,
            session@.tabs.len(),
            active as nat,
            status_line,
            message_view(message),
            date@,
            time@,
            width as nat,
        ),
{
    reveal(shown_pieces);
    match message {
        Some(m) => message_segments(session.name(), active, m, width).0,
        None => status_segments(session.name(), session.tab_count(), active, date, time, status_line, width).0,
    }
}

/// The tab whose name is drawn at column `x` of the status line, if any; `date` and
/// `time` are the clock's texts as the line shows them.
pub fn status_tab_at(
    session: &Session,
    size: Size,
    status_line: StatusLine<'_>,
    message: Option<&str>,
    x: u16,
    date: &str,
    time: &str,
) -> (r: Option<usize>)
    requires
        session@.wf(),
    ensures
        r == (if session@.tabs.len() == 0 {
            None
        } else {
            tab_hit(
                shown_pieces(
                    session@.name,
                    session@.tabs.len(),
                    session@.active_tab as nat,
                    status_line,
                    message_view(message),
                    date@,
                    time@,
                    size.columns as nat,
                ),
                0,
                x as nat,
            )
        }),
{
    let active = match session.active_tab() {
        Some(active) => active,
        None => return None,
    };
    let segments = shown_segments(session, size.columns as usize, status_line, message, active, date, time);
    let ghost all = pieces(segments@);
    let mut start: usize = 0;
    let mut i: usize = 0;
    assert(all.skip(0) =~= all);
    while i < segments.len()
        invariant
            0 <= i <= segments@.len(),
            all == pieces(segments@),
            tab_hit(all.skip(i as int), start as nat, x as nat) == tab_hit(all, 0, x as nat),
            session@.tabs.len() > 0,
            all == shown_pieces(
                session@.name,
                session@.tabs.len(),
                session@.active_tab as nat,
                status_line,
                message_view(message),
                date@,
                time@,
                size.columns as nat,
            ),
        decreases segments.len() - i,
    {
        let end = start.saturating_add(text_width(segments[i].text.as_str()));
        proof {
            assert(all[i as int] == segments@[i as int].piece());
            assert(all.skip(i as int)[0] == all[i as int]);
            assert(all.skip(i as int).drop_first() =~= all.skip(i + 1));
        }
        if start <= x as usize && (x as usize) < end {
            return segments[i].tab;
        }
        start = end;
        i += 1;
    }
    None
}

/// The key reminder's name for the prefix key: `Ctrl-` and a letter.
pub open spec fn prefix_name(prefix: u8) -> Seq<char> {
    seq!['C', 't', 'r', 'l', '-', ((prefix + 96) as u8) as char]
}

/// The lines of the key reminder.
pub open spec fn help_text(prefix: u8) -> Seq<Seq<char>> {
    let p = prefix_name(prefix);
    seq![
        "Termfold key reminder"@,
        Seq::empty(),
        p + seq![' '] + p + "       = Send the prefix to the active application"@,
        p + " c            = Create tab"@,
        p + " n / p        = Next / previous tab"@,
        p + " 1..9 / 0     = Select tab 1..10"@,
        p + " | / -        = Split left/right / top/bottom"@,
        p + " Arrow        = Focus adjacent pane"@,
        p + " Ctrl-Arrow   = Resize pane by one cell"@,
        p + " r            = Enter resize mode"@,
        p + " x            = Close active pane"@,
        p + " d            = Detach"@,
        p + " [            = Enter scroll mode"@,
        p + " C            = Clear retained scrollback"@,
        p + " S            = Save retained scrollback"@,
        p + " ?            = Show this key reminder"@,
        Seq::empty(),
        "Help: Up/Down or k/j = line, Page Up/Page Down = page, q/Esc = exit"@,
    ]
}

/// The number of lines in the key reminder.
pub const HELP_LINES: usize = 18;

fn prefixed(name: &String, rest: &str) -> (r: String)
    ensures
        r@ == name@ + rest@,
{
    let mut out = name.clone();
    append(&mut out, rest);
    out
}

/// The lines of the key reminder, for the prefix key `Ctrl-` and a letter.
pub fn help_lines(prefix: u8) -> (r: Vec<String>)
    requires
        prefix <= 158,
    ensures
        r@.map_values(|l: String| l@) == help_text(prefix),
{
    let mut name = String::new();
    name.push('C');
    name.push('t');
    name.push('r');
    name.push('l');
    name.push('-');
    name.push((prefix + 97 - 1) as char);
    assert(name@ =~= prefix_name(prefix));
    let mut both = name.clone();
    both.push(' ');
    append(&mut both, name.as_str());
    assert(both@ =~= prefix_name(prefix) + seq![' '] + prefix_name(prefix));
    let mut lines: Vec<String> = Vec::new();
    lines.push(owned("Termfold key reminder"));
    lines.push(String::new());
    lines.push(prefixed(&both, "       = Send the prefix to the active application"));
    lines.push(prefixed(&name, " c            = Create tab"));
    lines.push(prefixed(&name, " n / p        = Next / previous tab"));
    lines.push(prefixed(&name, " 1..9 / 0     = Select tab 1..10"));
    lines.push(prefixed(&name, " | / -        = Split left/right / top/bottom"));
    lines.push(prefixed(&name, " Arrow        = Focus adjacent pane"));
    lines.push(prefixed(&name, " Ctrl-Arrow   = Resize pane by one cell"));
    lines.push(prefixed(&name, " r            = Enter resize mode"));
    lines.push(prefixed(&name, " x            = Close active pane"));
    lines.push(prefixed(&name, " d            = Detach"));
    lines.push(prefixed(&name, " [            = Enter scroll mode"));
    lines.push(prefixed(&name, " C            = Clear retained scrollback"));
    lines.push(prefixed(&name, " S            = Save retained scrollback"));
    lines.push(prefixed(&name, " ?            = Show this key reminder"));
    lines.push(String::new());
    lines.push(owned("Help: Up/Down or k/j = line, Page Up/Page Down = page, q/Esc = exit"));
    assert(lines@[1]@ =~= Seq::<char>::empty());
    assert(lines@[16]@ =~= Seq::<char>::empty());
    assert(lines@.map_values(|l: String| l@) =~= help_text(prefix));
    lines
}

/// How far the key reminder can scroll in a window of `rows` rows, one of them the
/// status line.
pub fn help_max_offset(rows: u16, prefix: u8) -> (r: usize)
    requires
        prefix <= 158,
    ensures
        r as int == (if HELP_LINES >= rows - 1 { HELP_LINES - (if rows >= 1 { rows - 1 } else { 0 }) } else { 0 }),
        r as int == help_text(prefix).len() - (if rows >= 1 { rows - 1 } else { 0 }) || (r == 0
            && help_text(prefix).len() <= rows - 1),
{
    let lines = help_lines(prefix);
    assert(lines@.len() == help_text(prefix).len());
    let visible = rows.saturating_sub(1) as usize;
    lines.len().saturating_sub(visible)
}


/// Whether a character is white space, as Unicode (and `char::is_whitespace`) has it.
pub open spec fn is_white(c: char) -> bool {
    ('\t' <= c && c <= '\r') || c == ' ' || c == '\u{85}' || c == '\u{a0}' || c == '\u{1680}'
        || ('\u{2000}' <= c && c <= '\u{200a}') || c == '\u{2028}' || c == '\u{2029}' || c
        == '\u{202f}' || c == '\u{205f}' || c == '\u{3000}'
}

pub fn white(c: char) -> (r: bool)
    ensures
        r == is_white(c),
{
    ('\t' <= c && c <= '\r') || c == ' ' || c == '\u{85}' || c == '\u{a0}' || c == '\u{1680}'
        || ('\u{2000}' <= c && c <= '\u{200a}') || c == '\u{2028}' || c == '\u{2029}' || c
        == '\u{202f}' || c == '\u{205f}' || c == '\u{3000}'
}

/// The words of `s`, the runs of characters between white space; `cur` is the word
/// begun before `s`.
pub open spec fn split_words(s: Seq<char>, cur: Seq<char>) -> Seq<Seq<char>>
    decreases s.len(),
{
    if s.len() == 0 {
        if cur.len() > 0 {
            seq![cur]
        } else {
            Seq::empty()
        }
    } else if is_white(s[0]) {
        (if cur.len() > 0 {
            seq![cur]
        } else {
            Seq::empty()
        }) + split_words(s.drop_first(), Seq::empty())
    } else {
        split_words(s.drop_first(), cur.push(s[0]))
    }
}

/// The words of a text, as `str::split_whitespace` gives them.
pub open spec fn words(s: Seq<char>) -> Seq<Seq<char>> {
    split_words(s, Seq::empty())
}

/// The line without the carriage return that ends it, if one does.
pub open spec fn strip_cr(line: Seq<char>) -> Seq<char> {
    if line.len() > 0 && line.last() == '\r' {
        line.drop_last()
    } else {
        line
    }
}

/// The lines of `s`, as `str::lines` gives them; `cur` is the line begun before `s`.
pub open spec fn split_lines(s: Seq<char>, cur: Seq<char>) -> Seq<Seq<char>>
    decreases s.len(),
{
    if s.len() == 0 {
        if cur.len() > 0 {
            seq![cur]
        } else {
            Seq::empty()
        }
    } else if s[0] == '\n' {
        seq![strip_cr(cur)] + split_lines(s.drop_first(), Seq::empty())
    } else {
        split_lines(s.drop_first(), cur.push(s[0]))
    }
}

pub open spec fn lines(s: Seq<char>) -> Seq<Seq<char>> {
    split_lines(s, Seq::empty())
}

pub open spec fn char_seqs(v: Seq<Vec<char>>) -> Seq<Seq<char>> {
    v.map_values(|w: Vec<char>| w@)
}

proof fn lemma_char_seqs_push(v: Seq<Vec<char>>, w: Vec<char>)
    ensures
        char_seqs(v.push(w)) == char_seqs(v).push(w@),
{
    assert(char_seqs(v.push(w)) =~= char_seqs(v).push(w@));
}

/// The words of a text.
pub fn words_of(chars: &Vec<char>) -> (r: Vec<Vec<char>>)
    ensures
        char_seqs(r@) == words(chars@),
{
    let mut out: Vec<Vec<char>> = Vec::new();
    let mut cur: Vec<char> = Vec::new();
    let mut i: usize = 0;
    assert(chars@.skip(0) =~= chars@);
    while i < chars.len()
        invariant
            0 <= i <= chars@.len(),
            char_seqs(out@) + split_words(chars@.skip(i as int), cur@) == words(chars@),
        decreases chars.len() - i,
    {
        let ghost rest = chars@.skip(i as int);
        assert(rest[0] == chars@[i as int]);
        assert(rest.drop_first() =~= chars@.skip(i + 1));
        let c = chars[i];
        if white(c) {
            if cur.len() > 0 {
                let word = cur;
                proof {
                    lemma_char_seqs_push(out@, word);
                }
                out.push(word);
                cur = Vec::new();
                assert(char_seqs(out@) + split_words(chars@.skip(i + 1), cur@) =~= words(chars@));
            } else {
                assert(cur@ =~= Seq::<char>::empty());
                assert(split_words(rest, cur@) =~= split_words(chars@.skip(i + 1), cur@));
            }
        } else {
            cur.push(c);
        }
        i += 1;
    }
    if cur.len() > 0 {
        proof {
            lemma_char_seqs_push(out@, cur);
        }
        out.push(cur);
    }
    assert(char_seqs(out@) =~= words(chars@));
    out
}

/// The lines of a text.
pub fn lines_of(chars: &Vec<char>) -> (r: Vec<Vec<char>>)
    ensures
        char_seqs(r@) == lines(chars@),
{
    let mut out: Vec<Vec<char>> = Vec::new();
    let mut cur: Vec<char> = Vec::new();
    let mut i: usize = 0;
    assert(chars@.skip(0) =~= chars@);
    while i < chars.len()
        invariant
            0 <= i <= chars@.len(),
            char_seqs(out@) + split_lines(chars@.skip(i as int), cur@) == lines(chars@),
        decreases chars.len() - i,
    {
        let ghost rest = chars@.skip(i as int);
        assert(rest[0] == chars@[i as int]);
        assert(rest.drop_first() =~= chars@.skip(i + 1));
        let c = chars[i];
        if c == '\n' {
            let ghost before = cur@;
            let mut line = cur;
            if line.len() > 0 && line[line.len() - 1] == '\r' {
                line.pop();
            }
            assert(line@ =~= strip_cr(before));
            proof {
                lemma_char_seqs_push(out@, line);
            }
            out.push(line);
            cur = Vec::new();
            assert(char_seqs(out@) + split_lines(chars@.skip(i + 1), cur@) =~= lines(chars@));
        } else {
            cur.push(c);
        }
        i += 1;
    }
    if cur.len() > 0 {
        proof {
            lemma_char_seqs_push(out@, cur);
        }
        out.push(cur);
    }
    assert(char_seqs(out@) =~= lines(chars@));
    out
}


pub open spec fn is_digit(c: char) -> bool {
    '0' <= c && c <= '9'
}

/// The number that decimal digits write.
pub open spec fn digits_value(d: Seq<char>) -> nat
    decreases d.len(),
{
    if d.len() == 0 {
        0
    } else {
        digits_value(d.drop_last()) * 10 + (d.last() as nat - 48) as nat
    }
}

pub open spec fn all_digits(d: Seq<char>) -> bool {
    forall|i: int| 0 <= i < d.len() ==> is_digit(#[trigger] d[i])
}

/// The value of a non-empty run of decimal digits, when it is at most `limit`.
pub open spec fn bounded_value(d: Seq<char>, limit: nat) -> Option<nat> {
    if d.len() > 0 && all_digits(d) && digits_value(d) <= limit {
        Some(digits_value(d))
    } else {
        None
    }
}

/// A word as `str::parse::<u64>` reads it: decimal digits after an optional `+`.
pub open spec fn parsed_u64(w: Seq<char>) -> Option<u64> {
    let d = if w.len() > 0 && w[0] == '+' {
        w.drop_first()
    } else {
        w
    };
    match bounded_value(d, u64::MAX as nat) {
        Some(v) => Some(v as u64),
        None => None,
    }
}

/// A word as `str::parse::<i64>` reads it: decimal digits after an optional sign.
pub open spec fn parsed_i64(w: Seq<char>) -> Option<i64> {
    if w.len() > 0 && w[0] == '-' {
        match bounded_value(w.drop_first(), 0x8000_0000_0000_0000) {
            Some(v) => Some((-v) as i64),
            None => None,
        }
    } else {
        let d = if w.len() > 0 && w[0] == '+' {
            w.drop_first()
        } else {
            w
        };
        match bounded_value(d, i64::MAX as nat) {
            Some(v) => Some(v as i64),
            None => None,
        }
    }
}

proof fn lemma_digits_grow(d: Seq<char>, k: int)
    requires
        0 <= k <= d.len(),
        all_digits(d),
    ensures
        digits_value(d.take(k)) <= digits_value(d),
    decreases d.len() - k,
{
    if k < d.len() {
        lemma_digits_grow(d, k + 1);
        assert(d.take(k + 1).drop_last() =~= d.take(k));
        assert(is_digit(d[k]));
        let v = digits_value(d.take(k));
        assert(digits_value(d.take(k + 1)) == v * 10 + (d[k] as nat - 48) as nat);
        assert(v <= v * 10) by (nonlinear_arith);
    } else {
        assert(d.take(k) =~= d);
    }
}

/// The value of the digits from `from` to `to`, when they are all digits, there is at
/// least one, and it is at most `limit`.
pub fn parse_digits(chars: &Vec<char>, from: usize, to: usize, limit: u64) -> (r: Option<u64>)
    requires
        from <= to <= chars@.len(),
        limit >= 9,
    ensures
        r == match bounded_value(chars@.subrange(from as int, to as int), limit as nat) {
            Some(v) => Some(v as u64),
            None => None::<u64>,
        },
{
    let ghost d = chars@.subrange(from as int, to as int);
    if from == to {
        return None;
    }
    let mut value: u64 = 0;
    let mut i = from;
    while i < to
        invariant
            from <= i <= to <= chars@.len(),
            d == chars@.subrange(from as int, to as int),
            limit >= 9,
            all_digits(d.take(i - from)),
            value as nat == digits_value(d.take(i - from)),
            value <= limit,
        decreases to - i,
    {
        let c = chars[i];
        if !('0' <= c && c <= '9') {
            proof {
                assert(d[i - from] == c);
            }
            return None;
        }
        let digit = (c as u32 - 48) as u64;
        proof {
            assert(d.take(i - from + 1).drop_last() =~= d.take(i - from));
            assert(d.take(i - from + 1).last() == c);
        }
        if value > (limit - digit) / 10 {
            proof {
                assert(value * 10 + digit > limit) by (nonlinear_arith)
                    requires
                        value > (limit - digit) / 10,
                        digit <= 9,
                        limit >= 9,
                ;
                if all_digits(d) {
                    lemma_digits_grow(d, i - from + 1);
                }
            }
            return None;
        }
        proof {
            assert(value * 10 + digit <= limit) by (nonlinear_arith)
                requires
                    value <= (limit - digit) / 10,
                    digit <= 9,
                    limit >= 9,
            ;
            assert(all_digits(d.take(i - from + 1))) by {
                assert forall|j: int| 0 <= j < i - from + 1 implies is_digit(#[trigger] d.take(i - from + 1)[j]) by {
                    if j < i - from {
                        assert(d.take(i - from + 1)[j] == d.take(i - from)[j]);
                    }
                }
            }
        }
        value = value * 10 + digit;
        i += 1;
    }
    assert(d.take(to - from) =~= d);
    Some(value)
}

/// A word read as a `u64`.
pub fn parse_u64(word: &Vec<char>) -> (r: Option<u64>)
    ensures
        r == parsed_u64(word@),
{
    if word.len() > 0 && word[0] == '+' {
        assert(word@.drop_first() =~= word@.subrange(1, word@.len() as int));
        parse_digits(word, 1, word.len(), u64::MAX)
    } else {
        assert(word@ =~= word@.subrange(0, word@.len() as int));
        parse_digits(word, 0, word.len(), u64::MAX)
    }
}

/// A word read as an `i64`.
pub fn parse_i64(word: &Vec<char>) -> (r: Option<i64>)
    ensures
        r == parsed_i64(word@),
{
    if word.len() > 0 && word[0] == '-' {
        assert(word@.drop_first() =~= word@.subrange(1, word@.len() as int));
        match parse_digits(word, 1, word.len(), 0x8000_0000_0000_0000) {
            Some(v) => {
                let negative = (0 - (v as i128)) as i64;
                Some(negative)
            },
            None => None,
        }
    } else {
        let from: usize = if word.len() > 0 && word[0] == '+' {
            1
        } else {
            0
        };
        assert(word@.drop_first() =~= word@.subrange(1, word@.len() as int));
        assert(word@ =~= word@.subrange(0, word@.len() as int));
        match parse_digits(word, from, word.len(), i64::MAX as u64) {
            Some(v) => Some(v as i64),
            None => None,
        }
    }
}

/// The text without white space at either end, as `str::trim` gives it.
pub open spec fn trimmed_text(s: Seq<char>) -> Seq<char>
    decreases s.len(),
{
    if s.len() > 0 && is_white(s[0]) {
        trimmed_text(s.drop_first())
    } else if s.len() > 0 && is_white(s.last()) {
        trimmed_text(s.drop_last())
    } else {
        s
    }
}

proof fn lemma_trimmed_sub(s: Seq<char>, a: int, b: int)
    requires
        0 <= a <= b <= s.len(),
        forall|j: int| 0 <= j < a ==> is_white(#[trigger] s[j]),
        forall|j: int| b <= j < s.len() ==> is_white(#[trigger] s[j]),
        a < b ==> !is_white(s[a]) && !is_white(s[b - 1]),
    ensures
        trimmed_text(s) == s.subrange(a, b),
    decreases s.len(),
{
    if s.len() > 0 && is_white(s[0]) {
        assert(a > 0 || b == 0);
        if a > 0 {
            let t = s.drop_first();
            assert forall|j: int| 0 <= j < a - 1 implies is_white(#[trigger] t[j]) by {
                assert(t[j] == s[j + 1]);
            }
            assert forall|j: int| b - 1 <= j < t.len() implies is_white(#[trigger] t[j]) by {
                assert(t[j] == s[j + 1]);
            }
            lemma_trimmed_sub(t, a - 1, b - 1);
            assert(t.subrange(a - 1, b - 1) =~= s.subrange(a, b));
        } else {
            let t = s.drop_first();
            assert forall|j: int| 0 <= j < t.len() implies is_white(#[trigger] t[j]) by {
                assert(t[j] == s[j + 1]);
            }
            lemma_trimmed_sub(t, 0, 0);
            assert(t.subrange(0, 0) =~= s.subrange(a, b));
        }
    } else if s.len() > 0 && is_white(s.last()) {
        let t = s.drop_last();
        assert(b < s.len() || a == b);
        if b < s.len() {
            assert forall|j: int| 0 <= j < a implies is_white(#[trigger] t[j]) by {
                assert(t[j] == s[j]);
            }
            assert forall|j: int| b <= j < t.len() implies is_white(#[trigger] t[j]) by {
                assert(t[j] == s[j]);
            }
            lemma_trimmed_sub(t, a, b);
            assert(t.subrange(a, b) =~= s.subrange(a, b));
        } else {
            assert(a == b);
            assert(a == 0 || is_white(s[0]) || a == s.len());
            assert(false);
        }
    } else {
        if s.len() > 0 {
            assert(a == 0);
            assert(b == s.len());
        }
        assert(s.subrange(a, b) =~= s);
    }
}

/// A sensor reading: a whole number, white space around it allowed.
pub fn parse_temperature(text: &str) -> (r: Option<i64>)
    ensures
        r == parsed_i64(trimmed_text(text@)),
{
    let chars = chars_of(text);
    let mut a: usize = 0;
    while a < chars.len() && white(chars[a])
        invariant
            0 <= a <= chars@.len(),
            forall|j: int| 0 <= j < a ==> is_white(#[trigger] chars@[j]),
        decreases chars.len() - a,
    {
        a += 1;
    }
    let mut b: usize = chars.len();
    while b > a && white(chars[b - 1])
        invariant
            a <= b <= chars@.len(),
            forall|j: int| b <= j < chars@.len() ==> is_white(#[trigger] chars@[j]),
        decreases b - a,
    {
        b -= 1;
    }
    proof {
        if a < b {
            assert(a == chars@.len() || !is_white(chars@[a as int]));
        }
        lemma_trimmed_sub(chars@, a as int, b as int);
    }
    let mut word: Vec<char> = Vec::new();
    let mut i = a;
    while i < b
        invariant
            a <= i <= b <= chars@.len(),
            word@ == chars@.subrange(a as int, i as int),
        decreases b - i,
    {
        word.push(chars[i]);
        i += 1;
        assert(word@ =~= chars@.subrange(a as int, i as int));
    }
    parse_i64(&word)
}


/// Each word read as a `u64`, or `None` if one is not a number.
pub open spec fn parsed_all(ws: Seq<Seq<char>>) -> Option<Seq<u64>>
    decreases ws.len(),
{
    if ws.len() == 0 {
        Some(Seq::empty())
    } else {
        match parsed_all(ws.drop_last()) {
            Some(v) => match parsed_u64(ws.last()) {
                Some(x) => Some(v.push(x)),
                None => None,
            },
            None => None,
        }
    }
}

/// The sum of the values, wrapping around past `u64::MAX`.
pub open spec fn wrapped_total(values: Seq<u64>) -> u64
    decreases values.len(),
{
    if values.len() == 0 {
        0
    } else {
        wrapped_total(values.drop_last()).wrapping_add(values.last())
    }
}

/// The value at `index`, or zero past the end.
pub open spec fn value_at(values: Seq<u64>, index: int) -> u64 {
    if 0 <= index < values.len() {
        values[index]
    } else {
        0
    }
}

/// A processor sample from the text of `/proc/stat`: the sum of the times on the
/// first line, which must begin with the word `cpu`, and the idle and waiting times
/// (the fourth and fifth) added.
pub open spec fn cpu_sample(source: Seq<char>) -> Option<(u64, u64)> {
    let ls = lines(source);
    if ls.len() == 0 {
        None
    } else {
        let ws = words(ls[0]);
        if ws.len() == 0 || ws[0] != seq!['c', 'p', 'u'] {
            None
        } else {
            match parsed_all(ws.drop_first()) {
                Some(values) => Some(
                    (
                        wrapped_total(values),
                        value_at(values, 3).wrapping_add(value_at(values, 4)),
                    ),
                ),
                None => None,
            }
        }
    }
}

/// A processor sample from the text of `/proc/stat`.
pub fn parse_cpu_sample(source: &str) -> (r: Option<(u64, u64)>)
    ensures
        r == cpu_sample(source@),
{
    let chars = chars_of(source);
    let ls = lines_of(&chars);
    if ls.len() == 0 {
        return None;
    }
    let ws = words_of(&ls[0]);
    proof {
        assert(char_seqs(ls@)[0] == ls@[0]@);
    }
    if ws.len() == 0 {
        return None;
    }
    proof {
        assert(char_seqs(ws@)[0] == ws@[0]@);
    }
    if !(ws[0].len() == 3 && ws[0][0] == 'c' && ws[0][1] == 'p' && ws[0][2] == 'u') {
        proof {
            if ws@[0]@ == seq!['c', 'p', 'u'] {
                assert(ws@[0]@[0] == 'c');
            }
        }
        return None;
    }
    assert(ws@[0]@ =~= seq!['c', 'p', 'u']);
    assert(char_seqs(ws@)[0] == seq!['c', 'p', 'u']);
    let ghost rest = char_seqs(ws@).drop_first();
    let mut values: Vec<u64> = Vec::new();
    let mut total: u64 = 0;
    let mut i: usize = 1;
    while i < ws.len()
        invariant
            1 <= i <= ws@.len(),
            rest == char_seqs(ws@).drop_first(),
            lines(source@).len() > 0,
            char_seqs(ws@) == words(lines(source@)[0]),
            char_seqs(ws@)[0] == seq!['c', 'p', 'u'],
            parsed_all(rest.take(i - 1)) == Some(values@),
            total == wrapped_total(values@),
        decreases ws.len() - i,
    {
        let ghost before = values@;
        proof {
            assert(rest.take(i as int).drop_last() =~= rest.take(i - 1));
            assert(rest.take(i as int).last() == ws@[i as int]@);
        }
        match parse_u64(&ws[i]) {
            Some(v) => {
                values.push(v);
                total = total.wrapping_add(v);
                assert(values@.drop_last() =~= before);
            },
            None => {
                proof {
                    lemma_parsed_all_prefix(rest, i as int);
                }
                return None;
            },
        }
        i += 1;
    }
    assert(rest.take(i - 1) =~= rest);
    let at3 = if values.len() > 3 {
        values[3]
    } else {
        0
    };
    let at4 = if values.len() > 4 {
        values[4]
    } else {
        0
    };
    Some((total, at3.wrapping_add(at4)))
}

proof fn lemma_parsed_all_prefix(ws: Seq<Seq<char>>, k: int)
    requires
        0 <= k <= ws.len(),
        parsed_all(ws.take(k)) is None,
    ensures
        parsed_all(ws) is None,
    decreases ws.len() - k,
{
    if k < ws.len() {
        assert(ws.take(k + 1).drop_last() =~= ws.take(k));
        lemma_parsed_all_prefix(ws, k + 1);
    } else {
        assert(ws.take(k) =~= ws);
    }
}

/// A line of `/proc/meminfo`: the name before the first colon and the number that
/// begins what follows it; `None` when there is no colon or no such number.
pub open spec fn meminfo_entry(line: Seq<char>) -> Option<(Seq<char>, u64)> {
    match first_index(line, ':') {
        Some(i) => {
            let ws = words(line.skip(i + 1 as int));
            if ws.len() == 0 {
                None
            } else {
                match parsed_u64(ws[0]) {
                    Some(v) => Some((line.take(i as int), v)),
                    None => None,
                }
            }
        },
        None => None,
    }
}

/// The total and the available memory found in the lines, reading on until both are
/// found; `None` when a line read is not an entry.
pub open spec fn memory_scan(ls: Seq<Seq<char>>, total: Option<u64>, available: Option<u64>) -> Option<
    (Option<u64>, Option<u64>),
>
    decreases ls.len(),
{
    if ls.len() == 0 {
        Some((total, available))
    } else {
        match meminfo_entry(ls[0]) {
            None => None,
            Some((name, value)) => {
                let t = if name == "MemTotal"@ {
                    Some(value)
                } else {
                    total
                };
                let a = if name == "MemAvailable"@ {
                    Some(value)
                } else {
                    available
                };
                if t is Some && a is Some {
                    Some((t, a))
                } else {
                    memory_scan(ls.drop_first(), t, a)
                }
            },
        }
    }
}

/// The memory in use, in percent, from the text of `/proc/meminfo`: what is not
/// available of the total, when the total is known and not zero.
pub open spec fn memory_usage(source: Seq<char>) -> Option<u8> {
    match memory_scan(lines(source), None, None) {
        Some((Some(total), available)) => if total > 0 {
            let free = match available {
                Some(a) => a,
                None => 0,
            };
            let share = sat_mul64(sat_sub64(total, free), 100) / total;
            Some(
                (if share > 100 {
                    100
                } else {
                    share
                }) as u8,
            )
        } else {
            None
        },
        _ => None,
    }
}

fn chars_eq(a: &Vec<char>, b: &str) -> (r: bool)
    ensures
        r == (a@ == b@),
{
    let other = chars_of(b);
    if a.len() != other.len() {
        return false;
    }
    let mut i: usize = 0;
    while i < a.len()
        invariant
            a@.len() == other@.len(),
            other@ == b@,
            0 <= i <= a@.len(),
            forall|j: int| 0 <= j < i ==> a@[j] == other@[j],
        decreases a.len() - i,
    {
        if a[i] != other[i] {
            return false;
        }
        i += 1;
    }
    assert(a@ =~= other@);
    true
}

/// The entry on one line of `/proc/meminfo`.
fn parse_entry(line: &Vec<char>) -> (r: Option<(Vec<char>, u64)>)
    ensures
        match r {
            Some((name, v)) => meminfo_entry(line@) == Some((name@, v)),
            None => meminfo_entry(line@) is None,
        },
{
    let colon = find_char(line, 0, ':');
    proof {
        lemma_found(line@, 0, ':', colon);
        assert(line@.skip(0) =~= line@);
    }
    match colon {
        None => None,
        Some(i) => {
            let mut after: Vec<char> = Vec::new();
            assert(i < line.len());
            let mut k = i + 1;
            while k < line.len()
                invariant
                    i < line@.len(),
                    i + 1 <= k <= line@.len(),
                    after@ == line@.subrange(i + 1, k as int),
                decreases line.len() - k,
            {
                after.push(line[k]);
                k += 1;
                assert(after@ =~= line@.subrange(i + 1, k as int));
            }
            assert(after@ =~= line@.skip(i + 1));
            let ws = words_of(&after);
            if ws.len() == 0 {
                return None;
            }
            proof {
                assert(char_seqs(ws@)[0] == ws@[0]@);
            }
            match parse_u64(&ws[0]) {
                Some(v) => {
                    let mut name: Vec<char> = Vec::new();
                    let mut k: usize = 0;
                    while k < i
                        invariant
                            i < line@.len(),
                            0 <= k <= i,
                            name@ == line@.take(k as int),
                        decreases i - k,
                    {
                        name.push(line[k]);
                        k += 1;
                        assert(name@ =~= line@.take(k as int));
                    }
                    Some((name, v))
                },
                None => None,
            }
        },
    }
}

/// The memory in use, in percent, from the text of `/proc/meminfo`.
pub fn parse_memory_usage(source: &str) -> (r: Option<u8>)
    ensures
        r == memory_usage(source@),
{
    let chars = chars_of(source);
    let ls = lines_of(&chars);
    let ghost all = char_seqs(ls@);
    let mut total: Option<u64> = None;
    let mut available: Option<u64> = None;
    let mut i: usize = 0;
    assert(all.skip(0) =~= all);
    loop
        invariant_except_break
            memory_scan(all.skip(i as int), total, available) == memory_scan(all, None, None),
        invariant
            0 <= i <= ls@.len(),
            all == char_seqs(ls@),
            all == lines(source@),
        ensures
            memory_scan(all, None, None) == Some((total, available)),
        decreases ls@.len() - i,
    {
        let ghost rest = all.skip(i as int);
        if i == ls.len() {
            break;
        }
        proof {
            assert(rest[0] == ls@[i as int]@);
            assert(rest.drop_first() =~= all.skip(i + 1));
        }
        match parse_entry(&ls[i]) {
            None => return None,
            Some((name, value)) => {
                if chars_eq(&name, "MemTotal") {
                    total = Some(value);
                }
                if chars_eq(&name, "MemAvailable") {
                    available = Some(value);
                }
                if total.is_some() && available.is_some() {
                    break;
                }
            },
        }
        i += 1;
    }
    match total {
        None => None,
        Some(total) => {
            if total > 0 {
                let free = match available {
                    Some(a) => a,
                    None => 0,
                };
                let used = total.saturating_sub(free);
                let scaled = if used > u64::MAX / 100 {
                    u64::MAX
                } else {
                    used * 100
                };
                let share = scaled / total;
                Some(
                    if share > 100 {
                        100
                    } else {
                        share as u8
                    },
                )
            } else {
                None
            }
        },
    }
}

} // verus!
