//! `journalctl` over the per-unit fallback log files.
//!
//! Files live at
//!
//! ```text
//!   $XDG_STATE_HOME/systeml/journal/<unit>.out.log
//!   $XDG_STATE_HOME/systeml/journal/<unit>.err.log
//! ```
//!
//! Each line written by the runtime is prefixed with an RFC3339 wall-clock
//! timestamp captured at line-flush time. The prefix is parsed here and
//! rendered. Lines that lack the prefix are tolerated — they show up
//! untimestamped. Files are read, and lines printed, by the caller.

use crate::number;
use crate::number::decimal_string;
use crate::paths;
use crate::paths::join;
use crate::text;
use crate::text::{chars_of, debug_text, join_by, lines, same, split_once, string_of, strip_suffix};
use crate::text_map;
use crate::text_map::TextMap;
use vstd::prelude::*;
use vstd::slice::slice_subrange;

verus! {

// ---------------------------------------------------------------------
// Output format + line parsing
// ---------------------------------------------------------------------

/// How lines are shown.
#[derive(Debug, Clone, Copy, PartialEq, Eq, Structural)]
pub enum Format {
    /// `MMM DD HH:MM:SS unit[stream]: line` — short systemd-style.
    Short,
    /// `<rfc3339> unit[stream]: line` — full ISO timestamp.
    ShortIso,
    /// `<line>` only — no decoration, no timestamp.
    Cat,
    /// One JSON object per line:
    /// `{"ts":"...","unit":..,"stream":..,"line":..}`.
    /// `ts` is null for lines without a parseable timestamp prefix.
    Json,
}

/// The format of an `--output` argument.
pub open spec fn format_of(s: Seq<char>) -> Result<Format, Seq<char>> {
    if s == "short"@ || s == ""@ {
        Ok(Format::Short)
    } else if s == "short-iso"@ {
        Ok(Format::ShortIso)
    } else if s == "cat"@ {
        Ok(Format::Cat)
    } else if s == "json"@ {
        Ok(Format::Json)
    } else {
        Err(
            "unknown --output format "@ + text::debug_form(s)
                + " (try short, short-iso, cat, json)"@,
        )
    }
}

/// Reads an `--output` argument.
pub fn parse_format(s: &str) -> (r: Result<Format, String>)
    ensures
        match r {
            Ok(f) => format_of(s@) == Ok::<Format, Seq<char>>(f),
            Err(e) => format_of(s@) == Err::<Format, Seq<char>>(e@),
        },
{
    if same(s, "short") || same(s, "") {
        Ok(Format::Short)
    } else if same(s, "short-iso") {
        Ok(Format::ShortIso)
    } else if same(s, "cat") {
        Ok(Format::Cat)
    } else if same(s, "json") {
        Ok(Format::Json)
    } else {
        let mut m = "unknown --output format ".to_owned();
        m.append(debug_text(s).as_str());
        m.append(" (try short, short-iso, cat, json)");
        Err(m)
    }
}

/// What `time::OffsetDateTime::parse` makes of a text with the format
/// `Rfc3339`: the month, day, hour, minute and second of the timestamp, if it
/// is one.
pub uninterp spec fn rfc3339(s: Seq<char>) -> Option<(u8, u8, u8, u8, u8)>;

/// `time::OffsetDateTime::parse` with the well-known format `Rfc3339`, then
/// the parts of the timestamp: the result depends on the text alone.
#[verifier::external_body]
fn parse_rfc3339(s: &str) -> (r: Option<(u8, u8, u8, u8, u8)>)
    ensures
        r == rfc3339(s@),
{
    match time::OffsetDateTime::parse(s, &time::format_description::well_known::Rfc3339) {
        Ok(t) => Some((u8::from(t.month()), t.day(), t.hour(), t.minute(), t.second())),
        Err(_) => None,
    }
}

/// What `serde_json::to_string` makes of a text: a JSON string.
pub uninterp spec fn json_form(s: Seq<char>) -> Seq<char>;

/// `serde_json::to_string` on a text, which has no way to fail: the result
/// depends on the text alone.
#[verifier::external_body]
fn json_text(s: &str) -> (r: String)
    ensures
        r@ == json_form(s@),
{
    serde_json::to_string(s).unwrap_or_default()
}

/// A line's timestamp, if it has one, with its parts, and its message.
pub type Stamped = (Option<(Seq<char>, (u8, u8, u8, u8, u8))>, Seq<char>);

/// Splits a line, given what its first word is as a timestamp: what stands
/// before the first space counts as one just where it is one.
pub open spec fn split_line(line: Seq<char>, parts: Option<(u8, u8, u8, u8, u8)>) -> Stamped {
    match (text::split_at_first(line, ' '), parts) {
        (Some((head, rest)), Some(p)) => (Some((head, p)), rest),
        _ => (None, line),
    }
}

/// What a line's first word is as a timestamp.
pub open spec fn line_stamp(line: Seq<char>) -> Option<(u8, u8, u8, u8, u8)> {
    match text::split_at_first(line, ' ') {
        Some((head, _)) => rfc3339(head),
        None => None,
    }
}

/// Split `<RFC3339-timestamp> <message>` into its parts. If the prefix isn't a
/// parseable RFC3339 timestamp, the whole line is the message.
pub fn split_timestamp(line: &str) -> (r: (Option<(String, (u8, u8, u8, u8, u8))>, String))
    ensures
        (
            match r.0 {
                Some((h, p)) => Some((h@, p)),
                None => None,
            },
            r.1@,
        ) == split_line(line@, line_stamp(line@)),
{
    let v = chars_of(line);
    if let Some((head, rest)) = split_once(v.as_slice(), ' ') {
        let head = string_of(head);
        if let Some(p) = parse_rfc3339(head.as_str()) {
            return (Some((head, p)), string_of(rest));
        }
    }
    (None, line.to_owned())
}

/// A number in two digits, or more where it has more.
pub open spec fn two_digits(n: u8) -> Seq<char> {
    if n < 10 {
        "0"@ + number::decimal(n as nat)
    } else {
        number::decimal(n as nat)
    }
}

fn push_two_digits(out: &mut String, n: u8)
    ensures
        final(out)@ == old(out)@ + two_digits(n),
{
    if n < 10 {
        out.append("0");
    }
    out.append(decimal_string(n as u64).as_str());
    proof {
        assert(out@ =~= old(out)@ + two_digits(n));
    }
}

/// The abbreviation of a month.
pub open spec fn month_text(m: u8) -> Seq<char> {
    if m == 1 {
        "Jan"@
    } else if m == 2 {
        "Feb"@
    } else if m == 3 {
        "Mar"@
    } else if m == 4 {
        "Apr"@
    } else if m == 5 {
        "May"@
    } else if m == 6 {
        "Jun"@
    } else if m == 7 {
        "Jul"@
    } else if m == 8 {
        "Aug"@
    } else if m == 9 {
        "Sep"@
    } else if m == 10 {
        "Oct"@
    } else if m == 11 {
        "Nov"@
    } else if m == 12 {
        "Dec"@
    } else {
        "???"@
    }
}

/// The abbreviation of a month.
pub fn month_abbrev(m: u8) -> (r: &'static str)
    ensures
        r@ == month_text(m),
{
    match m {
        1 => "Jan",
        2 => "Feb",
        3 => "Mar",
        4 => "Apr",
        5 => "May",
        6 => "Jun",
        7 => "Jul",
        8 => "Aug",
        9 => "Sep",
        10 => "Oct",
        11 => "Nov",
        12 => "Dec",
        _ => "???",
    }
}

/// A timestamp as `MMM DD HH:MM:SS`.
pub open spec fn short_stamp(p: (u8, u8, u8, u8, u8)) -> Seq<char> {
    month_text(p.0) + " "@ + two_digits(p.1) + " "@ + two_digits(p.2) + ":"@ + two_digits(p.3)
        + ":"@ + two_digits(p.4)
}

/// Render a timestamp into `MMM DD HH:MM:SS` like upstream journalctl's
/// "short" format.
pub fn short_ts(p: (u8, u8, u8, u8, u8)) -> (r: String)
    ensures
        r@ == short_stamp(p),
{
    let mut out = month_abbrev(p.0).to_owned();
    out.append(" ");
    push_two_digits(&mut out, p.1);
    out.append(" ");
    push_two_digits(&mut out, p.2);
    out.append(":");
    push_two_digits(&mut out, p.3);
    out.append(":");
    push_two_digits(&mut out, p.4);
    out
}

/// A message with its origin: `unit[stream]: message`.
pub open spec fn origin_text(unit: Seq<char>, stream: Seq<char>, msg: Seq<char>) -> Seq<char> {
    unit + "["@ + stream + "]: "@ + msg
}

/// A JSON string, or `null`.
pub open spec fn json_or_null(ts: Option<Seq<char>>) -> Seq<char> {
    match ts {
        Some(t) => json_form(t),
        None => "null"@,
    }
}

/// The JSON object of a line.
pub open spec fn json_record(
    ts: Option<Seq<char>>,
    unit: Seq<char>,
    stream: Seq<char>,
    line: Seq<char>,
) -> Seq<char> {
    "{\"ts\":"@ + json_or_null(ts) + ",\"unit\":"@ + json_form(unit) + ",\"stream\":"@ + json_form(
        stream,
    ) + ",\"line\":"@ + json_form(line) + "}"@
}

/// A line as it is shown, given its timestamp and message.
pub open spec fn rendered(
    unit: Seq<char>,
    stream: Seq<char>,
    line: Stamped,
    f: Format,
) -> Seq<char> {
    let msg = line.1;
    match (f, line.0) {
        (Format::Short, Some((_, p))) => short_stamp(p) + " "@ + origin_text(unit, stream, msg),
        (Format::ShortIso, Some((rfc, _))) => rfc + " "@ + origin_text(unit, stream, msg),
        (Format::Short, None) | (Format::ShortIso, None) => origin_text(unit, stream, msg),
        (Format::Cat, _) => msg,
        (Format::Json, Some((rfc, _))) => json_record(Some(rfc), unit, stream, msg),
        (Format::Json, None) => json_record(None, unit, stream, msg),
    }
}

fn push_origin(out: &mut String, unit: &str, stream: &str, msg: &str)
    ensures
        final(out)@ == old(out)@ + origin_text(unit@, stream@, msg@),
{
    out.append(unit);
    out.append("[");
    out.append(stream);
    out.append("]: ");
    out.append(msg);
    proof {
        assert(out@ =~= old(out)@ + origin_text(unit@, stream@, msg@));
    }
}

/// The JSON object of a line.
fn json_line(ts: Option<&String>, unit: &str, stream: &str, line: &str) -> (r: String)
    ensures
        r@ == json_record(
            match ts {
                Some(t) => Some(t@),
                None => None,
            },
            unit@,
            stream@,
            line@,
        ),
{
    let mut out = "{\"ts\":".to_owned();
    match ts {
        Some(t) => out.append(json_text(t.as_str()).as_str()),
        None => out.append("null"),
    }
    out.append(",\"unit\":");
    out.append(json_text(unit).as_str());
    out.append(",\"stream\":");
    out.append(json_text(stream).as_str());
    out.append(",\"line\":");
    out.append(json_text(line).as_str());
    out.append("}");
    out
}

/// A line as it is shown, given its timestamp, if it has one, and its message.
pub fn render(
    unit: &str,
    stream: &str,
    ts: &Option<(String, (u8, u8, u8, u8, u8))>,
    msg: &str,
    f: Format,
) -> (r: String)
    ensures
        r@ == rendered(
            unit@,
            stream@,
            (
                match *ts {
                    Some((h, p)) => Some((h@, p)),
                    None => None,
                },
                msg@,
            ),
            f,
        ),
{
    match f {
        Format::Short => match ts {
            Some((_, p)) => {
                let mut out = short_ts(*p);
                out.append(" ");
                push_origin(&mut out, unit, stream, msg);
                proof {
                    assert(out@ =~= short_stamp(*p) + " "@ + origin_text(unit@, stream@, msg@));
                }
                out
            },
            None => {
                let mut out = String::new();
                push_origin(&mut out, unit, stream, msg);
                proof {
                    assert(out@ =~= origin_text(unit@, stream@, msg@));
                }
                out
            },
        },
        Format::ShortIso => match ts {
            Some((h, _)) => {
                let mut out = h.clone();
                out.append(" ");
                push_origin(&mut out, unit, stream, msg);
                proof {
                    assert(out@ =~= h@ + " "@ + origin_text(unit@, stream@, msg@));
                }
                out
            },
            None => {
                let mut out = String::new();
                push_origin(&mut out, unit, stream, msg);
                proof {
                    assert(out@ =~= origin_text(unit@, stream@, msg@));
                }
                out
            },
        },
        Format::Cat => msg.to_owned(),
        Format::Json => match ts {
            Some((h, _)) => json_line(Some(h), unit, stream, msg),
            None => json_line(None, unit, stream, msg),
        },
    }
}

/// A raw line as it is shown.
pub open spec fn shown(unit: Seq<char>, stream: Seq<char>, raw: Seq<char>, f: Format) -> Seq<char> {
    rendered(unit, stream, split_line(raw, line_stamp(raw)), f)
}

/// A raw line as it is shown.
pub fn emit(unit: &str, stream: &str, raw: &str, f: Format) -> (r: String)
    ensures
        r@ == shown(unit@, stream@, raw@, f),
{
    let (ts, msg) = split_timestamp(raw);
    render(unit, stream, &ts, msg.as_str(), f)
}

// ---------------------------------------------------------------------
// Filesystem layout
// ---------------------------------------------------------------------

/// The directory of the journal, given that of the program's state.
pub fn journal_dir(state_dir: &Option<String>) -> (r: Result<String, String>)
    ensures
        match (*state_dir, r) {
            (Some(d), Ok(p)) => p@ == paths::joined(d@, "journal"@),
            (None, Err(e)) => e@ == "could not resolve $XDG_STATE_HOME"@,
            _ => false,
        },
{
    match state_dir {
        Some(d) => Ok(join(d.as_str(), "journal")),
        None => Err("could not resolve $XDG_STATE_HOME".to_owned()),
    }
}

/// The file of one of a unit's streams.
pub fn stream_file(dir: &str, unit: &str, kind: &str) -> (r: String)
    ensures
        r@ == paths::joined(dir@, unit@ + "."@ + kind@ + ".log"@),
{
    let mut name = unit.to_owned();
    name.append(".");
    name.append(kind);
    name.append(".log");
    join(dir, name.as_str())
}

/// Texts by key.
pub type Tags = Map<Seq<char>, Seq<char>>;

/// Which streams a unit has, with its output.
pub open spec fn with_out(m: Tags, unit: Seq<char>) -> Tags {
    if m.contains_key(unit) && (m[unit] == "err"@ || m[unit] == "out,err"@) {
        m.insert(unit, "out,err"@)
    } else {
        m.insert(unit, "out"@)
    }
}

/// Which streams a unit has, with its errors.
pub open spec fn with_err(m: Tags, unit: Seq<char>) -> Tags {
    if m.contains_key(unit) && (m[unit] == "out"@ || m[unit] == "out,err"@) {
        m.insert(unit, "out,err"@)
    } else {
        m.insert(unit, "err"@)
    }
}

/// The streams of the units that have files, by these file names.
pub open spec fn streams_of(names: Seq<Seq<char>>) -> Tags
    decreases names.len(),
{
    if names.len() == 0 {
        Map::empty()
    } else {
        let before = streams_of(names.drop_last());
        match text::without_suffix(names.last(), ".out.log"@) {
            Some(unit) => with_out(before, unit),
            None => match text::without_suffix(names.last(), ".err.log"@) {
                Some(unit) => with_err(before, unit),
                None => before,
            },
        }
    }
}

/// A text with spaces behind it, up to a width.
pub open spec fn padded(s: Seq<char>, width: nat) -> Seq<char>
    decreases width - s.len(),
{
    if s.len() >= width {
        s
    } else {
        padded(s.push(' '), width)
    }
}

/// A text with spaces behind it, up to a width.
pub fn pad(s: &str, width: usize) -> (r: String)
    ensures
        r@ == padded(s@, width as nat),
{
    let mut out = s.to_owned();
    let mut n: usize = chars_of(s).len();
    while n < width
        invariant
            n == out@.len(),
            padded(out@, width as nat) == padded(s@, width as nat),
        decreases width - n,
    {
        out.push(' ');
        n = n + 1;
    }
    out
}

fn tags_are(m: &TextMap, unit: &str, a: &str, b: &str) -> (r: bool)
    ensures
        r == (m@.contains_key(unit@) && (m@[unit@] == a@ || m@[unit@] == b@)),
{
    match m.get(unit) {
        Some(t) => same(t.as_str(), a) || same(t.as_str(), b),
        None => false,
    }
}

/// The streams of the units that have files, by the file names of the journal
/// directory.
pub fn streams(names: &Vec<String>) -> (r: TextMap)
    ensures
        r@ == streams_of(text::texts(names@)),
{
    let ghost all = text::texts(names@);
    let mut out = TextMap::new();
    let mut i: usize = 0;
    while i < names.len()
        invariant
            i <= names.len(),
            all == text::texts(names@),
            out@ == streams_of(all.take(i as int)),
        decreases names.len() - i,
    {
        proof {
            assert(all.take(i + 1).drop_last() =~= all.take(i as int));
            assert(all.take(i + 1).last() == names@[i as int]@);
        }
        let v = chars_of(names[i].as_str());
        match strip_suffix(v.as_slice(), ".out.log") {
            Some(u) => {
                let unit = string_of(u);
                let tags = if tags_are(&out, unit.as_str(), "err", "out,err") {
                    "out,err"
                } else {
                    "out"
                };
                out.insert(unit.as_str(), tags);
            },
            None => {
                if let Some(u) = strip_suffix(v.as_slice(), ".err.log") {
                    let unit = string_of(u);
                    let tags = if tags_are(&out, unit.as_str(), "out", "out,err") {
                        "out,err"
                    } else {
                        "err"
                    };
                    out.insert(unit.as_str(), tags);
                }
            },
        }
        i = i + 1;
    }
    proof {
        assert(all.take(all.len() as int) =~= all);
    }
    out
}

/// The lines of a list of units with their streams.
pub open spec fn listing(pairs: Seq<(Seq<char>, Seq<char>)>) -> Seq<Seq<char>> {
    seq![padded("UNIT"@, 48) + " STREAMS"@] + pairs.map_values(
        |p: (Seq<char>, Seq<char>)| padded(p.0, 48) + " "@ + p.1,
    )
}

/// What `--list` prints of the units with their streams, in order; nothing
/// where there are none.
pub fn list_units(m: &TextMap) -> (r: Vec<String>)
    ensures
        exists|s: Seq<(Seq<char>, Seq<char>)>| #[trigger]
            text_map::lists(s, m@) && text::texts(r@) == if s.len() == 0 {
                seq![]
            } else {
                listing(s)
            },
{
    let pairs = m.entries();
    let ghost s = text_map::pairs_view(pairs@);
    let ghost all = listing(s);
    let mut out: Vec<String> = Vec::new();
    proof {
        assert(text_map::lists(s, m@));
    }
    if pairs.len() == 0 {
        proof {
            assert(text::texts(out@) =~= seq![]);
        }
        return out;
    }
    let mut head = pad("UNIT", 48);
    head.append(" STREAMS");
    out.push(head);
    let mut i: usize = 0;
    proof {
        assert(text::texts(out@) =~= all.take(1));
    }
    while i < pairs.len()
        invariant
            i <= pairs.len(),
            s == text_map::pairs_view(pairs@),
            all == listing(s),
            text::texts(out@) == all.take(i + 1),
        decreases pairs.len() - i,
    {
        let ghost before = out@;
        let mut line = pad(pairs[i].0.as_str(), 48);
        line.append(" ");
        line.append(pairs[i].1.as_str());
        out.push(line);
        proof {
            assert(s[i as int] == (pairs@[i as int].0@, pairs@[i as int].1@));
            assert(all[i + 1] == line@);
            assert(text::texts(out@) =~= text::texts(before).push(all[i + 1]));
            assert(all.take(i + 2) =~= all.take(i + 1).push(all[i + 1]));
        }
        i = i + 1;
    }
    proof {
        assert(all.take(all.len() as int) =~= all);
    }
    out
}

// ---------------------------------------------------------------------
// Replay and follow
// ---------------------------------------------------------------------

/// The last lines of some, where fewer than all are asked for.
pub open spec fn tail_of(ls: Seq<Seq<char>>, n: Option<nat>) -> Seq<Seq<char>> {
    match n {
        Some(k) => if k < ls.len() {
            ls.skip(ls.len() - k)
        } else {
            ls
        },
        None => ls,
    }
}

/// Lines as they are shown.
pub open spec fn all_shown(
    unit: Seq<char>,
    stream: Seq<char>,
    ls: Seq<Seq<char>>,
    f: Format,
) -> Seq<Seq<char>> {
    ls.map_values(|l: Seq<char>| shown(unit, stream, l, f))
}

/// A limit as a number.
pub open spec fn opt_nat(n: Option<usize>) -> Option<nat> {
    match n {
        Some(k) => Some(k as nat),
        None => None,
    }
}

fn show_from(
    unit: &str,
    stream: &str,
    ls: &Vec<&[char]>,
    start: usize,
    f: Format,
) -> (r: Vec<String>)
    requires
        start <= ls@.len(),
    ensures
        text::texts(r@) == all_shown(unit@, stream@, text::slices(ls@).skip(start as int), f),
{
    let ghost part = text::slices(ls@).skip(start as int);
    let ghost all = all_shown(unit@, stream@, part, f);
    let mut out: Vec<String> = Vec::new();
    let mut i: usize = start;
    proof {
        assert(text::texts(out@) =~= all.take(0));
    }
    while i < ls.len()
        invariant
            start <= i <= ls@.len(),
            part == text::slices(ls@).skip(start as int),
            all == all_shown(unit@, stream@, part, f),
            text::texts(out@) == all.take(i - start),
        decreases ls@.len() - i,
    {
        let ghost before = out@;
        let l = string_of(ls[i]);
        out.push(emit(unit, stream, l.as_str(), f));
        proof {
            let k = i - start;
            assert(part[k] == text::slices(ls@)[i as int]);
            assert(all[k] == shown(unit@, stream@, l@, f));
            assert(text::texts(out@) =~= text::texts(before).push(all[k]));
            assert(all.take(k + 1) =~= all.take(k).push(all[k]));
        }
        i = i + 1;
    }
    proof {
        assert(all.take(all.len() as int) =~= all);
    }
    out
}

/// What is printed of a stream: every line of it, or just the tail of `n`
/// lines if `n` was given.
pub fn replay(unit: &str, stream: &str, contents: &str, n: Option<usize>, f: Format) -> (r: Vec<
    String,
>)
    ensures
        text::texts(r@) == all_shown(
            unit@,
            stream@,
            tail_of(text::lines_of(contents@), opt_nat(n)),
            f,
        ),
{
    let v = chars_of(contents);
    let ls = lines(v.as_slice());
    let start: usize = match n {
        Some(k) => if k < ls.len() {
            ls.len() - k
        } else {
            0
        },
        None => 0,
    };
    proof {
        assert(text::slices(ls@).len() == ls@.len());
        assert(text::slices(ls@).skip(0) =~= text::slices(ls@));
    }
    show_from(unit, stream, &ls, start, f)
}

/// What is printed of a stream before it is followed: its last `n` lines, none
/// where no number is given.
pub fn initial_tail(unit: &str, stream: &str, contents: &str, n: Option<usize>, f: Format) -> (r:
    Vec<String>)
    ensures
        text::texts(r@) == all_shown(
            unit@,
            stream@,
            tail_of(
                text::lines_of(contents@),
                match n {
                    Some(k) => Some(k as nat),
                    None => Some(0nat),
                },
            ),
            f,
        ),
{
    match n {
        Some(k) => replay(unit, stream, contents, Some(k), f),
        None => replay(unit, stream, contents, Some(0), f),
    }
}

/// What to do with a stream that is followed.
#[derive(Debug, Clone, Copy, PartialEq, Eq, Structural)]
pub enum FollowStep {
    /// There is nothing new; go on at this position.
    Wait(u64),
    /// Read from this position; go on at the length of the file.
    ReadFrom(u64),
}

/// What to do with a stream, given the position up to which it was read and
/// the length of its file. One that was truncated is read from the start.
pub fn follow_step(pos: u64, len: u64) -> (r: FollowStep)
    ensures
        r == if len < pos {
            if len == 0 {
                FollowStep::Wait(0)
            } else {
                FollowStep::ReadFrom(0)
            }
        } else if len == pos {
            FollowStep::Wait(pos)
        } else {
            FollowStep::ReadFrom(pos)
        },
{
    let pos: u64 = if len < pos {
        0
    } else {
        pos
    };
    if len <= pos {
        FollowStep::Wait(pos)
    } else {
        FollowStep::ReadFrom(pos)
    }
}

/// A text without the characters of a kind that end it.
pub open spec fn without_trailing(s: Seq<char>, c: char) -> Seq<char>
    decreases s.len(),
{
    if s.len() > 0 && s.last() == c {
        without_trailing(s.drop_last(), c)
    } else {
        s
    }
}

/// A line that was read while following, without its line end.
pub open spec fn trimmed_line(s: Seq<char>) -> Seq<char> {
    without_trailing(without_trailing(s, '\n'), '\r')
}

fn trailing_len(v: &[char], n: usize, c: char) -> (r: usize)
    requires
        n <= v@.len(),
    ensures
        r <= n,
        v@.take(r as int) == without_trailing(v@.take(n as int), c),
{
    let mut r: usize = n;
    while r > 0 && v[r - 1] == c
        invariant
            r <= n <= v@.len(),
            without_trailing(v@.take(n as int), c) == without_trailing(v@.take(r as int), c),
        decreases r,
    {
        proof {
            assert(v@.take(r as int).drop_last() =~= v@.take(r - 1));
        }
        r = r - 1;
    }
    r
}

/// What is printed of a line that was read while following.
pub fn followed_line(unit: &str, stream: &str, line: &str, f: Format) -> (r: String)
    ensures
        r@ == shown(unit@, stream@, trimmed_line(line@), f),
{
    let chars = chars_of(line);
    let v = chars.as_slice();
    proof {
        assert(v@.take(v@.len() as int) =~= line@);
    }
    let a = trailing_len(v, v.len(), '\n');
    let b = trailing_len(v, a, '\r');
    proof {
        assert(v@.subrange(0, b as int) =~= v@.take(b as int));
    }
    let l = string_of(slice_subrange(v, 0, b));
    emit(unit, stream, l.as_str(), f)
}

// ---------------------------------------------------------------------
// Messages
// ---------------------------------------------------------------------

/// What is said where none of the units has a journal file.
pub fn no_files_text(units: &Vec<String>) -> (r: String)
    ensures
        r@ == "journalctl: no journal files for unit(s): "@ + text::joined_by(
            text::texts(units@),
            ", "@,
        ),
{
    let mut out = "journalctl: no journal files for unit(s): ".to_owned();
    out.append(join_by(units, ", ").as_str());
    out
}

// ---------------------------------------------------------------------
// Laws
// ---------------------------------------------------------------------

/// A line without a timestamp is shown in full, in every format but JSON's:
/// the message ends what is shown.
pub proof fn unstamped_lines_are_kept(
    unit: Seq<char>,
    stream: Seq<char>,
    raw: Seq<char>,
    f: Format,
)
    requires
        line_stamp(raw) is None,
        !(f is Json),
    ensures
        text::finishes_with(shown(unit, stream, raw, f), raw),
{
    let s = shown(unit, stream, raw, f);
    assert(s.skip(s.len() - raw.len()) =~= raw);
}

/// The two parts of a stamped line make the line again.
pub proof fn stamp_and_message_make_the_line(
    line: Seq<char>,
    parts: Option<(u8, u8, u8, u8, u8)>,
)
    ensures
        match split_line(line, parts) {
            (Some((head, _)), rest) => line == head + seq![' '] + rest,
            (None, rest) => line == rest,
        },
{
    if let (Some((head, _)), rest) = split_line(line, parts) {
        text::lemma_first_index(line, ' ');
        assert(line =~= head + seq![' '] + rest);
    }
}

proof fn lemma_suffix_of(s: Seq<char>, ending: Seq<char>, unit: Seq<char>)
    ensures
        (text::without_suffix(s, ending) == Some(unit)) == (s == unit + ending),
{
    if s == unit + ending {
        assert(s.skip(s.len() - ending.len()) =~= ending);
        assert(s.take(s.len() - ending.len()) =~= unit);
    }
    if text::without_suffix(s, ending) == Some(unit) {
        assert(s =~= s.take(s.len() - ending.len()) + s.skip(s.len() - ending.len()));
    }
}

proof fn lemma_contains_last(names: Seq<Seq<char>>, x: Seq<char>)
    requires
        names.len() > 0,
    ensures
        names.contains(x) == (x == names.last() || names.drop_last().contains(x)),
{
    let rest = names.drop_last();
    assert(names[names.len() - 1] == names.last());
    if rest.contains(x) {
        assert(names[rest.index_of(x)] == x);
    }
    if names.contains(x) {
        let k = names.index_of(x);
        assert(names[k] == x);
        if k < rest.len() {
            assert(rest[k] == x);
        }
    }
}

/// A unit is listed just where it has a file, with just the streams that it
/// has files of.
pub proof fn listing_says_which_files_exist(names: Seq<Seq<char>>, unit: Seq<char>)
    ensures
        ({
            let out = names.contains(unit + ".out.log"@);
            let err = names.contains(unit + ".err.log"@);
            &&& streams_of(names).contains_key(unit) == (out || err)
            &&& out && err ==> streams_of(names)[unit] == "out,err"@
            &&& out && !err ==> streams_of(names)[unit] == "out"@
            &&& err && !out ==> streams_of(names)[unit] == "err"@
        }),
    decreases names.len(),
{
    if names.len() > 0 {
        let s = names.last();
        listing_says_which_files_exist(names.drop_last(), unit);
        lemma_contains_last(names, unit + ".out.log"@);
        lemma_contains_last(names, unit + ".err.log"@);
        lemma_suffix_of(s, ".out.log"@, unit);
        lemma_suffix_of(s, ".err.log"@, unit);
        reveal_strlit(".out.log");
        reveal_strlit(".err.log");
        reveal_strlit("out");
        reveal_strlit("err");
        reveal_strlit("out,err");
        assert("out"@[0] != "err"@[0]);
        assert("out"@.len() != "out,err"@.len());
        if s == unit + ".err.log"@ {
            assert(s[s.len() - 7] == 'e');
            if text::finishes_with(s, ".out.log"@) {
                assert(s.skip(s.len() - 8)[1] == ".out.log"@[1]);
            }
        }
    }
}

} // verus!
