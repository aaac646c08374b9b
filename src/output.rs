//! Display identity of supervised services and the text of their log lines.
use vstd::prelude::*;
use vstd::string::*;
use crate::text::starts_with_text;

verus! {

/// The hues of the display palette.
#[derive(Clone, Copy, Debug, PartialEq, Eq, Structural)]
pub enum Hue {
    Cyan,
    Magenta,
    Yellow,
    Green,
    Blue,
    Red,
}

/// A display color: a hue, plain or bold.
#[derive(Clone, Copy, Debug, PartialEq, Eq, Structural)]
pub struct Color {
    pub hue: Hue,
    pub bold: bool,
}

/// Number of colors in the palette.
pub const PALETTE_LEN: usize = 10;

/// The palette, in the order in which services receive it.
pub open spec fn palette(i: int) -> Color {
    if i == 0 {
        Color { hue: Hue::Cyan, bold: false }
    } else if i == 1 {
        Color { hue: Hue::Magenta, bold: false }
    } else if i == 2 {
        Color { hue: Hue::Yellow, bold: false }
    } else if i == 3 {
        Color { hue: Hue::Green, bold: false }
    } else if i == 4 {
        Color { hue: Hue::Blue, bold: false }
    } else if i == 5 {
        Color { hue: Hue::Red, bold: false }
    } else if i == 6 {
        Color { hue: Hue::Cyan, bold: true }
    } else if i == 7 {
        Color { hue: Hue::Magenta, bold: true }
    } else if i == 8 {
        Color { hue: Hue::Yellow, bold: true }
    } else {
        Color { hue: Hue::Green, bold: true }
    }
}

/// The color of the service spawned at position `index`: the palette, cycled.
pub fn get_color_for_index(index: usize) -> (r: Color)
    ensures
        r == palette(index as int % PALETTE_LEN as int),
{
    let i = index % PALETTE_LEN;
    if i == 0 {
        Color { hue: Hue::Cyan, bold: false }
    } else if i == 1 {
        Color { hue: Hue::Magenta, bold: false }
    } else if i == 2 {
        Color { hue: Hue::Yellow, bold: false }
    } else if i == 3 {
        Color { hue: Hue::Green, bold: false }
    } else if i == 4 {
        Color { hue: Hue::Blue, bold: false }
    } else if i == 5 {
        Color { hue: Hue::Red, bold: false }
    } else if i == 6 {
        Color { hue: Hue::Cyan, bold: true }
    } else if i == 7 {
        Color { hue: Hue::Magenta, bold: true }
    } else if i == 8 {
        Color { hue: Hue::Yellow, bold: true }
    } else {
        Color { hue: Hue::Green, bold: true }
    }
}

/// `[<name>] <text>`.
pub open spec fn log_line(name: Seq<char>, text: Seq<char>) -> Seq<char> {
    seq!['['] + name + seq![']', ' '] + text
}

/// Renders a line of output of service `service_name` as `[<name>] <line>`,
/// both on the console and in the log file.
pub fn format_log_line(service_name: &str, line: &str) -> (r: String)
    ensures
        r@ == log_line(service_name@, line@),
{
    proof {
        reveal_strlit("[");
        reveal_strlit("] ");
    }
    let mut r = String::from_str("[");
    r.append(service_name);
    r.append("] ");
    r.append(line);
    r
}

/// The record appended to a service's log file for one line of its output:
/// the rendered line and a newline.
pub fn format_log_record(service_name: &str, line: &str) -> (r: String)
    ensures
        r@ == log_line(service_name@, line@) + seq!['\n'],
{
    proof {
        reveal_strlit("\n");
    }
    let mut r = format_log_line(service_name, line);
    r.append("\n");
    r
}

/// The prefix that rendering puts before a line of service `name`: `[name] `.
pub open spec fn log_prefix(name: Seq<char>) -> Seq<char> {
    seq!['['] + name + seq![']', ' ']
}

/// A stored line without the `[name] ` prefix of its service: the rest of
/// the line when it opens with exactly that prefix, else the line unchanged.
/// Nothing else is trimmed.
pub open spec fn unprefixed(name: Seq<char>, s: Seq<char>) -> Seq<char> {
    let p = log_prefix(name);
    if p.len() <= s.len() && s.subrange(0, p.len() as int) == p {
        s.subrange(p.len() as int, s.len() as int)
    } else {
        s
    }
}

/// Takes the `[name] ` prefix of service `service_name` off a stored log line.
pub fn strip_log_prefix(service_name: &str, line: &str) -> (r: String)
    ensures
        r@ == unprefixed(service_name@, line@),
{
    proof {
        reveal_strlit("");
    }
    let prefix = format_log_line(service_name, "");
    proof {
        assert(prefix@ =~= log_prefix(service_name@));
    }
    let m = prefix.as_str().unicode_len();
    let n = line.unicode_len();
    if starts_with_text(line, prefix.as_str()) {
        String::from_str(line.substring_char(m, n))
    } else {
        String::from_str(line)
    }
}

/// Un-prefixing undoes rendering: a rendered line of any service gives back
/// exactly its text.
pub proof fn lemma_unprefix_rendered(name: Seq<char>, text: Seq<char>)
    ensures
        unprefixed(name, log_line(name, text)) == text,
{
    let s = log_line(name, text);
    let p = log_prefix(name);
    assert(s =~= p + text);
    assert(s.subrange(0, p.len() as int) =~= p);
    assert(s.subrange(p.len() as int, s.len() as int) =~= text);
}

} // verus!
