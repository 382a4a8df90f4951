//! The outbound event protocol of the streaming layer.
//!
//! Every frame is one JSON object rendered to text here, with string
//! payloads escaped by the library itself: a `start` frame when a command
//! begins, one `output` frame per subprocess stdout line carrying the line
//! verbatim, exactly one terminal `completion` frame carrying success or
//! failure, and an `error` frame for a malformed inbound command.

use vstd::prelude::*;

use crate::discovery::digit_char;
use crate::strutil::{chars_of, string_of};

verus! {

/// The character for one hexadecimal digit value.
pub open spec fn hex_char(d: int) -> char {
    if d < 10 {
        digit_char(d)
    } else {
        ((('a' as u8) + (d - 10) as u8) as char)
    }
}

/// How one character is written inside a JSON string: quote, backslash and
/// the named control characters get two-character escapes, the remaining
/// control characters a `\u00XX` escape, and everything else stands as is.
pub open spec fn esc_char(c: char) -> Seq<char> {
    if c == '"' {
        seq!['\\', '"']
    } else if c == '\\' {
        seq!['\\', '\\']
    } else if c == '\n' {
        seq!['\\', 'n']
    } else if c == '\r' {
        seq!['\\', 'r']
    } else if c == '\t' {
        seq!['\\', 't']
    } else if c == '\u{08}' {
        seq!['\\', 'b']
    } else if c == '\u{0C}' {
        seq!['\\', 'f']
    } else if (c as u32) < 0x20 {
        seq!['\\', 'u', '0', '0', hex_char((c as u32 / 16) as int), hex_char(
            (c as u32 % 16) as int,
        )]
    } else {
        seq![c]
    }
}

/// A whole string escaped for embedding in a JSON string literal.
pub open spec fn json_escaped(s: Seq<char>) -> Seq<char>
    decreases s.len(),
{
    if s.len() == 0 {
        Seq::empty()
    } else {
        esc_char(s[0]) + json_escaped(s.drop_first())
    }
}

/// Escapes the characters for embedding in a JSON string literal.
pub fn escape_json(v: &Vec<char>) -> (r: Vec<char>)
    ensures
        r@ == json_escaped(v@),
{
    let n = v.len();
    let mut out: Vec<char> = Vec::new();
    let mut i: usize = 0;
    proof {
        assert(v@.skip(0) =~= v@);
        assert(out@ + json_escaped(v@) =~= json_escaped(v@));
    }
    while i < n
        invariant
            i <= n,
            n == v@.len(),
            json_escaped(v@) == out@ + json_escaped(v@.skip(i as int)),
        decreases n - i,
    {
        let ghost out0 = out@;
        let c = v[i];
        proof {
            assert(v@.skip(i as int)[0] == v@[i as int]);
            assert(v@.skip(i as int).drop_first() =~= v@.skip(i + 1));
        }
        if c == '"' {
            out.push('\\');
            out.push('"');
        } else if c == '\\' {
            out.push('\\');
            out.push('\\');
        } else if c == '\n' {
            out.push('\\');
            out.push('n');
        } else if c == '\r' {
            out.push('\\');
            out.push('r');
        } else if c == '\t' {
            out.push('\\');
            out.push('t');
        } else if c == '\u{08}' {
            out.push('\\');
            out.push('b');
        } else if c == '\u{0C}' {
            out.push('\\');
            out.push('f');
        } else if (c as u32) < 0x20 {
            let hi = (c as u32) / 16;
            let lo = (c as u32) % 16;
            out.push('\\');
            out.push('u');
            out.push('0');
            out.push('0');
            out.push(hex_digit(hi));
            out.push(hex_digit(lo));
        } else {
            out.push(c);
        }
        proof {
            assert(out@ =~= out0 + esc_char(c));
        }
        i += 1;
    }
    proof {
        assert(v@.skip(n as int) =~= Seq::<char>::empty());
        assert(out@ + json_escaped(v@.skip(n as int)) =~= out@);
    }
    out
}

/// The character for one hexadecimal digit value below sixteen.
fn hex_digit(d: u32) -> (c: char)
    requires
        d < 16,
    ensures
        c == hex_char(d as int),
{
    if d < 10 {
        ((('0' as u8) + (d as u8)) as char)
    } else {
        ((('a' as u8) + ((d - 10) as u8)) as char)
    }
}

/// The `start` frame that opens a command's event stream.
pub open spec fn start_frame_spec(message: Seq<char>) -> Seq<char> {
    "{\"type\":\"start\",\"message\":\""@ + json_escaped(message) + "\"}"@
}

/// One `output` frame, carrying a stdout line verbatim.
pub open spec fn output_frame_spec(line: Seq<char>) -> Seq<char> {
    "{\"type\":\"output\",\"content\":\""@ + json_escaped(line) + "\"}"@
}

/// The terminal `completion` frame: plain success, or failure with the
/// error text.
pub open spec fn completion_frame_spec(error: Option<Seq<char>>) -> Seq<char> {
    match error {
        None => "{\"type\":\"completion\",\"status\":\"success\"}"@,
        Some(e) => "{\"type\":\"completion\",\"status\":\"error\",\"error\":\""@
            + json_escaped(e) + "\"}"@,
    }
}

/// The `error` frame reporting a malformed inbound command; the connection
/// stays open.
pub open spec fn error_frame_spec(message: Seq<char>) -> Seq<char> {
    "{\"type\":\"error\",\"message\":\""@ + json_escaped(message) + "\"}"@
}

fn framed(prefix: &str, payload: &str, suffix: &str) -> (r: String)
    ensures
        r@ == prefix@ + json_escaped(payload@) + suffix@,
{
    let mut out = chars_of(prefix);
    let body = chars_of(payload);
    let mut esc = escape_json(&body);
    out.append(&mut esc);
    let mut tail = chars_of(suffix);
    out.append(&mut tail);
    string_of(&out)
}

pub fn start_frame(message: &str) -> (r: String)
    ensures
        r@ == start_frame_spec(message@),
{
    framed("{\"type\":\"start\",\"message\":\"", message, "\"}")
}

pub fn output_frame(line: &str) -> (r: String)
    ensures
        r@ == output_frame_spec(line@),
{
    framed("{\"type\":\"output\",\"content\":\"", line, "\"}")
}

pub fn error_frame(message: &str) -> (r: String)
    ensures
        r@ == error_frame_spec(message@),
{
    framed("{\"type\":\"error\",\"message\":\"", message, "\"}")
}

pub fn completion_frame(error: Option<&String>) -> (r: String)
    ensures
        r@ == completion_frame_spec(match error {
            Some(e) => Some(e@),
            None => None,
        }),
{
    match error {
        None => String::from_str("{\"type\":\"completion\",\"status\":\"success\"}"),
        Some(e) => framed(
            "{\"type\":\"completion\",\"status\":\"error\",\"error\":\"",
            e.as_str(),
            "\"}",
        ),
    }
}

/// The views of a vector of strings.
pub open spec fn string_views(ss: Seq<String>) -> Seq<Seq<char>> {
    ss.map_values(|s: String| s@)
}

/// One `output` frame per line, in order.
pub open spec fn output_frames_of(lines: Seq<Seq<char>>) -> Seq<Seq<char>> {
    lines.map_values(|l: Seq<char>| output_frame_spec(l))
}

/// The full event stream of one command run whose subprocess produced
/// these stdout lines in order and then ended with this error, if any:
/// the `start` frame, one `output` frame per line in the same order, and
/// exactly one terminal `completion` frame.
pub open spec fn expected_frames(
    start_msg: Seq<char>,
    lines: Seq<Seq<char>>,
    error: Option<Seq<char>>,
) -> Seq<Seq<char>> {
    seq![start_frame_spec(start_msg)] + output_frames_of(lines) + seq![
        completion_frame_spec(error),
    ]
}

/// Renders the whole ordered event stream of one command run.
pub fn frames_for_run(start_msg: &str, lines: &Vec<String>, error: Option<&String>) -> (r: Vec<
    String,
>)
    ensures
        string_views(r@) == expected_frames(start_msg@, string_views(lines@), match error {
            Some(e) => Some(e@),
            None => None,
        }),
{
    let mut out: Vec<String> = Vec::new();
    out.push(start_frame(start_msg));
    let n = lines.len();
    let mut i: usize = 0;
    while i < n
        invariant
            i <= n,
            n == lines@.len(),
            out@.len() == i + 1,
            string_views(out@) == seq![start_frame_spec(start_msg@)] + output_frames_of(
                string_views(lines@).take(i as int),
            ),
        decreases n - i,
    {
        let f = output_frame(lines[i].as_str());
        let ghost out0 = out@;
        out.push(f);
        proof {
            let lv = string_views(lines@);
            assert(lv[i as int] == lines@[i as int]@);
            assert(f@ == output_frame_spec(lv[i as int]));
            assert(string_views(out@) =~= string_views(out0).push(f@));
            assert(lv.take(i + 1) =~= lv.take(i as int).push(lv[i as int]));
            assert(output_frames_of(lv.take(i + 1)) =~= output_frames_of(
                lv.take(i as int),
            ).push(output_frame_spec(lv[i as int])));
            assert(string_views(out@) =~= seq![start_frame_spec(start_msg@)]
                + output_frames_of(lv.take(i + 1)));
        }
        i += 1;
    }
    out.push(completion_frame(error));
    proof {
        let lv = string_views(lines@);
        assert(lv.take(n as int) =~= lv);
        assert(string_views(out@) =~= expected_frames(start_msg@, lv, match error {
            Some(e) => Some(e@),
            None => None,
        }));
    }
    out
}

} // verus!
