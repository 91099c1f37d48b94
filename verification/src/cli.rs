//! The decisions behind the command-line front end: reading strategy and
//! style names, and writing its JSON output lines.
use crate::metadata::ShrinkResult;
use crate::platform::PathStyle;
use crate::strategy::Strategy;
use crate::text::{chars_of, eq_ignore_ascii_case, eq_ignore_ascii_case_exec, push_char};
use vstd::prelude::*;

verus! {

/// The strategy a command-line name selects: `ellipsis`/`e`, `fish`/`f`,
/// `hybrid`/`h`, `unique`/`u`, compared ignoring ASCII case.
pub open spec fn strategy_from_name_spec(s: Seq<char>) -> Option<Strategy> {
    if eq_ignore_ascii_case(s, seq!['e', 'l', 'l', 'i', 'p', 's', 'i', 's']) || eq_ignore_ascii_case(
        s,
        seq!['e'],
    ) {
        Some(Strategy::Ellipsis)
    } else if eq_ignore_ascii_case(s, seq!['f', 'i', 's', 'h']) || eq_ignore_ascii_case(
        s,
        seq!['f'],
    ) {
        Some(Strategy::Fish)
    } else if eq_ignore_ascii_case(s, seq!['h', 'y', 'b', 'r', 'i', 'd']) || eq_ignore_ascii_case(
        s,
        seq!['h'],
    ) {
        Some(Strategy::Hybrid)
    } else if eq_ignore_ascii_case(s, seq!['u', 'n', 'i', 'q', 'u', 'e']) || eq_ignore_ascii_case(
        s,
        seq!['u'],
    ) {
        Some(Strategy::Unique)
    } else {
        None
    }
}

/// The style a command-line name forces: `unix`/`u`, `windows`/`win`/`w`
/// (ignoring ASCII case); anything else means auto-detection.
pub open spec fn parse_style_spec(s: Seq<char>) -> Option<PathStyle> {
    if eq_ignore_ascii_case(s, seq!['u', 'n', 'i', 'x']) || eq_ignore_ascii_case(s, seq!['u']) {
        Some(PathStyle::Unix)
    } else if eq_ignore_ascii_case(s, seq!['w', 'i', 'n', 'd', 'o', 'w', 's'])
        || eq_ignore_ascii_case(s, seq!['w', 'i', 'n']) || eq_ignore_ascii_case(s, seq!['w']) {
        Some(PathStyle::Windows)
    } else {
        None
    }
}

/// Lower-case hexadecimal digit of `n` (below 16).
pub open spec fn hex_digit(n: int) -> char {
    if n < 10 {
        ((n + 48) as u32) as char
    } else {
        ((n + 87) as u32) as char
    }
}

/// The JSON escape of one character: `"`, `\`, newline, carriage return
/// and tab get their short escapes, other control characters `\u00XX`.
pub open spec fn json_escape_char(c: char) -> Seq<char> {
    if c == '"' {
        seq!['\\', '"']
    } else if c == '\\' {
        seq!['\\', '\\']
    } else if c == '\n' {
        seq!['\\', 'n']
    } else if c == '\r' {
        seq!['\\', 'r']
    } else if c == '\t' {
        seq!['\\', 't']
    } else if (c as u32) < 0x20 {
        seq!['\\', 'u', '0', '0', hex_digit((c as int) / 16), hex_digit((c as int) % 16)]
    } else {
        seq![c]
    }
}

/// The escapes of all characters of `s`, in order.
pub open spec fn json_escape_body(s: Seq<char>) -> Seq<char>
    decreases s.len(),
{
    if s.len() == 0 {
        Seq::empty()
    } else {
        json_escape_body(s.drop_last()) + json_escape_char(s.last())
    }
}

/// A JSON string literal holding `s`.
pub open spec fn json_escape_spec(s: Seq<char>) -> Seq<char> {
    seq!['"'] + json_escape_body(s) + seq!['"']
}

/// Whether `s` equals `name` ignoring ASCII case.
fn is_name(s: &Vec<char>, name: Vec<char>) -> (r: bool)
    ensures
        r == eq_ignore_ascii_case(s@, name@),
{
    eq_ignore_ascii_case_exec(s, &name)
}

/// The strategy a command-line name selects, if any.
pub fn strategy_from_name(s: &str) -> (r: Option<Strategy>)
    ensures
        r == strategy_from_name_spec(s@),
{
    let v = chars_of(s);
    let e1 = vec!['e', 'l', 'l', 'i', 'p', 's', 'i', 's'];
    let e2 = vec!['e'];
    let f1 = vec!['f', 'i', 's', 'h'];
    let f2 = vec!['f'];
    let h1 = vec!['h', 'y', 'b', 'r', 'i', 'd'];
    let h2 = vec!['h'];
    let u1 = vec!['u', 'n', 'i', 'q', 'u', 'e'];
    let u2 = vec!['u'];
    assert(e1@ =~= seq!['e', 'l', 'l', 'i', 'p', 's', 'i', 's']);
    assert(e2@ =~= seq!['e']);
    assert(f1@ =~= seq!['f', 'i', 's', 'h']);
    assert(f2@ =~= seq!['f']);
    assert(h1@ =~= seq!['h', 'y', 'b', 'r', 'i', 'd']);
    assert(h2@ =~= seq!['h']);
    assert(u1@ =~= seq!['u', 'n', 'i', 'q', 'u', 'e']);
    assert(u2@ =~= seq!['u']);
    if is_name(&v, e1) || is_name(&v, e2) {
        Some(Strategy::Ellipsis)
    } else if is_name(&v, f1) || is_name(&v, f2) {
        Some(Strategy::Fish)
    } else if is_name(&v, h1) || is_name(&v, h2) {
        Some(Strategy::Hybrid)
    } else if is_name(&v, u1) || is_name(&v, u2) {
        Some(Strategy::Unique)
    } else {
        None
    }
}

/// The style a command-line name forces, or `None` for auto-detection.
pub fn parse_style(s: &str) -> (r: Option<PathStyle>)
    ensures
        r == parse_style_spec(s@),
{
    let v = chars_of(s);
    let unix = vec!['u', 'n', 'i', 'x'];
    let u = vec!['u'];
    let windows = vec!['w', 'i', 'n', 'd', 'o', 'w', 's'];
    let win = vec!['w', 'i', 'n'];
    let w = vec!['w'];
    assert(unix@ =~= seq!['u', 'n', 'i', 'x']);
    assert(u@ =~= seq!['u']);
    assert(windows@ =~= seq!['w', 'i', 'n', 'd', 'o', 'w', 's']);
    assert(win@ =~= seq!['w', 'i', 'n']);
    assert(w@ =~= seq!['w']);
    if is_name(&v, unix) || is_name(&v, u) {
        Some(PathStyle::Unix)
    } else if is_name(&v, windows) || is_name(&v, win) || is_name(&v, w) {
        Some(PathStyle::Windows)
    } else {
        None
    }
}

/// Lower-case hexadecimal digit of `n`.
fn hex_digit_exec(n: u32) -> (c: char)
    requires
        n < 16,
    ensures
        c == hex_digit(n as int),
{
    let digits = vec![
        '0',
        '1',
        '2',
        '3',
        '4',
        '5',
        '6',
        '7',
        '8',
        '9',
        'a',
        'b',
        'c',
        'd',
        'e',
        'f',
    ];
    assert(digits@ =~= seq![
        hex_digit(0),
        hex_digit(1),
        hex_digit(2),
        hex_digit(3),
        hex_digit(4),
        hex_digit(5),
        hex_digit(6),
        hex_digit(7),
        hex_digit(8),
        hex_digit(9),
        hex_digit(10),
        hex_digit(11),
        hex_digit(12),
        hex_digit(13),
        hex_digit(14),
        hex_digit(15),
    ]);
    digits[n as usize]
}

/// Appends the JSON escape of `c` to `out`.
fn push_escaped(out: &mut String, c: char)
    ensures
        final(out)@ == old(out)@ + json_escape_char(c),
{
    let ghost o = out@;
    if c == '"' {
        push_char(out, '\\');
        push_char(out, '"');
    } else if c == '\\' {
        push_char(out, '\\');
        push_char(out, '\\');
    } else if c == '\n' {
        push_char(out, '\\');
        push_char(out, 'n');
    } else if c == '\r' {
        push_char(out, '\\');
        push_char(out, 'r');
    } else if c == '\t' {
        push_char(out, '\\');
        push_char(out, 't');
    } else if (c as u32) < 0x20 {
        let u = c as u32;
        push_char(out, '\\');
        push_char(out, 'u');
        push_char(out, '0');
        push_char(out, '0');
        push_char(out, hex_digit_exec(u / 16));
        push_char(out, hex_digit_exec(u % 16));
    } else {
        push_char(out, c);
    }
    assert(out@ =~= o + json_escape_char(c));
}

/// A JSON string literal holding `s`.
pub fn json_escape(s: &str) -> (r: String)
    ensures
        r@ == json_escape_spec(s@),
{
    let v = chars_of(s);
    let mut out = String::new();
    push_char(&mut out, '"');
    let mut i: usize = 0;
    while i < v.len()
        invariant
            i <= v.len(),
            out@ == seq!['"'] + json_escape_body(v@.subrange(0, i as int)),
        decreases v.len() - i,
    {
        let ghost before = out@;
        push_escaped(&mut out, v[i]);
        proof {
            let t = v@.subrange(0, i + 1);
            assert(t.drop_last() =~= v@.subrange(0, i as int));
            assert(t.last() == v@[i as int]);
            assert(out@ =~= seq!['"'] + json_escape_body(t));
        }
        i = i + 1;
    }
    push_char(&mut out, '"');
    assert(v@.subrange(0, v@.len() as int) =~= v@);
    assert(out@ =~= json_escape_spec(s@));
    out
}

/// The decimal digits of `n`, most significant first.
pub open spec fn decimal_spec(n: nat) -> Seq<char>
    decreases n,
{
    if n < 10 {
        seq![hex_digit(n as int)]
    } else {
        decimal_spec(n / 10) + seq![hex_digit((n % 10) as int)]
    }
}

/// The name of a path style in the JSON output.
pub open spec fn style_name_spec(style: PathStyle) -> Seq<char> {
    match style {
        PathStyle::Unix => "unix"@,
        PathStyle::Windows => "windows"@,
    }
}

/// The JSON output line for `path` and its detailed result: the original
/// and shortened strings, both lengths, whether it was truncated, and the
/// style.
pub open spec fn json_line_spec(path: Seq<char>, r: ShrinkResult) -> Seq<char> {
    "{\"original\":"@ + json_escape_spec(path) + ",\"shortened\":"@ + json_escape_spec(
        r.shortened@,
    ) + ",\"original_len\":"@ + decimal_spec(r.original_len as nat) + ",\"shortened_len\":"@
        + decimal_spec(r.shortened_len as nat) + ",\"truncated\":"@ + (if r.was_truncated {
        "true"@
    } else {
        "false"@
    }) + ",\"style\":\""@ + style_name_spec(r.detected_style) + "\"}"@
}

/// Appends the decimal digits of `n` to `out`.
fn push_decimal(out: &mut String, n: usize)
    ensures
        final(out)@ == old(out)@ + decimal_spec(n as nat),
    decreases n,
{
    if n < 10 {
        push_char(out, hex_digit_exec(n as u32));
        assert(out@ =~= old(out)@ + decimal_spec(n as nat));
    } else {
        push_decimal(out, n / 10);
        push_char(out, hex_digit_exec((n % 10) as u32));
        assert(out@ =~= old(out)@ + decimal_spec(n as nat));
    }
}

/// The JSON output line for `path` and its detailed result.
pub fn json_line(path: &str, r: &ShrinkResult) -> (s: String)
    ensures
        s@ == json_line_spec(path@, *r),
{
    let mut out = String::new();
    out.append("{\"original\":");
    let p = json_escape(path);
    out.append(p.as_str());
    out.append(",\"shortened\":");
    let sh = json_escape(r.shortened.as_str());
    out.append(sh.as_str());
    out.append(",\"original_len\":");
    push_decimal(&mut out, r.original_len);
    out.append(",\"shortened_len\":");
    push_decimal(&mut out, r.shortened_len);
    out.append(",\"truncated\":");
    if r.was_truncated {
        out.append("true");
    } else {
        out.append("false");
    }
    out.append(",\"style\":\"");
    match r.detected_style {
        PathStyle::Unix => out.append("unix"),
        PathStyle::Windows => out.append("windows"),
    }
    out.append("\"}");
    assert(out@ =~= json_line_spec(path@, *r));
    out
}

} // verus!
