use vstd::prelude::*;
use vstd::string::StringSliceAdditionalSpecFns;

use crate::text::{dec_digits, pad_left, push_bytes, push_dec, push_padded};

verus! {

/// The level of a log record.
#[derive(Clone, Copy, Debug, PartialEq, Eq, Structural)]
pub enum Level {
    Error,
    Warn,
    Info,
    Debug,
    Trace,
}

/// The most verbose level that is logged, or `Off`.
#[derive(Clone, Copy, Debug, PartialEq, Eq, Structural)]
pub enum LevelFilter {
    Off,
    Error,
    Warn,
    Info,
    Debug,
    Trace,
}

/// ANSI terminal colors.
#[derive(Clone, Copy, Debug, PartialEq, Eq, Structural)]
pub enum ColorCode {
    Black,
    Red,
    Green,
    Yellow,
    Blue,
    Magenta,
    Cyan,
    White,
    BrightBlack,
    BrightRed,
    BrightGreen,
    BrightYellow,
    BrightBlue,
    BrightMagenta,
    BrightCyan,
    BrightWhite,
}

pub open spec fn color_number(c: ColorCode) -> u8 {
    match c {
        ColorCode::Black => 30,
        ColorCode::Red => 31,
        ColorCode::Green => 32,
        ColorCode::Yellow => 33,
        ColorCode::Blue => 34,
        ColorCode::Magenta => 35,
        ColorCode::Cyan => 36,
        ColorCode::White => 37,
        ColorCode::BrightBlack => 90,
        ColorCode::BrightRed => 91,
        ColorCode::BrightGreen => 92,
        ColorCode::BrightYellow => 93,
        ColorCode::BrightBlue => 94,
        ColorCode::BrightMagenta => 95,
        ColorCode::BrightCyan => 96,
        ColorCode::BrightWhite => 97,
    }
}

pub open spec fn level_color_spec(level: Level) -> ColorCode {
    match level {
        Level::Error => ColorCode::Red,
        Level::Warn => ColorCode::Yellow,
        Level::Info => ColorCode::Green,
        Level::Debug => ColorCode::Cyan,
        Level::Trace => ColorCode::BrightBlack,
    }
}

impl ColorCode {
    /// The SGR number of the color.
    pub fn code(&self) -> (r: u8)
        ensures
            r == color_number(*self),
    {
        match self {
            ColorCode::Black => 30,
            ColorCode::Red => 31,
            ColorCode::Green => 32,
            ColorCode::Yellow => 33,
            ColorCode::Blue => 34,
            ColorCode::Magenta => 35,
            ColorCode::Cyan => 36,
            ColorCode::White => 37,
            ColorCode::BrightBlack => 90,
            ColorCode::BrightRed => 91,
            ColorCode::BrightGreen => 92,
            ColorCode::BrightYellow => 93,
            ColorCode::BrightBlue => 94,
            ColorCode::BrightMagenta => 95,
            ColorCode::BrightCyan => 96,
            ColorCode::BrightWhite => 97,
        }
    }
}

/// The color in which the message of a record of `level` is written.
pub fn level_color(level: Level) -> (r: ColorCode)
    ensures
        r == level_color_spec(level),
{
    match level {
        Level::Error => ColorCode::Red,
        Level::Warn => ColorCode::Yellow,
        Level::Info => ColorCode::Green,
        Level::Debug => ColorCode::Cyan,
        Level::Trace => ColorCode::BrightBlack,
    }
}

/// `b` with ASCII upper-case letters made lower case.
pub open spec fn ascii_lower(b: u8) -> u8 {
    if 65 <= b <= 90 {
        (b + 32) as u8
    } else {
        b
    }
}

/// `a` and `b` are equal but for the case of ASCII letters.
pub open spec fn eq_ignore_ascii_case(a: Seq<u8>, b: Seq<u8>) -> bool {
    a.len() == b.len() && forall|i: int| 0 <= i < a.len() ==> ascii_lower(#[trigger] a[i]) == ascii_lower(b[i])
}

/// The level filter named by `s`, compared without regard to ASCII case.
pub open spec fn named_level_filter(s: Seq<u8>) -> Option<LevelFilter> {
    if eq_ignore_ascii_case(s, seq![79u8, 70, 70]) {
        Some(LevelFilter::Off)
    } else if eq_ignore_ascii_case(s, seq![69u8, 82, 82, 79, 82]) {
        Some(LevelFilter::Error)
    } else if eq_ignore_ascii_case(s, seq![87u8, 65, 82, 78]) {
        Some(LevelFilter::Warn)
    } else if eq_ignore_ascii_case(s, seq![73u8, 78, 70, 79]) {
        Some(LevelFilter::Info)
    } else if eq_ignore_ascii_case(s, seq![68u8, 69, 66, 85, 71]) {
        Some(LevelFilter::Debug)
    } else if eq_ignore_ascii_case(s, seq![84u8, 82, 65, 67, 69]) {
        Some(LevelFilter::Trace)
    } else {
        None
    }
}

/// `log::LevelFilter::from_str`: in the log crate it compares `s`, ignoring
/// ASCII case, with "OFF", "ERROR", "WARN", "INFO", "DEBUG", "TRACE" in
/// turn and gives the first match, or an error.
#[verifier::external_body]
fn parse_level_filter(s: &str) -> (r: Option<LevelFilter>)
    ensures
        r == named_level_filter(s.spec_bytes()),
{
    match <log::LevelFilter as core::str::FromStr>::from_str(s) {
        Ok(log::LevelFilter::Off) => Some(LevelFilter::Off),
        Ok(log::LevelFilter::Error) => Some(LevelFilter::Error),
        Ok(log::LevelFilter::Warn) => Some(LevelFilter::Warn),
        Ok(log::LevelFilter::Info) => Some(LevelFilter::Info),
        Ok(log::LevelFilter::Debug) => Some(LevelFilter::Debug),
        Ok(log::LevelFilter::Trace) => Some(LevelFilter::Trace),
        Err(_) => None,
    }
}

/// `log::set_max_level`: stores the global maximum level that the log
/// macros let through. Nothing is stated of it: it only changes global state.
#[verifier::external_body]
fn store_max_level(f: LevelFilter) {
    log::set_max_level(
        match f {
            LevelFilter::Off => log::LevelFilter::Off,
            LevelFilter::Error => log::LevelFilter::Error,
            LevelFilter::Warn => log::LevelFilter::Warn,
            LevelFilter::Info => log::LevelFilter::Info,
            LevelFilter::Debug => log::LevelFilter::Debug,
            LevelFilter::Trace => log::LevelFilter::Trace,
        },
    )
}

/// The filter that `set_max_level(level)` sets: the level named by
/// `level` (one of `off`, `error`, `warn`, `info`, `debug`, `trace`, in
/// any case), and `Off` for any other text.
pub fn max_level_for(level: &str) -> (r: LevelFilter)
    ensures
        r == (match named_level_filter(level.spec_bytes()) {
            Some(f) => f,
            None => LevelFilter::Off,
        }),
{
    match parse_level_filter(level) {
        Some(f) => f,
        None => LevelFilter::Off,
    }
}

/// Sets the maximum log level by name; unknown names turn logging off.
pub fn set_max_level(level: &str) {
    let f = max_level_for(level);
    store_max_level(f);
}

pub open spec fn esc_color(n: u8) -> Seq<u8> {
    seq![27u8, 91u8] + dec_digits(n as nat) + seq![109u8]
}

pub open spec fn esc_reset() -> Seq<u8> {
    seq![27u8, 91u8, 109u8]
}

/// The CPU and task part of a log line: `cpu:tid `, `cpu `, or nothing.
pub open spec fn ids_text(cpu_id: Option<usize>, tid: Option<u64>) -> Seq<u8> {
    match cpu_id {
        Some(c) => match tid {
            Some(t) => dec_digits(c as nat) + seq![58u8] + dec_digits(t as nat) + seq![32u8],
            None => dec_digits(c as nat) + seq![32u8],
        },
        None => Seq::empty(),
    }
}

/// A log line: white `[secs.micros ids path:line] ` (secs right-aligned
/// to three places, micros zero-padded to six), then the message in the
/// color of its level, then a newline.
pub open spec fn log_line(
    level: Level,
    secs: u64,
    micros: u32,
    cpu_id: Option<usize>,
    tid: Option<u64>,
    path: Seq<u8>,
    line: Option<u32>,
    args: Seq<u8>,
) -> Seq<u8> {
    let line_no: u32 = match line {
        Some(l) => l,
        None => 0,
    };
    esc_color(37) + seq![91u8] + pad_left(dec_digits(secs as nat), 3, 32) + seq![46u8] + pad_left(
        dec_digits(micros as nat),
        6,
        48,
    ) + seq![32u8] + ids_text(cpu_id, tid) + path + seq![58u8] + dec_digits(line_no as nat) + seq![
        93u8,
        32u8,
    ] + esc_color(color_number(level_color_spec(level))) + args + esc_reset() + seq![10u8]
        + esc_reset()
}

fn push_esc_color(n: u8, out: &mut Vec<u8>)
    ensures
        final(out)@ == old(out)@ + esc_color(n),
{
    out.push(27);
    out.push(91);
    push_dec(n as u64, out);
    out.push(109);
    assert(out@ =~= old(out)@ + esc_color(n));
}

fn push_esc_reset(out: &mut Vec<u8>)
    ensures
        final(out)@ == old(out)@ + esc_reset(),
{
    out.push(27);
    out.push(91);
    out.push(109);
    assert(out@ =~= old(out)@ + esc_reset());
}

/// Formats a log record as the kernel console shows it.
pub fn format_log_line(
    level: Level,
    secs: u64,
    micros: u32,
    cpu_id: Option<usize>,
    tid: Option<u64>,
    path: &str,
    line: Option<u32>,
    args: &str,
) -> (r: Vec<u8>)
    ensures
        r@ == log_line(level, secs, micros, cpu_id, tid, path.spec_bytes(), line, args.spec_bytes()),
{
    let mut out: Vec<u8> = Vec::new();
    let ghost s0 = out@;
    push_esc_color(ColorCode::White.code(), &mut out);
    out.push(91);
    let mut d: Vec<u8> = Vec::new();
    push_dec(secs, &mut d);
    push_padded(&d, 3, 32, &mut out);
    out.push(46);
    let mut m: Vec<u8> = Vec::new();
    push_dec(micros as u64, &mut m);
    push_padded(&m, 6, 48, &mut out);
    out.push(32);
    let ghost s1 = out@;
    match cpu_id {
        Some(c) => {
            push_dec(c as u64, &mut out);
            match tid {
                Some(t) => {
                    out.push(58);
                    push_dec(t, &mut out);
                },
                None => {},
            }
            out.push(32);
        },
        None => {},
    }
    assert(out@ =~= s1 + ids_text(cpu_id, tid));
    push_bytes(path.as_bytes(), &mut out);
    out.push(58);
    let line_no: u32 = match line {
        Some(l) => l,
        None => 0,
    };
    push_dec(line_no as u64, &mut out);
    out.push(93);
    out.push(32);
    push_esc_color(level_color(level).code(), &mut out);
    push_bytes(args.as_bytes(), &mut out);
    push_esc_reset(&mut out);
    out.push(10);
    push_esc_reset(&mut out);
    assert(out@ =~= log_line(level, secs, micros, cpu_id, tid, path.spec_bytes(), line, args.spec_bytes()));
    out
}

} // verus!
