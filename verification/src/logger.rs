//! How log records are printed to the engine's output: a level tag, the
//! message and where it was logged, optionally with a timestamp and colors in
//! the engine's rich-text markup.

use crate::debugger::wire::{decimal, decimal_string};
use crate::text::concat;
use vstd::prelude::*;

verus! {

/// The level of a log record.
#[derive(Debug, Clone, Copy, PartialEq, Eq)]
pub enum LogLevel {
    Trace,
    Debug,
    Info,
    Warn,
    Error,
}

/// The tag of a level: its initial, colored when colors are on (green for
/// trace, debug and info, yellow for warnings, salmon for errors).
pub open spec fn tag(level: LogLevel, color: bool) -> Seq<char> {
    match (level, color) {
        (LogLevel::Trace, true) => "[color=LightGreen]T[/color]"@,
        (LogLevel::Debug, true) => "[color=LightGreen]D[/color]"@,
        (LogLevel::Info, true) => "[color=LightGreen]I[/color]"@,
        (LogLevel::Warn, true) => "[color=Yellow]W[/color]"@,
        (LogLevel::Error, true) => "[color=Salmon]E[/color]"@,
        (LogLevel::Trace, false) => "T"@,
        (LogLevel::Debug, false) => "D"@,
        (LogLevel::Info, false) => "I"@,
        (LogLevel::Warn, false) => "W"@,
        (LogLevel::Error, false) => "E"@,
    }
}

/// The plain tag of a level is the initial of the level's name (`T`, `D`,
/// `I`, `W`, `E` for TRACE, DEBUG, INFO, WARN, ERROR), so distinct levels get
/// distinct tags; the colored tag wraps the plain one in a color markup:
/// green for trace, debug and info, yellow for warnings, salmon for errors.
pub proof fn law_level_tags(level: LogLevel)
    ensures
        tag(LogLevel::Trace, false) == "TRACE"@.subrange(0, 1),
        tag(LogLevel::Debug, false) == "DEBUG"@.subrange(0, 1),
        tag(LogLevel::Info, false) == "INFO"@.subrange(0, 1),
        tag(LogLevel::Warn, false) == "WARN"@.subrange(0, 1),
        tag(LogLevel::Error, false) == "ERROR"@.subrange(0, 1),
        forall|a: LogLevel, b: LogLevel| tag(a, false) == tag(b, false) ==> a == b,
        tag(level, true) == "[color="@ + (if level is Warn {
            "Yellow"@
        } else if level is Error {
            "Salmon"@
        } else {
            "LightGreen"@
        }) + "]"@ + tag(level, false) + "[/color]"@,
{
    reveal_strlit("TRACE");
    reveal_strlit("DEBUG");
    reveal_strlit("INFO");
    reveal_strlit("WARN");
    reveal_strlit("ERROR");
    reveal_strlit("T");
    reveal_strlit("D");
    reveal_strlit("I");
    reveal_strlit("W");
    reveal_strlit("E");
    reveal_strlit("[color=");
    reveal_strlit("]");
    reveal_strlit("[/color]");
    reveal_strlit("LightGreen");
    reveal_strlit("Yellow");
    reveal_strlit("Salmon");
    reveal_strlit("[color=LightGreen]T[/color]");
    reveal_strlit("[color=LightGreen]D[/color]");
    reveal_strlit("[color=LightGreen]I[/color]");
    reveal_strlit("[color=Yellow]W[/color]");
    reveal_strlit("[color=Salmon]E[/color]");
    assert("TRACE"@.subrange(0, 1) =~= "T"@);
    assert("DEBUG"@.subrange(0, 1) =~= "D"@);
    assert("INFO"@.subrange(0, 1) =~= "I"@);
    assert("WARN"@.subrange(0, 1) =~= "W"@);
    assert("ERROR"@.subrange(0, 1) =~= "E"@);
    assert forall|a: LogLevel, b: LogLevel| tag(a, false) == tag(b, false) implies a == b by {
        if a != b {
            assert(tag(a, false)[0] != tag(b, false)[0]);
        }
    }
    let color = match level {
        LogLevel::Warn => "Yellow"@,
        LogLevel::Error => "Salmon"@,
        _ => "LightGreen"@,
    };
    assert(tag(level, true) =~= "[color="@ + color + "]"@ + tag(level, false) + "[/color]"@);
}

/// The tag of a level.
pub fn level_tag(level: LogLevel, color: bool) -> (t: &'static str)
    ensures
        t@ == tag(level, color),
{
    proof {
        reveal_strlit("[color=LightGreen]T[/color]");
        reveal_strlit("[color=LightGreen]D[/color]");
        reveal_strlit("[color=LightGreen]I[/color]");
        reveal_strlit("[color=Yellow]W[/color]");
        reveal_strlit("[color=Salmon]E[/color]");
        reveal_strlit("T");
        reveal_strlit("D");
        reveal_strlit("I");
        reveal_strlit("W");
        reveal_strlit("E");
    }
    match (level, color) {
        (LogLevel::Trace, true) => "[color=LightGreen]T[/color]",
        (LogLevel::Debug, true) => "[color=LightGreen]D[/color]",
        (LogLevel::Info, true) => "[color=LightGreen]I[/color]",
        (LogLevel::Warn, true) => "[color=Yellow]W[/color]",
        (LogLevel::Error, true) => "[color=Salmon]E[/color]",
        (LogLevel::Trace, false) => "T",
        (LogLevel::Debug, false) => "D",
        (LogLevel::Info, false) => "I",
        (LogLevel::Warn, false) => "W",
        (LogLevel::Error, false) => "E",
    }
}

/// Where a record was logged: the file's parent directory and separator, if
/// the path has a parent, then the file name, a colon and the line.
pub open spec fn location_text(parent: Option<Seq<char>>, separator: Seq<char>, file: Seq<char>, line: nat) -> Seq<char> {
    match parent {
        Some(p) => p + separator + file + ":"@ + decimal(line),
        None => file + ":"@ + decimal(line),
    }
}

/// The short location of a record.
pub fn location(parent: Option<&str>, separator: &str, file: &str, line: u32) -> (text: String)
    ensures
        text@ == location_text(
            match parent {
                Some(p) => Some(p@),
                None => None,
            },
            separator@,
            file@,
            line as nat,
        ),
{
    proof {
        reveal_strlit(":");
    }
    let mut text = match parent {
        Some(p) => concat(p, separator),
        None => String::new(),
    };
    text.append(file);
    text.append(":");
    text.append(decimal_string(line as u64).as_str());
    text
}

/// A printed record: the timestamp and a space, if there is one, the tag, the
/// message, then `@` and the location. With colors the timestamp and the
/// location are dimmed.
pub open spec fn line_text(
    timestamp: Option<Seq<char>>,
    level: LogLevel,
    message: Seq<char>,
    location: Seq<char>,
    color: bool,
) -> Seq<char> {
    let stamp = match timestamp {
        Some(t) => t + " "@,
        None => Seq::empty(),
    };
    if color {
        "[color=DimGray]"@ + stamp + "[/color]"@ + tag(level, true) + " "@ + message
            + " [color=DimGray]@ "@ + location + "[/color]"@
    } else {
        stamp + tag(level, false) + " "@ + message + " @ "@ + location
    }
}

/// The printed form of a record.
pub fn log_line(
    timestamp: Option<&str>,
    level: LogLevel,
    message: &str,
    location: &str,
    color: bool,
) -> (text: String)
    ensures
        text@ == line_text(
            match timestamp {
                Some(t) => Some(t@),
                None => None,
            },
            level,
            message@,
            location@,
            color,
        ),
{
    proof {
        reveal_strlit(" ");
        reveal_strlit("[color=DimGray]");
        reveal_strlit("[/color]");
        reveal_strlit(" [color=DimGray]@ ");
        reveal_strlit(" @ ");
    }
    let stamp = match timestamp {
        Some(t) => concat(t, " "),
        None => String::new(),
    };
    let mut text = if color {
        concat("[color=DimGray]", stamp.as_str())
    } else {
        stamp
    };
    if color {
        text.append("[/color]");
    }
    text.append(level_tag(level, color));
    text.append(" ");
    text.append(message);
    if color {
        text.append(" [color=DimGray]@ ");
        text.append(location);
        text.append("[/color]");
    } else {
        text.append(" @ ");
        text.append(location);
    }
    text
}

/// Which engine error channel a record is echoed to, besides being printed.
#[derive(Debug, Clone, Copy, PartialEq, Eq)]
pub enum Echo {
    Warning,
    Error,
}

/// Warnings are echoed as engine warnings and errors as engine errors; other
/// levels are only printed.
pub fn echo(level: LogLevel) -> (e: Option<Echo>)
    ensures
        e == match level {
            LogLevel::Warn => Some(Echo::Warning),
            LogLevel::Error => Some(Echo::Error),
            _ => None::<Echo>,
        },
{
    match level {
        LogLevel::Warn => Some(Echo::Warning),
        LogLevel::Error => Some(Echo::Error),
        _ => None,
    }
}

} // verus!
