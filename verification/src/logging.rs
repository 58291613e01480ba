//! How log records are shown in the Godot console.

use vstd::prelude::*;
use vstd::string::*;

verus! {

/// The severity of a log record.
#[derive(Debug, Clone, Copy, PartialEq, Eq)]
pub enum LogLevel {
    Trace,
    Debug,
    Info,
    Warn,
    Error,
}

/// The marker of a level: its initial, colored (light green for trace, debug and info, yellow
/// for warnings, salmon for errors) when color is on.
pub open spec fn level_marker_spec(level: LogLevel, color: bool) -> Seq<char> {
    let initial = match level {
        LogLevel::Trace => 'T',
        LogLevel::Debug => 'D',
        LogLevel::Info => 'I',
        LogLevel::Warn => 'W',
        LogLevel::Error => 'E',
    };
    if !color {
        seq![initial]
    } else {
        let name = match level {
            LogLevel::Warn => seq!['Y', 'e', 'l', 'l', 'o', 'w'],
            LogLevel::Error => seq!['S', 'a', 'l', 'm', 'o', 'n'],
            _ => seq!['L', 'i', 'g', 'h', 't', 'G', 'r', 'e', 'e', 'n'],
        };
        seq!['[', 'c', 'o', 'l', 'o', 'r', '='] + name + seq![']', initial] + seq![
            '[',
            '/',
            'c',
            'o',
            'l',
            'o',
            'r',
            ']',
        ]
    }
}

/// The name of a level.
pub open spec fn level_name(level: LogLevel) -> Seq<char> {
    match level {
        LogLevel::Trace => seq!['T', 'r', 'a', 'c', 'e'],
        LogLevel::Debug => seq!['D', 'e', 'b', 'u', 'g'],
        LogLevel::Info => seq!['I', 'n', 'f', 'o'],
        LogLevel::Warn => seq!['W', 'a', 'r', 'n'],
        LogLevel::Error => seq!['E', 'r', 'r', 'o', 'r'],
    }
}

/// The color a level's marker is shown in.
pub open spec fn level_color(level: LogLevel) -> Seq<char> {
    match level {
        LogLevel::Warn => seq!['Y', 'e', 'l', 'l', 'o', 'w'],
        LogLevel::Error => seq!['S', 'a', 'l', 'm', 'o', 'n'],
        _ => seq!['L', 'i', 'g', 'h', 't', 'G', 'r', 'e', 'e', 'n'],
    }
}

/// Each level's marker is the initial of its own name, wrapped in a color tag when color is on;
/// so different levels get different markers, with and without color.
pub proof fn lemma_markers_are_level_initials(a: LogLevel, b: LogLevel, color: bool)
    ensures
        level_marker_spec(a, false) == seq![level_name(a)[0]],
        level_marker_spec(a, true) == seq!['[', 'c', 'o', 'l', 'o', 'r', '='] + level_color(a)
            + seq![']'] + level_marker_spec(a, false) + seq!['[', '/', 'c', 'o', 'l', 'o', 'r', ']'],
        a != b ==> level_marker_spec(a, color) != level_marker_spec(b, color),
{
    let ia = level_name(a)[0];
    let ib = level_name(b)[0];
    assert(level_marker_spec(a, false) =~= seq![ia]);
    assert(level_marker_spec(a, true) =~= seq!['[', 'c', 'o', 'l', 'o', 'r', '='] + level_color(a)
        + seq![']'] + seq![ia] + seq!['[', '/', 'c', 'o', 'l', 'o', 'r', ']']);
    if a != b {
        assert(ia != ib);
        if color {
            let la = level_color(a).len() as int;
            let lb = level_color(b).len() as int;
            let ma = level_marker_spec(a, true);
            let mb = level_marker_spec(b, true);
            assert(level_marker_spec(b, true) =~= seq!['[', 'c', 'o', 'l', 'o', 'r', '=']
                + level_color(b) + seq![']'] + seq![ib] + seq!['[', '/', 'c', 'o', 'l', 'o', 'r', ']']);
            if la == lb {
                assert(ma[7 + la + 1] == ia);
                assert(mb[7 + lb + 1] == ib);
            } else {
                assert(ma.len() == 17 + la);
                assert(mb.len() == 17 + lb);
            }
        } else {
            assert(level_marker_spec(a, false)[0] == ia);
            assert(level_marker_spec(b, false)[0] == ib);
        }
    }
}

/// The marker shown before a log message (see [`level_marker_spec`]).
pub fn level_marker(level: LogLevel, color: bool) -> (r: &'static str)
    ensures
        r@ == level_marker_spec(level, color),
{
    proof {
        reveal_strlit("[color=LightGreen]T[/color]");
        reveal_strlit("[color=LightGreen]D[/color]");
        reveal_strlit("[color=LightGreen]I[/color]");
        reveal_strlit("[color=Yellow]W[/color]");
        reveal_strlit("[color=Salmon]E[/color]");
        reveal_strlit("T");
        reveal_strlit("D");
        reveal_strlit("I");
        reveal_strlit("W");
        reveal_strlit("E");
    }
    let r = if color {
        match level {
            LogLevel::Trace => "[color=LightGreen]T[/color]",
            LogLevel::Debug => "[color=LightGreen]D[/color]",
            LogLevel::Info => "[color=LightGreen]I[/color]",
            LogLevel::Warn => "[color=Yellow]W[/color]",
            LogLevel::Error => "[color=Salmon]E[/color]",
        }
    } else {
        match level {
            LogLevel::Trace => "T",
            LogLevel::Debug => "D",
            LogLevel::Info => "I",
            LogLevel::Warn => "W",
            LogLevel::Error => "E",
        }
    };
    assert(r@ =~= level_marker_spec(level, color));
    r
}

/// Where a record is echoed besides the console line: warnings go to the engine's warnings,
/// errors to its errors, other records nowhere.
#[derive(Debug, Clone, Copy, PartialEq, Eq)]
pub enum EngineEcho {
    Nowhere,
    Warning,
    Error,
}

/// Where a record of the given level is echoed (see [`EngineEcho`]).
pub fn engine_echo(level: LogLevel) -> (r: EngineEcho)
    ensures
        r == match level {
            LogLevel::Warn => EngineEcho::Warning,
            LogLevel::Error => EngineEcho::Error,
            _ => EngineEcho::Nowhere,
        },
{
    match level {
        LogLevel::Warn => EngineEcho::Warning,
        LogLevel::Error => EngineEcho::Error,
        _ => EngineEcho::Nowhere,
    }
}

/// The character of the decimal digit `d`.
pub open spec fn digit_char(d: nat) -> char {
    if d == 0 {
        '0'
    } else if d == 1 {
        '1'
    } else if d == 2 {
        '2'
    } else if d == 3 {
        '3'
    } else if d == 4 {
        '4'
    } else if d == 5 {
        '5'
    } else if d == 6 {
        '6'
    } else if d == 7 {
        '7'
    } else if d == 8 {
        '8'
    } else {
        '9'
    }
}

/// The decimal notation of `n`, without leading zeros.
pub open spec fn decimal(n: nat) -> Seq<char>
    decreases n,
{
    if n < 10 {
        seq![digit_char(n)]
    } else {
        decimal(n / 10).push(digit_char(n % 10))
    }
}

/// The one-character text of the decimal digit `d`.
fn digit_str(d: u32) -> (r: &'static str)
    requires
        d < 10,
    ensures
        r@ == seq![digit_char(d as nat)],
{
    proof {
        reveal_strlit("0");
        reveal_strlit("1");
        reveal_strlit("2");
        reveal_strlit("3");
        reveal_strlit("4");
        reveal_strlit("5");
        reveal_strlit("6");
        reveal_strlit("7");
        reveal_strlit("8");
        reveal_strlit("9");
    }
    if d == 0 {
        "0"
    } else if d == 1 {
        "1"
    } else if d == 2 {
        "2"
    } else if d == 3 {
        "3"
    } else if d == 4 {
        "4"
    } else if d == 5 {
        "5"
    } else if d == 6 {
        "6"
    } else if d == 7 {
        "7"
    } else if d == 8 {
        "8"
    } else {
        "9"
    }
}

/// Appends the decimal notation of `n` (see [`decimal`]) to `s`.
pub fn append_decimal(s: &mut String, n: u32)
    ensures
        final(s)@ == old(s)@ + decimal(n as nat),
    decreases n,
{
    if n >= 10 {
        append_decimal(s, n / 10);
        s.append(digit_str(n % 10));
        proof {
            assert(decimal(n as nat) == decimal((n / 10) as nat).push(digit_char((n % 10) as nat)));
        }
        assert(s@ =~= old(s)@ + decimal(n as nat));
    } else {
        s.append(digit_str(n));
    }
}

/// Where a record comes from, as the console shows it: the parent directory and the separator
/// (when the file has one), the file name, `:` and the line number (0 when unknown).
pub open spec fn short_location_spec(
    parent: Option<Seq<char>>,
    file: Seq<char>,
    separator: Seq<char>,
    line: Option<u32>,
) -> Seq<char> {
    let dir = match parent {
        Some(p) => p + separator,
        None => seq![],
    };
    let n = match line {
        Some(l) => l as nat,
        None => 0,
    };
    dir + file + seq![':'] + decimal(n)
}

/// The location shown for a record from `file` at `line`, the file given by its parent
/// directory's name, if it has one, and its own name (see [`short_location_spec`]).
pub fn short_location(parent: Option<&str>, file: &str, separator: &str, line: Option<u32>) -> (r:
    String)
    ensures
        r@ == short_location_spec(
            match parent {
                Some(p) => Some(p@),
                None => None,
            },
            file@,
            separator@,
            line,
        ),
{
    proof {
        reveal_strlit(":");
    }
    let mut s = String::new();
    match parent {
        Some(p) => {
            s.append(p);
            s.append(separator);
        },
        None => {},
    }
    s.append(file);
    s.append(":");
    let n: u32 = match line {
        Some(l) => l,
        None => 0,
    };
    append_decimal(&mut s, n);
    proof {
        let dir = match parent {
            Some(p) => p@ + separator@,
            None => Seq::<char>::empty(),
        };
        assert(s@ =~= dir + file@ + seq![':'] + decimal(n as nat));
    }
    s
}

/// The file name of a path given by its components: its last component, or nothing for a path
/// without components.
pub open spec fn file_component(components: Seq<Seq<char>>) -> Seq<char> {
    if components.len() == 0 {
        seq![]
    } else {
        components.last()
    }
}

/// The parent directory's name of a path given by its components: the component before the
/// last, if there is one.
pub open spec fn parent_component(components: Seq<Seq<char>>) -> Option<Seq<char>> {
    if components.len() < 2 {
        None
    } else {
        Some(components[components.len() - 2])
    }
}

/// The location shown for a record from the file with the path `components` at `line`: its
/// last two components (see [`short_location_spec`]).
pub fn short_location_of(components: &Vec<String>, separator: &str, line: Option<u32>) -> (r:
    String)
    ensures
        r@ == short_location_spec(
            parent_component(components@.map_values(|c: String| c@)),
            file_component(components@.map_values(|c: String| c@)),
            separator@,
            line,
        ),
{
    let ghost views = components@.map_values(|c: String| c@);
    let n = components.len();
    proof {
        reveal_strlit("");
    }
    let file: &str = if n == 0 {
        ""
    } else {
        components[n - 1].as_str()
    };
    assert(file@ == file_component(views));
    if n >= 2 {
        let parent = components[n - 2].as_str();
        assert(Some(parent@) == parent_component(views));
        short_location(Some(parent), file, separator, line)
    } else {
        short_location(None, file, separator, line)
    }
}

/// The console line of a record: the timestamp (already followed by a space, or empty), the
/// level marker, the message and the location; with color on, the timestamp and the location
/// are dimmed with `[color=DimGray]` tags.
pub open spec fn console_line_spec(
    timestamp: Seq<char>,
    level: LogLevel,
    color: bool,
    message: Seq<char>,
    location: Seq<char>,
) -> Seq<char> {
    let marker = level_marker_spec(level, color);
    if color {
        "[color=DimGray]"@ + timestamp + "[/color]"@ + marker + seq![' '] + message
            + " [color=DimGray]@ "@ + location + "[/color]"@
    } else {
        timestamp + marker + seq![' '] + message + " @ "@ + location
    }
}

/// The line printed to the Godot console for a record (see [`console_line_spec`]).
pub fn console_line(timestamp: &str, level: LogLevel, color: bool, message: &str, location: &str) -> (r:
    String)
    ensures
        r@ == console_line_spec(timestamp@, level, color, message@, location@),
{
    proof {
        reveal_strlit(" ");
    }
    let marker = level_marker(level, color);
    let mut s = String::new();
    if color {
        s.append("[color=DimGray]");
        s.append(timestamp);
        s.append("[/color]");
        s.append(marker);
        s.append(" ");
        s.append(message);
        s.append(" [color=DimGray]@ ");
        s.append(location);
        s.append("[/color]");
        assert(s@ =~= console_line_spec(timestamp@, level, color, message@, location@));
    } else {
        s.append(timestamp);
        s.append(marker);
        s.append(" ");
        s.append(message);
        s.append(" @ ");
        s.append(location);
        assert(s@ =~= console_line_spec(timestamp@, level, color, message@, location@));
    }
    s
}

} // verus!
