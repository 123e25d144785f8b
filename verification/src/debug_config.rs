//! Logging configuration flags: `-v <level>` picks a verbosity, `-o
//! <output>` picks the sink.  Scanning is forgiving: an unparseable value
//! lets a later occurrence of the flag win, and a default stands in when
//! none parses.

use crate::text::str_eq;
use vstd::prelude::*;
use vstd::string::{StrSliceExecFns, StringExecFns};

verus! {

/// A verbosity ceiling, from silent to everything.
#[derive(Clone, Copy, Debug, PartialEq, Eq, Structural)]
pub enum LogLevel {
    Off,
    Error,
    Warn,
    Info,
    Debug,
    Trace,
}

/// Where log lines go.
#[derive(Clone, Copy, Debug, PartialEq, Eq, Structural, Hash)]
pub enum DebugOut {
    Stdout,
    Syslog,
}

/// A character's value with ASCII upper case folded onto lower case.
pub open spec fn lower_val(c: char) -> int {
    if 65 <= c as int <= 90 {
        c as int + 32
    } else {
        c as int
    }
}

/// Equality of two texts up to ASCII case.
pub open spec fn eq_ignore_case(a: Seq<char>, b: Seq<char>) -> bool {
    a.len() == b.len() && forall|i: int| 0 <= i < a.len() ==> lower_val(#[trigger] a[i])
        == lower_val(#[trigger] b[i])
}

/// Compare two string slices up to ASCII case.
pub fn str_eq_ignore_case(a: &str, b: &str) -> (r: bool)
    ensures
        r == eq_ignore_case(a@, b@),
{
    let la = a.unicode_len();
    let lb = b.unicode_len();
    if la != lb {
        return false;
    }
    let mut i: usize = 0;
    while i < la
        invariant
            la == a@.len(),
            lb == b@.len(),
            la == lb,
            i <= la,
            forall|j: int| 0 <= j < i ==> lower_val(#[trigger] a@[j]) == lower_val(
                #[trigger] b@[j],
            ),
        decreases la - i,
    {
        let ca = a.get_char(i) as u32;
        let cb = b.get_char(i) as u32;
        let va = if 65 <= ca && ca <= 90 {
            ca + 32
        } else {
            ca
        };
        let vb = if 65 <= cb && cb <= 90 {
            cb + 32
        } else {
            cb
        };
        if va != vb {
            return false;
        }
        i += 1;
    }
    true
}

/// The level a `-v` value names, compared up to ASCII case.
pub open spec fn level_of(s: Seq<char>) -> Option<LogLevel> {
    if eq_ignore_case(s, "off"@) {
        Some(LogLevel::Off)
    } else if eq_ignore_case(s, "error"@) {
        Some(LogLevel::Error)
    } else if eq_ignore_case(s, "warn"@) {
        Some(LogLevel::Warn)
    } else if eq_ignore_case(s, "info"@) {
        Some(LogLevel::Info)
    } else if eq_ignore_case(s, "debug"@) {
        Some(LogLevel::Debug)
    } else if eq_ignore_case(s, "trace"@) {
        Some(LogLevel::Trace)
    } else {
        None
    }
}

/// Parse a verbosity name.
pub fn level_from_str(s: &str) -> (r: Option<LogLevel>)
    ensures
        r == level_of(s@),
{
    if str_eq_ignore_case(s, "off") {
        Some(LogLevel::Off)
    } else if str_eq_ignore_case(s, "error") {
        Some(LogLevel::Error)
    } else if str_eq_ignore_case(s, "warn") {
        Some(LogLevel::Warn)
    } else if str_eq_ignore_case(s, "info") {
        Some(LogLevel::Info)
    } else if str_eq_ignore_case(s, "debug") {
        Some(LogLevel::Debug)
    } else if str_eq_ignore_case(s, "trace") {
        Some(LogLevel::Trace)
    } else {
        None
    }
}

/// The sink a `-o` value names, compared up to ASCII case.
pub open spec fn output_of(s: Seq<char>) -> Option<DebugOut> {
    if eq_ignore_case(s, "stdout"@) {
        Some(DebugOut::Stdout)
    } else if eq_ignore_case(s, "syslog"@) {
        Some(DebugOut::Syslog)
    } else {
        None
    }
}

impl DebugOut {
    /// Parse a sink name.
    pub fn from_str(input: &str) -> (r: Result<DebugOut, ()>)
        ensures
            output_of(input@) matches Some(o) ==> r == Ok::<DebugOut, ()>(o),
            output_of(input@) is None ==> r == Err::<DebugOut, ()>(()),
    {
        if str_eq_ignore_case(input, "stdout") {
            Ok(DebugOut::Stdout)
        } else if str_eq_ignore_case(input, "syslog") {
            Ok(DebugOut::Syslog)
        } else {
            Err(())
        }
    }

    /// The sink's name in lower case.
    pub fn text(&self) -> (r: String)
        ensures
            r@ == (match *self {
                DebugOut::Stdout => "stdout"@,
                DebugOut::Syslog => "syslog"@,
            }),
    {
        match self {
            DebugOut::Stdout => String::from_str("stdout"),
            DebugOut::Syslog => String::from_str("syslog"),
        }
    }
}

/// What scanning for `-v` from position `i` onward yields.
pub enum LevelScan {
    Found(LogLevel),
    Missing,
    Starved,
}

pub open spec fn level_scan(a: Seq<Seq<char>>, i: int) -> LevelScan
    decreases a.len() - i,
{
    if i < 0 || i >= a.len() {
        LevelScan::Missing
    } else if a[i] == "-v"@ {
        if i + 1 < a.len() {
            match level_of(a[i + 1]) {
                Some(l) => LevelScan::Found(l),
                None => level_scan(a, i + 1),
            }
        } else {
            LevelScan::Starved
        }
    } else {
        level_scan(a, i + 1)
    }
}

/// What scanning for `-o` from position `i` onward yields.
pub enum OutputScan {
    Found(DebugOut),
    Missing,
    Starved,
}

pub open spec fn output_scan(a: Seq<Seq<char>>, i: int) -> OutputScan
    decreases a.len() - i,
{
    if i < 0 || i >= a.len() {
        OutputScan::Missing
    } else if a[i] == "-o"@ {
        if i + 1 < a.len() {
            match output_of(a[i + 1]) {
                Some(o) => OutputScan::Found(o),
                None => output_scan(a, i + 1),
            }
        } else {
            OutputScan::Starved
        }
    } else {
        output_scan(a, i + 1)
    }
}

/// The verbosity the arguments ask for: the first `-v` whose value parses
/// wins, and `Info` stands in when none does.  A `-v` with nothing after it
/// has no value to read and is left out by the precondition.
pub fn get_level(args: &Vec<String>) -> (r: LogLevel)
    requires
        !(level_scan(args.deep_view(), 0) matches LevelScan::Starved),
    ensures
        level_scan(args.deep_view(), 0) matches LevelScan::Found(l) ==> r == l,
        level_scan(args.deep_view(), 0) matches LevelScan::Missing ==> r == LogLevel::Info,
{
    let ghost a = args.deep_view();
    let n = args.len();
    let mut i: usize = 0;
    while i < n
        invariant
            a == args.deep_view(),
            n == args.len(),
            a.len() == n,
            i <= n,
            level_scan(a, 0) == level_scan(a, i as int),
        decreases n - i,
    {
        if str_eq(args[i].as_str(), "-v") {
            if i + 1 < n {
                match level_from_str(args[i + 1].as_str()) {
                    Some(l) => {
                        return l;
                    },
                    None => {},
                }
            } else {
                proof {
                    assert(level_scan(a, i as int) matches LevelScan::Starved);
                }
                return LogLevel::Info;
            }
        }
        i += 1;
    }
    LogLevel::Info
}

/// The sink the arguments ask for: the first `-o` whose value parses wins,
/// and `Syslog` stands in when none does.  A `-o` with nothing after it has
/// no value to read and is left out by the precondition.
pub fn get_output(args: &Vec<String>) -> (r: DebugOut)
    requires
        !(output_scan(args.deep_view(), 0) matches OutputScan::Starved),
    ensures
        output_scan(args.deep_view(), 0) matches OutputScan::Found(o) ==> r == o,
        output_scan(args.deep_view(), 0) matches OutputScan::Missing ==> r == DebugOut::Syslog,
{
    let ghost a = args.deep_view();
    let n = args.len();
    let mut i: usize = 0;
    while i < n
        invariant
            a == args.deep_view(),
            n == args.len(),
            a.len() == n,
            i <= n,
            output_scan(a, 0) == output_scan(a, i as int),
        decreases n - i,
    {
        if str_eq(args[i].as_str(), "-o") {
            if i + 1 < n {
                match DebugOut::from_str(args[i + 1].as_str()) {
                    Ok(o) => {
                        return o;
                    },
                    Err(_) => {},
                }
            } else {
                proof {
                    assert(output_scan(a, i as int) matches OutputScan::Starved);
                }
                return DebugOut::Syslog;
            }
        }
        i += 1;
    }
    DebugOut::Syslog
}

} // verus!
