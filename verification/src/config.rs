//! The mode selector: one flat argument list becomes exactly one validated
//! request — a write (insert one score) or a read (list scores).
//!
//! Flags are scanned positionally: each recognized flag consumes the token
//! right after it as its value, a later occurrence overriding an earlier one.
//! A recognized flag with no following token is a hard error naming the
//! starved flag; a missing mandatory flag is a hard error naming it;
//! unrecognized tokens are ignored.

use crate::text::{parse_u32, parse_u32_spec, parse_usize, parse_usize_spec, str_eq};
use vstd::prelude::*;
use vstd::string::{StrSliceExecFns, StringExecFns};

verus! {

/// The command-line flags of the two request schemas.  `-n` is overloaded:
/// it selects write mode and carries the name there, while in read mode it
/// carries the row limit.
#[derive(Clone, Copy, Debug, PartialEq, Eq, Structural)]
pub enum Flag {
    Table,
    Name,
    Command,
    TimeNs,
    Sort,
    Limit,
}

/// The token that introduces a flag on the command line.
pub open spec fn flag_token(f: Flag) -> Seq<char> {
    match f {
        Flag::Table => "-t"@,
        Flag::Name => "-n"@,
        Flag::Command => "-c"@,
        Flag::TimeNs => "-r"@,
        Flag::Sort => "-s"@,
        Flag::Limit => "-n"@,
    }
}

/// Why an argument list does not parse.
#[derive(Clone, Copy, Debug, PartialEq, Eq, Structural)]
pub enum ParseError {
    /// A mandatory flag never occurred.
    MissingFlag(Flag),
    /// A flag stood last, with no token left to be its value.
    MissingValue(Flag),
    /// The value handed to `-r` is not an unsigned 32-bit decimal.
    InvalidTimeNs,
}

pub open spec fn parse_error_text(e: ParseError) -> Seq<char> {
    match e {
        ParseError::MissingFlag(f) => match f {
            Flag::Table => "-t must be provided"@,
            Flag::Name => "-n must be provided"@,
            Flag::Command => "-c must be provided"@,
            Flag::TimeNs => "-r must be provided"@,
            Flag::Sort => "-s must be provided"@,
            Flag::Limit => "-n must be provided"@,
        },
        ParseError::MissingValue(f) => match f {
            Flag::Table => "-t must provide a string"@,
            Flag::Name => "-n must provide a string"@,
            Flag::Command => "-c must provide a string"@,
            Flag::TimeNs => "-r must provide a string"@,
            Flag::Sort => "-s must provide a string"@,
            Flag::Limit => "-n must provide a string"@,
        },
        ParseError::InvalidTimeNs => "-r must be a integer"@,
    }
}

impl ParseError {
    /// The message the process reports before exiting non-zero.
    pub fn message(&self) -> (r: String)
        ensures
            r@ == parse_error_text(*self),
    {
        match self {
            ParseError::MissingFlag(f) => match f {
                Flag::Table => String::from_str("-t must be provided"),
                Flag::Name => String::from_str("-n must be provided"),
                Flag::Command => String::from_str("-c must be provided"),
                Flag::TimeNs => String::from_str("-r must be provided"),
                Flag::Sort => String::from_str("-s must be provided"),
                Flag::Limit => String::from_str("-n must be provided"),
            },
            ParseError::MissingValue(f) => match f {
                Flag::Table => String::from_str("-t must provide a string"),
                Flag::Name => String::from_str("-n must provide a string"),
                Flag::Command => String::from_str("-c must provide a string"),
                Flag::TimeNs => String::from_str("-r must provide a string"),
                Flag::Sort => String::from_str("-s must provide a string"),
                Flag::Limit => String::from_str("-n must provide a string"),
            },
            ParseError::InvalidTimeNs => String::from_str("-r must be a integer"),
        }
    }
}

/// Whether `tok` occurs among the arguments.
pub open spec fn has_flag(args: Seq<Seq<char>>, tok: Seq<char>) -> bool {
    exists|i: int| 0 <= i < args.len() && args[i] == tok
}

/// The index of the last occurrence of `tok`, or `-1` when it never occurs.
pub open spec fn last_flag_idx(args: Seq<Seq<char>>, tok: Seq<char>) -> int
    decreases args.len(),
{
    if args.len() == 0 {
        -1
    } else if args.last() == tok {
        args.len() - 1
    } else {
        last_flag_idx(args.drop_last(), tok)
    }
}

/// The value of `tok`: the token right after its last occurrence.
pub open spec fn flag_value(args: Seq<Seq<char>>, tok: Seq<char>) -> Seq<char> {
    args[last_flag_idx(args, tok) + 1]
}

proof fn lemma_last_flag_idx_props(args: Seq<Seq<char>>, tok: Seq<char>)
    ensures
        -1 <= last_flag_idx(args, tok) < args.len(),
        last_flag_idx(args, tok) >= 0 ==> args[last_flag_idx(args, tok)] == tok,
        forall|k: int| last_flag_idx(args, tok) < k < args.len() ==> args[k] != tok,
        has_flag(args, tok) <==> last_flag_idx(args, tok) >= 0,
    decreases args.len(),
{
    if args.len() > 0 && args.last() != tok {
        lemma_last_flag_idx_props(args.drop_last(), tok);
        assert(forall|k: int| 0 <= k < args.len() - 1 ==> args[k] == args.drop_last()[k]);
        if last_flag_idx(args, tok) >= 0 {
            assert(args[last_flag_idx(args, tok)] == tok);
        }
    }
}

proof fn lemma_last_flag_idx_step(args: Seq<Seq<char>>, i: int, tok: Seq<char>)
    requires
        0 <= i < args.len(),
    ensures
        last_flag_idx(args.take(i + 1), tok) == (if args[i] == tok {
            i
        } else {
            last_flag_idx(args.take(i), tok)
        }),
        has_flag(args.take(i + 1), tok) == (args[i] == tok || has_flag(args.take(i), tok)),
{
    let p = args.take(i + 1);
    assert(p.last() == args[i]);
    assert(p.drop_last() =~= args.take(i));
    lemma_last_flag_idx_props(args.take(i + 1), tok);
    lemma_last_flag_idx_props(args.take(i), tok);
}

/// The parsed intent of a read invocation.
pub struct ReadConfigV {
    pub table: Seq<char>,
    pub sort: Seq<char>,
    pub limit: Option<usize>,
}

/// The read schema: `-t <table>` mandatory, `-s <sort>` defaulting to
/// `"time_ns"`, `-n <limit>` optional and silently unset when unparseable.
#[derive(Debug)]
pub struct ReadConfig {
    pub table: String,
    pub sort: String,
    pub limit: Option<usize>,
}

impl View for ReadConfig {
    type V = ReadConfigV;

    open spec fn view(&self) -> ReadConfigV {
        ReadConfigV { table: self.table@, sort: self.sort@, limit: self.limit }
    }
}

/// The parsed intent of a write invocation.
pub struct WriteConfigV {
    pub table: Seq<char>,
    pub name: Seq<char>,
    pub command: Seq<char>,
    pub time_ns: u32,
}

/// The write schema: `-t <table>`, `-n <name>`, `-c <command>` and
/// `-r <time_ns>` all mandatory, the duration an unsigned 32-bit decimal.
#[derive(Debug)]
pub struct WriteConfig {
    pub table: String,
    pub name: String,
    pub command: String,
    pub time_ns: u32,
}

impl View for WriteConfig {
    type V = WriteConfigV;

    open spec fn view(&self) -> WriteConfigV {
        WriteConfigV {
            table: self.table@,
            name: self.name@,
            command: self.command@,
            time_ns: self.time_ns,
        }
    }
}

/// The read flag, if any, that a trailing token would starve.
pub open spec fn read_missing_value_flag(last: Seq<char>) -> Option<Flag> {
    if last == "-t"@ {
        Some(Flag::Table)
    } else if last == "-s"@ {
        Some(Flag::Sort)
    } else if last == "-n"@ {
        Some(Flag::Limit)
    } else {
        None
    }
}

/// The write flag, if any, that a trailing token would starve.
pub open spec fn write_missing_value_flag(last: Seq<char>) -> Option<Flag> {
    if last == "-n"@ {
        Some(Flag::Name)
    } else if last == "-c"@ {
        Some(Flag::Command)
    } else if last == "-r"@ {
        Some(Flag::TimeNs)
    } else if last == "-t"@ {
        Some(Flag::Table)
    } else {
        None
    }
}

/// An `-r` occurrence whose following value does not parse.
pub open spec fn bad_time_at(args: Seq<Seq<char>>, i: int) -> bool {
    args[i] == "-r"@ && i + 1 < args.len() && parse_u32_spec(args[i + 1]) is None
}

/// What a read argument list parses to.
pub open spec fn parse_read(args: Seq<Seq<char>>) -> Result<ReadConfigV, ParseError> {
    if args.len() > 0 && read_missing_value_flag(args.last()) is Some {
        Err(ParseError::MissingValue(read_missing_value_flag(args.last())->Some_0))
    } else if !has_flag(args, "-t"@) {
        Err(ParseError::MissingFlag(Flag::Table))
    } else {
        Ok(
            ReadConfigV {
                table: flag_value(args, "-t"@),
                sort: if has_flag(args, "-s"@) {
                    flag_value(args, "-s"@)
                } else {
                    "time_ns"@
                },
                limit: if has_flag(args, "-n"@) {
                    parse_usize_spec(flag_value(args, "-n"@))
                } else {
                    None
                },
            },
        )
    }
}

/// What a write argument list parses to.
pub open spec fn parse_write(args: Seq<Seq<char>>) -> Result<WriteConfigV, ParseError> {
    if exists|i: int| 0 <= i < args.len() && bad_time_at(args, i) {
        Err(ParseError::InvalidTimeNs)
    } else if args.len() > 0 && write_missing_value_flag(args.last()) is Some {
        Err(ParseError::MissingValue(write_missing_value_flag(args.last())->Some_0))
    } else if !has_flag(args, "-t"@) {
        Err(ParseError::MissingFlag(Flag::Table))
    } else if !has_flag(args, "-n"@) {
        Err(ParseError::MissingFlag(Flag::Name))
    } else if !has_flag(args, "-c"@) {
        Err(ParseError::MissingFlag(Flag::Command))
    } else if !has_flag(args, "-r"@) {
        Err(ParseError::MissingFlag(Flag::TimeNs))
    } else {
        Ok(
            WriteConfigV {
                table: flag_value(args, "-t"@),
                name: flag_value(args, "-n"@),
                command: flag_value(args, "-c"@),
                time_ns: parse_u32_spec(flag_value(args, "-r"@))->Some_0,
            },
        )
    }
}

/// What a scanned flag's tracked value must look like after `i` tokens.
spec fn flag_var_ok(a: Seq<Seq<char>>, i: int, tok: Seq<char>, var: Option<Seq<char>>) -> bool {
    if has_flag(a.take(i), tok) {
        last_flag_idx(a.take(i), tok) + 1 < a.len() && var == Some(
            a[last_flag_idx(a.take(i), tok) + 1],
        )
    } else {
        var is None
    }
}

impl ReadConfig {
    /// Parse a read invocation out of the full argument list.
    pub fn from_args(args: &Vec<String>) -> (r: Result<ReadConfig, ParseError>)
        ensures
            parse_read(args.deep_view()) matches Ok(v) ==> r matches Ok(c) && c@ == v,
            parse_read(args.deep_view()) matches Err(e) ==> r == Err::<ReadConfig, ParseError>(e),
    {
        let ghost a = args.deep_view();
        proof {
            reveal_strlit("-t");
            reveal_strlit("-s");
            reveal_strlit("-n");
            assert("-t"@.len() == 2 && "-s"@.len() == 2 && "-n"@.len() == 2);
            assert("-t"@[1] == 't' && "-s"@[1] == 's' && "-n"@[1] == 'n');
        }
        let n = args.len();
        let mut table: Option<String> = None;
        let mut sort: Option<String> = None;
        let mut limit: Option<usize> = None;
        let mut i: usize = 0;
        while i < n
            invariant
                a == args.deep_view(),
                n == args.len(),
                a.len() == n,
                i <= n,
                flag_var_ok(a, i as int, "-t"@, table.deep_view()),
                flag_var_ok(a, i as int, "-s"@, sort.deep_view()),
                "-t"@ != "-s"@ && "-t"@ != "-n"@ && "-s"@ != "-n"@,
                (if has_flag(a.take(i as int), "-n"@) {
                    last_flag_idx(a.take(i as int), "-n"@) + 1 < a.len() && limit
                        == parse_usize_spec(a[last_flag_idx(a.take(i as int), "-n"@) + 1])
                } else {
                    limit is None
                }),
            decreases n - i,
        {
            proof {
                lemma_last_flag_idx_step(a, i as int, "-t"@);
                lemma_last_flag_idx_step(a, i as int, "-s"@);
                lemma_last_flag_idx_step(a, i as int, "-n"@);
            }
            let arg = &args[i];
            if str_eq(arg.as_str(), "-t") {
                if i + 1 < n {
                    table = Some(args[i + 1].clone());
                } else {
                    proof {
                        assert(a.last() == a[i as int]);
                    }
                    return Err(ParseError::MissingValue(Flag::Table));
                }
            } else if str_eq(arg.as_str(), "-s") {
                if i + 1 < n {
                    sort = Some(args[i + 1].clone());
                } else {
                    proof {
                        assert(a.last() == a[i as int]);
                    }
                    return Err(ParseError::MissingValue(Flag::Sort));
                }
            } else if str_eq(arg.as_str(), "-n") {
                if i + 1 < n {
                    limit = parse_usize(args[i + 1].as_str());
                } else {
                    proof {
                        assert(a.last() == a[i as int]);
                    }
                    return Err(ParseError::MissingValue(Flag::Limit));
                }
            }
            i += 1;
        }
        proof {
            assert(a.take(n as int) =~= a);
            lemma_last_flag_idx_props(a, "-t"@);
            lemma_last_flag_idx_props(a, "-s"@);
            lemma_last_flag_idx_props(a, "-n"@);
            if n > 0 {
                assert(a.last() == a[n - 1]);
            }
        }
        let table = match table {
            Some(t) => t,
            None => {
                return Err(ParseError::MissingFlag(Flag::Table));
            },
        };
        let sort = match sort {
            Some(s) => s,
            None => String::from_str("time_ns"),
        };
        Ok(ReadConfig { table, sort, limit })
    }
}

impl WriteConfig {
    /// Parse a write invocation out of the full argument list.
    pub fn from_args(args: &Vec<String>) -> (r: Result<WriteConfig, ParseError>)
        ensures
            parse_write(args.deep_view()) matches Ok(v) ==> r matches Ok(c) && c@ == v,
            parse_write(args.deep_view()) matches Err(e) ==> r == Err::<WriteConfig, ParseError>(
                e,
            ),
    {
        let ghost a = args.deep_view();
        proof {
            reveal_strlit("-t");
            reveal_strlit("-n");
            reveal_strlit("-c");
            reveal_strlit("-r");
            assert("-t"@.len() == 2 && "-n"@.len() == 2 && "-c"@.len() == 2 && "-r"@.len() == 2);
            assert("-t"@[1] == 't' && "-n"@[1] == 'n' && "-c"@[1] == 'c' && "-r"@[1] == 'r');
        }
        let n = args.len();
        let mut table: Option<String> = None;
        let mut name: Option<String> = None;
        let mut command: Option<String> = None;
        let mut time_ns: Option<u32> = None;
        let mut i: usize = 0;
        while i < n
            invariant
                a == args.deep_view(),
                n == args.len(),
                a.len() == n,
                i <= n,
                flag_var_ok(a, i as int, "-t"@, table.deep_view()),
                flag_var_ok(a, i as int, "-n"@, name.deep_view()),
                flag_var_ok(a, i as int, "-c"@, command.deep_view()),
                "-t"@ != "-n"@ && "-t"@ != "-c"@ && "-t"@ != "-r"@ && "-n"@ != "-c"@ && "-n"@
                    != "-r"@ && "-c"@ != "-r"@,
                forall|j: int| 0 <= j < i ==> !bad_time_at(a, j),
                (if has_flag(a.take(i as int), "-r"@) {
                    last_flag_idx(a.take(i as int), "-r"@) + 1 < a.len() && parse_u32_spec(
                        a[last_flag_idx(a.take(i as int), "-r"@) + 1],
                    ) is Some && time_ns == parse_u32_spec(
                        a[last_flag_idx(a.take(i as int), "-r"@) + 1],
                    )
                } else {
                    time_ns is None
                }),
            decreases n - i,
        {
            proof {
                lemma_last_flag_idx_step(a, i as int, "-t"@);
                lemma_last_flag_idx_step(a, i as int, "-n"@);
                lemma_last_flag_idx_step(a, i as int, "-c"@);
                lemma_last_flag_idx_step(a, i as int, "-r"@);
            }
            let arg = &args[i];
            if str_eq(arg.as_str(), "-n") {
                if i + 1 < n {
                    name = Some(args[i + 1].clone());
                } else {
                    proof {
                        assert(a.last() == a[i as int]);
                    }
                    return Err(ParseError::MissingValue(Flag::Name));
                }
            } else if str_eq(arg.as_str(), "-c") {
                if i + 1 < n {
                    command = Some(args[i + 1].clone());
                } else {
                    proof {
                        assert(a.last() == a[i as int]);
                    }
                    return Err(ParseError::MissingValue(Flag::Command));
                }
            } else if str_eq(arg.as_str(), "-r") {
                if i + 1 < n {
                    match parse_u32(args[i + 1].as_str()) {
                        Some(v) => {
                            time_ns = Some(v);
                        },
                        None => {
                            proof {
                                assert(bad_time_at(a, i as int));
                            }
                            return Err(ParseError::InvalidTimeNs);
                        },
                    }
                } else {
                    proof {
                        assert(a.last() == a[i as int]);
                    }
                    return Err(ParseError::MissingValue(Flag::TimeNs));
                }
            } else if str_eq(arg.as_str(), "-t") {
                if i + 1 < n {
                    table = Some(args[i + 1].clone());
                } else {
                    proof {
                        assert(a.last() == a[i as int]);
                    }
                    return Err(ParseError::MissingValue(Flag::Table));
                }
            }
            i += 1;
        }
        proof {
            assert(a.take(n as int) =~= a);
            lemma_last_flag_idx_props(a, "-t"@);
            lemma_last_flag_idx_props(a, "-n"@);
            lemma_last_flag_idx_props(a, "-c"@);
            lemma_last_flag_idx_props(a, "-r"@);
            if n > 0 {
                assert(a.last() == a[n - 1]);
            }
        }
        let table = match table {
            Some(t) => t,
            None => {
                return Err(ParseError::MissingFlag(Flag::Table));
            },
        };
        let name = match name {
            Some(v) => v,
            None => {
                return Err(ParseError::MissingFlag(Flag::Name));
            },
        };
        let command = match command {
            Some(v) => v,
            None => {
                return Err(ParseError::MissingFlag(Flag::Command));
            },
        };
        let time_ns = match time_ns {
            Some(v) => v,
            None => {
                return Err(ParseError::MissingFlag(Flag::TimeNs));
            },
        };
        Ok(WriteConfig { table, name, command, time_ns })
    }
}

/// Whether `tok` occurs among the arguments.
fn contains_flag(args: &Vec<String>, tok: &str) -> (r: bool)
    ensures
        r == has_flag(args.deep_view(), tok@),
{
    let ghost a = args.deep_view();
    let mut i: usize = 0;
    while i < args.len()
        invariant
            a == args.deep_view(),
            i <= args.len(),
            a.len() == args.len(),
            forall|j: int| 0 <= j < i ==> a[j] != tok@,
        decreases args.len() - i,
    {
        if str_eq(args[i].as_str(), tok) {
            proof {
                assert(a[i as int] == tok@);
            }
            return true;
        }
        i += 1;
    }
    false
}

/// The parsed, validated intent of one invocation: write one score, or read
/// scores back.
#[derive(Debug)]
pub enum RunMode {
    Update(WriteConfig),
    Read(ReadConfig),
}

impl RunMode {
    /// Decide the mode — `-n` anywhere selects a write — and parse the
    /// matching schema.
    pub fn from_args(args: &Vec<String>) -> (r: Result<RunMode, ParseError>)
        ensures
            has_flag(args.deep_view(), "-n"@) ==> match parse_write(args.deep_view()) {
                Ok(v) => r matches Ok(m) && m matches RunMode::Update(w) && w@ == v,
                Err(e) => r == Err::<RunMode, ParseError>(e),
            },
            !has_flag(args.deep_view(), "-n"@) ==> match parse_read(args.deep_view()) {
                Ok(v) => r matches Ok(m) && m matches RunMode::Read(c) && c@ == v,
                Err(e) => r == Err::<RunMode, ParseError>(e),
            },
    {
        if contains_flag(args, "-n") {
            match WriteConfig::from_args(args) {
                Ok(w) => Ok(RunMode::Update(w)),
                Err(e) => Err(e),
            }
        } else {
            match ReadConfig::from_args(args) {
                Ok(c) => Ok(RunMode::Read(c)),
                Err(e) => Err(e),
            }
        }
    }
}

/// A write argument list that supplies each mandatory flag with a following
/// value, and whose `-r` values parse, yields exactly the supplied values.
pub proof fn lemma_write_parse_exact(args: Seq<Seq<char>>)
    requires
        !(exists|i: int| 0 <= i < args.len() && bad_time_at(args, i)),
        args.len() > 0 ==> write_missing_value_flag(args.last()) is None,
        has_flag(args, "-t"@),
        has_flag(args, "-n"@),
        has_flag(args, "-c"@),
        has_flag(args, "-r"@),
    ensures
        parse_write(args) matches Ok(v) && v.table == flag_value(args, "-t"@) && v.name
            == flag_value(args, "-n"@) && v.command == flag_value(args, "-c"@) && Some(v.time_ns)
            == parse_u32_spec(flag_value(args, "-r"@)),
{
    lemma_last_flag_idx_props(args, "-r"@);
    let l = last_flag_idx(args, "-r"@);
    assert(args[l] == "-r"@);
    if l + 1 == args.len() {
        assert(write_missing_value_flag(args.last()) is Some);
    }
    assert(!bad_time_at(args, l));
}

/// A write argument list with no starved flag and no malformed duration,
/// missing some mandatory flag, is rejected naming a flag that is indeed
/// missing.
pub proof fn lemma_write_parse_missing(args: Seq<Seq<char>>)
    requires
        !(exists|i: int| 0 <= i < args.len() && bad_time_at(args, i)),
        args.len() > 0 ==> write_missing_value_flag(args.last()) is None,
        !(has_flag(args, "-t"@) && has_flag(args, "-n"@) && has_flag(args, "-c"@) && has_flag(
            args,
            "-r"@,
        )),
    ensures
        parse_write(args) matches Err(e) && e matches ParseError::MissingFlag(f) && !has_flag(
            args,
            flag_token(f),
        ),
{
}

/// Read defaults: `sort` falls back to `"time_ns"` without `-s`, and `limit`
/// stays unset when `-n` is absent or its value does not parse.
pub proof fn lemma_read_defaults(args: Seq<Seq<char>>)
    requires
        parse_read(args) is Ok,
    ensures
        !has_flag(args, "-s"@) ==> parse_read(args)->Ok_0.sort == "time_ns"@,
        !has_flag(args, "-n"@) ==> parse_read(args)->Ok_0.limit is None,
        has_flag(args, "-n"@) && parse_usize_spec(flag_value(args, "-n"@)) is None ==> parse_read(
            args,
        )->Ok_0.limit is None,
{
}

} // verus!
