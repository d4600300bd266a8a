//! What the program takes from its arguments before anything else runs.
use vstd::prelude::*;

use crate::chars;
use crate::logger;
use crate::logger::LogLevel;
use crate::text;
use crate::text::str_eq;

verus! {

/// One of two names is among the arguments.
pub open spec fn has_flag(args: Seq<Seq<char>>, short: Seq<char>, long: Seq<char>) -> bool {
    exists|i: int| 0 <= i < args.len() && (#[trigger] args[i] == short || args[i] == long)
}

/// Whether one of two names is among the arguments.
fn find_flag(args: &Vec<String>, short: &str, long: &str) -> (r: bool)
    ensures
        r == has_flag(text::views(args@), short@, long@),
{
    let ghost vs = text::views(args@);
    let mut i: usize = 0;
    while i < args.len()
        invariant
            i <= args.len(),
            vs == text::views(args@),
            forall|j: int| 0 <= j < i ==> !(#[trigger] vs[j] == short@ || vs[j] == long@),
        decreases args.len() - i,
    {
        proof {
            assert(vs[i as int] == args@[i as int]@);
        }
        if str_eq(args[i].as_str(), short) || str_eq(args[i].as_str(), long) {
            return true;
        }
        i += 1;
    }
    false
}

/// What follows the first of two names among the arguments.
pub open spec fn value_after(
    args: Seq<Seq<char>>,
    short: Seq<char>,
    long: Seq<char>,
) -> Option<Seq<char>>
    decreases args.len(),
{
    if args.len() == 0 {
        None
    } else if args[0] == short || args[0] == long {
        if args.len() > 1 {
            Some(args[1])
        } else {
            None
        }
    } else {
        value_after(args.skip(1), short, long)
    }
}

/// What follows the first of two names among the arguments.
fn find_value<'a>(args: &'a Vec<String>, short: &str, long: &str) -> (r: Option<&'a str>)
    ensures
        match r {
            Some(v) => value_after(text::views(args@), short@, long@) == Some(v@),
            None => value_after(text::views(args@), short@, long@) is None,
        },
{
    let ghost vs = text::views(args@);
    let mut i: usize = 0;
    proof {
        assert(vs.skip(0) =~= vs);
    }
    while i < args.len()
        invariant
            i <= args.len(),
            vs == text::views(args@),
            value_after(vs, short@, long@) == value_after(vs.skip(i as int), short@, long@),
        decreases args.len() - i,
    {
        proof {
            assert(vs.skip(i as int)[0] == args@[i as int]@);
            assert(vs.skip(i as int).skip(1) =~= vs.skip(i + 1));
        }
        if str_eq(args[i].as_str(), short) || str_eq(args[i].as_str(), long) {
            if args.len() - i > 1 {
                proof {
                    assert(vs.skip(i as int)[1] == args@[i + 1]@);
                }
                return Some(args[i + 1].as_str());
            }
            return None;
        }
        i += 1;
    }
    None
}

/// What the arguments say of the output.
#[derive(Clone, Copy, PartialEq, Eq, Structural, Debug)]
pub struct OutputFlags {
    pub quiet: bool,
    pub json: bool,
    pub level: LogLevel,
    /// The program is to be a server, which sets up its own logging.
    pub server: bool,
}

/// The level of logging that the arguments ask for, `info` where they name none.
pub open spec fn asked_level(args: Seq<Seq<char>>) -> LogLevel {
    let name = match value_after(args, "-l"@, "--loglevel"@) {
        Some(v) => v,
        None => "info"@,
    };
    match logger::level_of(chars::in_lower_case(name)) {
        Some(l) => l,
        None => LogLevel::Info,
    }
}

/// What the arguments say of the output.
pub fn scan_args(args: &Vec<String>) -> (r: OutputFlags)
    ensures
        r.quiet == has_flag(text::views(args@), "-q"@, "--quiet"@),
        r.json == has_flag(text::views(args@), "--json"@, "--json"@),
        r.server == has_flag(text::views(args@), "mcp"@, "serve"@),
        r.level == asked_level(text::views(args@)),
{
    let name = match find_value(args, "-l", "--loglevel") {
        Some(v) => v,
        None => "info",
    };
    let level = match LogLevel::parse(name) {
        Some(l) => l,
        None => LogLevel::Info,
    };
    OutputFlags {
        quiet: find_flag(args, "-q", "--quiet"),
        json: find_flag(args, "--json", "--json"),
        level,
        server: find_flag(args, "mcp", "serve"),
    }
}

/// Whether the program logs to the console from the start.
pub fn logs_to_console(flags: OutputFlags) -> (r: bool)
    ensures
        r == (!flags.quiet && !flags.json && !flags.server),
{
    !flags.quiet && !flags.json && !flags.server
}

/// What an interrupt does.
#[derive(Clone, Copy, PartialEq, Eq, Structural, Debug)]
pub enum Interrupt {
    /// Ask the program to stop, and say so or not.
    Stop { announce: bool },
    /// End the program at once.
    ForceExit,
}

/// What an interrupt does: the first one asks the program to stop, the second
/// one ends it.
pub fn on_interrupt(stopping: bool, flags: OutputFlags) -> (r: Interrupt)
    ensures
        r == (if stopping {
            Interrupt::ForceExit
        } else {
            Interrupt::Stop { announce: !flags.quiet && !flags.json }
        }),
{
    if stopping {
        Interrupt::ForceExit
    } else {
        Interrupt::Stop { announce: !flags.quiet && !flags.json }
    }
}

/// A flag is set by its short or its long form, wherever it stands.
pub proof fn law_flags(args: Seq<Seq<char>>, short: Seq<char>, long: Seq<char>, i: int)
    ensures
        0 <= i < args.len() && args[i] == short ==> has_flag(args, short, long),
        0 <= i < args.len() && args[i] == long ==> has_flag(args, short, long),
        (forall|k: int| 0 <= k < args.len() ==> #[trigger] args[k] != short && args[k] != long)
            ==> !has_flag(args, short, long),
{
}

/// The value of an option is the argument behind its first form.
pub proof fn law_value_of_an_option(
    args: Seq<Seq<char>>,
    short: Seq<char>,
    long: Seq<char>,
    i: int,
)
    requires
        0 <= i <= args.len(),
        forall|k: int| 0 <= k < i ==> #[trigger] args[k] != short && args[k] != long,
    ensures
        i + 1 < args.len() && (args[i] == short || args[i] == long) ==> value_after(
            args,
            short,
            long,
        ) == Some(args[i + 1]),
        i + 1 == args.len() && (args[i] == short || args[i] == long) ==> value_after(
            args,
            short,
            long,
        ) is None,
        i == args.len() ==> value_after(args, short, long) is None,
    decreases i,
{
    if i > 0 {
        let rest = args.skip(1);
        assert(args[0] != short && args[0] != long);
        assert forall|k: int| 0 <= k < i - 1 implies #[trigger] rest[k] != short && rest[k]
            != long by {
            assert(rest[k] == args[k + 1]);
        }
        law_value_of_an_option(rest, short, long, i - 1);
        if i < args.len() {
            assert(rest[i - 1] == args[i]);
        }
        if i + 1 < args.len() {
            assert(rest[i] == args[i + 1]);
        }
    }
}

/// The level of the log is the one that is asked for, and `info` where none or an
/// unknown one is.
pub proof fn law_level_of_the_log(args: Seq<Seq<char>>, name: Seq<char>)
    ensures
        value_after(args, "-l"@, "--loglevel"@) is None ==> asked_level(args) == LogLevel::Info,
        value_after(args, "-l"@, "--loglevel"@) == Some(name) && logger::level_of(
            chars::in_lower_case(name),
        ) is Some ==> Some(asked_level(args)) == logger::level_of(chars::in_lower_case(name)),
        value_after(args, "-l"@, "--loglevel"@) == Some(name) && logger::level_of(
            chars::in_lower_case(name),
        ) is None ==> asked_level(args) == LogLevel::Info,
{
    lemma_info();
}

/// The default level is its own lower case.
proof fn lemma_info()
    ensures
        logger::level_of(chars::in_lower_case("info"@)) == Some(LogLevel::Info),
{
    reveal_strlit("info");
    let s = "info"@;
    assert(s.len() == 4);
    assert forall|i: int| 0 <= i < s.len() implies (#[trigger] s[i]) as u32 <= 0x7f by {}
    let l = chars::in_lower_case(s);
    assert forall|i: int| 0 <= i < s.len() implies l.len() == s.len() && l[i] == s[i] by {
        chars::law_ascii(s, i);
    }
    chars::law_ascii(s, 0);
    assert(l =~= s);
    logger::law_level_round_trip(LogLevel::Info);
}

/// What the arguments of a call say, wherever they stand among them.
pub proof fn law_scanned_arguments(args: &Vec<String>, r: OutputFlags, i: int)
    requires
        call_ensures(scan_args, (args,), r),
        0 <= i < args@.len(),
    ensures
        args@[i]@ == "-q"@ || args@[i]@ == "--quiet"@ ==> r.quiet,
        args@[i]@ == "--json"@ ==> r.json,
        args@[i]@ == "mcp"@ || args@[i]@ == "serve"@ ==> r.server,
{
    let all = text::views(args@);
    assert(all[i] == args@[i]@);
}

/// The console has the log unless the output is quiet, for programs, or a server
/// speaks there. A second interrupt ends the program at once.
pub proof fn law_console(flags: OutputFlags, logs: bool, stopping: bool, r: Interrupt)
    requires
        call_ensures(logs_to_console, (flags,), logs),
        call_ensures(on_interrupt, (stopping, flags), r),
    ensures
        logs <==> !flags.quiet && !flags.json && !flags.server,
        stopping <==> r is ForceExit,
        r is Stop ==> (r->announce <==> !flags.quiet && !flags.json),
{
}

} // verus!
