//! Logging: its levels, its files, and which old files are removed.
use vstd::prelude::*;
use vstd::slice::slice_subrange;

use chrono::Datelike;

use crate::chars;
use crate::chars::to_lowercase;
use crate::numbers;
use crate::numbers::parse_number;
use crate::paths;
use crate::paths::join;
use crate::sorting;
use crate::sorting::sort_places;
use crate::text;
use crate::text::{chars_of, concat, starts_with, str_eq, string_of};

verus! {

// ---------------------------------------------------------------------------
// Levels
// ---------------------------------------------------------------------------

/// Whether messages go to a file.
#[derive(Clone, Copy, PartialEq, Eq, Structural, Debug)]
pub enum LoggerInitResult {
    /// They do.
    FileLogging,
    /// Another logger was there first; they only go to the console.
    ConsoleOnly,
}

/// How much is logged.
#[derive(Clone, Copy, PartialEq, Eq, Structural, Debug)]
pub enum LogLevel {
    Error,
    Warn,
    Info,
    Debug,
    Trace,
}

/// The name of a level.
pub open spec fn level_name(level: LogLevel) -> Seq<char> {
    match level {
        LogLevel::Error => "error"@,
        LogLevel::Warn => "warn"@,
        LogLevel::Info => "info"@,
        LogLevel::Debug => "debug"@,
        LogLevel::Trace => "trace"@,
    }
}

/// The level with a name in lower case; `warning` is another name for `warn`.
pub open spec fn level_of(name: Seq<char>) -> Option<LogLevel> {
    if name == "error"@ {
        Some(LogLevel::Error)
    } else if name == "warn"@ || name == "warning"@ {
        Some(LogLevel::Warn)
    } else if name == "info"@ {
        Some(LogLevel::Info)
    } else if name == "debug"@ {
        Some(LogLevel::Debug)
    } else if name == "trace"@ {
        Some(LogLevel::Trace)
    } else {
        None
    }
}

/// The level with a name in lower case.
pub fn level_of_name(name: &str) -> (r: Option<LogLevel>)
    ensures
        r == level_of(name@),
{
    if str_eq(name, "error") {
        Some(LogLevel::Error)
    } else if str_eq(name, "warn") || str_eq(name, "warning") {
        Some(LogLevel::Warn)
    } else if str_eq(name, "info") {
        Some(LogLevel::Info)
    } else if str_eq(name, "debug") {
        Some(LogLevel::Debug)
    } else if str_eq(name, "trace") {
        Some(LogLevel::Trace)
    } else {
        None
    }
}

impl LogLevel {
    /// The level that a text names, in any mix of cases.
    pub fn parse(s: &str) -> (r: Option<LogLevel>)
        ensures
            r == level_of(chars::in_lower_case(s@)),
    {
        level_of_name(to_lowercase(s).as_str())
    }

    /// The name of the level.
    pub fn as_str(&self) -> (r: &'static str)
        ensures
            r@ == level_name(*self),
    {
        match self {
            LogLevel::Error => "error",
            LogLevel::Warn => "warn",
            LogLevel::Info => "info",
            LogLevel::Debug => "debug",
            LogLevel::Trace => "trace",
        }
    }
}

/// The name of a level is read back as that level.
pub proof fn law_level_round_trip(level: LogLevel)
    ensures
        level_of(level_name(level)) == Some(level),
{
    reveal_strlit("error");
    reveal_strlit("warn");
    reveal_strlit("warning");
    reveal_strlit("info");
    reveal_strlit("debug");
    reveal_strlit("trace");
    assert("error"@[0] == 'e');
    assert("warn"@[0] == 'w');
    assert("warning"@[0] == 'w');
    assert("info"@[0] == 'i');
    assert("debug"@[0] == 'd');
    assert("trace"@[0] == 't');
}

/// The filter of a level: the parts that say much are held to warnings.
pub fn filter_directives(level: LogLevel) -> (r: String)
    ensures
        r@ == level_name(level)
            + ",tantivy=warn,arroy=warn,ort=warn,h2=warn,hyper=warn,tower=warn"@,
{
    concat(
        level.as_str(),
        ",tantivy=warn,arroy=warn,ort=warn,h2=warn,hyper=warn,tower=warn",
    )
}

// ---------------------------------------------------------------------------
// Settings
// ---------------------------------------------------------------------------

/// The directory of the log files, below that of the database.
pub const LOG_DIR_NAME: &'static str = "logs";

/// How many log files are kept, where nothing else is set.
pub const DEFAULT_LOG_MAX_FILES: usize = 5;

/// How many days log files are kept, where nothing else is set.
pub const DEFAULT_LOG_RETENTION_DAYS: i64 = 5;

/// How often old log files are looked for, in hours, where nothing else is set.
pub const DEFAULT_CLEANUP_INTERVAL_HOURS: u64 = 24;

/// Which log files are kept.
#[derive(Clone, Copy, PartialEq, Eq, Structural, Debug)]
pub struct LogRotationConfig {
    /// How many at most.
    pub max_files: usize,
    /// For how many days.
    pub retention_days: i64,
}

/// The number that a text stands for, which may be negative.
pub open spec fn signed(s: Seq<char>) -> Option<int> {
    if s.len() > 0 && s[0] == '-' {
        let d = s.skip(1);
        if d.len() > 0 && numbers::all_digits(d) && numbers::value_of(d) <= 0x8000_0000_0000_0000 {
            Some(-(numbers::value_of(d) as int))
        } else {
            None
        }
    } else {
        match numbers::parsed(s, i64::MAX as nat) {
            Some(n) => Some(n as int),
            None => None,
        }
    }
}

/// Reads a number that may be negative.
pub fn parse_signed(s: &str) -> (r: Option<i64>)
    ensures
        match r {
            Some(n) => signed(s@) == Some(n as int),
            None => signed(s@) is None,
        },
{
    let c = chars_of(s);
    if c.len() > 0 && c[0] == '-' {
        let d = slice_subrange(c.as_slice(), 1, c.len());
        proof {
            assert(d@ =~= s@.skip(1));
        }
        if d.len() > 0 && d[0] == '+' {
            proof {
                assert(!numbers::is_digit(d@[0]));
            }
            return None;
        }
        match parse_number(d, 0x8000_0000_0000_0000) {
            Some(n) => {
                if n == 0x8000_0000_0000_0000 {
                    Some(i64::MIN)
                } else {
                    let m: i64 = n as i64;
                    Some(-m)
                }
            },
            None => None,
        }
    } else {
        match parse_number(c.as_slice(), i64::MAX as u64) {
            Some(n) => Some(n as i64),
            None => None,
        }
    }
}

impl LogRotationConfig {
    /// Which log files are kept, from the settings. What is not set, or not a
    /// number, is the default.
    pub fn from_env(max_files: Option<&str>, retention_days: Option<&str>) -> (r: LogRotationConfig)
        ensures
            r.max_files == (match max_files {
                Some(s) => match numbers::parsed(s@, usize::MAX as nat) {
                    Some(n) => n,
                    None => DEFAULT_LOG_MAX_FILES as nat,
                },
                None => DEFAULT_LOG_MAX_FILES as nat,
            }),
            r.retention_days == (match retention_days {
                Some(s) => match signed(s@) {
                    Some(n) => n,
                    None => DEFAULT_LOG_RETENTION_DAYS as int,
                },
                None => DEFAULT_LOG_RETENTION_DAYS as int,
            }),
    {
        let max_files: usize = match max_files {
            Some(s) => match parse_number(chars_of(s).as_slice(), usize::MAX as u64) {
                Some(n) => n as usize,
                None => DEFAULT_LOG_MAX_FILES,
            },
            None => DEFAULT_LOG_MAX_FILES,
        };
        let retention_days: i64 = match retention_days {
            Some(s) => match parse_signed(s) {
                Some(n) => n,
                None => DEFAULT_LOG_RETENTION_DAYS,
            },
            None => DEFAULT_LOG_RETENTION_DAYS,
        };
        LogRotationConfig { max_files, retention_days }
    }
}

/// How often old log files are looked for, in hours, from the setting.
pub fn cleanup_interval_hours(setting: Option<&str>) -> (r: u64)
    ensures
        r == (match setting {
            Some(s) => match numbers::parsed(s@, u64::MAX as nat) {
                Some(n) => n,
                None => DEFAULT_CLEANUP_INTERVAL_HOURS as nat,
            },
            None => DEFAULT_CLEANUP_INTERVAL_HOURS as nat,
        }),
{
    match setting {
        Some(s) => match parse_number(chars_of(s).as_slice(), u64::MAX) {
            Some(n) => n,
            None => DEFAULT_CLEANUP_INTERVAL_HOURS,
        },
        None => DEFAULT_CLEANUP_INTERVAL_HOURS,
    }
}

/// The directory of the log files of a database.
pub fn get_log_dir(db_path: &str) -> (r: String)
    ensures
        r@ == paths::joined(db_path@, LOG_DIR_NAME@),
{
    join(db_path, LOG_DIR_NAME)
}

// ---------------------------------------------------------------------------
// Old files
// ---------------------------------------------------------------------------

/// The day that `chrono` reads from a text of a form, counted from the beginning
/// of the common era.
pub uninterp spec fn day_of_date(s: Seq<char>, form: Seq<char>) -> Option<i32>;

/// `chrono::NaiveDate::parse_from_str`, and `num_days_from_ce` of the date:
/// nothing where the text is no date of the form. The outcome depends on the
/// text and the form alone.
#[verifier::external_body]
fn parse_day(s: &str, form: &str) -> (r: Option<i32>)
    ensures
        r == day_of_date(s@, form@),
{
    chrono::NaiveDate::parse_from_str(s, form).ok().map(|d| d.num_days_from_ce())
}

/// The rest of a name behind a prefix.
pub open spec fn behind(name: Seq<char>, prefix: Seq<char>) -> Option<Seq<char>> {
    if text::begins_with(name, prefix) {
        Some(name.skip(prefix.len() as int))
    } else {
        None
    }
}

/// The date in the name of a log file, as text: what follows `codesearch.log.`.
pub fn log_date_text(file_name: &str) -> (r: Option<String>)
    ensures
        match r {
            Some(d) => behind(file_name@, "codesearch.log."@) == Some(d@),
            None => behind(file_name@, "codesearch.log."@) is None,
        },
{
    let name = chars_of(file_name);
    let prefix = chars_of("codesearch.log.");
    if starts_with(name.as_slice(), prefix.as_slice()) {
        let rest = slice_subrange(name.as_slice(), prefix.len(), name.len());
        proof {
            assert(rest@ =~= file_name@.skip(prefix@.len() as int));
        }
        Some(string_of(rest))
    } else {
        None
    }
}

/// The day of a log file, from its name.
pub open spec fn log_day(file_name: Seq<char>) -> Option<i32> {
    match behind(file_name, "codesearch.log."@) {
        Some(d) => day_of_date(d, "%Y-%m-%d"@),
        None => None,
    }
}

/// The day of a log file, from its name.
pub fn parse_log_date(file_name: &str) -> (r: Option<i32>)
    ensures
        r == log_day(file_name@),
{
    match log_date_text(file_name) {
        Some(d) => parse_day(d.as_str(), "%Y-%m-%d"),
        None => None,
    }
}

/// A log file: its place among the files, and its day.
#[derive(Clone, Copy, PartialEq, Eq, Structural, Debug)]
pub struct DatedLog {
    pub place: usize,
    pub day: i32,
}

/// The log files among a number of files.
pub open spec fn dated(names: Seq<Seq<char>>) -> Seq<DatedLog>
    decreases names.len(),
{
    if names.len() == 0 {
        Seq::empty()
    } else {
        let before = dated(names.drop_last());
        match log_day(names.last()) {
            Some(day) => before.push(DatedLog { place: (names.len() - 1) as usize, day }),
            None => before,
        }
    }
}

/// The log files among a number of files.
fn dated_logs(names: &Vec<String>) -> (r: Vec<DatedLog>)
    ensures
        r@ == dated(text::views(names@)),
{
    let ghost ns = text::views(names@);
    let mut out: Vec<DatedLog> = Vec::new();
    let mut i: usize = 0;
    proof {
        assert(out@ =~= dated(ns.take(0)));
    }
    while i < names.len()
        invariant
            i <= names.len(),
            ns == text::views(names@),
            out@ == dated(ns.take(i as int)),
        decreases names.len() - i,
    {
        proof {
            assert(ns.take(i + 1).drop_last() =~= ns.take(i as int));
            assert(ns.take(i + 1).last() == names@[i as int]@);
        }
        match parse_log_date(names[i].as_str()) {
            Some(day) => {
                out.push(DatedLog { place: i, day });
            },
            None => {},
        }
        i += 1;
    }
    proof {
        assert(ns.take(ns.len() as int) =~= ns);
    }
    out
}

/// The days of log files.
pub open spec fn days(logs: Seq<DatedLog>) -> Seq<i64> {
    logs.map_values(|l: DatedLog| l.day as i64)
}

/// Log files from the oldest to the newest.
pub open spec fn oldest_first(logs: Seq<DatedLog>) -> Seq<DatedLog> {
    sorting::sorted_by(days(logs), logs)
}

/// The log file is older than it may be.
pub open spec fn is_old(log: DatedLog, today: i32, retention_days: i64) -> bool {
    today - log.day > retention_days
}

/// The log files that are older than they may be, or those that are not.
pub open spec fn select_old(
    logs: Seq<DatedLog>,
    today: i32,
    retention_days: i64,
    old_ones: bool,
) -> Seq<DatedLog>
    decreases logs.len(),
{
    if logs.len() == 0 {
        Seq::empty()
    } else {
        let before = select_old(logs.drop_last(), today, retention_days, old_ones);
        if is_old(logs.last(), today, retention_days) == old_ones {
            before.push(logs.last())
        } else {
            before
        }
    }
}

/// The log files that are not too old, from the oldest on.
pub open spec fn young(logs: Seq<DatedLog>, today: i32, config: LogRotationConfig) -> Seq<DatedLog> {
    select_old(oldest_first(logs), today, config.retention_days, false)
}

/// How many of the log files that are not too old are too many.
pub open spec fn excess(logs: Seq<DatedLog>, today: i32, config: LogRotationConfig) -> int {
    if young(logs, today, config).len() > config.max_files {
        young(logs, today, config).len() - config.max_files
    } else {
        0
    }
}

/// The log files that are removed: those that are too old, and then the oldest
/// of those that are too many.
pub open spec fn removed(logs: Seq<DatedLog>, today: i32, config: LogRotationConfig) -> Seq<DatedLog> {
    select_old(oldest_first(logs), today, config.retention_days, true) + young(
        logs,
        today,
        config,
    ).take(excess(logs, today, config))
}

/// The log files that stay.
pub open spec fn remaining(
    logs: Seq<DatedLog>,
    today: i32,
    config: LogRotationConfig,
) -> Seq<DatedLog> {
    young(logs, today, config).skip(excess(logs, today, config))
}

/// The log files that are removed: those that are too old, and then the oldest
/// of those that are too many.
pub fn expired_logs(logs: &Vec<DatedLog>, today: i32, config: &LogRotationConfig) -> (r: Vec<
    DatedLog,
>)
    ensures
        r@ == removed(logs@, today, *config),
{
    let mut keys: Vec<i64> = Vec::new();
    let mut i: usize = 0;
    while i < logs.len()
        invariant
            i <= logs.len(),
            keys@ == days(logs@.take(i as int)),
        decreases logs.len() - i,
    {
        keys.push(logs[i].day as i64);
        proof {
            assert(keys@ =~= days(logs@.take(i + 1)));
        }
        i += 1;
    }
    proof {
        assert(logs@.take(logs@.len() as int) =~= logs@);
    }
    let order = sort_places(&keys);
    let ghost sorted = oldest_first(logs@);
    proof {
        assert(keys@.len() == logs@.len());
        assert(sorted.len() == order@.len());
    }
    let mut old_ones: Vec<DatedLog> = Vec::new();
    let mut rest: Vec<DatedLog> = Vec::new();
    let mut k: usize = 0;
    proof {
        assert(old_ones@ =~= select_old(sorted.take(0), today, config.retention_days, true));
        assert(rest@ =~= select_old(sorted.take(0), today, config.retention_days, false));
    }
    while k < order.len()
        invariant
            k <= order.len() == logs.len(),
            keys@ == days(logs@),
            keys@.len() == logs@.len(),
            order@ == sorting::sorting(keys@),
            sorting::is_sorting(keys@, order@),
            sorted == oldest_first(logs@),
            sorted.len() == order@.len(),
            old_ones@ == select_old(sorted.take(k as int), today, config.retention_days, true),
            rest@ == select_old(sorted.take(k as int), today, config.retention_days, false),
        decreases order.len() - k,
    {
        let log = logs[order[k]];
        proof {
            assert(sorted.take(k + 1).drop_last() =~= sorted.take(k as int));
            assert(sorted[k as int] == log);
            assert(sorted.take(k + 1).last() == log);
        }
        let age: i64 = today as i64 - log.day as i64;
        if age > config.retention_days {
            old_ones.push(log);
        } else {
            rest.push(log);
        }
        k += 1;
    }
    proof {
        assert(sorted.take(sorted.len() as int) =~= sorted);
    }
    let ghost first = old_ones@;
    if rest.len() > config.max_files {
        let n: usize = rest.len() - config.max_files;
        let mut j: usize = 0;
        proof {
            assert(old_ones@ =~= first + rest@.take(0));
        }
        while j < n
            invariant
                j <= n <= rest.len(),
                old_ones@ == first + rest@.take(j as int),
            decreases n - j,
        {
            old_ones.push(rest[j]);
            proof {
                assert(old_ones@ =~= first + rest@.take(j + 1));
            }
            j += 1;
        }
    } else {
        proof {
            assert(first + rest@.take(0) =~= first);
        }
    }
    old_ones
}

/// The places of the files that are removed from a directory of log files;
/// `today` is counted from the beginning of the common era.
pub fn cleanup_old_logs(names: &Vec<String>, today: i32, config: &LogRotationConfig) -> (r: Vec<
    usize,
>)
    ensures
        r@ == removed(dated(text::views(names@)), today, *config).map_values(|l: DatedLog| l.place),
{
    let logs = dated_logs(names);
    let gone = expired_logs(&logs, today, config);
    let mut out: Vec<usize> = Vec::new();
    let mut i: usize = 0;
    while i < gone.len()
        invariant
            i <= gone.len(),
            out@ == gone@.take(i as int).map_values(|l: DatedLog| l.place),
        decreases gone.len() - i,
    {
        out.push(gone[i].place);
        proof {
            assert(out@ =~= gone@.take(i + 1).map_values(|l: DatedLog| l.place));
        }
        i += 1;
    }
    proof {
        assert(gone@.take(gone@.len() as int) =~= gone@);
    }
    out
}

// ---------------------------------------------------------------------------
// Laws
// ---------------------------------------------------------------------------

/// What a selection holds.
proof fn lemma_select_old(
    logs: Seq<DatedLog>,
    today: i32,
    retention_days: i64,
    old_ones: bool,
    log: DatedLog,
)
    ensures
        select_old(logs, today, retention_days, old_ones).contains(log) <==> (logs.contains(log)
            && is_old(log, today, retention_days) == old_ones),
    decreases logs.len(),
{
    let whole = select_old(logs, today, retention_days, old_ones);
    if logs.len() > 0 {
        let front = logs.drop_last();
        let before = select_old(front, today, retention_days, old_ones);
        lemma_select_old(front, today, retention_days, old_ones, log);
        if whole.contains(log) {
            let k = choose|k: int| 0 <= k < whole.len() && whole[k] == log;
            if k < before.len() {
                assert(before[k] == log);
                let j = choose|j: int| 0 <= j < front.len() && front[j] == log;
                assert(logs[j] == log);
            } else {
                assert(logs[logs.len() - 1] == log);
            }
        }
        if logs.contains(log) && is_old(log, today, retention_days) == old_ones {
            let j = choose|j: int| 0 <= j < logs.len() && logs[j] == log;
            if j < front.len() {
                assert(front[j] == log);
                let k = choose|k: int| 0 <= k < before.len() && before[k] == log;
                assert(whole[k] == log);
            } else {
                assert(whole[before.len() as int] == log);
            }
        }
    }
}

/// A selection keeps the order.
proof fn lemma_select_sorted(logs: Seq<DatedLog>, today: i32, retention_days: i64, old_ones: bool)
    requires
        forall|i: int, j: int|
            0 <= i <= j < logs.len() ==> (#[trigger] logs[i]).day <= (#[trigger] logs[j]).day,
    ensures
        ({
            let s = select_old(logs, today, retention_days, old_ones);
            forall|i: int, j: int|
                0 <= i <= j < s.len() ==> (#[trigger] s[i]).day <= (#[trigger] s[j]).day
        }),
    decreases logs.len(),
{
    if logs.len() > 0 {
        let front = logs.drop_last();
        assert forall|i: int, j: int| 0 <= i <= j < front.len() implies (#[trigger] front[i]).day
            <= (#[trigger] front[j]).day by {
            assert(front[i] == logs[i] && front[j] == logs[j]);
        }
        lemma_select_sorted(front, today, retention_days, old_ones);
        let before = select_old(front, today, retention_days, old_ones);
        let s = select_old(logs, today, retention_days, old_ones);
        assert forall|i: int, j: int| 0 <= i <= j < s.len() implies (#[trigger] s[i]).day <= (
        #[trigger] s[j]).day by {
            if j < before.len() {
                assert(s[i] == before[i] && s[j] == before[j]);
            } else if i < before.len() {
                assert(before.contains(before[i]));
                lemma_select_old(front, today, retention_days, old_ones, before[i]);
                let k = choose|k: int| 0 <= k < front.len() && front[k] == before[i];
                assert(logs[k].day <= logs[logs.len() - 1].day);
            }
        }
    }
}

/// The log files in order are the same log files.
proof fn lemma_oldest_first(logs: Seq<DatedLog>)
    requires
        logs.len() <= usize::MAX,
    ensures
        oldest_first(logs).len() == logs.len(),
        forall|log: DatedLog| #[trigger] oldest_first(logs).contains(log) <==> logs.contains(log),
        forall|i: int, j: int|
            0 <= i <= j < oldest_first(logs).len() ==> (#[trigger] oldest_first(logs)[i]).day <= (
            #[trigger] oldest_first(logs)[j]).day,
{
    let keys = days(logs);
    let order = sorting::sorting(keys);
    let sorted = oldest_first(logs);
    sorting::lemma_sorting_exists(keys);
    assert(sorting::is_sorting(keys, order));
    sorting::lemma_sorting_covers(keys, order);
    assert forall|log: DatedLog| #[trigger] sorted.contains(log) <==> logs.contains(log) by {
        if sorted.contains(log) {
            let k = choose|k: int| 0 <= k < sorted.len() && sorted[k] == log;
            assert(logs[order[k] as int] == log);
        }
        if logs.contains(log) {
            let i = choose|i: int| 0 <= i < logs.len() && logs[i] == log;
            assert(sorting::lists(order, i));
            let a = choose|a: int| 0 <= a < order.len() && order[a] == i;
            assert(sorted[a] == log);
        }
    }
    assert forall|i: int, j: int| 0 <= i <= j < sorted.len() implies (#[trigger] sorted[i]).day <= (
    #[trigger] sorted[j]).day by {
        assert(sorted[i] == logs[order[i] as int]);
        assert(sorted[j] == logs[order[j] as int]);
        if i < j {
            assert(sorting::comes_before(keys, order[i] as int, order[j] as int));
            assert(keys[order[i] as int] <= keys[order[j] as int]);
        }
    }
}

/// The two criteria are independent: a log file that is older than it may be is
/// always removed, and of the others no more stay than there may be.
pub proof fn law_retention(logs: Seq<DatedLog>, today: i32, config: LogRotationConfig, log: DatedLog)
    requires
        logs.len() <= usize::MAX,
    ensures
        logs.contains(log) && is_old(log, today, config.retention_days) ==> removed(
            logs,
            today,
            config,
        ).contains(log),
        remaining(logs, today, config).len() <= config.max_files,
        remaining(logs, today, config).contains(log) ==> !is_old(
            log,
            today,
            config.retention_days,
        ),
{
    lemma_oldest_first(logs);
    let sorted = oldest_first(logs);
    let old_ones = select_old(sorted, today, config.retention_days, true);
    let y = young(logs, today, config);
    lemma_select_old(sorted, today, config.retention_days, true, log);
    lemma_select_old(sorted, today, config.retention_days, false, log);
    if logs.contains(log) && is_old(log, today, config.retention_days) {
        assert(sorted.contains(log));
        let k = choose|k: int| 0 <= k < old_ones.len() && old_ones[k] == log;
        assert(removed(logs, today, config)[k] == log);
    }
    let rest = remaining(logs, today, config);
    if rest.contains(log) {
        let k = choose|k: int| 0 <= k < rest.len() && rest[k] == log;
        assert(y[k + excess(logs, today, config)] == log);
    }
}

/// The log files that stay are the newest: none that is removed is newer.
pub proof fn law_newest_stay(
    logs: Seq<DatedLog>,
    today: i32,
    config: LogRotationConfig,
    gone: DatedLog,
    kept: DatedLog,
)
    requires
        logs.len() <= usize::MAX,
        removed(logs, today, config).contains(gone),
        remaining(logs, today, config).contains(kept),
    ensures
        gone.day <= kept.day,
{
    lemma_oldest_first(logs);
    let sorted = oldest_first(logs);
    let old_ones = select_old(sorted, today, config.retention_days, true);
    let y = young(logs, today, config);
    let n = excess(logs, today, config);
    lemma_select_sorted(sorted, today, config.retention_days, false);
    law_retention(logs, today, config, kept);
    let all = removed(logs, today, config);
    let rest = remaining(logs, today, config);
    let a = choose|a: int| 0 <= a < all.len() && all[a] == gone;
    let b = choose|b: int| 0 <= b < rest.len() && rest[b] == kept;
    assert(y[b + n] == kept);
    if a < old_ones.len() {
        assert(old_ones[a] == gone);
        assert(old_ones.contains(gone));
        lemma_select_old(sorted, today, config.retention_days, true, gone);
    } else {
        assert(y[a - old_ones.len()] == gone);
    }
}

/// The names of levels, with `warning` for `warn`. Any other name is none.
pub proof fn law_level_names(name: Seq<char>)
    ensures
        level_name(LogLevel::Error) == "error"@,
        level_name(LogLevel::Warn) == "warn"@,
        level_name(LogLevel::Info) == "info"@,
        level_name(LogLevel::Debug) == "debug"@,
        level_name(LogLevel::Trace) == "trace"@,
        level_of("warning"@) == Some(LogLevel::Warn),
        level_of(name) is Some <==> name == "error"@ || name == "warn"@ || name == "warning"@ || name
            == "info"@ || name == "debug"@ || name == "trace"@,
{
    reveal_strlit("error");
    reveal_strlit("warning");
    assert("error"@.len() != "warning"@.len());
}

/// What holds where nothing is set.
pub proof fn law_log_defaults()
    ensures
        LOG_DIR_NAME@ == "logs"@,
        DEFAULT_LOG_MAX_FILES == 5,
        DEFAULT_LOG_RETENTION_DAYS == 5,
        DEFAULT_CLEANUP_INTERVAL_HOURS == 24,
{
}

/// A number behind a minus sign is its negative; without one it is read as usual.
pub proof fn law_signed_numbers(s: Seq<char>)
    ensures
        s.len() > 0 && numbers::all_digits(s) && numbers::value_of(s) <= 0x8000_0000_0000_0000
            ==> signed(seq!['-'] + s) == Some(-(numbers::value_of(s) as int)),
        s.len() > 0 && numbers::all_digits(s) && numbers::value_of(s) > 0x8000_0000_0000_0000
            ==> signed(seq!['-'] + s) is None,
        s.len() > 0 && numbers::all_digits(s) && numbers::value_of(s) <= i64::MAX ==> signed(s)
            == Some(numbers::value_of(s) as int),
        s.len() > 0 && numbers::all_digits(s) && numbers::value_of(s) > i64::MAX ==> signed(s) is None,
        signed(Seq::empty()) is None,
        signed(seq!['-']) is None,
        !numbers::all_digits(s) ==> signed(seq!['-'] + s) is None,
{
    assert((seq!['-'] + s).skip(1) =~= s);
    assert(seq!['-'].skip(1) =~= Seq::<char>::empty());
    if s.len() > 0 && numbers::all_digits(s) {
        assert(numbers::is_digit(s[0]));
    }
}

/// The date of a log file stands behind `codesearch.log.` in its name; any other
/// file has none.
pub proof fn law_date_of_a_log(date: Seq<char>, name: Seq<char>)
    ensures
        log_day("codesearch.log."@ + date) == day_of_date(date, "%Y-%m-%d"@),
        name.len() < 15 ==> log_day(name) is None,
        name.take(15) != "codesearch.log."@ ==> log_day(name) is None,
{
    reveal_strlit("codesearch.log.");
    let p = "codesearch.log."@;
    let s = p + date;
    text::law_ends_of_text(s, p);
    text::law_ends_of_text(name, p);
    assert(s.take(15) =~= p);
    assert(s.skip(15) =~= date);
}

/// The dated logs are the files whose names have a date, each with its place and
/// day.
pub proof fn law_dated_logs(names: Seq<Seq<char>>) -> (places: Seq<int>)
    requires
        names.len() <= usize::MAX,
    ensures
        sorting::selects(places, names.len() as int, |i: int| log_day(names[i]) is Some),
        dated(names).len() == places.len(),
        forall|k: int|
            0 <= k < places.len() ==> (#[trigger] dated(names)[k]).place == places[k] && dated(
                names,
            )[k].day == log_day(names[places[k]])->0,
    decreases names.len(),
{
    if names.len() == 0 {
        Seq::empty()
    } else {
        let front = names.drop_last();
        let before = law_dated_logs(front);
        let first = dated(front);
        let all = dated(names);
        let places = sorting::lemma_selects_step(
            before,
            names.len() - 1,
            |i: int| log_day(front[i]) is Some,
            |i: int| log_day(names[i]) is Some,
        );
        assert forall|k: int| 0 <= k < places.len() implies (#[trigger] all[k]).place == places[k]
            && all[k].day == log_day(names[places[k]])->0 by {
            if k < before.len() {
                assert(all[k] == first[k]);
                assert(front[before[k]] == names[places[k]]);
            }
        }
        places
    }
}

/// A log is old when more days have passed since its own than are to be kept.
pub proof fn law_age_of_a_log(log: DatedLog, today: i32, retention_days: i64)
    ensures
        is_old(log, today, retention_days) <==> today > log.day + retention_days,
{
}

/// The old logs, and the others, are selected in their order.
pub proof fn law_old_logs_are_selected(
    logs: Seq<DatedLog>,
    today: i32,
    retention_days: i64,
    old_ones: bool,
) -> (places: Seq<int>)
    ensures
        sorting::selects(
            places,
            logs.len() as int,
            |i: int| (today > logs[i].day + retention_days) == old_ones,
        ),
        select_old(logs, today, retention_days, old_ones).len() == places.len(),
        forall|k: int|
            0 <= k < places.len() ==> #[trigger] select_old(logs, today, retention_days, old_ones)[k]
                == logs[places[k]],
    decreases logs.len(),
{
    if logs.len() == 0 {
        Seq::empty()
    } else {
        let front = logs.drop_last();
        let before = law_old_logs_are_selected(front, today, retention_days, old_ones);
        let first = select_old(front, today, retention_days, old_ones);
        let all = select_old(logs, today, retention_days, old_ones);
        let places = sorting::lemma_selects_step(
            before,
            logs.len() - 1,
            |i: int| (today > front[i].day + retention_days) == old_ones,
            |i: int| (today > logs[i].day + retention_days) == old_ones,
        );
        assert forall|k: int| 0 <= k < places.len() implies #[trigger] all[k] == logs[places[k]] by {
            if k < before.len() {
                assert(all[k] == first[k]);
                assert(front[before[k]] == logs[places[k]]);
            }
        }
        places
    }
}

/// No log is removed without need: while no more than the number to be kept are
/// young, none of them goes.
pub proof fn law_few_logs_stay(logs: Seq<DatedLog>, today: i32, config: LogRotationConfig)
    ensures
        young(logs, today, config).len() <= config.max_files ==> remaining(logs, today, config)
            == young(logs, today, config),
        young(logs, today, config).len() > config.max_files ==> remaining(
            logs,
            today,
            config,
        ).len() == config.max_files,
        removed(logs, today, config).len() + remaining(logs, today, config).len() == select_old(
            oldest_first(logs),
            today,
            config.retention_days,
            true,
        ).len() + young(logs, today, config).len(),
{
    assert(young(logs, today, config).skip(0) =~= young(logs, today, config));
}

/// What is set counts where it is a number; else five files are kept for five
/// days, and looked at once a day.
pub proof fn law_log_settings(
    max_files: Option<&str>,
    retention_days: Option<&str>,
    r: LogRotationConfig,
    setting: Option<&str>,
    h: u64,
)
    requires
        call_ensures(LogRotationConfig::from_env, (max_files, retention_days), r),
        call_ensures(cleanup_interval_hours, (setting,), h),
    ensures
        max_files is None ==> r.max_files == 5,
        retention_days is None ==> r.retention_days == 5,
        setting is None ==> h == 24,
        max_files is Some && numbers::parsed(max_files->0@, usize::MAX as nat) is Some
            ==> r.max_files == numbers::parsed(max_files->0@, usize::MAX as nat)->0,
        max_files is Some && numbers::parsed(max_files->0@, usize::MAX as nat) is None
            ==> r.max_files == 5,
        retention_days is Some && signed(retention_days->0@) is Some ==> r.retention_days == signed(
            retention_days->0@,
        )->0,
        retention_days is Some && signed(retention_days->0@) is None ==> r.retention_days == 5,
        setting is Some && numbers::parsed(setting->0@, u64::MAX as nat) is Some ==> h
            == numbers::parsed(setting->0@, u64::MAX as nat)->0,
        setting is Some && numbers::parsed(setting->0@, u64::MAX as nat) is None ==> h == 24,
{
}

/// The operation itself: a log whose date is longer ago than the days to be kept
/// is removed.
pub proof fn law_old_logs_go(
    names: &Vec<String>,
    today: i32,
    config: &LogRotationConfig,
    r: Vec<usize>,
    i: int,
)
    requires
        call_ensures(cleanup_old_logs, (names, today, config), r),
        names@.len() <= usize::MAX,
        0 <= i < names@.len(),
    ensures
        log_day(names@[i]@) is Some && today > log_day(names@[i]@)->0 + config.retention_days
            ==> r@.contains(i as usize),
{
    let views = text::views(names@);
    let logs = dated(views);
    assert(views[i] == names@[i]@);
    let places = law_dated_logs(views);
    let wanted = |i: int| log_day(views[i]) is Some;
    sorting::lemma_selected_are_few(places, views.len() as int, wanted);
    if log_day(names@[i]@) is Some && today > log_day(names@[i]@)->0 + config.retention_days {
        assert(wanted(i));
        assert(places.contains(i));
        let k = choose|k: int| 0 <= k < places.len() && places[k] == i;
        let log = logs[k];
        assert(log.place == places[k] && log.day == log_day(views[places[k]])->0);
        assert(logs.contains(log));
        law_retention(logs, today, *config, log);
        let gone = removed(logs, today, *config);
        let m = choose|m: int| 0 <= m < gone.len() && gone[m] == log;
        assert(r@[m] == log.place);
        assert(r@[m] == i as usize);
    }
}

} // verus!
