//! Structured logging shared by the engine, the privileged service and the relay.
//!
//! The bar this has to clear is set by the questions that actually get asked of
//! a running session: which route stopped carrying traffic, when, and what the
//! process did about it. So this logs **transitions and decisions**, plus one
//! periodic summary line for context, and deliberately nothing per packet.
//!
//! Three things keep it from becoming noise:
//!
//! - A level filter, `info` by default, raised with `GAMEPATH_LOG=debug`.
//! - Consecutive identical messages are collapsed into a repeat count, so a
//!   path failing every two seconds costs one line, not eighteen hundred an
//!   hour.
//! - The file is capped and rotated, so a machine left running for a month does
//!   not fill its disk with a log nobody reads.
//!
//! Nothing here should ever be handed a secret. Node configurations, enrollment
//! tokens, pre-shared keys and service tokens stay out of the log entirely;
//! where a value has to be correlated across lines, log [`fingerprint`] of it
//! rather than the value.

use vstd::prelude::*;
use vstd::string::StringExecFns;

use crate::text;
use crate::time;

verus! {

pub const LOG_DIRECTORY: &'static str = "/var/log/gamepath";

/// Size at which the log is rotated. One previous file is kept, so a component
/// costs at most twice this on disk.
pub const MAX_BYTES: u64 = 4 * 1024 * 1024;

/// A message repeating this long keeps being suppressed, but is re-emitted with
/// its count afterwards so a stuck component still shows a pulse.
pub const REPEAT_WINDOW: u64 = 30_000_000_000;

/// How severe a message is, most severe first.
#[derive(Debug, Clone, Copy, PartialEq, Eq, PartialOrd, Ord, Structural)]
pub enum Level {
    Error,
    Warn,
    Info,
    Debug,
}

/// The level that a name stands for.
pub open spec fn level_named(value: Seq<char>) -> Option<Level> {
    let name = text::lower(text::trimmed(value));
    if name == "error"@ {
        Some(Level::Error)
    } else if name == "warn"@ || name == "warning"@ {
        Some(Level::Warn)
    } else if name == "info"@ {
        Some(Level::Info)
    } else if name == "debug"@ || name == "trace"@ {
        Some(Level::Debug)
    } else {
        None
    }
}

impl Level {
    /// The place in the order of severity.
    pub open spec fn place(self) -> int {
        match self {
            Level::Error => 0,
            Level::Warn => 1,
            Level::Info => 2,
            Level::Debug => 3,
        }
    }

    pub open spec fn word(self) -> Seq<char> {
        match self {
            Level::Error => "ERROR"@,
            Level::Warn => "WARN"@,
            Level::Info => "INFO"@,
            Level::Debug => "DEBUG"@,
        }
    }

    pub fn label(self) -> (r: &'static str)
        ensures
            r@ == self.word(),
    {
        match self {
            Level::Error => "ERROR",
            Level::Warn => "WARN",
            Level::Info => "INFO",
            Level::Debug => "DEBUG",
        }
    }

    fn number(self) -> (r: u8)
        ensures
            r == self.place(),
    {
        match self {
            Level::Error => 0,
            Level::Warn => 1,
            Level::Info => 2,
            Level::Debug => 3,
        }
    }

    /// Parses the value of the environment's level filter. Anything unrecognised
    /// leaves the default in place rather than silently disabling the log.
    pub fn parse(value: &str) -> (r: Option<Self>)
        ensures
            r == level_named(value@),
    {
        let chars = text::chars(value);
        let name = text::to_lower(text::trim(chars.as_slice()));
        let name = name.as_slice();
        if text::spells(name, "error") {
            Some(Level::Error)
        } else if text::spells(name, "warn") || text::spells(name, "warning") {
            Some(Level::Warn)
        } else if text::spells(name, "info") {
            Some(Level::Info)
        } else if text::spells(name, "debug") || text::spells(name, "trace") {
            Some(Level::Debug)
        } else {
            None
        }
    }
}

/// Whether messages of a level are written under a filter.
pub fn enabled(level: Level, filter: Level) -> (r: bool)
    ensures
        r == (level.place() <= filter.place()),
{
    level.number() <= filter.number()
}

/// A message that keeps repeating.
#[derive(Debug, Clone)]
pub struct Repeat {
    pub level: Level,
    pub message: String,
    pub count: u64,
    pub since: u64,
}

/// A line to write, without what stands before it.
#[derive(Debug, Clone)]
pub struct Line {
    pub level: Level,
    pub message: String,
}

/// A repeating message.
#[verifier::ext_equal]
pub struct RepeatModel {
    pub level: Level,
    pub message: Seq<char>,
    pub count: u64,
    pub since: u64,
}

/// Lines, as their levels and texts.
pub open spec fn line_views(lines: Seq<Line>) -> Seq<(Level, Seq<char>)> {
    Seq::new(lines.len(), |i: int| (lines[i].level, lines[i].message@))
}

/// What collapses consecutive identical messages.
#[derive(Debug, Clone)]
pub struct Sink {
    pub repeat: Option<Repeat>,
}

/// A message with how often it came again.
pub open spec fn repeated(message: Seq<char>, count: u64) -> Seq<char> {
    message + " (repeated "@ + text::decimal(count as nat) + " times)"@
}

fn repeated_text(message: &str, count: u64) -> (r: String)
    ensures
        r@ == repeated(message@, count),
{
    let mut r = text::concat3(message, " (repeated ", text::decimal_text(count).as_str());
    r.append(" times)");
    r
}

/// The line that a repeat still owes.
pub open spec fn owed(repeat: Option<RepeatModel>) -> Seq<(Level, Seq<char>)> {
    match repeat {
        Some(repeat) if repeat.count > 0 => seq![
            (repeat.level, repeated(repeat.message, repeat.count)),
        ],
        _ => Seq::<(Level, Seq<char>)>::empty(),
    }
}

/// One more repetition, up to the greatest number there is.
pub open spec fn once_more(count: u64) -> u64 {
    if count < u64::MAX {
        (count + 1) as u64
    } else {
        count
    }
}

/// Whether a message is the one that came last.
pub open spec fn is_again(repeat: Option<RepeatModel>, level: Level, message: Seq<char>) -> bool {
    repeat matches Some(last) && last.level == level && last.message == message
}

/// Whether a message is held back: it is the one that came last, and that was
/// not long ago.
pub open spec fn is_held(
    repeat: Option<RepeatModel>,
    level: Level,
    message: Seq<char>,
    now: u64,
) -> bool {
    is_again(repeat, level, message) && time::elapsed(now, (repeat->0).since) < REPEAT_WINDOW
}

/// The lines that a message gives.
pub open spec fn emitted(
    repeat: Option<RepeatModel>,
    level: Level,
    message: Seq<char>,
    now: u64,
) -> Seq<(Level, Seq<char>)> {
    if is_held(repeat, level, message, now) {
        Seq::<(Level, Seq<char>)>::empty()
    } else if is_again(repeat, level, message) {
        seq![(level, repeated(message, once_more((repeat->0).count)))]
    } else {
        owed(repeat).push((level, message))
    }
}

/// The repeat that a message leaves.
pub open spec fn after_message(
    repeat: Option<RepeatModel>,
    level: Level,
    message: Seq<char>,
    now: u64,
) -> RepeatModel {
    if is_held(repeat, level, message, now) {
        RepeatModel { count: once_more((repeat->0).count), ..repeat->0 }
    } else {
        RepeatModel { level, message, count: 0, since: now }
    }
}

impl Sink {
    pub open spec fn pending(&self) -> Option<RepeatModel> {
        match self.repeat {
            Some(repeat) => Some(
                RepeatModel {
                    level: repeat.level,
                    message: repeat.message@,
                    count: repeat.count,
                    since: repeat.since,
                },
            ),
            None => None,
        }
    }

    pub fn new() -> (r: Self)
        ensures
            r.pending() is None,
    {
        Sink { repeat: None }
    }

    /// The lines to write for a message.
    pub fn emit(&mut self, level: Level, message: String, now: u64) -> (lines: Vec<Line>)
        ensures
            line_views(lines@) == emitted(old(self).pending(), level, message@, now),
            final(self).pending() == Some(
                after_message(old(self).pending(), level, message@, now),
            ),
    {
        let mut lines: Vec<Line> = Vec::new();
        let again: bool = match &self.repeat {
            Some(repeat) => repeat.level == level && text::same(
                repeat.message.as_str(),
                message.as_str(),
            ),
            None => false,
        };
        if again {
            if let Some(repeat) = &self.repeat {
                let count: u64 = repeat.count.saturating_add(1);
                let since: u64 = repeat.since;
                if time::since(now, since) < REPEAT_WINDOW {
                    self.repeat = Some(Repeat { level, message, count, since });
                    assert(line_views(lines@) =~= Seq::<(Level, Seq<char>)>::empty());
                    return lines;
                }
                lines.push(Line { level, message: repeated_text(message.as_str(), count) });
            }
        } else {
            if let Some(line) = self.flush_repeat() {
                lines.push(line);
            }
            lines.push(Line { level, message: message.clone() });
        }
        self.repeat = Some(Repeat { level, message, count: 0, since: now });
        assert(line_views(lines@) =~= emitted(old(self).pending(), level, message@, now));
        lines
    }

    /// The line that a suppressed repeat still owes. Worth asking for before a
    /// process exits so the last line is not lost inside a repeat count.
    pub fn flush_repeat(&mut self) -> (r: Option<Line>)
        ensures
            final(self).pending() is None,
            match r {
                Some(line) => owed(old(self).pending()) == seq![(line.level, line.message@)],
                None => owed(old(self).pending()).len() == 0,
            },
    {
        let mut taken: Option<Repeat> = None;
        core::mem::swap(&mut taken, &mut self.repeat);
        match taken {
            Some(repeat) => if repeat.count > 0 {
                Some(
                    Line {
                        level: repeat.level,
                        message: repeated_text(repeat.message.as_str(), repeat.count),
                    },
                )
            } else {
                None
            },
            None => None,
        }
    }
}

/// A message that keeps coming is written once and then held as a count, and one
/// that differs in its text or its level never is.
pub proof fn only_a_repetition_is_held(
    repeat: Option<RepeatModel>,
    level: Level,
    message: Seq<char>,
    now: u64,
)
    ensures
        emitted(repeat, level, message, now).len() == 0 <==> is_held(repeat, level, message, now),
        !is_again(repeat, level, message) ==> emitted(repeat, level, message, now).last() == (
            level,
            message,
        ),
        ({
            let next = after_message(repeat, level, message, now);
            next.level == level && next.message == message
        }),
{
}

/// The start of a line: the time, the level in five places, and the component.
pub open spec fn full_line(
    timestamp: Seq<char>,
    level: Level,
    component: Seq<char>,
    message: Seq<char>,
) -> Seq<char> {
    timestamp + " "@ + level.word() + (match level {
        Level::Warn => " "@,
        Level::Info => " "@,
        _ => ""@,
    }) + " "@ + component + " "@ + message + "\n"@
}

/// One line of the log, as it is written.
pub fn format_line(timestamp: &str, level: Level, component: &str, message: &str) -> (r: String)
    ensures
        r@ == full_line(timestamp@, level, component@, message@),
{
    let mut r = text::concat3(timestamp, " ", level.label());
    match level {
        Level::Warn => r.append(" "),
        Level::Info => r.append(" "),
        _ => r.append(""),
    }
    r.append(" ");
    r.append(component);
    r.append(" ");
    r.append(message);
    r.append("\n");
    r
}

/// Where a component that runs as a service writes its log.
pub open spec fn log_file(component: Seq<char>) -> Seq<char> {
    if text::begins_with(component, "/"@) {
        component + ".log"@
    } else {
        LOG_DIRECTORY@ + "/"@ + component + ".log"@
    }
}

/// Where a component writes its log. One that names its own place from the root
/// on keeps it.
pub fn log_path(component: &str) -> (r: String)
    ensures
        r@ == log_file(component@),
{
    let name = text::chars(component);
    if text::starts_with(name.as_slice(), "/") {
        text::concat2(component, ".log")
    } else {
        let place = text::concat2(LOG_DIRECTORY, "/");
        text::concat3(place.as_str(), component, ".log")
    }
}

/// A folder with what separates it from a name inside. The folder that a drive
/// stands at takes none, nor does one that is written with a separator already.
pub open spec fn inside(root: Seq<char>) -> Seq<char> {
    let drive = root.len() == 2 && ('a' <= root[0] <= 'z' || 'A' <= root[0] <= 'Z') && root[1] == ':';
    if root.len() == 0 || root.last() == '\\' || root.last() == '/' || drive {
        root
    } else {
        root + "\\"@
    }
}

/// Where a component writes its log under a folder of Windows that all programs
/// share, since the service and the engine run elevated and a per-user folder
/// would not be theirs to write to.
pub fn log_path_under(root: &str, component: &str) -> (r: String)
    ensures
        r@ == inside(root@) + "GamePath\\logs\\"@ + component@ + ".log"@,
{
    let chars = text::chars(root);
    let n: usize = chars.len();
    let drive = n == 2 && (('a' <= chars[0] && chars[0] <= 'z') || ('A' <= chars[0] && chars[0]
        <= 'Z')) && chars[1] == ':';
    let place = if n == 0 || chars[n - 1] == '\\' || chars[n - 1] == '/' || drive {
        root.to_owned()
    } else {
        text::concat2(root, "\\")
    };
    assert(place@ =~= inside(root@));
    let folder = text::concat2(place.as_str(), "GamePath\\logs\\");
    text::concat3(folder.as_str(), component, ".log")
}

/// Whether the file is rotated before a line of so many bytes is written to it.
pub fn needs_rotation(written: u64, line: usize) -> (r: bool)
    ensures
        r == (written + line > MAX_BYTES),
{
    written > MAX_BYTES || line as u64 > MAX_BYTES - written
}

/// How long the file is once a line of so many bytes has been written, where
/// rotation starts a new one.
pub open spec fn size_after(written: u64, line: usize) -> int {
    if written + line > MAX_BYTES {
        line as int
    } else {
        written + line
    }
}

/// The live file never outgrows its cap, as long as no line alone does.
pub proof fn the_file_stays_within_its_cap(written: u64, line: usize)
    requires
        line <= MAX_BYTES,
    ensures
        size_after(written, line) <= MAX_BYTES,
{
}

/// Whether a year has a 29th of February.
pub open spec fn is_leap(year: int) -> bool {
    year % 4 == 0 && (year % 100 != 0 || year % 400 == 0)
}

pub open spec fn days_in_month(year: int, month: int) -> int {
    if month == 2 {
        if is_leap(year) {
            29
        } else {
            28
        }
    } else if month == 4 || month == 6 || month == 9 || month == 11 {
        30
    } else {
        31
    }
}

pub open spec fn is_date(year: int, month: int, day: int) -> bool {
    1 <= month <= 12 && 1 <= day <= days_in_month(year, month)
}

/// Days of a year that come before a month.
pub open spec fn days_before_month(year: int, month: int) -> int
    decreases month,
{
    if month <= 1 {
        0
    } else {
        days_before_month(year, month - 1) + days_in_month(year, month - 1)
    }
}

/// Leap days up to the end of a year, counted from the start of year one.
pub open spec fn leap_days(year: int) -> int {
    year / 4 - year / 100 + year / 400
}

/// The number of days from the first of January 1970 to a date. The year 1970
/// begins 719162 days after the year one does.
pub open spec fn day_number(year: int, month: int, day: int) -> int {
    365 * (year - 1) + leap_days(year - 1) + days_before_month(year, month) + day - 1 - 719_162
}

/// A day counted from the first of March, with `year` for the year it began in.
proof fn lemma_march(year: int, month: int, day: int)
    requires
        1 <= month <= 12,
    ensures
        month > 2 ==> day_number(year, month, day) == 365 * year + leap_days(year)
            + march_start(month) + day - 1 - 719_468,
        month <= 2 ==> day_number(year + 1, month, day) == 365 * year + leap_days(year)
            + march_start(month) + day - 1 - 719_468,
{
    reveal_with_fuel(days_before_month, 13);
    assert(leap_days(year) - leap_days(year - 1) == if is_leap(year) {
        1int
    } else {
        0int
    }) by {
        lemma_leap_step(year);
    }
}

proof fn lemma_leap_step(year: int)
    ensures
        leap_days(year) - leap_days(year - 1) == if is_leap(year) {
            1int
        } else {
            0int
        },
{
    let q = year / 400;
    let r = year % 400;
    assert(year == q * 400 + r);
    lemma_shifted(r, q, 400);
    lemma_shifted(r, q * 4, 100);
    lemma_shifted(r, q * 100, 4);
    lemma_shifted(r - 1, q, 400);
    lemma_shifted(r - 1, q * 4, 100);
    lemma_shifted(r - 1, q * 100, 4);
}

/// Days from the first of March to the start of a month.
pub open spec fn march_start(month: int) -> int {
    if month == 3 {
        0
    } else if month == 4 {
        31
    } else if month == 5 {
        61
    } else if month == 6 {
        92
    } else if month == 7 {
        122
    } else if month == 8 {
        153
    } else if month == 9 {
        184
    } else if month == 10 {
        214
    } else if month == 11 {
        245
    } else if month == 12 {
        275
    } else if month == 1 {
        306
    } else {
        337
    }
}

/// The month and the day of a day counted from the first of March.
fn march_date(day_of_year: u32) -> (r: (u32, u32))
    requires
        day_of_year <= 365,
    ensures
        1 <= r.0 <= 12,
        march_start(r.0 as int) + r.1 - 1 == day_of_year,
        1 <= r.1,
        r.0 == 2 ==> r.1 <= 29,
        r.0 == 2 && day_of_year < 365 ==> r.1 <= 28,
        r.0 != 2 ==> r.1 <= days_in_month(1, r.0 as int),
{
    let month: u32 = if day_of_year < 31 {
        3
    } else if day_of_year < 61 {
        4
    } else if day_of_year < 92 {
        5
    } else if day_of_year < 122 {
        6
    } else if day_of_year < 153 {
        7
    } else if day_of_year < 184 {
        8
    } else if day_of_year < 214 {
        9
    } else if day_of_year < 245 {
        10
    } else if day_of_year < 275 {
        11
    } else if day_of_year < 306 {
        12
    } else if day_of_year < 337 {
        1
    } else {
        2
    };
    let start: u32 = if month == 3 {
        0
    } else if month == 4 {
        31
    } else if month == 5 {
        61
    } else if month == 6 {
        92
    } else if month == 7 {
        122
    } else if month == 8 {
        153
    } else if month == 9 {
        184
    } else if month == 10 {
        214
    } else if month == 11 {
        245
    } else if month == 12 {
        275
    } else if month == 1 {
        306
    } else {
        337
    };
    (month, day_of_year - start + 1)
}

/// The year and the day of a day of an era. An era is 400 years that begin on a
/// first of March, so that a leap day is the last of its year. It is counted out
/// in centuries, spans of four years and years.
fn year_of_era(day_of_era: u32) -> (r: (u32, u32))
    requires
        day_of_era < 146_097,
    ensures
        r.0 < 400,
        r.1 <= 365,
        365 * r.0 + r.0 / 4 - r.0 / 100 + r.1 == day_of_era,
        r.1 == 365 ==> (r.0 + 1) % 4 == 0 && ((r.0 + 1) % 100 != 0 || r.0 + 1 == 400),
{
    let century: u32 = if day_of_era / 36_524 < 3 {
        day_of_era / 36_524
    } else {
        3
    };
    let day_of_century: u32 = day_of_era - century * 36_524;
    let span: u32 = day_of_century / 1461;
    let day_of_span: u32 = day_of_century - span * 1461;
    let year_of_span: u32 = if day_of_span / 365 < 3 {
        day_of_span / 365
    } else {
        3
    };
    let year: u32 = century * 100 + span * 4 + year_of_span;
    assert(span <= 24);
    assert(year / 4 == century * 25 + span);
    assert(year / 100 == century);
    (year, day_of_span - year_of_span * 365)
}

proof fn lemma_era(era: int, rest: int)
    requires
        0 <= rest < 400,
    ensures
        365 * (era * 400 + rest) + leap_days(era * 400 + rest) == era * 146_097 + 365 * rest + rest
            / 4 - rest / 100,
        is_leap(era * 400 + rest + 1) == ((rest + 1) % 4 == 0 && ((rest + 1) % 100 != 0 || rest + 1
            == 400)),
{
    let year = era * 400 + rest;
    lemma_shifted(rest, era, 400);
    lemma_shifted(rest, era * 4, 100);
    lemma_shifted(rest, era * 100, 4);
    lemma_shifted(rest + 1, era, 400);
    lemma_shifted(rest + 1, era * 4, 100);
    lemma_shifted(rest + 1, era * 100, 4);
    assert(leap_days(year) == era * 97 + rest / 4 - rest / 100);
    assert((rest + 1) % 400 == 0 <==> rest + 1 == 400);
}

/// Whole multiples of a divisor pass through a division.
proof fn lemma_shifted(x: int, j: int, d: int)
    requires
        d > 0,
    ensures
        (j * d + x) / d == j + x / d,
        (j * d + x) % d == x % d,
{
    vstd::arithmetic::div_mod::lemma_hoist_over_denominator(x, j, d as nat);
    vstd::arithmetic::div_mod::lemma_mod_multiples_vanish(j, x, d);
    vstd::arithmetic::mul::lemma_mul_is_commutative(j, d);
}

/// The civil date of a day counted from the first of January 1970.
pub fn civil_from_days(days: i64) -> (r: (i64, u32, u32))
    requires
        days <= i64::MAX - 719_468,
    ensures
        is_date(r.0 as int, r.1 as int, r.2 as int),
        day_number(r.0 as int, r.1 as int, r.2 as int) == days,
{
    let shifted: i64 = days + 719_468;
    let floor: i64 = if shifted >= 0 {
        shifted
    } else {
        shifted - 146_096
    };
    let era: i64 = floor / 146_097;
    assert(0 <= shifted - era * 146_097 < 146_097);
    let day_of_era: i64 = shifted - era * 146_097;
    let (rest, day_of_year) = year_of_era(day_of_era as u32);
    let year: i64 = era * 400 + rest as i64;
    let (month, day) = march_date(day_of_year);
    proof {
        lemma_era(era as int, rest as int);
        lemma_march(year as int, month as int, day as int);
    }
    (
        if month <= 2 {
            year + 1
        } else {
            year
        },
        month,
        day,
    )
}

/// A number with zeros in front up to a width.
pub open spec fn padded(digits: Seq<char>, width: nat) -> Seq<char>
    decreases width - digits.len(),
{
    if digits.len() >= width {
        digits
    } else {
        padded(seq!['0'] + digits, width)
    }
}

fn pad(digits: Vec<char>, width: usize) -> (r: Vec<char>)
    ensures
        r@ == padded(digits@, width as nat),
    decreases width - digits@.len(),
{
    if digits.len() >= width {
        return digits;
    }
    let mut longer: Vec<char> = Vec::new();
    longer.push('0');
    let mut rest = digits;
    let ghost before = rest@;
    longer.append(&mut rest);
    assert(longer@ =~= seq!['0'] + before);
    pad(longer, width)
}

fn pad_number(n: u64, width: usize) -> (r: String)
    ensures
        r@ == padded(text::decimal(n as nat), width as nat),
{
    text::string(pad(text::decimal_chars(n), width).as_slice())
}

/// How a moment is written, given the date of its day.
pub open spec fn timestamp_text(
    year: int,
    month: int,
    day: int,
    seconds: u64,
    millis: u32,
) -> Seq<char> {
    let of_day = seconds % 86_400;
    padded(text::decimal(year as nat), 4) + "-"@ + padded(text::decimal(month as nat), 2) + "-"@
        + padded(text::decimal(day as nat), 2) + "T"@ + padded(
        text::decimal((of_day / 3600) as nat),
        2,
    ) + ":"@ + padded(text::decimal((of_day % 3600 / 60) as nat), 2) + ":"@ + padded(
        text::decimal((of_day % 60) as nat),
        2,
    ) + "."@ + padded(text::decimal(millis as nat), 3) + "Z"@
}

/// A moment since the start of 1970 as `YYYY-MM-DDTHH:MM:SS.mmmZ`, so lines sort
/// and diff cleanly and a timestamp can be read without converting it first.
pub fn format_timestamp(seconds: u64, millis: u32) -> (r: String)
    ensures
        exists|year: int, month: int, day: int|
            is_date(year, month, day) && day_number(year, month, day) == seconds / 86_400 && r@
                == #[trigger] timestamp_text(year, month, day, seconds, millis),
{
    let (year, month, day) = civil_from_days((seconds / 86_400) as i64);
    proof {
        lemma_year_positive(year as int, month as int, day as int);
    }
    let of_day: u64 = seconds % 86_400;
    let mut r = pad_number(year as u64, 4);
    r.append("-");
    r.append(pad_number(month as u64, 2).as_str());
    r.append("-");
    r.append(pad_number(day as u64, 2).as_str());
    r.append("T");
    r.append(pad_number(of_day / 3600, 2).as_str());
    r.append(":");
    r.append(pad_number(of_day % 3600 / 60, 2).as_str());
    r.append(":");
    r.append(pad_number(of_day % 60, 2).as_str());
    r.append(".");
    r.append(pad_number(millis as u64, 3).as_str());
    r.append("Z");
    assert(r@ == timestamp_text(year as int, month as int, day as int, seconds, millis));
    r
}

/// A day on or after the first of January 1970 falls in 1970 or later.
proof fn lemma_year_positive(year: int, month: int, day: int)
    requires
        is_date(year, month, day),
        day_number(year, month, day) >= 0,
    ensures
        year >= 1970,
{
    lemma_day_of_year(year, month, day);
    if year < 1970 {
        lemma_years_apart(year, 1970);
    }
}

/// A date falls inside its year.
proof fn lemma_day_of_year(year: int, month: int, day: int)
    requires
        is_date(year, month, day),
    ensures
        0 <= days_before_month(year, month) + day - 1 < 365 + (if is_leap(year) {
            1int
        } else {
            0int
        }),
{
    reveal_with_fuel(days_before_month, 13);
}

/// A month ends before a later one of the same year begins.
proof fn lemma_months_apart(year: int, a: int, b: int)
    requires
        1 <= a < b,
    ensures
        days_before_month(year, a) + days_in_month(year, a) <= days_before_month(year, b),
    decreases b - a,
{
    if a + 1 < b {
        lemma_months_apart(year, a, b - 1);
    }
}

/// Every day has one date: of two days, the later one has the later date, and
/// the same day number never belongs to two dates.
pub proof fn a_day_has_one_date(y1: int, m1: int, d1: int, y2: int, m2: int, d2: int)
    requires
        is_date(y1, m1, d1),
        is_date(y2, m2, d2),
        day_number(y1, m1, d1) == day_number(y2, m2, d2),
    ensures
        y1 == y2 && m1 == m2 && d1 == d2,
{
    lemma_day_of_year(y1, m1, d1);
    lemma_day_of_year(y2, m2, d2);
    if y1 < y2 {
        lemma_years_apart(y1, y2);
    } else if y2 < y1 {
        lemma_years_apart(y2, y1);
    } else if m1 < m2 {
        lemma_months_apart(y1, m1, m2);
    } else if m2 < m1 {
        lemma_months_apart(y1, m2, m1);
    }
}

/// A year ends before a later one begins.
proof fn lemma_years_apart(a: int, b: int)
    requires
        a < b,
    ensures
        365 * (a - 1) + leap_days(a - 1) + 365 + (if is_leap(a) {
            1int
        } else {
            0int
        }) <= 365 * (b - 1) + leap_days(b - 1),
    decreases b - a,
{
    lemma_leap_step(a);
    if a + 1 < b {
        lemma_years_apart(a + 1, b);
    }
}

/// The tag of some bytes, mixed in as FNV-1a does it in 64 bits, but with a
/// multiplier that is not that algorithm's prime.
pub open spec fn mixed_in(data: Seq<u8>) -> u64
    decreases data.len(),
{
    if data.len() == 0 {
        0xcbf2_9ce4_8422_2325
    } else {
        (((mixed_in(data.drop_last()) ^ (data.last() as u64)) * 0x1000_0000_01b3)
            % 0x1_0000_0000_0000_0000) as u64
    }
}

/// A short, stable tag for a secret, so the same key or token can be recognised
/// across lines without any of it being written down.
///
/// Not a security primitive, and does not need to be. It exists so a log line
/// can say "the same key as before" and nothing more.
pub fn fingerprint(bytes: &[u8]) -> (r: String)
    ensures
        r@ == padded(text::hex((mixed_in(bytes@) % 0x1_0000_0000) as nat), 8),
        r@.len() == 8,
{
    let mut hash: u64 = 0xcbf2_9ce4_8422_2325;
    let mut at: usize = 0;
    assert(bytes@.take(0) =~= Seq::<u8>::empty());
    while at < bytes.len()
        invariant
            at <= bytes@.len(),
            hash == mixed_in(bytes@.take(at as int)),
        decreases bytes@.len() - at,
    {
        assert(bytes@.take(at + 1).drop_last() =~= bytes@.take(at as int));
        let mixed: u64 = hash ^ (bytes[at] as u64);
        let product: u128 = mixed as u128 * 0x1000_0000_01b3;
        hash = (product % 0x1_0000_0000_0000_0000) as u64;
        at = at + 1;
    }
    assert(bytes@.take(at as int) =~= bytes@);
    let tag: u64 = hash % 0x1_0000_0000;
    proof {
        lemma_hex_length(tag as nat, 8);
        lemma_padded_length(text::hex(tag as nat), 8);
    }
    text::string(pad(text::hex_chars(tag), 8).as_slice())
}

spec fn sixteen_to(n: nat) -> nat
    decreases n,
{
    if n == 0 {
        1
    } else {
        16 * sixteen_to((n - 1) as nat)
    }
}

proof fn lemma_hex_length(value: nat, width: nat)
    requires
        width == 8,
        value < 0x1_0000_0000,
    ensures
        text::hex(value).len() <= width,
{
    reveal_with_fuel(sixteen_to, 9);
    lemma_hex_digits(value, 8);
}

proof fn lemma_hex_digits(value: nat, width: nat)
    requires
        width >= 1,
        value < sixteen_to(width),
    ensures
        text::hex(value).len() <= width,
    decreases width,
{
    if value >= 16 {
        assert(width > 1) by {
            if width == 1 {
                reveal_with_fuel(sixteen_to, 2);
            }
        }
        assert(value / 16 < sixteen_to((width - 1) as nat));
        lemma_hex_digits(value / 16, (width - 1) as nat);
    }
}

proof fn lemma_padded_length(digits: Seq<char>, width: nat)
    requires
        digits.len() <= width,
    ensures
        padded(digits, width).len() == width,
    decreases width - digits.len(),
{
    if digits.len() < width {
        lemma_padded_length(seq!['0'] + digits, width);
    }
}

/// A level is known by its name, in capitals or not, with white space round it or
/// not.
pub proof fn a_level_is_known_by_its_name(level: Level, value: Seq<char>)
    requires
        value.len() > 0,
        !text::is_space(value[0]),
        !text::is_space(value.last()),
    ensures
        level_named(level.word()) == Some(level),
        level_named(text::lower(level.word())) == Some(level),
        level_named(seq![' '] + value) == level_named(value),
        level_named(value + seq!['\n']) == level_named(value),
{
    reveal_strlit("ERROR");
    reveal_strlit("WARN");
    reveal_strlit("INFO");
    reveal_strlit("DEBUG");
    reveal_strlit("error");
    reveal_strlit("warn");
    reveal_strlit("warning");
    reveal_strlit("info");
    reveal_strlit("debug");
    reveal_strlit("trace");
    let word = level.word();
    let small = text::lower(word);
    text::lemma_trimmed_as_it_is(word);
    text::lemma_trimmed_as_it_is(small);
    assert(text::lower(small) =~= small);
    assert(text::lower("ERROR"@) =~= "error"@);
    assert(text::lower("WARN"@) =~= "warn"@);
    assert(text::lower("INFO"@) =~= "info"@);
    assert(text::lower("DEBUG"@) =~= "debug"@);
    let before = seq![' '] + value;
    assert(before.skip(1) =~= value);
    assert(text::trimmed_start(before) == text::trimmed_start(value));
    let behind = value + seq!['\n'];
    assert(behind[0] == value[0]);
    assert(text::trimmed_start(behind) == behind);
    assert(behind.last() == '\n');
    assert(behind.drop_last() =~= value);
    assert(text::trimmed_end(behind) == text::trimmed_end(value));
    text::lemma_trimmed_as_it_is(value);
}

/// What is pending once a message came `n` times more.
pub open spec fn after_repeats(
    repeat: Option<RepeatModel>,
    level: Level,
    message: Seq<char>,
    now: u64,
    n: nat,
) -> RepeatModel
    decreases n,
{
    if n == 0 {
        after_message(repeat, level, message, now)
    } else {
        after_message(
            Some(after_repeats(repeat, level, message, now, (n - 1) as nat)),
            level,
            message,
            now,
        )
    }
}

/// No message is lost: one that comes again and again within half a minute is
/// written once, and how often it came again is written before the next other
/// message.
pub proof fn repeats_are_counted_not_lost(
    repeat: Option<RepeatModel>,
    level: Level,
    message: Seq<char>,
    now: u64,
    n: nat,
    other: Seq<char>,
    later: u64,
)
    requires
        !is_held(repeat, level, message, now),
        n < u64::MAX,
        other != message,
    ensures
        ({
            let pending = after_repeats(repeat, level, message, now, n);
            &&& pending.count == n
            &&& pending.since == now
            &&& pending.level == level && pending.message == message
            &&& emitted(Some(pending), level, message, now).len() == 0
            &&& emitted(Some(pending), level, other, later) == if n > 0 {
                seq![
                    (level, message + " (repeated "@ + text::decimal(n) + " times)"@),
                    (level, other),
                ]
            } else {
                seq![(level, other)]
            }
            &&& now + 30_000_000_000 <= later ==> emitted(Some(pending), level, message, later)
                == seq![
                (level, message + " (repeated "@ + text::decimal(n + 1) + " times)"@),
            ]
            &&& now <= later < now + 30_000_000_000 ==> emitted(
                Some(pending),
                level,
                message,
                later,
            ).len() == 0
        }),
    decreases n,
{
    if n > 0 {
        repeats_are_counted_not_lost(repeat, level, message, now, (n - 1) as nat, other, later);
    }
    let pending = after_repeats(repeat, level, message, now, n);
    assert(emitted(Some(pending), level, other, later) =~= if n > 0 {
        seq![
            (level, message + " (repeated "@ + text::decimal(n) + " times)"@),
            (level, other),
        ]
    } else {
        seq![(level, other)]
    });
}

/// Days are numbered from the first of January 1970 on, without a gap: through
/// each month, from month to month and from year to year.
pub proof fn days_are_numbered_without_a_gap(year: int, month: int, day: int)
    requires
        is_date(year, month, day),
        year >= 1,
    ensures
        day_number(1970, 1, 1) == 0,
        is_date(year, month, day + 1) ==> day_number(year, month, day + 1) == day_number(
            year,
            month,
            day,
        ) + 1,
        !is_date(year, month, day + 1) && month < 12 ==> is_date(year, month + 1, 1)
            && day_number(year, month + 1, 1) == day_number(year, month, day) + 1,
        !is_date(year, month, day + 1) && month == 12 ==> day_number(year + 1, 1, 1) == day_number(
            year,
            month,
            day,
        ) + 1,
        is_date(year, 2, 29) <==> (year % 4 == 0 && year % 100 != 0) || year % 400 == 0,
        !is_date(year, 2, 30) && !is_date(year, 4, 31) && !is_date(year, 6, 31),
        !is_date(year, 9, 31) && !is_date(year, 11, 31) && is_date(year, 1, 31),
        is_date(year, 3, 31) && is_date(year, 5, 31) && is_date(year, 7, 31),
        is_date(year, 8, 31) && is_date(year, 10, 31) && is_date(year, 12, 31),
        is_date(year, 4, 30) && is_date(year, 6, 30) && is_date(year, 9, 30),
        is_date(year, 11, 30) && is_date(year, 2, 28) && !is_date(year, 13, 1),
{
    reveal_with_fuel(days_before_month, 13);
    let n = year - 1;
    assert(year / 4 - n / 4 == if year % 4 == 0 {
        1int
    } else {
        0int
    });
    assert(year / 100 - n / 100 == if year % 100 == 0 {
        1int
    } else {
        0int
    });
    assert(year / 400 - n / 400 == if year % 400 == 0 {
        1int
    } else {
        0int
    });
    assert(year % 400 == 0 ==> year % 100 == 0);
    assert(year % 100 == 0 ==> year % 4 == 0);
}

proof fn lemma_padded(digits: Seq<char>, width: nat)
    requires
        text::all_digits(digits),
        0 < digits.len() <= width,
    ensures
        padded(digits, width).len() == width,
        text::all_digits(padded(digits, width)),
        text::number(padded(digits, width)) == text::number(digits),
    decreases width - digits.len(),
{
    if digits.len() < width {
        let more = seq!['0'] + digits;
        lemma_leading_zero(digits);
        assert forall|i: int| 0 <= i < more.len() implies text::is_digit(#[trigger] more[i]) by {
            if i > 0 {
                assert(more[i] == digits[i - 1]);
            }
        }
        lemma_padded(more, width);
    }
}

proof fn lemma_leading_zero(digits: Seq<char>)
    requires
        text::all_digits(digits),
    ensures
        text::number(seq!['0'] + digits) == text::number(digits),
    decreases digits.len(),
{
    let more = seq!['0'] + digits;
    if digits.len() == 0 {
        assert(more.drop_last() =~= Seq::<char>::empty());
        assert(text::number(more.drop_last()) == 0);
        assert(more.last() == '0');
    } else {
        assert(more.drop_last() =~= seq!['0'] + digits.drop_last());
        assert(more.last() == digits.last());
        assert forall|i: int| 0 <= i < digits.drop_last().len() implies text::is_digit(
            #[trigger] digits.drop_last()[i],
        ) by {
            assert(digits.drop_last()[i] == digits[i]);
        }
        lemma_leading_zero(digits.drop_last());
    }
}

proof fn lemma_two_digits(n: nat)
    requires
        n < 100,
    ensures
        padded(text::decimal(n), 2).len() == 2,
        text::number(padded(text::decimal(n), 2)) == n,
{
    reveal_with_fuel(text::decimal, 3);
    text::lemma_decimal_reads_back(n);
    lemma_padded(text::decimal(n), 2);
}

/// A moment is written with its date, its time of day and its milliseconds, each
/// in its place and to its width.
pub proof fn a_timestamp_is_laid_out(year: int, month: int, day: int, seconds: u64, millis: u32)
    requires
        0 <= year <= 9999,
        1 <= month <= 12,
        1 <= day <= 31,
        millis < 1000,
    ensures
        ({
            let s = timestamp_text(year, month, day, seconds, millis);
            let of_day = seconds % 86_400;
            &&& s.len() == 24
            &&& s[4] == '-' && s[7] == '-' && s[10] == 'T' && s[13] == ':' && s[16] == ':'
            &&& s[19] == '.' && s[23] == 'Z'
            &&& text::number(s.subrange(0, 4)) == year
            &&& text::number(s.subrange(5, 7)) == month
            &&& text::number(s.subrange(8, 10)) == day
            &&& text::number(s.subrange(11, 13)) * 3600 + text::number(s.subrange(14, 16)) * 60
                + text::number(s.subrange(17, 19)) == of_day
            &&& text::number(s.subrange(14, 16)) < 60
            &&& text::number(s.subrange(17, 19)) < 60
            &&& text::number(s.subrange(20, 23)) == millis
        }),
{
    let of_day = seconds % 86_400;
    let y = padded(text::decimal(year as nat), 4);
    let m = padded(text::decimal(month as nat), 2);
    let d = padded(text::decimal(day as nat), 2);
    let h = padded(text::decimal((of_day / 3600) as nat), 2);
    let min = padded(text::decimal((of_day % 3600 / 60) as nat), 2);
    let sec = padded(text::decimal((of_day % 60) as nat), 2);
    let ms = padded(text::decimal(millis as nat), 3);
    lemma_time_of_day(of_day as nat);
    lemma_four_digits(year as nat);
    lemma_two_digits(month as nat);
    lemma_two_digits(day as nat);
    lemma_two_digits((of_day / 3600) as nat);
    lemma_two_digits((of_day % 3600 / 60) as nat);
    lemma_two_digits((of_day % 60) as nat);
    lemma_three_digits(millis as nat);
    lemma_timestamp_parts(y, m, d, h, min, sec, ms);
}

proof fn lemma_time_of_day(n: nat)
    requires
        n < 86_400,
    ensures
        n / 3600 < 24,
        n % 3600 / 60 < 60,
        n / 3600 * 3600 + n % 3600 / 60 * 60 + n % 60 == n,
{
    assert(n % 3600 % 60 == n % 60);
}

proof fn lemma_four_digits(n: nat)
    requires
        n <= 9999,
    ensures
        padded(text::decimal(n), 4).len() == 4,
        text::number(padded(text::decimal(n), 4)) == n,
{
    reveal_with_fuel(text::decimal, 5);
    text::lemma_decimal_reads_back(n);
    lemma_padded(text::decimal(n), 4);
}

proof fn lemma_three_digits(n: nat)
    requires
        n <= 999,
    ensures
        padded(text::decimal(n), 3).len() == 3,
        text::number(padded(text::decimal(n), 3)) == n,
{
    reveal_with_fuel(text::decimal, 4);
    text::lemma_decimal_reads_back(n);
    lemma_padded(text::decimal(n), 3);
}

proof fn lemma_timestamp_parts(
    y: Seq<char>,
    m: Seq<char>,
    d: Seq<char>,
    h: Seq<char>,
    min: Seq<char>,
    sec: Seq<char>,
    ms: Seq<char>,
)
    requires
        y.len() == 4,
        m.len() == 2,
        d.len() == 2,
        h.len() == 2,
        min.len() == 2,
        sec.len() == 2,
        ms.len() == 3,
    ensures
        ({
            let s = y + "-"@ + m + "-"@ + d + "T"@ + h + ":"@ + min + ":"@ + sec + "."@ + ms
                + "Z"@;
            &&& s.len() == 24
            &&& s[4] == '-' && s[7] == '-' && s[10] == 'T' && s[13] == ':' && s[16] == ':'
            &&& s[19] == '.' && s[23] == 'Z'
            &&& s.subrange(0, 4) == y
            &&& s.subrange(5, 7) == m
            &&& s.subrange(8, 10) == d
            &&& s.subrange(11, 13) == h
            &&& s.subrange(14, 16) == min
            &&& s.subrange(17, 19) == sec
            &&& s.subrange(20, 23) == ms
        }),
{
    reveal_strlit("-");
    reveal_strlit("T");
    reveal_strlit(":");
    reveal_strlit(".");
    reveal_strlit("Z");
    let s = y + "-"@ + m + "-"@ + d + "T"@ + h + ":"@ + min + ":"@ + sec + "."@ + ms + "Z"@;
    assert(s.subrange(0, 4) =~= y);
    assert(s.subrange(5, 7) =~= m);
    assert(s.subrange(8, 10) =~= d);
    assert(s.subrange(11, 13) =~= h);
    assert(s.subrange(14, 16) =~= min);
    assert(s.subrange(17, 19) =~= sec);
    assert(s.subrange(20, 23) =~= ms);
}

/// A file is begun anew with the line that would take it past four mebibytes.
pub proof fn a_full_file_is_begun_anew(written: u64, line: usize)
    ensures
        written + line <= 4_194_304 ==> size_after(written, line) == written + line,
        written + line > 4_194_304 ==> size_after(written, line) == line,
{
}

/// The levels take the same width, so that what follows them is in line.
pub proof fn the_columns_are_in_line(
    timestamp: Seq<char>,
    a: Level,
    b: Level,
    component: Seq<char>,
    message: Seq<char>,
)
    ensures
        full_line(timestamp, a, component, message).len() == full_line(
            timestamp,
            b,
            component,
            message,
        ).len(),
        full_line(timestamp, a, component, message).len() == timestamp.len() + component.len()
            + message.len() + 9,
        full_line(timestamp, a, component, message).last() == '\n',
{
    reveal_strlit("ERROR");
    reveal_strlit("WARN");
    reveal_strlit("INFO");
    reveal_strlit("DEBUG");
    reveal_strlit(" ");
    reveal_strlit("");
    reveal_strlit("\n");
    assert("ERROR"@.len() == 5 && "WARN"@.len() == 4 && "INFO"@.len() == 4 && "DEBUG"@.len() == 5);
    assert(" "@.len() == 1 && ""@.len() == 0 && "\n"@.len() == 1);
}

/// A level is written where the filter is at least as talkative: an error always,
/// a debugging line only where everything is.
pub proof fn a_filter_lets_the_worse_levels_through(level: Level, filter: Level)
    ensures
        Level::Error.place() <= filter.place(),
        level.place() <= Level::Debug.place(),
        level is Warn ==> (level.place() <= filter.place() <==> !(filter is Error)),
        level is Info ==> (level.place() <= filter.place() <==> filter is Info || filter is Debug),
        level is Debug ==> (level.place() <= filter.place() <==> filter is Debug),
{
}

/// The tag of some bytes is made byte by byte, from a fixed start on.
pub proof fn a_tag_is_made_byte_by_byte(data: Seq<u8>, b: u8)
    ensures
        mixed_in(Seq::<u8>::empty()) == 0xcbf2_9ce4_8422_2325,
        mixed_in(data.push(b)) as int == ((mixed_in(data) ^ (b as u64)) * 0x1000_0000_01b3)
            % 0x1_0000_0000_0000_0000,
{
    assert(data.push(b).drop_last() =~= data);
}

} // verus!
