//! Structured log lines and runtime counters.
use vstd::prelude::*;

use crate::text::{cat5, decimal, lower, same_text, to_lower, u64_text};

verus! {

/// Severity levels, least severe first: a configured minimum filters
/// everything below it.
#[derive(Debug, Clone, Copy, PartialEq, Eq, PartialOrd, Ord, Structural)]
pub enum LogLevel {
    Debug,
    Info,
    Warn,
    Error,
}

/// How severe a level is.
pub open spec fn severity(level: LogLevel) -> int {
    match level {
        LogLevel::Debug => 0,
        LogLevel::Info => 1,
        LogLevel::Warn => 2,
        LogLevel::Error => 3,
    }
}

/// The level's name in a log line.
pub open spec fn level_label(level: LogLevel) -> Seq<char> {
    match level {
        LogLevel::Debug => "DEBUG"@,
        LogLevel::Info => "INFO"@,
        LogLevel::Warn => "WARN"@,
        LogLevel::Error => "ERROR"@,
    }
}

/// The level with a given name, whatever its case.
pub open spec fn level_named(name: Seq<char>) -> Option<LogLevel> {
    let s = lower(name);
    if s == "debug"@ {
        Some(LogLevel::Debug)
    } else if s == "info"@ {
        Some(LogLevel::Info)
    } else if s == "warn"@ || s == "warning"@ {
        Some(LogLevel::Warn)
    } else if s == "error"@ {
        Some(LogLevel::Error)
    } else {
        None
    }
}

impl LogLevel {
    fn label(self) -> (r: &'static str)
        ensures
            r@ == level_label(self),
    {
        match self {
            LogLevel::Debug => "DEBUG",
            LogLevel::Info => "INFO",
            LogLevel::Warn => "WARN",
            LogLevel::Error => "ERROR",
        }
    }

    fn rank(self) -> (r: u8)
        ensures
            r == severity(self),
    {
        match self {
            LogLevel::Debug => 0,
            LogLevel::Info => 1,
            LogLevel::Warn => 2,
            LogLevel::Error => 3,
        }
    }

    /// Parse a level name (case-insensitive); unknown names yield `None`.
    pub fn from_name(name: &str) -> (r: Option<Self>)
        ensures
            r == level_named(name@),
    {
        let low = to_lower(name);
        if same_text(low.as_str(), "debug") {
            Some(LogLevel::Debug)
        } else if same_text(low.as_str(), "info") {
            Some(LogLevel::Info)
        } else if same_text(low.as_str(), "warn") || same_text(low.as_str(), "warning") {
            Some(LogLevel::Warn)
        } else if same_text(low.as_str(), "error") {
            Some(LogLevel::Error)
        } else {
            None
        }
    }
}

/// Log fields, seen mathematically.
pub open spec fn field_views(fields: Seq<(&str, &str)>) -> Seq<(Seq<char>, Seq<char>)> {
    Seq::new(fields.len(), |i: int| (fields[i].0@, fields[i].1@))
}

/// Fields in a log line: each a space, its name, `=` and its value.
pub open spec fn fields_text(fields: Seq<(Seq<char>, Seq<char>)>) -> Seq<char>
    decreases fields.len(),
{
    if fields.len() == 0 {
        Seq::empty()
    } else {
        fields_text(fields.drop_last()) + (" "@ + fields.last().0 + "="@ + fields.last().1)
    }
}

/// A structured log line: the time, the level, the event and its fields.
pub open spec fn line_text(
    unix_secs: nat,
    level: LogLevel,
    event: Seq<char>,
    fields: Seq<(Seq<char>, Seq<char>)>,
) -> Seq<char> {
    decimal(unix_secs) + " "@ + level_label(level) + " "@ + event + fields_text(fields)
}

/// Format one structured log line: `<unix_secs> <LEVEL> <event> k=v k=v`.
pub fn format_line(unix_secs: u64, level: LogLevel, event: &str, fields: &[(&str, &str)]) -> (r:
    String)
    ensures
        r@ == line_text(unix_secs as nat, level, event@, field_views(fields@)),
{
    let ghost all = field_views(fields@);
    let mut line = cat5(u64_text(unix_secs).as_str(), " ", level.label(), " ", event);
    let ghost head = line@;
    let mut i: usize = 0;
    proof {
        assert(all.take(0) =~= Seq::empty());
        assert(head + fields_text(all.take(0)) =~= head);
    }
    while i < fields.len()
        invariant
            i <= fields@.len(),
            all == field_views(fields@),
            line@ == head + fields_text(all.take(i as int)),
        decreases fields@.len() - i,
    {
        let (key, value) = fields[i];
        line = cat5(line.as_str(), " ", key, "=", value);
        proof {
            let before = all.take(i as int);
            assert(all.take(i + 1).drop_last() =~= before);
            assert(all.take(i + 1).last() == (key@, value@));
            assert(line@ =~= head + fields_text(all.take(i + 1)));
        }
        i = i + 1;
    }
    proof {
        assert(all.take(fields@.len() as int) =~= all);
    }
    line
}

/// A minimal structured logger, immutable after construction.
#[derive(Debug)]
pub struct Logger {
    pub min_level: LogLevel,
}

impl Logger {
    pub fn new(min_level: LogLevel) -> (r: Self)
        ensures
            r.min_level == min_level,
    {
        Logger { min_level }
    }

    /// Whether an event of this level is logged.
    pub fn enabled(&self, level: LogLevel) -> (r: bool)
        ensures
            r == (severity(level) >= severity(self.min_level)),
    {
        level.rank() >= self.min_level.rank()
    }

    /// The line that is logged for an event at a given time, if it is logged.
    pub fn line(&self, unix_secs: u64, level: LogLevel, event: &str, fields: &[(&str, &str)]) -> (r:
        Option<String>)
        ensures
            match r {
                Some(s) => severity(level) >= severity(self.min_level) && s@ == line_text(
                    unix_secs as nat,
                    level,
                    event@,
                    field_views(fields@),
                ),
                None => severity(level) < severity(self.min_level),
            },
    {
        if self.enabled(level) {
            Some(format_line(unix_secs, level, event, fields))
        } else {
            None
        }
    }
}

/// Server-wide counters. They wrap at the end of their range.
#[derive(Debug, Default)]
pub struct Metrics {
    connections_total: u64,
    connections_active: u64,
    queries_total: u64,
    errors_total: u64,
}

/// An immutable point-in-time reading of [`Metrics`].
#[derive(Debug, Clone, Copy, PartialEq, Eq, Structural)]
pub struct MetricsSnapshot {
    pub connections_total: u64,
    pub connections_active: u64,
    pub queries_total: u64,
    pub errors_total: u64,
}

impl View for Metrics {
    type V = MetricsSnapshot;

    closed spec fn view(&self) -> MetricsSnapshot {
        MetricsSnapshot {
            connections_total: self.connections_total,
            connections_active: self.connections_active,
            queries_total: self.queries_total,
            errors_total: self.errors_total,
        }
    }
}

/// One more, wrapping at the end of the range.
pub open spec fn one_more(n: u64) -> u64 {
    if n == u64::MAX {
        0
    } else {
        (n + 1) as u64
    }
}

impl Metrics {
    pub fn new() -> (r: Self)
        ensures
            r@ == (MetricsSnapshot {
                connections_total: 0,
                connections_active: 0,
                queries_total: 0,
                errors_total: 0,
            }),
    {
        Metrics { connections_total: 0, connections_active: 0, queries_total: 0, errors_total: 0 }
    }

    /// A new connection was accepted.
    pub fn connection_opened(&mut self)
        ensures
            final(self)@ == (MetricsSnapshot {
                connections_total: one_more(old(self)@.connections_total),
                connections_active: one_more(old(self)@.connections_active),
                ..old(self)@
            }),
    {
        self.connections_total = self.connections_total.wrapping_add(1);
        self.connections_active = self.connections_active.wrapping_add(1);
    }

    /// A connection finished. Closing more than were open leaves none open.
    pub fn connection_closed(&mut self)
        ensures
            final(self)@ == (MetricsSnapshot {
                connections_active: if old(self)@.connections_active == 0 {
                    0
                } else {
                    (old(self)@.connections_active - 1) as u64
                },
                ..old(self)@
            }),
    {
        if self.connections_active > 0 {
            self.connections_active = self.connections_active - 1;
        }
    }

    /// A query (text or prepared) executed successfully.
    pub fn query_executed(&mut self)
        ensures
            final(self)@ == (MetricsSnapshot {
                queries_total: one_more(old(self)@.queries_total),
                ..old(self)@
            }),
    {
        self.queries_total = self.queries_total.wrapping_add(1);
    }

    /// A query or connection error occurred.
    pub fn error(&mut self)
        ensures
            final(self)@ == (MetricsSnapshot {
                errors_total: one_more(old(self)@.errors_total),
                ..old(self)@
            }),
    {
        self.errors_total = self.errors_total.wrapping_add(1);
    }

    pub fn snapshot(&self) -> (r: MetricsSnapshot)
        ensures
            r == self@,
    {
        MetricsSnapshot {
            connections_total: self.connections_total,
            connections_active: self.connections_active,
            queries_total: self.queries_total,
            errors_total: self.errors_total,
        }
    }
}

/// The logger and metrics bundled together.
#[derive(Debug)]
pub struct Observability {
    pub logger: Logger,
    pub metrics: Metrics,
}

impl Observability {
    pub fn new(min_level: LogLevel) -> (r: Self)
        ensures
            r.logger.min_level == min_level,
            r.metrics@ == (MetricsSnapshot {
                connections_total: 0,
                connections_active: 0,
                queries_total: 0,
                errors_total: 0,
            }),
    {
        Observability { logger: Logger::new(min_level), metrics: Metrics::new() }
    }
}

/// Every level is found under its own name, whatever the case, and `warning`
/// is another name for `WARN`. Debugging is least severe, then information,
/// warnings and errors.
pub proof fn law_levels_are_found_by_name(level: LogLevel, name: Seq<char>)
    ensures
        lower(name) == lower(level_label(level)) ==> level_named(name) == Some(level),
        lower(name) == seq!['w', 'a', 'r', 'n', 'i', 'n', 'g'] ==> level_named(name) == Some(
            LogLevel::Warn,
        ),
        level_named(name) == Some(level) ==> lower(name) == lower(level_label(level)) || level
            == LogLevel::Warn,
        severity(LogLevel::Debug) < severity(LogLevel::Info),
        severity(LogLevel::Info) < severity(LogLevel::Warn),
        severity(LogLevel::Warn) < severity(LogLevel::Error),
        level_label(LogLevel::Debug) == seq!['D', 'E', 'B', 'U', 'G'],
        level_label(LogLevel::Info) == seq!['I', 'N', 'F', 'O'],
        level_label(LogLevel::Warn) == seq!['W', 'A', 'R', 'N'],
        level_label(LogLevel::Error) == seq!['E', 'R', 'R', 'O', 'R'],
{
    reveal_strlit("DEBUG");
    reveal_strlit("INFO");
    reveal_strlit("WARN");
    reveal_strlit("ERROR");
    reveal_strlit("debug");
    reveal_strlit("info");
    reveal_strlit("warn");
    reveal_strlit("warning");
    reveal_strlit("error");
    assert("DEBUG"@ =~= seq!['D', 'E', 'B', 'U', 'G']);
    assert("INFO"@ =~= seq!['I', 'N', 'F', 'O']);
    assert("WARN"@ =~= seq!['W', 'A', 'R', 'N']);
    assert("ERROR"@ =~= seq!['E', 'R', 'R', 'O', 'R']);
    assert(lower("DEBUG"@) =~= "debug"@);
    assert(lower("INFO"@) =~= "info"@);
    assert(lower("WARN"@) =~= "warn"@);
    assert(lower("ERROR"@) =~= "error"@);
    assert("warning"@ =~= seq!['w', 'a', 'r', 'n', 'i', 'n', 'g']);
    assert("debug"@[0] == 'd' && "info"@[0] == 'i' && "warn"@[0] == 'w' && "warning"@[0] == 'w'
        && "error"@[0] == 'e');
}

/// A log line is the numeral of its time, its level and its event with blanks
/// between them, and then for each field a blank, the field's name, a `=` and
/// its value.
pub proof fn law_lines_are_built_field_by_field(
    unix_secs: nat,
    level: LogLevel,
    event: Seq<char>,
    fields: Seq<(Seq<char>, Seq<char>)>,
    name: Seq<char>,
    value: Seq<char>,
)
    ensures
        line_text(unix_secs, level, event, Seq::empty()) == decimal(unix_secs) + seq![' ']
            + level_label(level) + seq![' '] + event,
        line_text(unix_secs, level, event, fields.push((name, value))) == line_text(
            unix_secs,
            level,
            event,
            fields,
        ) + seq![' '] + name + seq!['='] + value,
{
    reveal_strlit(" ");
    reveal_strlit("=");
    assert(" "@ =~= seq![' ']);
    assert("="@ =~= seq!['=']);
    let none = Seq::<(Seq<char>, Seq<char>)>::empty();
    assert(line_text(unix_secs, level, event, none) =~= decimal(unix_secs) + seq![' ']
        + level_label(level) + seq![' '] + event);
    let more = fields.push((name, value));
    assert(more.drop_last() =~= fields);
    assert(line_text(unix_secs, level, event, more) =~= line_text(unix_secs, level, event, fields)
        + seq![' '] + name + seq!['='] + value);
}

} // verus!
