//! What the server counts and logs as clients come and go.
use vstd::prelude::*;

use crate::error::{Error, ErrorV};
use crate::observability::{
    field_views, line_text, one_more, severity, LogLevel, Logger, MetricsSnapshot, Observability,
};
use crate::query::executor::QueryResult;
use crate::server::admission::{admitted, Admission};
use crate::text::{cat2, chars_of, decimal, text_of, u64_text};

verus! {

/// How many seconds the clients inside may take to finish once shutdown has
/// begun.
pub const DRAIN_SECS: u64 = 10;

/// How many characters of a query are logged.
pub const MAX_LOGGED_SQL: usize = 500;

/// Something to log.
#[derive(Debug)]
pub struct Event {
    pub level: LogLevel,
    pub name: &'static str,
    pub fields: Vec<(&'static str, String)>,
}

/// The content of an [`Event`].
pub ghost struct EventV {
    pub level: LogLevel,
    pub name: Seq<char>,
    pub fields: Seq<(Seq<char>, Seq<char>)>,
}

impl View for Event {
    type V = EventV;

    open spec fn view(&self) -> EventV {
        EventV {
            level: self.level,
            name: self.name@,
            fields: Seq::new(
                self.fields@.len(),
                |i: int| (self.fields@[i].0@, self.fields@[i].1@),
            ),
        }
    }
}

impl Event {
    /// An event without fields yet.
    fn new(level: LogLevel, name: &'static str) -> (r: Self)
        ensures
            r@ == (EventV { level, name: name@, fields: Seq::empty() }),
    {
        let r = Event { level, name, fields: Vec::new() };
        proof {
            assert(r@.fields =~= Seq::empty());
        }
        r
    }

    fn with(self, key: &'static str, value: String) -> (r: Self)
        ensures
            r@ == (EventV { fields: self@.fields.push((key@, value@)), ..self@ }),
    {
        let mut fields = self.fields;
        fields.push((key, value));
        let r = Event { level: self.level, name: self.name, fields };
        proof {
            assert(r@.fields =~= self@.fields.push((key@, value@)));
        }
        r
    }

    /// The line that is logged for this event at a given time, if it is logged.
    pub fn line(&self, logger: &Logger, unix_secs: u64) -> (r: Option<String>)
        ensures
            match r {
                Some(s) => severity(self.level) >= severity(logger.min_level) && s@ == line_text(
                    unix_secs as nat,
                    self.level,
                    self.name@,
                    self@.fields,
                ),
                None => severity(self.level) < severity(logger.min_level),
            },
    {
        let mut fields: Vec<(&str, &str)> = Vec::new();
        let mut i: usize = 0;
        while i < self.fields.len()
            invariant
                i <= self.fields@.len(),
                fields@.len() == i,
                forall|k: int|
                    0 <= k < i ==> (#[trigger] fields@[k]).0@ == self.fields@[k].0@ && fields@[k].1@
                        == self.fields@[k].1@,
            decreases self.fields@.len() - i,
        {
            fields.push((self.fields[i].0, self.fields[i].1.as_str()));
            i = i + 1;
        }
        proof {
            assert(field_views(fields@) =~= self@.fields);
        }
        logger.line(unix_secs, self.level, self.name, fields.as_slice())
    }
}

// ---------- events ----------

/// The server has started to listen.
pub open spec fn listening_event(addr: Seq<char>, version: Seq<char>) -> EventV {
    EventV {
        level: LogLevel::Info,
        name: "server_listening"@,
        fields: seq![("addr"@, addr), ("version"@, version)],
    }
}

pub fn listening(addr: &str, version: &str) -> (r: Event)
    ensures
        r@ == listening_event(addr@, version@),
{
    let r = Event::new(LogLevel::Info, "server_listening").with("addr", addr.to_string()).with(
        "version",
        version.to_string(),
    );
    proof {
        assert(r@.fields =~= listening_event(addr@, version@).fields);
    }
    r
}

/// Nothing is persisted, which an operator should know.
pub open spec fn volatile_event() -> EventV {
    EventV {
        level: LogLevel::Warn,
        name: "volatile_mode"@,
        fields: seq![
            (
                "hint"@,
                "running without persistence -- data will not survive a restart; set MYSQLRUST_DATA_DIR to persist it"@,
            ),
        ],
    }
}

pub fn volatile_mode() -> (r: Event)
    ensures
        r@ == volatile_event(),
{
    let r = Event::new(LogLevel::Warn, "volatile_mode").with(
        "hint",
        "running without persistence -- data will not survive a restart; set MYSQLRUST_DATA_DIR to persist it".to_string(),
    );
    proof {
        assert(r@.fields =~= volatile_event().fields);
    }
    r
}

/// A client was let in, or turned away.
pub open spec fn arrival_event(id: u32, peer: Seq<char>, let_in: bool) -> EventV {
    if let_in {
        EventV {
            level: LogLevel::Info,
            name: "connection_opened"@,
            fields: seq![("connection_id"@, decimal(id as nat)), ("peer"@, peer)],
        }
    } else {
        EventV {
            level: LogLevel::Warn,
            name: "connection_rejected"@,
            fields: seq![("reason"@, "too_many_connections"@), ("peer"@, peer)],
        }
    }
}

/// A client has left, in peace or for an error.
pub open spec fn departure_event(id: u32, failure: Option<ErrorV>) -> EventV {
    match failure {
        None => EventV {
            level: LogLevel::Info,
            name: "connection_closed"@,
            fields: seq![("connection_id"@, decimal(id as nat))],
        },
        Some(e) => EventV {
            level: LogLevel::Warn,
            name: "connection_error"@,
            fields: seq![("connection_id"@, decimal(id as nat)), ("error"@, e.text())],
        },
    }
}

/// A client could not be accepted.
pub open spec fn accept_error_event(error: Seq<char>) -> EventV {
    EventV { level: LogLevel::Warn, name: "accept_error"@, fields: seq![("error"@, error)] }
}

/// A query as it is logged: cut off after so many characters.
pub open spec fn logged_sql(sql: Seq<char>) -> Seq<char> {
    if sql.len() > MAX_LOGGED_SQL {
        sql.subrange(0, MAX_LOGGED_SQL as int) + "…"@
    } else {
        sql
    }
}

/// A query has failed. Its text is not known for a prepared statement.
pub open spec fn query_error_event(id: u32, error: ErrorV, sql: Option<Seq<char>>) -> EventV {
    let head = seq![("connection_id"@, decimal(id as nat)), ("error"@, error.text())];
    EventV {
        level: LogLevel::Debug,
        name: "query_error"@,
        fields: match sql {
            Some(s) => head.push(("sql"@, logged_sql(s))),
            None => head,
        },
    }
}

/// The server is about to stop.
pub open spec fn shutdown_event(active: nat) -> EventV {
    EventV {
        level: LogLevel::Info,
        name: "shutdown_started"@,
        fields: seq![("active_connections"@, decimal(active))],
    }
}

/// Some clients did not leave in time.
pub open spec fn drain_timeout_event(still_running: nat) -> EventV {
    EventV {
        level: LogLevel::Warn,
        name: "shutdown_drain_timeout"@,
        fields: seq![("still_running"@, decimal(still_running))],
    }
}

/// What to log once the wait for the clients inside is over: a warning if
/// some of them are `still_running`, and nothing if none are.
pub fn drained(still_running: usize) -> (r: Option<Event>)
    ensures
        match r {
            None => still_running == 0,
            Some(e) => still_running > 0 && e@ == drain_timeout_event(still_running as nat),
        },
{
    if still_running == 0 {
        return None;
    }
    let r = Event::new(LogLevel::Warn, "shutdown_drain_timeout").with(
        "still_running",
        u64_text(still_running as u64),
    );
    proof {
        assert(r@.fields =~= drain_timeout_event(still_running as nat).fields);
    }
    Some(r)
}

/// The server has stopped: what it has counted.
pub open spec fn stopped_event(counts: MetricsSnapshot) -> EventV {
    EventV {
        level: LogLevel::Info,
        name: "shutdown_complete"@,
        fields: seq![
            ("connections_total"@, decimal(counts.connections_total as nat)),
            ("queries_total"@, decimal(counts.queries_total as nat)),
            ("errors_total"@, decimal(counts.errors_total as nat)),
        ],
    }
}

/// A query as it is logged.
pub fn truncate_sql(sql: &str) -> (r: String)
    ensures
        r@ == logged_sql(sql@),
{
    let chars = chars_of(sql);
    if chars.len() > MAX_LOGGED_SQL {
        cat2(text_of(chars.as_slice(), 0, MAX_LOGGED_SQL).as_str(), "…")
    } else {
        sql.to_string()
    }
}

// ---------- coming and going ----------

/// The server's front desk: who is let in, and what is counted and logged.
#[derive(Debug)]
pub struct Lobby {
    pub admission: Admission,
    pub observability: Observability,
    /// Whether shutdown has begun. From then on nobody is let in.
    pub closing: bool,
}

impl Lobby {
    /// The counters.
    pub open spec fn counts(&self) -> MetricsSnapshot {
        self.observability.metrics@
    }

    /// The limit is kept, and the clients that are counted as active are the
    /// ones inside.
    pub open spec fn wf(&self) -> bool {
        &&& self.admission.wf()
        &&& self.counts().connections_active == self.admission.active
    }

    pub fn new(max_connections: usize, min_level: LogLevel) -> (r: Self)
        ensures
            r.wf(),
            !r.closing,
            r.admission == (Admission { max_connections, active: 0, next_connection_id: 1 }),
            r.observability.logger.min_level == min_level,
            r.counts() == (MetricsSnapshot {
                connections_total: 0,
                connections_active: 0,
                queries_total: 0,
                errors_total: 0,
            }),
    {
        Lobby {
            admission: Admission::new(max_connections),
            observability: Observability::new(min_level),
            closing: false,
        }
    }

    /// A client has arrived: its id, whether it is let in, and what to log.
    /// Once shutdown has begun, the client gets nothing and leaves no trace.
    pub fn arrive(&mut self, peer: &str) -> (r: Option<(u32, bool, Event)>)
        requires
            old(self).wf(),
            old(self).admission.active < usize::MAX,
        ensures
            final(self).wf(),
            r is None == old(self).closing,
            r is None ==> *final(self) == *old(self),
            r matches Some((id, let_in, event)) ==> {
                &&& id == old(self).admission.next_connection_id
                &&& let_in == admitted(
                    old(self).admission.max_connections as int,
                    old(self).admission.active as int,
                )
                &&& event@ == arrival_event(id, peer@, let_in)
                &&& final(self).admission == old(self).admission.after_arrival()
                &&& final(self).closing == old(self).closing
                &&& final(self).observability.logger == old(self).observability.logger
                &&& final(self).counts() == (if let_in {
                    MetricsSnapshot {
                        connections_total: one_more(old(self).counts().connections_total),
                        connections_active: (old(self).counts().connections_active + 1) as u64,
                        ..old(self).counts()
                    }
                } else {
                    MetricsSnapshot {
                        errors_total: one_more(old(self).counts().errors_total),
                        ..old(self).counts()
                    }
                })
            },
    {
        if self.closing {
            return None;
        }
        let _room: usize = self.admission.active;
        let (id, let_in) = self.admission.arrive();
        let event = if let_in {
            self.observability.metrics.connection_opened();
            Event::new(LogLevel::Info, "connection_opened").with(
                "connection_id",
                u64_text(id as u64),
            ).with("peer", peer.to_string())
        } else {
            self.observability.metrics.error();
            Event::new(LogLevel::Warn, "connection_rejected").with(
                "reason",
                "too_many_connections".to_string(),
            ).with("peer", peer.to_string())
        };
        proof {
            assert(event@.fields =~= arrival_event(id, peer@, let_in).fields);
        }
        Some((id, let_in, event))
    }

    /// A client that was let in has left: what to log.
    pub fn depart(&mut self, id: u32, outcome: &Result<(), Error>) -> (r: Event)
        requires
            old(self).wf(),
            old(self).admission.active > 0,
        ensures
            final(self).wf(),
            r@ == departure_event(
                id,
                match *outcome {
                    Ok(_) => None,
                    Err(e) => Some(e@),
                },
            ),
            final(self).closing == old(self).closing,
            final(self).admission == (Admission {
                active: (old(self).admission.active - 1) as usize,
                ..old(self).admission
            }),
            final(self).observability.logger == old(self).observability.logger,
            final(self).counts() == (MetricsSnapshot {
                connections_active: (old(self).counts().connections_active - 1) as u64,
                errors_total: if *outcome is Ok {
                    old(self).counts().errors_total
                } else {
                    one_more(old(self).counts().errors_total)
                },
                ..old(self).counts()
            }),
    {
        self.admission.leave();
        self.observability.metrics.connection_closed();
        let event = match outcome {
            Ok(_) => Event::new(LogLevel::Info, "connection_closed").with(
                "connection_id",
                u64_text(id as u64),
            ),
            Err(e) => {
                self.observability.metrics.error();
                Event::new(LogLevel::Warn, "connection_error").with(
                    "connection_id",
                    u64_text(id as u64),
                ).with("error", e.to_text())
            },
        };
        proof {
            assert(event@.fields =~= departure_event(
                id,
                match *outcome {
                    Ok(_) => None,
                    Err(e) => Some(e@),
                },
            ).fields);
        }
        event
    }

    /// A client could not be accepted: what to log.
    pub fn accept_failed(&mut self, error: &str) -> (r: Event)
        requires
            old(self).wf(),
        ensures
            final(self).wf(),
            r@ == accept_error_event(error@),
            final(self).closing == old(self).closing,
            final(self).admission == old(self).admission,
            final(self).observability.logger == old(self).observability.logger,
            final(self).counts() == (MetricsSnapshot {
                errors_total: one_more(old(self).counts().errors_total),
                ..old(self).counts()
            }),
    {
        self.observability.metrics.error();
        let event = Event::new(LogLevel::Warn, "accept_error").with("error", error.to_string());
        proof {
            assert(event@.fields =~= accept_error_event(error@).fields);
        }
        event
    }

    /// A statement has been run: what to log, if it failed.
    pub fn statement_done(
        &mut self,
        connection_id: u32,
        outcome: &Result<QueryResult, Error>,
        sql: Option<&str>,
    ) -> (r: Option<Event>)
        requires
            old(self).wf(),
        ensures
            final(self).wf(),
            final(self).closing == old(self).closing,
            final(self).admission == old(self).admission,
            final(self).observability.logger == old(self).observability.logger,
            match *outcome {
                Ok(_) => r is None && final(self).counts() == (MetricsSnapshot {
                    queries_total: one_more(old(self).counts().queries_total),
                    ..old(self).counts()
                }),
                Err(e) => final(self).counts() == (MetricsSnapshot {
                    errors_total: one_more(old(self).counts().errors_total),
                    ..old(self).counts()
                }) && (r matches Some(event) && event@ == query_error_event(
                    connection_id,
                    e@,
                    match sql {
                        Some(s) => Some(s@),
                        None => None,
                    },
                )),
            },
    {
        match outcome {
            Ok(_) => {
                self.observability.metrics.query_executed();
                None
            },
            Err(e) => {
                self.observability.metrics.error();
                let head = Event::new(LogLevel::Debug, "query_error").with(
                    "connection_id",
                    u64_text(connection_id as u64),
                ).with("error", e.to_text());
                let event = match sql {
                    Some(s) => head.with("sql", truncate_sql(s)),
                    None => head,
                };
                proof {
                    assert(event@.fields =~= query_error_event(
                        connection_id,
                        e@,
                        match sql {
                            Some(s) => Some(s@),
                            None => None,
                        },
                    ).fields);
                }
                Some(event)
            },
        }
    }

    /// The server is about to stop: from now on nobody is let in. What to log.
    pub fn shutdown_started(&mut self) -> (r: Event)
        ensures
            r@ == shutdown_event(old(self).counts().connections_active as nat),
            *final(self) == (Lobby { closing: true, ..*old(self) }),
    {
        self.closing = true;
        let active: u64 = self.observability.metrics.snapshot().connections_active;
        let event = Event::new(LogLevel::Info, "shutdown_started").with(
            "active_connections",
            u64_text(active),
        );
        proof {
            assert(event@.fields =~= shutdown_event(active as nat).fields);
        }
        event
    }

    /// The server has stopped: what to log.
    pub fn shutdown_complete(&self) -> (r: Event)
        ensures
            r@ == stopped_event(self.counts()),
    {
        let counts = self.observability.metrics.snapshot();
        let event = Event::new(LogLevel::Info, "shutdown_complete").with(
            "connections_total",
            u64_text(counts.connections_total),
        ).with("queries_total", u64_text(counts.queries_total)).with(
            "errors_total",
            u64_text(counts.errors_total),
        );
        proof {
            assert(event@.fields =~= stopped_event(counts).fields);
        }
        event
    }
}

} // verus!
