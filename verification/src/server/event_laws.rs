//! What an operator reads of what happened.
use vstd::prelude::*;

use crate::error::ErrorV;
use crate::numerals::{is_numeral_of, law_numbers_are_written_as_their_numerals};
use crate::observability::{LogLevel, MetricsSnapshot};
use crate::server::admission::Admission;
use crate::server::lifecycle::{
    accept_error_event, arrival_event, departure_event, drain_timeout_event, listening_event,
    logged_sql, query_error_event, shutdown_event, stopped_event, volatile_event, EventV,
};

verus! {

/// Whether an event says `value` under `name`.
pub open spec fn says(e: EventV, name: Seq<char>, value: Seq<char>) -> bool {
    e.fields.contains((name, value))
}

/// Whether an event says the number `n` under `name`.
pub open spec fn says_number(e: EventV, name: Seq<char>, n: int) -> bool {
    exists|t: Seq<char>| #[trigger] says(e, name, t) && is_numeral_of(t, n)
}

proof fn lemma_says(e: EventV, i: int)
    requires
        0 <= i < e.fields.len(),
    ensures
        says(e, e.fields[i].0, e.fields[i].1),
{
    assert(e.fields[i] == (e.fields[i].0, e.fields[i].1));
}

proof fn lemma_says_number(e: EventV, i: int, n: nat)
    requires
        0 <= i < e.fields.len(),
        e.fields[i].1 == crate::text::decimal(n),
    ensures
        says_number(e, e.fields[i].0, n as int),
{
    law_numbers_are_written_as_their_numerals(n as int);
    lemma_says(e, i);
}

/// What is logged of a client says who it was: where it came from when it
/// arrives, and the id it was given, unless it is turned away, which is logged
/// as a warning. One that leaves for an error is logged as a warning, with the
/// error.
pub proof fn law_clients_are_logged(id: u32, peer: Seq<char>, error: ErrorV)
    ensures
        arrival_event(id, peer, true).name == "connection_opened"@,
        arrival_event(id, peer, false).name == "connection_rejected"@,
        departure_event(id, None).name == "connection_closed"@,
        departure_event(id, Some(error)).name == "connection_error"@,
        accept_error_event(peer).name == "accept_error"@,
        says(arrival_event(id, peer, true), "peer"@, peer),
        says_number(arrival_event(id, peer, true), "connection_id"@, id as int),
        arrival_event(id, peer, true).level == LogLevel::Info,
        says(arrival_event(id, peer, false), "peer"@, peer),
        arrival_event(id, peer, false).level == LogLevel::Warn,
        says_number(departure_event(id, None), "connection_id"@, id as int),
        departure_event(id, None).level == LogLevel::Info,
        says_number(departure_event(id, Some(error)), "connection_id"@, id as int),
        says(departure_event(id, Some(error)), "error"@, error.text()),
        departure_event(id, Some(error)).level == LogLevel::Warn,
        says(accept_error_event(peer), "error"@, peer),
        accept_error_event(peer).level == LogLevel::Warn,
{
    lemma_says_number(arrival_event(id, peer, true), 0, id as nat);
    lemma_says(arrival_event(id, peer, true), 1);
    lemma_says(arrival_event(id, peer, false), 1);
    lemma_says_number(departure_event(id, None), 0, id as nat);
    lemma_says_number(departure_event(id, Some(error)), 0, id as nat);
    lemma_says(departure_event(id, Some(error)), 1);
    lemma_says(accept_error_event(peer), 0);
}

/// What is logged of a failed query says whose it was, why it failed and, if it
/// is known, its text: all of it up to 500 characters, and otherwise the first
/// 500 and an ellipsis.
pub proof fn law_failed_queries_are_logged(id: u32, error: ErrorV, sql: Seq<char>)
    ensures
        query_error_event(id, error, Some(sql)).name == "query_error"@,
        says_number(query_error_event(id, error, None), "connection_id"@, id as int),
        says(query_error_event(id, error, None), "error"@, error.text()),
        says_number(query_error_event(id, error, Some(sql)), "connection_id"@, id as int),
        says(query_error_event(id, error, Some(sql)), "error"@, error.text()),
        says(query_error_event(id, error, Some(sql)), "sql"@, logged_sql(sql)),
        query_error_event(id, error, Some(sql)).level == LogLevel::Debug,
        sql.len() <= 500 ==> logged_sql(sql) == sql,
        sql.len() > 500 ==> logged_sql(sql) == sql.take(500).push('…'),
{
    reveal_strlit("…");
    lemma_says_number(query_error_event(id, error, None), 0, id as nat);
    lemma_says(query_error_event(id, error, None), 1);
    let e = query_error_event(id, error, Some(sql));
    lemma_says_number(e, 0, id as nat);
    lemma_says(e, 1);
    lemma_says(e, 2);
    if sql.len() > 500 {
        assert(logged_sql(sql) =~= sql.take(500).push('…'));
    }
}

/// What is logged of the server itself says where it listens and which version
/// it is, how many clients are inside when it stops, how many did not leave in
/// time, and what it has counted.
pub proof fn law_the_server_is_logged(
    addr: Seq<char>,
    version: Seq<char>,
    n: nat,
    counts: MetricsSnapshot,
)
    ensures
        listening_event(addr, version).name == "server_listening"@,
        shutdown_event(n).name == "shutdown_started"@,
        drain_timeout_event(n).name == "shutdown_drain_timeout"@,
        stopped_event(counts).name == "shutdown_complete"@,
        volatile_event().name == "volatile_mode"@,
        volatile_event().level == LogLevel::Warn,
        says(listening_event(addr, version), "addr"@, addr),
        says(listening_event(addr, version), "version"@, version),
        says_number(shutdown_event(n), "active_connections"@, n as int),
        says_number(drain_timeout_event(n), "still_running"@, n as int),
        drain_timeout_event(n).level == LogLevel::Warn,
        says_number(stopped_event(counts), "connections_total"@, counts.connections_total as int),
        says_number(stopped_event(counts), "queries_total"@, counts.queries_total as int),
        says_number(stopped_event(counts), "errors_total"@, counts.errors_total as int),
{
    lemma_says(listening_event(addr, version), 0);
    lemma_says(listening_event(addr, version), 1);
    lemma_says_number(shutdown_event(n), 0, n);
    lemma_says_number(drain_timeout_event(n), 0, n);
    lemma_says_number(stopped_event(counts), 0, counts.connections_total as nat);
    lemma_says_number(stopped_event(counts), 1, counts.queries_total as nat);
    lemma_says_number(stopped_event(counts), 2, counts.errors_total as nat);
}

/// Whoever arrives uses up an id, and is counted as inside exactly if there is
/// room; the limit itself stays.
pub proof fn law_arrivals_are_counted(a: Admission)
    requires
        a.wf(),
        a.active < usize::MAX,
    ensures
        a.after_arrival().next_connection_id == (a.next_connection_id + 1) % 0x1_0000_0000,
        a.after_arrival().max_connections == a.max_connections,
        a.max_connections == 0 || a.active < a.max_connections ==> a.after_arrival().active
            == a.active + 1,
        a.max_connections > 0 && a.active >= a.max_connections ==> a.after_arrival().active
            == a.active,
        a.after_arrival().wf(),
{
}

} // verus!
