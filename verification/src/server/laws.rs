//! What a client can count on over several exchanges.
use vstd::prelude::*;

use crate::auth::{account_of, answer, granted, law_right_password_gets_in, AuthPlugin};
use crate::config::{credential, UserCredentialV};
use crate::error::ErrorV;
use crate::protocol::capabilities::CLIENT_MULTI_STATEMENTS;
use crate::protocol::cell_laws::{carries, law_parameters_read_back};
use crate::protocol::handshake::HandshakeResponseV;
use crate::protocol::packet::{PacketV, MAX_PAYLOAD};
use crate::protocol::response::reported;
use crate::protocol::resultset::{seq_after, CellV};
use crate::query::ast::StatementV;
use crate::query::parse_laws::law_prepared_text_can_be_bound;
use crate::query::parser::{bound_statement, parse_many_result, parse_result};
use crate::server::commands::{execution, query_plan, statement_id, ExecutePlanV};
use crate::server::session::{
    client_plugin, lemma_plain_ok_fits, literals, outcome_reply, target_plugin, verdict,
    PreparedStatement,
};
use crate::server::work::covered;
use crate::storage::log::PlacedRow;
use crate::storage::model::StoreV;
use crate::storage::transaction::fits_on;
use crate::storage::transaction_laws::{agree_for, law_commit_cannot_conflict};

verus! {

/// Whoever names an account, uses its plugin and knows its password is let in
/// and told so, whatever the scramble.
pub proof fn law_right_password_logs_in(
    users: Seq<UserCredentialV>,
    username: Seq<char>,
    plugin: AuthPlugin,
    password: Seq<char>,
    scramble: Seq<u8>,
    seq: u8,
)
    requires
        account_of(users, username) == Some(credential(username, plugin, password)),
    ensures
        granted(users, username, plugin, answer(plugin, password, scramble), scramble),
        verdict(true, plugin, username, seq) is Ok,
{
    law_right_password_gets_in(users, username, plugin, password, scramble);
    lemma_plain_ok_fits();
}

/// A client is verified with its account's plugin, whichever one it came with.
pub proof fn law_account_decides_the_plugin(
    users: Seq<UserCredentialV>,
    response: HandshakeResponseV,
    default: AuthPlugin,
)
    ensures
        account_of(users, response.username) matches Some(u) ==> target_plugin(
            users,
            response,
            default,
        ) == u.plugin,
{
}

/// An unknown user is never asked to switch plugins and never let in, so that
/// the exchange looks like one with a wrong password.
pub proof fn law_unknown_users_are_not_given_away(
    users: Seq<UserCredentialV>,
    response: HandshakeResponseV,
    default: AuthPlugin,
    auth_response: Seq<u8>,
    scramble: Seq<u8>,
)
    requires
        account_of(users, response.username) is None,
    ensures
        target_plugin(users, response, default) == client_plugin(response, default),
        !granted(
            users,
            response.username,
            target_plugin(users, response, default),
            auth_response,
            scramble,
        ),
{
}

/// A prepared statement is found under its id, and under no other, until it is
/// closed; other statements come and go without touching it.
pub proof fn law_prepared_statements_stay_until_closed(
    payload: Seq<u8>,
    prepared: Map<u32, PreparedStatement>,
    id: u32,
    p: PreparedStatement,
)
    requires
        payload.len() >= 5,
    ensures
        statement_id(payload) == id ==> !(execution(payload, prepared.insert(id, p)) is Reject),
        statement_id(payload) == id ==> execution(payload, prepared.remove(id)) is Reject,
        statement_id(payload) != id ==> {
            &&& execution(payload, prepared.insert(id, p)) == execution(payload, prepared)
            &&& execution(payload, prepared.remove(id)) == execution(payload, prepared)
        },
{
}

/// A statement that was prepared and is executed with as many values as it has
/// parameters is run with exactly those values filled in.
pub proof fn law_prepared_statements_run_with_their_values(
    sql: Seq<char>,
    payload: Seq<u8>,
    cells: Seq<CellV>,
    prepared: Map<u32, PreparedStatement>,
    p: PreparedStatement,
)
    requires
        parse_result(sql, true) == Ok::<(StatementV, int), ErrorV>(
            (p.statement@, p.param_count as int),
        ),
        cells.len() == p.param_count,
        payload.len() >= 5,
        cells.len() > 0 ==> carries(payload, cells),
    ensures
        bound_statement(p.statement@, literals(cells)) matches Ok(s) && execution(
            payload,
            prepared.insert(statement_id(payload), p),
        ) == ExecutePlanV::Run(s),
{
    law_prepared_text_can_be_bound(sql, literals(cells));
    if cells.len() > 0 {
        law_parameters_read_back(payload, cells);
    } else {
        assert(cells =~= Seq::empty());
    }
}

/// A text with at most one statement runs whatever the client announced; one
/// with more only if the client announced it.
pub proof fn law_batches_have_to_be_announced(sql: Seq<char>, capabilities: u32)
    ensures
        parse_many_result(sql) matches Ok(s) ==> {
            &&& s.len() <= 1 || capabilities & CLIENT_MULTI_STATEMENTS != 0 ==> query_plan(
                sql,
                capabilities,
            ) == Ok::<Seq<StatementV>, ErrorV>(s)
            &&& s.len() > 1 && capabilities & CLIENT_MULTI_STATEMENTS == 0 ==> query_plan(
                sql,
                capabilities,
            ) is Err
        },
{
}

/// A failing statement is answered, and the exchange goes on: only an answer
/// that would not fit a packet ends it.
pub proof fn law_failures_are_answered(
    e: ErrorV,
    capabilities: u32,
    seq: u8,
    binary: bool,
    more_results: bool,
)
    requires
        reported(e).payload().len() <= MAX_PAYLOAD,
    ensures
        outcome_reply(Err(e), capabilities, seq, binary, more_results) matches Ok((bytes, next))
            && bytes == (PacketV { sequence_id: seq, payload: reported(e).payload() }).wire()
            && next == seq_after(seq, 1),
{
}

// ---------- locks ----------

/// Whether two stores agree on some tables.
pub open spec fn agree_on(a: StoreV, b: StoreV, tables: Seq<Seq<char>>) -> bool {
    forall|t: Seq<char>| #[trigger]
        tables.contains(t) ==> {
            &&& a.tables.contains_key(t) == b.tables.contains_key(t)
            &&& a.tables[t].schema == b.tables[t].schema
            &&& a.tables[t].rows == b.tables[t].rows
        }
}

/// A transaction that was set aside can be taken up again, as long as others
/// have left alone the tables that it holds the locks of.
pub proof fn law_locks_let_a_transaction_go_on(
    base: StoreV,
    later: StoreV,
    rows: Seq<PlacedRow>,
    locks: Seq<Seq<char>>,
)
    requires
        fits_on(base, rows),
        covered(rows, locks),
        agree_on(base, later, locks),
    ensures
        fits_on(later, rows),
        later.insert_batch(rows, false).1 is None,
{
    assert(agree_for(base, later, rows)) by {
        assert forall|i: int| 0 <= i < rows.len() implies {
            let t = (#[trigger] rows[i]).table;
            &&& base.tables.contains_key(t) == later.tables.contains_key(t)
            &&& base.tables[t].schema == later.tables[t].schema
            &&& base.tables[t].rows == later.tables[t].rows
        } by {
            assert(locks.contains(rows[i].table));
        }
    }
    law_commit_cannot_conflict(base, later, rows);
}

} // verus!
