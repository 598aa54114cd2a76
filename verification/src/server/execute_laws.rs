//! What a prepared statement is run as, and what its results are sent as.
use vstd::prelude::*;

use crate::error::ErrorV;
use crate::protocol::parameter_laws::{law_parameters_are_those_written, parameters_of};
use crate::protocol::reading::u32_at;
use crate::protocol::resultset::CellV;
use crate::query::ast::StatementV;
use crate::query::filling_laws::{
    filled, fills, law_filling_is_writing_the_values, marks, token_denotes,
};
use crate::query::grammar::statement_of;
use crate::query::lexer::{lex, Keyword, TokenV};
use crate::query::parser::parse_result;
use crate::server::commands::{execution, statement_id, ExecutePlanV};
use crate::server::session::{literal, literals, PreparedStatement};

verus! {

/// The token that a value is written as in a text: a numeral, a string literal
/// or `NULL`.
pub open spec fn cell_token(c: CellV) -> TokenV {
    match c {
        CellV::Int(n) => TokenV::Integer(n),
        CellV::Text(s) => TokenV::Str(s),
        CellV::Null => TokenV::Keyword(Keyword::Null),
    }
}

pub open spec fn cell_tokens(cells: Seq<CellV>) -> Seq<TokenV> {
    Seq::new(cells.len(), |i: int| cell_token(cells[i]))
}

/// The values that a client sends bind to the literals that denote them:
/// numbers to numbers, texts to texts and nothing but `NULL` to `NULL`.
/// Different values bind to different literals.
pub proof fn law_values_bind_to_their_literals(a: CellV, b: CellV)
    ensures
        token_denotes(cell_token(a), literal(a)),
        literal(a) is Null <==> a is Null,
        a != b ==> literal(a) != literal(b),
{
}

/// Executing a prepared query or insertion runs the statement that its text
/// would be with the values written in place of the placeholders, in order:
/// the values that the packet carries, `NULL` exactly where its bitmap says so.
pub proof fn law_executing_is_running_the_text_with_the_values(
    sql: Seq<char>,
    ts: Seq<TokenV>,
    payload: Seq<u8>,
    prepared: Map<u32, PreparedStatement>,
    p: PreparedStatement,
)
    requires
        lex(sql, 0) == Ok::<Seq<TokenV>, ErrorV>(ts),
        parse_result(sql, true) == Ok::<(StatementV, int), ErrorV>(
            (p.statement@, p.param_count as int),
        ),
        p.statement@ is Insert || p.statement@ is Select,
        payload.len() <= usize::MAX,
        payload.len() >= 5,
        prepared.contains_key(u32_at(payload, 1) as u32),
        prepared[u32_at(payload, 1) as u32] == p,
        marks(ts) > 0 ==> {
            &&& 11 + (marks(ts) + 7) / 8 + 2 * marks(ts) <= payload.len()
            &&& payload[10 + (marks(ts) + 7) / 8] == 1
            &&& parameters_of(payload, marks(ts), marks(ts)) is Some
        },
    ensures
        ({
            let cells = if marks(ts) > 0 {
                parameters_of(payload, marks(ts), marks(ts))->Some_0.0
            } else {
                Seq::empty()
            };
            &&& p.param_count == marks(ts)
            &&& execution(payload, prepared) matches ExecutePlanV::Run(s) && statement_of(
                filled(ts, cell_tokens(cells)),
                false,
            ) == Ok::<(StatementV, int), ErrorV>((s, 0))
        }),
{
    lemma_id_reads(payload);
    let n = marks(ts);
    let cells = if n > 0 {
        parameters_of(payload, n, n)->Some_0.0
    } else {
        Seq::empty()
    };
    crate::query::filling_laws::lemma_marks_count(ts);
    if n > 0 {
        law_parameters_are_those_written(payload, n);
    }
    let values = literals(cells);
    let tokens = cell_tokens(cells);
    assert forall|i: int| 0 <= i < values.len() implies token_denotes(
        #[trigger] tokens[i],
        values[i],
    ) by {
        law_values_bind_to_their_literals(cells[i], cells[i]);
    }
    assert(fills(ts, tokens, values));
    law_filling_is_writing_the_values(ts, tokens, values);
}

proof fn lemma_id_reads(payload: Seq<u8>)
    requires
        payload.len() >= 5,
    ensures
        statement_id(payload) == u32_at(payload, 1) as u32,
{
    crate::protocol::parameter_laws::lemma_fixed_value(payload, 1, 4);
}

} // verus!
