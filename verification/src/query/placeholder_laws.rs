//! The placeholders of a prepared statement, in the order of its text.
use vstd::prelude::*;

use crate::query::ast::{ExprV, SelectItemV, StatementV};
use crate::query::grammar::{
    moved, p_alias, p_args, p_expr, p_from, p_ident, p_insert, p_insert_columns, p_projection,
    p_qualified_rest, p_rows, p_select, p_select_item, p_statement, p_token, p_values, start,
    token_at, Place,
};
use crate::query::lexer::{lex, TokenV};
use crate::query::parse_laws::{
    lemma_args_count, lemma_create_counts, lemma_expr_counts, lemma_from_counts, lemma_names_count,
    lemma_projection_counts, lemma_qualified_counts, lemma_rows_count,
    lemma_statement_counts, lemma_values_count,
};
use crate::query::parser::parse_result;

verus! {

/// The placeholders in an expression, from left to right.
pub open spec fn placeholders(e: ExprV) -> Seq<int>
    decreases e, 0int,
{
    match e {
        ExprV::Placeholder(i) => seq![i],
        ExprV::Function(_, args) => placeholders_of(args),
        _ => Seq::empty(),
    }
}

/// The same for several expressions, one after the other.
pub open spec fn placeholders_of(es: Seq<ExprV>) -> Seq<int>
    decreases es, es.len(),
{
    if es.len() == 0 {
        Seq::empty()
    } else {
        placeholders_of(es.drop_last()) + placeholders(es.last())
    }
}

/// The same for rows, one after the other.
pub open spec fn row_placeholders(rows: Seq<Seq<ExprV>>) -> Seq<int>
    decreases rows.len(),
{
    if rows.len() == 0 {
        Seq::empty()
    } else {
        row_placeholders(rows.drop_last()) + placeholders_of(rows.last())
    }
}

/// The same for one item of a `SELECT` list.
pub open spec fn item_placeholders(item: SelectItemV) -> Seq<int> {
    match item {
        SelectItemV::Expr(e, _) => placeholders(e),
        SelectItemV::Wildcard => Seq::empty(),
    }
}

/// The same for a whole `SELECT` list.
pub open spec fn list_placeholders(items: Seq<SelectItemV>) -> Seq<int>
    decreases items.len(),
{
    if items.len() == 0 {
        Seq::empty()
    } else {
        list_placeholders(items.drop_last()) + item_placeholders(items.last())
    }
}

/// The placeholders in a statement, in the order of its text.
pub open spec fn statement_placeholders(s: StatementV) -> Seq<int> {
    match s {
        StatementV::Insert { rows, .. } => row_placeholders(rows),
        StatementV::Select { projection, selection, .. } => list_placeholders(projection) + (
        match selection {
            Some(c) => placeholders(c.value),
            None => Seq::empty(),
        }),
        _ => Seq::empty(),
    }
}

/// The numbers from `a` up to, but not including, `b`.
pub open spec fn run(a: int, b: int) -> Seq<int>
    recommends
        a <= b,
{
    Seq::new((b - a) as nat, |i: int| a + i)
}

proof fn lemma_run_joined(a: int, b: int, c: int)
    requires
        a <= b <= c,
    ensures
        run(a, b) + run(b, c) == run(a, c),
{
    assert(run(a, b) + run(b, c) =~= run(a, c));
}

proof fn lemma_no_run(a: int)
    ensures
        run(a, a) == Seq::<int>::empty(),
        run(a, a + 1) == seq![a],
{
    assert(run(a, a) =~= Seq::empty());
    assert(run(a, a + 1) =~= seq![a]);
}

proof fn lemma_placeholders_of_joined(a: Seq<ExprV>, b: Seq<ExprV>)
    ensures
        placeholders_of(a + b) == placeholders_of(a) + placeholders_of(b),
    decreases b.len(),
{
    if b.len() == 0 {
        assert(a + b =~= a);
        assert(placeholders_of(a) + placeholders_of(b) =~= placeholders_of(a));
    } else {
        assert((a + b).drop_last() =~= a + b.drop_last());
        assert((a + b).last() == b.last());
        lemma_placeholders_of_joined(a, b.drop_last());
        assert(placeholders_of(a + b) =~= placeholders_of(a) + placeholders_of(b));
    }
}

proof fn lemma_placeholders_of_one(e: ExprV)
    ensures
        placeholders_of(seq![e]) == placeholders(e),
{
    let one = seq![e];
    assert(one.drop_last() =~= Seq::empty());
    assert(placeholders_of(one.drop_last()) =~= Seq::empty());
    assert(one.last() == e);
    assert(placeholders_of(one) =~= placeholders(e));
}

proof fn lemma_row_placeholders_joined(a: Seq<Seq<ExprV>>, b: Seq<Seq<ExprV>>)
    ensures
        row_placeholders(a + b) == row_placeholders(a) + row_placeholders(b),
    decreases b.len(),
{
    if b.len() == 0 {
        assert(a + b =~= a);
        assert(row_placeholders(a) + row_placeholders(b) =~= row_placeholders(a));
    } else {
        assert((a + b).drop_last() =~= a + b.drop_last());
        assert((a + b).last() == b.last());
        lemma_row_placeholders_joined(a, b.drop_last());
        assert(row_placeholders(a + b) =~= row_placeholders(a) + row_placeholders(b));
    }
}

proof fn lemma_row_placeholders_one(row: Seq<ExprV>)
    ensures
        row_placeholders(seq![row]) == placeholders_of(row),
{
    let one = seq![row];
    assert(one.drop_last() =~= Seq::empty());
    assert(row_placeholders(one.drop_last()) =~= Seq::empty());
    assert(one.last() == row);
    assert(row_placeholders(one) =~= placeholders_of(row));
}

proof fn lemma_list_placeholders_joined(a: Seq<SelectItemV>, b: Seq<SelectItemV>)
    ensures
        list_placeholders(a + b) == list_placeholders(a) + list_placeholders(b),
    decreases b.len(),
{
    if b.len() == 0 {
        assert(a + b =~= a);
        assert(list_placeholders(a) + list_placeholders(b) =~= list_placeholders(a));
    } else {
        assert((a + b).drop_last() =~= a + b.drop_last());
        assert((a + b).last() == b.last());
        lemma_list_placeholders_joined(a, b.drop_last());
        assert(list_placeholders(a + b) =~= list_placeholders(a) + list_placeholders(b));
    }
}

proof fn lemma_list_placeholders_one(item: SelectItemV)
    ensures
        list_placeholders(seq![item]) == item_placeholders(item),
{
    let one = seq![item];
    assert(one.drop_last() =~= Seq::empty());
    assert(list_placeholders(one.drop_last()) =~= Seq::empty());
    assert(one.last() == item);
    assert(list_placeholders(one) =~= item_placeholders(item));
}

// ---------- reading ----------

proof fn lemma_expr_numbers(ts: Seq<TokenV>, p: Place, allow: bool)
    requires
        p.params >= 0,
    ensures
        p_expr(ts, p, allow) matches Ok((e, q)) ==> placeholders(e) == run(p.params, q.params),
    decreases ts.len() - p.pos, 0int,
{
    lemma_no_run(p.params);
    match token_at(ts, p.pos) {
        Some(TokenV::Ident(_)) => {
            if token_at(ts, p.pos + 1) == Some(TokenV::LParen) {
                lemma_args_numbers(ts, p.skip(2), allow);
            }
        },
        _ => {},
    }
}

proof fn lemma_args_numbers(ts: Seq<TokenV>, p: Place, allow: bool)
    requires
        p.params >= 0,
    ensures
        p_args(ts, p, allow) matches Ok((es, q)) ==> placeholders_of(es) == run(p.params, q.params),
    decreases ts.len() - p.pos, 1int,
{
    lemma_expr_numbers(ts, p, allow);
    lemma_expr_counts(ts, p, allow);
    match p_expr(ts, p, allow) {
        Ok((e, q)) => {
            lemma_placeholders_of_one(e);
            if token_at(ts, q.pos) == Some(TokenV::Comma) && moved(ts, p, q) {
                lemma_args_numbers(ts, q.skip(1), allow);
                lemma_args_count(ts, q.skip(1), allow);
                match p_args(ts, q.skip(1), allow) {
                    Ok((rest, r)) => {
                        lemma_placeholders_of_joined(seq![e], rest);
                        lemma_run_joined(p.params, q.params, r.params);
                    },
                    Err(_) => {},
                }
            }
        },
        Err(_) => {},
    }
}

proof fn lemma_values_numbers(ts: Seq<TokenV>, p: Place, allow: bool)
    requires
        p.params >= 0,
    ensures
        p_values(ts, p, allow) matches Ok((es, q)) ==> placeholders_of(es) == run(
            p.params,
            q.params,
        ),
    decreases ts.len() - p.pos,
{
    lemma_expr_numbers(ts, p, allow);
    lemma_expr_counts(ts, p, allow);
    match p_expr(ts, p, allow) {
        Ok((e, q)) => {
            lemma_placeholders_of_one(e);
            if token_at(ts, q.pos) == Some(TokenV::Comma) && moved(ts, p, q) {
                lemma_values_numbers(ts, q.skip(1), allow);
                lemma_values_count(ts, q.skip(1), allow);
                match p_values(ts, q.skip(1), allow) {
                    Ok((rest, r)) => {
                        lemma_placeholders_of_joined(seq![e], rest);
                        lemma_run_joined(p.params, q.params, r.params);
                    },
                    Err(_) => {},
                }
            }
        },
        Err(_) => {},
    }
}

proof fn lemma_rows_numbers(ts: Seq<TokenV>, p: Place, allow: bool)
    requires
        p.params >= 0,
    ensures
        p_rows(ts, p, allow) matches Ok((rows, q)) ==> row_placeholders(rows) == run(
            p.params,
            q.params,
        ),
    decreases ts.len() - p.pos,
{
    match p_token(ts, p, TokenV::LParen) {
        Ok(q) => {
            lemma_values_numbers(ts, q, allow);
            lemma_values_count(ts, q, allow);
            match p_values(ts, q, allow) {
                Ok((row, q)) => {
                    lemma_row_placeholders_one(row);
                    if token_at(ts, q.pos) == Some(TokenV::Comma) && moved(ts, p, q) {
                        lemma_rows_numbers(ts, q.skip(1), allow);
                        lemma_rows_count(ts, q.skip(1), allow);
                        match p_rows(ts, q.skip(1), allow) {
                            Ok((rest, r)) => {
                                lemma_row_placeholders_joined(seq![row], rest);
                                lemma_run_joined(p.params, q.params, r.params);
                            },
                            Err(_) => {},
                        }
                    }
                },
                Err(_) => {},
            }
        },
        Err(_) => {},
    }
}

proof fn lemma_item_numbers(ts: Seq<TokenV>, p: Place, allow: bool)
    requires
        p.params >= 0,
    ensures
        p_select_item(ts, p, allow) matches Ok((item, q)) ==> p.params <= q.params
            && item_placeholders(item) == run(p.params, q.params),
{
    lemma_no_run(p.params);
    lemma_expr_numbers(ts, p, allow);
    lemma_expr_counts(ts, p, allow);
}

proof fn lemma_list_numbers(ts: Seq<TokenV>, p: Place, allow: bool)
    requires
        p.params >= 0,
    ensures
        p_projection(ts, p, allow) matches Ok((items, q)) ==> list_placeholders(items) == run(
            p.params,
            q.params,
        ),
    decreases ts.len() - p.pos,
{
    lemma_item_numbers(ts, p, allow);
    match p_select_item(ts, p, allow) {
        Ok((item, q)) => {
            lemma_list_placeholders_one(item);
            if token_at(ts, q.pos) == Some(TokenV::Comma) && moved(ts, p, q) {
                lemma_list_numbers(ts, q.skip(1), allow);
                lemma_projection_counts(ts, q.skip(1), allow);
                match p_projection(ts, q.skip(1), allow) {
                    Ok((rest, r)) => {
                        lemma_list_placeholders_joined(seq![item], rest);
                        lemma_run_joined(p.params, q.params, r.params);
                    },
                    Err(_) => {},
                }
            }
        },
        Err(_) => {},
    }
}

proof fn lemma_insert_numbers(ts: Seq<TokenV>, p: Place, allow: bool)
    requires
        p.params >= 0,
    ensures
        p_insert(ts, p, allow) matches Ok((s, q)) ==> statement_placeholders(s) == run(
            p.params,
            q.params,
        ),
{
    match p_ident(ts, p.skip(2)) {
        Ok((name, q)) => {
            lemma_qualified_counts(ts, q, name);
            match p_qualified_rest(ts, q, name) {
                Ok((_, q)) => {
                    lemma_names_count(ts, q.skip(1));
                    match p_insert_columns(ts, q) {
                        Ok((_, q)) => lemma_rows_numbers(ts, q.skip(1), allow),
                        Err(_) => {},
                    }
                },
                Err(_) => {},
            }
        },
        Err(_) => {},
    }
}

proof fn lemma_select_numbers(ts: Seq<TokenV>, p: Place, allow: bool)
    requires
        p.params >= 0,
    ensures
        p_select(ts, p, allow) matches Ok((s, q)) ==> statement_placeholders(s) == run(
            p.params,
            q.params,
        ),
{
    lemma_list_numbers(ts, p.skip(1), allow);
    lemma_projection_counts(ts, p.skip(1), allow);
    match p_projection(ts, p.skip(1), allow) {
        Ok((items, q)) => {
            lemma_no_run(q.params);
            lemma_from_counts(ts, q, allow);
            match p_ident(ts, q.skip(1)) {
                Ok((name, f)) => {
                    lemma_qualified_counts(ts, f, name);
                    match p_qualified_rest(ts, f, name) {
                        Ok((_, f)) => match p_alias(ts, f) {
                            Ok((_, f)) => lemma_expr_numbers(ts, f.skip(3), allow),
                            Err(_) => {},
                        },
                        Err(_) => {},
                    }
                },
                Err(_) => {},
            }
            match p_from(ts, q, allow) {
                Ok((_, r)) => lemma_run_joined(p.params, q.params, r.params),
                Err(_) => {},
            }
        },
        Err(_) => {},
    }
}

/// The placeholders of a prepared statement are numbered from 0 in the order
/// of its text, as many as are counted. Only a `CREATE TABLE` counts
/// placeholders that it does not keep: those in its defaults.
pub proof fn law_placeholders_are_numbered_in_order(sql: Seq<char>)
    ensures
        parse_result(sql, true) matches Ok((s, n)) ==> {
            &&& 0 <= n
            &&& !(s is CreateTable) ==> statement_placeholders(s) == run(0, n)
            &&& s is CreateTable ==> statement_placeholders(s) == Seq::<int>::empty()
        },
{
    match lex(sql, 0) {
        Ok(ts) => {
            reveal(p_statement);
            lemma_no_run(0);
            lemma_create_counts(ts, start(), true);
            lemma_insert_numbers(ts, start(), true);
            lemma_select_numbers(ts, start(), true);
            lemma_statement_counts(ts, start(), true);
        },
        Err(_) => {},
    }
}

} // verus!
