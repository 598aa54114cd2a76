//! What holds of every text that parses, and of its placeholders.
use vstd::prelude::*;

use crate::error::ErrorV;
use crate::query::ast::{ColumnDefV, ExprV, SelectItemV, StatementV};
use crate::query::grammar::{
    is_word, moved, p_alias, p_args, p_attributes, p_column_def, p_constraint, p_create_table,
    p_expr, p_from, p_ident, p_index_columns_rest, p_insert, p_insert_columns, p_names,
    p_numeric_flags, p_optional_name, p_prefix_length, p_projection, p_qualified_rest, p_rows,
    p_select, p_select_item, p_sizes, p_skip_index, p_statement, p_table_item, p_table_items,
    p_token, p_type_size, p_values, start, statement_end, statement_of, statements_from, token_at,
    AttributesV, Place,
};
use crate::query::lexer::{keyword_of, lex, lexeme, quoted, Lexeme, TokenV};
use crate::query::parser::{
    bound_expr, bound_exprs, bound_items, bound_rows, bound_statement, parse_many_result,
    parse_result,
};
use crate::text::{decimal_int, upper};

verus! {

// ---------- placeholders ----------

/// Whether every placeholder in an expression is one of the first `n`.
pub open spec fn within(e: ExprV, n: int) -> bool
    decreases e, 0int,
{
    match e {
        ExprV::Placeholder(i) => 0 <= i < n,
        ExprV::Function(_, args) => all_within(args, n),
        _ => true,
    }
}

/// The same for each of several expressions.
pub open spec fn all_within(es: Seq<ExprV>, n: int) -> bool
    decreases es, es.len(),
{
    if es.len() == 0 {
        true
    } else {
        all_within(es.drop_last(), n) && within(es.last(), n)
    }
}

pub open spec fn rows_within(rows: Seq<Seq<ExprV>>, n: int) -> bool {
    forall|i: int| 0 <= i < rows.len() ==> all_within(#[trigger] rows[i], n)
}

pub open spec fn item_within(item: SelectItemV, n: int) -> bool {
    item matches SelectItemV::Expr(e, _) ==> within(e, n)
}

pub open spec fn items_within(items: Seq<SelectItemV>, n: int) -> bool {
    forall|i: int| 0 <= i < items.len() ==> item_within(#[trigger] items[i], n)
}

/// Whether every placeholder in a statement is one of the first `n`.
pub open spec fn statement_within(s: StatementV, n: int) -> bool {
    match s {
        StatementV::Insert { rows, .. } => rows_within(rows, n),
        StatementV::Select { projection, selection, .. } => items_within(projection, n) && (
        selection matches Some(c) ==> within(c.value, n)),
        _ => true,
    }
}

proof fn lemma_within_grows(e: ExprV, n: int, m: int)
    requires
        within(e, n),
        n <= m,
    ensures
        within(e, m),
    decreases e, 0int,
{
    match e {
        ExprV::Function(_, args) => lemma_all_within_grows(args, n, m),
        _ => {},
    }
}

proof fn lemma_all_within_grows(es: Seq<ExprV>, n: int, m: int)
    requires
        all_within(es, n),
        n <= m,
    ensures
        all_within(es, m),
    decreases es, es.len(),
{
    if es.len() > 0 {
        lemma_all_within_grows(es.drop_last(), n, m);
        lemma_within_grows(es.last(), n, m);
    }
}

proof fn lemma_all_within_concat(a: Seq<ExprV>, b: Seq<ExprV>, n: int)
    requires
        all_within(a, n),
        all_within(b, n),
    ensures
        all_within(a + b, n),
    decreases b.len(),
{
    if b.len() == 0 {
        assert(a + b =~= a);
    } else {
        assert((a + b).drop_last() =~= a + b.drop_last());
        assert((a + b).last() == b.last());
        lemma_all_within_concat(a, b.drop_last(), n);
    }
}

proof fn lemma_one_within(e: ExprV, n: int)
    requires
        within(e, n),
    ensures
        all_within(seq![e], n),
{
    let one = seq![e];
    assert(one.drop_last() =~= Seq::empty());
    assert(all_within(one.drop_last(), n));
    assert(one.last() == e);
}

/// Whether reading from `p` to `q` counted the placeholders it met: none where
/// they are not allowed.
pub open spec fn counted(p: Place, q: Place, allow: bool) -> bool {
    p.params <= q.params && (!allow ==> q.params == p.params)
}

/// The bound on the placeholders of what was read up to `q`.
pub open spec fn bound_of(q: Place, allow: bool) -> int {
    if allow {
        q.params
    } else {
        0
    }
}

pub proof fn lemma_expr_counts(ts: Seq<TokenV>, p: Place, allow: bool)
    requires
        p.params >= 0,
    ensures
        p_expr(ts, p, allow) matches Ok((e, q)) ==> counted(p, q, allow) && within(
            e,
            bound_of(q, allow),
        ),
        !allow && p_expr(ts, p, allow) is Ok ==> p_expr(ts, p, true) == p_expr(ts, p, false),
        allow && (p_expr(ts, p, true) matches Ok((_, q)) && q.params == p.params) ==> p_expr(
            ts,
            p,
            false,
        ) == p_expr(ts, p, true),
    decreases ts.len() - p.pos, 0int,
{
    lemma_none_within(bound_of(p, allow));
    match token_at(ts, p.pos) {
        Some(TokenV::Ident(_)) => {
            if token_at(ts, p.pos + 1) == Some(TokenV::LParen) {
                lemma_args_count(ts, p.skip(2), allow);
            }
        },
        _ => {},
    }
}

proof fn lemma_none_within(n: int)
    ensures
        all_within(Seq::empty(), n),
{
}

pub proof fn lemma_args_count(ts: Seq<TokenV>, p: Place, allow: bool)
    requires
        p.params >= 0,
    ensures
        p_args(ts, p, allow) matches Ok((es, q)) ==> counted(p, q, allow) && all_within(
            es,
            bound_of(q, allow),
        ),
        !allow && p_args(ts, p, allow) is Ok ==> p_args(ts, p, true) == p_args(ts, p, false),
        allow && (p_args(ts, p, true) matches Ok((_, q)) && q.params == p.params) ==> p_args(
            ts,
            p,
            false,
        ) == p_args(ts, p, true),
    decreases ts.len() - p.pos, 1int,
{
    lemma_expr_counts(ts, p, allow);
    match p_expr(ts, p, allow) {
        Ok((e, q)) => {
            lemma_one_within(e, bound_of(q, allow));
            if token_at(ts, q.pos) == Some(TokenV::Comma) && moved(
                ts,
                p,
                q,
            ) {
                lemma_args_count(ts, q.skip(1), allow);
                match p_args(ts, q.skip(1), allow) {
                    Ok((rest, r)) => {
                        lemma_all_within_grows(seq![e], bound_of(q, allow), bound_of(r, allow));
                        lemma_all_within_concat(seq![e], rest, bound_of(r, allow));
                    },
                    Err(_) => {},
                }
            }
        },
        Err(_) => {},
    }
}

pub proof fn lemma_values_count(ts: Seq<TokenV>, p: Place, allow: bool)
    requires
        p.params >= 0,
    ensures
        p_values(ts, p, allow) matches Ok((es, q)) ==> counted(p, q, allow) && all_within(
            es,
            bound_of(q, allow),
        ),
        !allow && p_values(ts, p, allow) is Ok ==> p_values(ts, p, true) == p_values(ts, p, false),
        allow && (p_values(ts, p, true) matches Ok((_, q)) && q.params == p.params) ==> p_values(
            ts,
            p,
            false,
        ) == p_values(ts, p, true),
    decreases ts.len() - p.pos,
{
    lemma_expr_counts(ts, p, allow);
    match p_expr(ts, p, allow) {
        Ok((e, q)) => {
            lemma_one_within(e, bound_of(q, allow));
            if token_at(ts, q.pos) == Some(TokenV::Comma) && moved(
                ts,
                p,
                q,
            ) {
                lemma_values_count(ts, q.skip(1), allow);
                match p_values(ts, q.skip(1), allow) {
                    Ok((rest, r)) => {
                        lemma_all_within_grows(seq![e], bound_of(q, allow), bound_of(r, allow));
                        lemma_all_within_concat(seq![e], rest, bound_of(r, allow));
                    },
                    Err(_) => {},
                }
            }
        },
        Err(_) => {},
    }
}

pub proof fn lemma_rows_count(ts: Seq<TokenV>, p: Place, allow: bool)
    requires
        p.params >= 0,
    ensures
        p_rows(ts, p, allow) matches Ok((rows, q)) ==> counted(p, q, allow) && rows_within(
            rows,
            bound_of(q, allow),
        ),
        !allow && p_rows(ts, p, allow) is Ok ==> p_rows(ts, p, true) == p_rows(ts, p, false),
        allow && (p_rows(ts, p, true) matches Ok((_, q)) && q.params == p.params) ==> p_rows(
            ts,
            p,
            false,
        ) == p_rows(ts, p, true),
    decreases ts.len() - p.pos,
{
    match p_token(ts, p, TokenV::LParen) {
        Ok(q) => {
            lemma_values_count(ts, q, allow);
            match p_values(ts, q, allow) {
                Ok((row, q)) => {
                    if token_at(ts, q.pos) == Some(TokenV::Comma) && moved(
                        ts,
                        p,
                        q,
                    ) {
                        lemma_rows_count(ts, q.skip(1), allow);
                        match p_rows(ts, q.skip(1), allow) {
                            Ok((rest, r)) => {
                                lemma_all_within_grows(row, bound_of(q, allow), bound_of(r, allow));
                                let all = seq![row] + rest;
                                assert forall|i: int| 0 <= i < all.len() implies all_within(
                                    #[trigger] all[i],
                                    bound_of(r, allow),
                                ) by {
                                    if i > 0 {
                                        assert(all[i] == rest[i - 1]);
                                    }
                                }
                            },
                            Err(_) => {},
                        }
                    }
                },
                Err(_) => {},
            }
        },
        Err(_) => {},
    }
}

pub proof fn lemma_item_counts(ts: Seq<TokenV>, p: Place, allow: bool)
    requires
        p.params >= 0,
    ensures
        p_select_item(ts, p, allow) matches Ok((item, q)) ==> counted(p, q, allow) && item_within(
            item,
            bound_of(q, allow),
        ),
        !allow && p_select_item(ts, p, allow) is Ok ==> p_select_item(ts, p, true)
            == p_select_item(ts, p, false),
        allow && (p_select_item(ts, p, true) matches Ok((_, q)) && q.params == p.params) ==> p_select_item(
            ts,
            p,
            false,
        ) == p_select_item(ts, p, true),
{
    lemma_expr_counts(ts, p, allow);
}

pub proof fn lemma_projection_counts(ts: Seq<TokenV>, p: Place, allow: bool)
    requires
        p.params >= 0,
    ensures
        p_projection(ts, p, allow) matches Ok((items, q)) ==> counted(p, q, allow) && items_within(
            items,
            bound_of(q, allow),
        ),
        !allow && p_projection(ts, p, allow) is Ok ==> p_projection(ts, p, true) == p_projection(
            ts,
            p,
            false,
        ),
        allow && (p_projection(ts, p, true) matches Ok((_, q)) && q.params == p.params) ==> p_projection(
            ts,
            p,
            false,
        ) == p_projection(ts, p, true),
    decreases ts.len() - p.pos,
{
    lemma_item_counts(ts, p, allow);
    match p_select_item(ts, p, allow) {
        Ok((item, q)) => {
            if token_at(ts, q.pos) == Some(TokenV::Comma) && moved(
                ts,
                p,
                q,
            ) {
                lemma_projection_counts(ts, q.skip(1), allow);
                match p_projection(ts, q.skip(1), allow) {
                    Ok((rest, r)) => {
                        match item {
                            SelectItemV::Expr(e, _) => lemma_within_grows(
                                e,
                                bound_of(q, allow),
                                bound_of(r, allow),
                            ),
                            _ => {},
                        }
                        let all = seq![item] + rest;
                        assert forall|i: int| 0 <= i < all.len() implies item_within(
                            #[trigger] all[i],
                            bound_of(r, allow),
                        ) by {
                            if i > 0 {
                                assert(all[i] == rest[i - 1]);
                            }
                        }
                    },
                    Err(_) => {},
                }
            }
        },
        Err(_) => {},
    }
}

proof fn lemma_items_grow(items: Seq<SelectItemV>, n: int, m: int)
    requires
        items_within(items, n),
        n <= m,
    ensures
        items_within(items, m),
{
    assert forall|i: int| 0 <= i < items.len() implies item_within(#[trigger] items[i], m) by {
        match items[i] {
            SelectItemV::Expr(e, _) => {
                assert(item_within(items[i], n));
                lemma_within_grows(e, n, m);
            },
            _ => {},
        }
    }
}

proof fn lemma_attributes_count(ts: Seq<TokenV>, p: Place, allow: bool, a: AttributesV)
    requires
        p.params >= 0,
    ensures
        p_attributes(ts, p, allow, a) matches Ok((_, q)) ==> counted(p, q, allow),
        !allow && p_attributes(ts, p, allow, a) is Ok ==> p_attributes(ts, p, true, a)
            == p_attributes(ts, p, false, a),
        allow && (p_attributes(ts, p, true, a) matches Ok((_, q)) && q.params == p.params) ==> p_attributes(
            ts,
            p,
            false,
            a,
        ) == p_attributes(ts, p, true, a),
    decreases ts.len() - p.pos,
{
    let t = token_at(ts, p.pos);
    if t is Some {
        lemma_attributes_count(ts, p.skip(1), allow, AttributesV { nullable: true, ..a });
        lemma_attributes_count(ts, p.skip(1), allow, AttributesV { auto_increment: true, ..a });
        lemma_attributes_count(ts, p.skip(1), allow, a);
        if p.pos + 2 <= ts.len() {
            lemma_attributes_count(ts, p.skip(2), allow, AttributesV { nullable: false, ..a });
            lemma_attributes_count(ts, p.skip(2), allow, AttributesV { is_primary_key: true, ..a });
            lemma_attributes_count(ts, p.skip(2), allow, a);
        }
        lemma_expr_counts(ts, p.skip(1), allow);
        match p_expr(ts, p.skip(1), allow) {
            Ok((_, q)) => {
                if moved(ts, p, q) {
                    lemma_attributes_count(ts, q, allow, a);
                }
            },
            Err(_) => {},
        }
    }
}

pub proof fn lemma_names_count(ts: Seq<TokenV>, p: Place)
    ensures
        p_names(ts, p) matches Ok((_, q)) ==> q.params == p.params,
    decreases ts.len() - p.pos,
{
    if token_at(ts, p.pos) is Some && token_at(ts, p.pos + 1) is Some {
        lemma_names_count(ts, p.skip(2));
    }
}

pub proof fn lemma_qualified_counts(ts: Seq<TokenV>, p: Place, name: Seq<char>)
    ensures
        p_qualified_rest(ts, p, name) matches Ok((_, q)) ==> q.params == p.params,
    decreases ts.len() - p.pos,
{
    if token_at(ts, p.pos) is Some {
        match p_ident(ts, p.skip(1)) {
            Ok((next, q)) => lemma_qualified_counts(ts, q, next),
            Err(_) => {},
        }
    }
}

proof fn lemma_index_counts(ts: Seq<TokenV>, p: Place)
    ensures
        p_index_columns_rest(ts, p) matches Ok((_, q)) ==> q.params == p.params,
    decreases ts.len() - p.pos,
{
    match p_ident(ts, p) {
        Ok((_, q)) => match p_prefix_length(ts, q) {
            Ok(q) => {
                if token_at(ts, q.pos) is Some {
                    lemma_index_counts(ts, q.skip(1));
                }
            },
            Err(_) => {},
        },
        Err(_) => {},
    }
}

proof fn lemma_sizes_count(ts: Seq<TokenV>, p: Place, text: Seq<char>)
    ensures
        p_sizes(ts, p, text) matches Ok((_, q)) ==> q.params == p.params,
    decreases ts.len() - p.pos,
{
    if token_at(ts, p.pos) is Some && token_at(ts, p.pos + 1) is Some {
        if let Some(TokenV::Integer(n)) = token_at(ts, p.pos) {
            lemma_sizes_count(ts, p.skip(2), text + decimal_int(n as int) + ","@);
        }
    }
}

proof fn lemma_flags_count(ts: Seq<TokenV>, p: Place)
    ensures
        p_numeric_flags(ts, p).params == p.params,
    decreases ts.len() - p.pos,
{
    if token_at(ts, p.pos) is Some {
        lemma_flags_count(ts, p.skip(1));
    }
}

proof fn lemma_skip_index_counts(ts: Seq<TokenV>, p: Place)
    ensures
        p_skip_index(ts, p) matches Ok(q) ==> q.params == p.params,
{
    lemma_index_counts(ts, p.skip(1));
}

proof fn lemma_constraint_counts(ts: Seq<TokenV>, p: Place, columns: Seq<ColumnDefV>)
    ensures
        p_constraint(ts, p, columns) matches Ok((_, q)) ==> q.params == p.params,
{
    let s = if is_word(token_at(ts, p.pos), "CONSTRAINT"@) {
        p_optional_name(ts, p.skip(1))
    } else {
        p
    };
    lemma_index_counts(ts, s.skip(3));
    lemma_skip_index_counts(ts, p_optional_name(ts, s.skip(1)));
    lemma_skip_index_counts(ts, p_optional_name(ts, s.skip(2)));
    match p_skip_index(ts, p_optional_name(ts, s.skip(2))) {
        Ok(q) => {
            match p_ident(ts, q.skip(1)) {
                Ok((name, r)) => {
                    lemma_qualified_counts(ts, r, name);
                    match p_qualified_rest(ts, r, name) {
                        Ok((_, r)) => lemma_skip_index_counts(ts, r),
                        Err(_) => {},
                    }
                },
                Err(_) => {},
            }
        },
        Err(_) => {},
    }
}

proof fn lemma_column_counts(ts: Seq<TokenV>, p: Place, allow: bool)
    requires
        p.params >= 0,
    ensures
        p_column_def(ts, p, allow) matches Ok((_, q)) ==> counted(p, q, allow),
        !allow && p_column_def(ts, p, allow) is Ok ==> p_column_def(ts, p, true) == p_column_def(
            ts,
            p,
            false,
        ),
        allow && (p_column_def(ts, p, true) matches Ok((_, q)) && q.params == p.params) ==> p_column_def(
            ts,
            p,
            false,
        ) == p_column_def(ts, p, true),
{
    if let Ok((base, _)) = p_ident(ts, p.skip(1)) {
        lemma_sizes_count(ts, p.skip(3), base + "("@);
        if let Ok((_, q)) = p_type_size(ts, p.skip(2), base) {
            lemma_flags_count(ts, q);
            lemma_attributes_count(
                ts,
                p_numeric_flags(ts, q),
                allow,
                AttributesV { is_primary_key: false, nullable: true, auto_increment: false },
            );
        }
    }
}

proof fn lemma_table_items_count(
    ts: Seq<TokenV>,
    p: Place,
    allow: bool,
    columns: Seq<ColumnDefV>,
)
    requires
        p.params >= 0,
    ensures
        p_table_items(ts, p, allow, columns) matches Ok((_, q)) ==> counted(p, q, allow),
        !allow && p_table_items(ts, p, allow, columns) is Ok ==> p_table_items(ts, p, true, columns)
            == p_table_items(ts, p, false, columns),
        allow && (p_table_items(ts, p, true, columns) matches Ok((_, q)) && q.params == p.params)
            ==> p_table_items(ts, p, false, columns) == p_table_items(ts, p, true, columns),
    decreases ts.len() - p.pos,
{
    lemma_constraint_counts(ts, p, columns);
    lemma_column_counts(ts, p, allow);
    match p_table_item(ts, p, allow, columns) {
        Ok((more, q)) => {
            if token_at(ts, q.pos) == Some(TokenV::Comma) && moved(ts, p, q) {
                lemma_table_items_count(ts, q.skip(1), allow, more);
            }
        },
        Err(_) => {},
    }
}

pub proof fn lemma_create_counts(ts: Seq<TokenV>, p: Place, allow: bool)
    requires
        p.params >= 0,
    ensures
        p_create_table(ts, p, allow) matches Ok((s, q)) ==> counted(p, q, allow) && s is CreateTable,
        !allow && p_create_table(ts, p, allow) is Ok ==> p_create_table(ts, p, true)
            == p_create_table(ts, p, false),
        allow && (p_create_table(ts, p, true) matches Ok((_, q)) && q.params == p.params) ==> p_create_table(
            ts,
            p,
            false,
        ) == p_create_table(ts, p, true),
{
    match p_ident(ts, p.skip(2)) {
        Ok((name, q)) => {
            lemma_qualified_counts(ts, q, name);
            match p_qualified_rest(ts, q, name) {
                Ok((_, q)) => lemma_table_items_count(ts, q.skip(1), allow, Seq::empty()),
                Err(_) => {},
            }
        },
        Err(_) => {},
    }
}

proof fn lemma_insert_counts(ts: Seq<TokenV>, p: Place, allow: bool)
    requires
        p.params >= 0,
    ensures
        p_insert(ts, p, allow) matches Ok((s, q)) ==> counted(p, q, allow) && statement_within(
            s,
            bound_of(q, allow),
        ),
        !allow && p_insert(ts, p, allow) is Ok ==> p_insert(ts, p, true) == p_insert(ts, p, false),
        allow && (p_insert(ts, p, true) matches Ok((_, q)) && q.params == p.params) ==> p_insert(
            ts,
            p,
            false,
        ) == p_insert(ts, p, true),
{
    match p_ident(ts, p.skip(2)) {
        Ok((name, q)) => {
            lemma_qualified_counts(ts, q, name);
            match p_qualified_rest(ts, q, name) {
                Ok((_, q)) => {
                    lemma_names_count(ts, q.skip(1));
                    match p_insert_columns(ts, q) {
                        Ok((_, q)) => lemma_rows_count(ts, q.skip(1), allow),
                        Err(_) => {},
                    }
                },
                Err(_) => {},
            }
        },
        Err(_) => {},
    }
}

pub proof fn lemma_from_counts(ts: Seq<TokenV>, p: Place, allow: bool)
    requires
        p.params >= 0,
    ensures
        p_from(ts, p, allow) matches Ok(((_, c), q)) ==> counted(p, q, allow) && (c matches Some(
            c,
        ) ==> within(c.value, bound_of(q, allow))),
        !allow && p_from(ts, p, allow) is Ok ==> p_from(ts, p, true) == p_from(ts, p, false),
        allow && (p_from(ts, p, true) matches Ok((_, q)) && q.params == p.params) ==> p_from(
            ts,
            p,
            false,
        ) == p_from(ts, p, true),
{
    match p_ident(ts, p.skip(1)) {
        Ok((name, q)) => {
            lemma_qualified_counts(ts, q, name);
            match p_qualified_rest(ts, q, name) {
                Ok((_, q)) => match p_alias(ts, q) {
                    Ok((_, q)) => lemma_expr_counts(ts, q.skip(3), allow),
                    Err(_) => {},
                },
                Err(_) => {},
            }
        },
        Err(_) => {},
    }
}

proof fn lemma_select_counts(ts: Seq<TokenV>, p: Place, allow: bool)
    requires
        p.params >= 0,
    ensures
        p_select(ts, p, allow) matches Ok((s, q)) ==> counted(p, q, allow) && statement_within(
            s,
            bound_of(q, allow),
        ),
        !allow && p_select(ts, p, allow) is Ok ==> p_select(ts, p, true) == p_select(ts, p, false),
        allow && (p_select(ts, p, true) matches Ok((_, q)) && q.params == p.params) ==> p_select(
            ts,
            p,
            false,
        ) == p_select(ts, p, true),
{
    lemma_projection_counts(ts, p.skip(1), allow);
    match p_projection(ts, p.skip(1), allow) {
        Ok((items, q)) => {
            lemma_from_counts(ts, q, allow);
            match p_from(ts, q, allow) {
                Ok((_, r)) => lemma_items_grow(items, bound_of(q, allow), bound_of(r, allow)),
                Err(_) => {},
            }
        },
        Err(_) => {},
    }
}

pub proof fn lemma_statement_counts(ts: Seq<TokenV>, p: Place, allow: bool)
    requires
        p.params >= 0,
    ensures
        p_statement(ts, p, allow) matches Ok((s, q)) ==> counted(p, q, allow) && statement_within(
            s,
            bound_of(q, allow),
        ),
        !allow && p_statement(ts, p, allow) is Ok ==> p_statement(ts, p, true) == p_statement(
            ts,
            p,
            false,
        ),
        allow && (p_statement(ts, p, true) matches Ok((_, q)) && q.params == p.params) ==> p_statement(
            ts,
            p,
            false,
        ) == p_statement(ts, p, true),
{
    reveal(p_statement);
    lemma_create_counts(ts, p, allow);
    lemma_insert_counts(ts, p, allow);
    lemma_select_counts(ts, p, allow);
}

/// Whether a text is prepared as `s`, with `n` placeholders.
pub open spec fn prepared_as(sql: Seq<char>, s: StatementV, n: int) -> bool {
    parse_result(sql, true) == Ok::<(StatementV, int), ErrorV>((s, n))
}

/// Text that parses as a plain statement has no placeholders, and means the
/// same when it is prepared. Text that is prepared with no placeholders parses
/// as the same plain statement.
pub proof fn law_plain_statements_have_no_placeholders(sql: Seq<char>)
    ensures
        forall|s: StatementV|
            parse_result(sql, false) == Ok::<(StatementV, int), ErrorV>((s, 0)) <==> #[trigger]
            prepared_as(sql, s, 0),
        parse_result(sql, false) matches Ok((s, n)) ==> {
            &&& n == 0
            &&& statement_within(s, 0)
            &&& parse_result(sql, true) == parse_result(sql, false)
        },
{
    match lex(sql, 0) {
        Ok(ts) => {
            lemma_statement_counts(ts, start(), false);
            lemma_statement_counts(ts, start(), true);
        },
        Err(_) => {},
    }
}

// ---------- binding ----------

proof fn lemma_bind_expr(e: ExprV, params: Seq<ExprV>, n: int)
    requires
        within(e, n),
        n <= params.len(),
    ensures
        bound_expr(e, params) is Ok,
        n <= 0 ==> bound_expr(e, params) == Ok::<ExprV, ErrorV>(e),
        forall_within(params, 0) ==> within(bound_expr(e, params)->Ok_0, 0),
    decreases e, 0int,
{
    match e {
        ExprV::Function(_, args) => lemma_bind_exprs(args, params, n),
        _ => {},
    }
}

/// Whether each of `es` is free of placeholders from `n` on.
pub open spec fn forall_within(es: Seq<ExprV>, n: int) -> bool {
    forall|i: int| 0 <= i < es.len() ==> within(#[trigger] es[i], n)
}

proof fn lemma_bind_exprs(es: Seq<ExprV>, params: Seq<ExprV>, n: int)
    requires
        all_within(es, n),
        n <= params.len(),
    ensures
        bound_exprs(es, params) is Ok,
        n <= 0 ==> bound_exprs(es, params) == Ok::<Seq<ExprV>, ErrorV>(es),
        forall_within(params, 0) ==> all_within(bound_exprs(es, params)->Ok_0, 0),
    decreases es, es.len(),
{
    if es.len() > 0 {
        lemma_bind_exprs(es.drop_last(), params, n);
        lemma_bind_expr(es.last(), params, n);
        assert(es.drop_last().push(es.last()) =~= es);
        let front = bound_exprs(es.drop_last(), params)->Ok_0;
        let last = bound_expr(es.last(), params)->Ok_0;
        assert(front.push(last).drop_last() =~= front);
        assert(front.push(last).last() == last);
    } else {
        assert(es =~= Seq::empty());
    }
}

proof fn lemma_bind_rows(rows: Seq<Seq<ExprV>>, params: Seq<ExprV>, n: int)
    requires
        rows_within(rows, n),
        n <= params.len(),
    ensures
        bound_rows(rows, params) is Ok,
        n <= 0 ==> bound_rows(rows, params) == Ok::<Seq<Seq<ExprV>>, ErrorV>(rows),
        forall_within(params, 0) ==> rows_within(bound_rows(rows, params)->Ok_0, 0),
    decreases rows.len(),
{
    if rows.len() > 0 {
        let front = rows.drop_last();
        assert forall|i: int| 0 <= i < front.len() implies all_within(#[trigger] front[i], n) by {
            assert(all_within(rows[i], n));
        }
        assert(all_within(rows[rows.len() - 1], n));
        lemma_bind_rows(front, params, n);
        lemma_bind_exprs(rows.last(), params, n);
        assert(front.push(rows.last()) =~= rows);
    } else {
        assert(rows =~= Seq::empty());
    }
}

proof fn lemma_bind_items(items: Seq<SelectItemV>, params: Seq<ExprV>, n: int)
    requires
        items_within(items, n),
        n <= params.len(),
    ensures
        bound_items(items, params) is Ok,
        n <= 0 ==> bound_items(items, params) == Ok::<Seq<SelectItemV>, ErrorV>(items),
        forall_within(params, 0) ==> items_within(bound_items(items, params)->Ok_0, 0),
    decreases items.len(),
{
    if items.len() > 0 {
        let front = items.drop_last();
        assert forall|i: int| 0 <= i < front.len() implies item_within(#[trigger] front[i], n) by {
            assert(item_within(items[i], n));
        }
        assert(item_within(items[items.len() - 1], n));
        lemma_bind_items(front, params, n);
        match items.last() {
            SelectItemV::Expr(e, _) => lemma_bind_expr(e, params, n),
            _ => {},
        }
        assert(front.push(items.last()) =~= items);
    } else {
        assert(items =~= Seq::empty());
    }
}

/// Binding succeeds with as many values as there are placeholders, and leaves
/// none behind if the values hold none. A statement without placeholders is
/// left as it is.
pub proof fn law_binding_fills_every_placeholder(s: StatementV, params: Seq<ExprV>, n: int)
    requires
        statement_within(s, n),
        n <= params.len(),
    ensures
        bound_statement(s, params) is Ok,
        n <= 0 ==> bound_statement(s, params) == Ok::<StatementV, ErrorV>(s),
        forall_within(params, 0) ==> statement_within(bound_statement(s, params)->Ok_0, 0),
{
    match s {
        StatementV::Insert { rows, .. } => lemma_bind_rows(rows, params, n),
        StatementV::Select { projection, selection, .. } => {
            lemma_bind_items(projection, params, n);
            match selection {
                Some(c) => lemma_bind_expr(c.value, params, n),
                None => {},
            }
        },
        _ => {},
    }
}

/// A prepared text can be bound with as many values as it has placeholders.
pub proof fn law_prepared_text_can_be_bound(sql: Seq<char>, params: Seq<ExprV>)
    ensures
        parse_result(sql, true) matches Ok((s, n)) ==> {
            &&& 0 <= n
            &&& params.len() >= n ==> bound_statement(s, params) is Ok
        },
{
    match lex(sql, 0) {
        Ok(ts) => {
            lemma_statement_counts(ts, start(), true);
            match parse_result(sql, true) {
                Ok((s, n)) => {
                    if params.len() >= n {
                        law_binding_fills_every_placeholder(s, params, n);
                    }
                },
                Err(_) => {},
            }
        },
        Err(_) => {},
    }
}

// ---------- several statements ----------

proof fn lemma_end_without_semicolon(ts: Seq<TokenV>, i: int)
    requires
        0 <= i <= ts.len(),
        forall|k: int| 0 <= k < ts.len() ==> #[trigger] ts[k] != TokenV::Semicolon,
    ensures
        statement_end(ts, i) == ts.len(),
    decreases ts.len() - i,
{
    if i < ts.len() {
        lemma_end_without_semicolon(ts, i + 1);
    }
}

/// Text without a `;` outside of literals and comments is one statement,
/// whether it is read as one or as several.
pub proof fn law_one_statement_is_a_list_of_one(sql: Seq<char>)
    requires
        lex(sql, 0) matches Ok(ts) ==> forall|k: int|
            0 <= k < ts.len() ==> #[trigger] ts[k] != TokenV::Semicolon,
    ensures
        parse_many_result(sql) == (match parse_result(sql, false) {
            Ok((s, _)) => Ok::<Seq<StatementV>, ErrorV>(seq![s]),
            Err(e) => Err(e),
        }),
{
    match lex(sql, 0) {
        Ok(ts) => {
            if ts.len() > 0 {
                lemma_end_without_semicolon(ts, 0);
                assert(ts.subrange(0, ts.len() as int) =~= ts);
                assert(statements_from(ts, ts.len() as int) == Ok::<Seq<StatementV>, ErrorV>(
                    Seq::empty(),
                ));
                match statement_of(ts, false) {
                    Ok((s, _)) => assert(seq![s] + Seq::<StatementV>::empty() =~= seq![s]),
                    Err(_) => {},
                }
            }
        },
        Err(_) => {},
    }
}

// ---------- words and literals ----------

/// Keywords are recognized whatever their case.
pub proof fn law_keywords_ignore_case(a: Seq<char>, b: Seq<char>)
    requires
        upper(a) == upper(b),
    ensures
        keyword_of(a) == keyword_of(b),
{
}

/// Text with every `q` doubled.
pub open spec fn doubled(s: Seq<char>, q: char) -> Seq<char>
    decreases s.len(),
{
    if s.len() == 0 {
        Seq::empty()
    } else if s[0] == q {
        seq![q, q] + doubled(s.drop_first(), q)
    } else {
        seq![s[0]] + doubled(s.drop_first(), q)
    }
}

proof fn lemma_quoted_doubled(before: Seq<char>, s: Seq<char>, q: char)
    ensures
        quoted(before + doubled(s, q) + seq![q], before.len() as int, q) == Some(
            (s, (before + doubled(s, q) + seq![q]).len() as int),
        ),
    decreases s.len(),
{
    let text = before + doubled(s, q) + seq![q];
    let i = before.len() as int;
    if s.len() == 0 {
        assert(text[i] == q);
        assert(s =~= Seq::empty());
    } else {
        let rest = s.drop_first();
        let step = if s[0] == q {
            seq![q, q]
        } else {
            seq![s[0]]
        };
        assert(doubled(s, q) == step + doubled(rest, q));
        assert(text =~= (before + step) + doubled(rest, q) + seq![q]);
        lemma_quoted_doubled(before + step, rest, q);
        assert(text[i] == s[0]);
        if s[0] == q {
            assert(text[i + 1] == q);
            assert(quoted(text, i + 2, q) == Some((rest, text.len() as int)));
        } else {
            assert(quoted(text, i + 1, q) == Some((rest, text.len() as int)));
        }
        assert(seq![s[0]] + rest =~= s);
    }
}

/// Any text can be written as a string literal, by doubling its quotes, and
/// reads back as itself.
pub proof fn law_string_literals_read_back(s: Seq<char>)
    ensures
        lex(seq!['\''] + doubled(s, '\'') + seq!['\''], 0) == Ok::<Seq<TokenV>, ErrorV>(
            seq![TokenV::Str(s)],
        ),
{
    let q = '\'';
    let text = seq![q] + doubled(s, q) + seq![q];
    lemma_quoted_doubled(seq![q], s, q);
    assert(text[0] == q);
    assert(lexeme(text, 0) == Lexeme::Emit(TokenV::Str(s), text.len() as int));
    assert(lex(text, text.len() as int) == Ok::<Seq<TokenV>, ErrorV>(Seq::empty()));
    assert(seq![TokenV::Str(s)] + Seq::<TokenV>::empty() =~= seq![TokenV::Str(s)]);
}

} // verus!
