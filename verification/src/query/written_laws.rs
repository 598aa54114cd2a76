//! Every statement can be written down, and reads back as itself.
use vstd::prelude::*;

use crate::error::ErrorV;
use crate::query::ast::{CompareOp, ConditionV, ExprV, SelectItemV, ShowStatementV, StatementV};
use crate::query::grammar::{
    p_alias, p_args, p_condition, p_create_database, p_discard_rest, p_drop_database, p_end, p_expr,
    p_finish, p_from, p_if_exists, p_if_not_exists, p_insert_columns, p_names, p_projection,
    p_qualified, p_rows, p_select_item, p_statement, p_values, start, statement_end, statement_of,
    token_at, Place,
};
use crate::query::lexer::{Keyword, TokenV};
use crate::text::upper;

verus! {

// ---------- tokens in places ----------

/// Whether `part` stands in `ts` at place `i`.
pub open spec fn tokens_at(ts: Seq<TokenV>, i: int, part: Seq<TokenV>) -> bool {
    0 <= i && i + part.len() <= ts.len() && ts.subrange(i, i + part.len()) == part
}

pub proof fn lemma_at(ts: Seq<TokenV>, i: int, part: Seq<TokenV>)
    requires
        tokens_at(ts, i, part),
    ensures
        forall|k: int| 0 <= k < part.len() ==> #[trigger] part[k] == ts[i + k],
        part.len() > 0 ==> token_at(ts, i) == Some(part[0]),
        part.len() > 1 ==> token_at(ts, i + 1) == Some(part[1]),
        part.len() > 2 ==> token_at(ts, i + 2) == Some(part[2]),
{
    assert forall|k: int| 0 <= k < part.len() implies #[trigger] part[k] == ts[i + k] by {
        assert(ts.subrange(i, i + part.len())[k] == ts[i + k]);
    }
    if part.len() > 0 {
        assert(part[0] == ts[i + 0]);
    }
    if part.len() > 1 {
        assert(part[1] == ts[i + 1]);
    }
    if part.len() > 2 {
        assert(part[2] == ts[i + 2]);
    }
}

pub proof fn lemma_halves(ts: Seq<TokenV>, i: int, x: Seq<TokenV>, y: Seq<TokenV>)
    requires
        tokens_at(ts, i, x + y),
    ensures
        tokens_at(ts, i, x),
        tokens_at(ts, (i + x.len()) as int, y),
{
    lemma_at(ts, i, x + y);
    assert(ts.subrange(i, i + x.len()) =~= x) by {
        assert forall|k: int| 0 <= k < x.len() implies ts[i + k] == x[k] by {
            assert((x + y)[k] == x[k]);
        }
    }
    let j = i + x.len();
    assert(ts.subrange(j, j + y.len()) =~= y) by {
        assert forall|k: int| 0 <= k < y.len() implies ts[j + k] == y[k] by {
            assert((x + y)[x.len() + k] == y[k]);
        }
    }
}

// ---------- expressions ----------

/// Whether an expression has no placeholders.
pub open spec fn is_plain(e: ExprV) -> bool
    decreases e, 0int,
{
    match e {
        ExprV::Placeholder(_) => false,
        ExprV::Function(_, args) => are_plain(args),
        _ => true,
    }
}

/// Whether none of several expressions has.
pub open spec fn are_plain(es: Seq<ExprV>) -> bool
    decreases es, es.len(),
{
    es.len() == 0 || is_plain(es[0]) && are_plain(es.drop_first())
}

/// An expression as tokens.
pub open spec fn expr_tokens(e: ExprV) -> Seq<TokenV>
    decreases e, 0int,
{
    match e {
        ExprV::Integer(n) => seq![TokenV::Integer(n)],
        ExprV::String(s) => seq![TokenV::Str(s)],
        ExprV::Null => seq![TokenV::Keyword(Keyword::Null)],
        ExprV::SystemVariable(name) => seq![TokenV::SystemVariable(name)],
        ExprV::Column(name) => seq![TokenV::Ident(name)],
        ExprV::Function(name, args) => seq![TokenV::Ident(name), TokenV::LParen] + list_tokens(args)
            + seq![TokenV::RParen],
        ExprV::Placeholder(_) => seq![TokenV::Placeholder],
    }
}

/// Expressions with commas between them.
pub open spec fn list_tokens(es: Seq<ExprV>) -> Seq<TokenV>
    decreases es, es.len(),
{
    if es.len() == 0 {
        Seq::empty()
    } else if es.len() == 1 {
        expr_tokens(es[0])
    } else {
        expr_tokens(es[0]) + (seq![TokenV::Comma] + list_tokens(es.drop_first()))
    }
}

proof fn lemma_expr_reads(ts: Seq<TokenV>, p: Place, e: ExprV, allow: bool)
    requires
        is_plain(e),
        tokens_at(ts, p.pos, expr_tokens(e)),
        token_at(ts, (p.pos + expr_tokens(e).len()) as int) != Some(TokenV::LParen),
    ensures
        expr_tokens(e).len() > 0,
        expr_tokens(e)[0] != TokenV::RParen,
        expr_tokens(e)[0] != TokenV::Star,
        p_expr(ts, p, allow) == Ok::<(ExprV, Place), ErrorV>((e, p.skip(expr_tokens(e).len() as int))),
    decreases e, 0int,
{
    let w = expr_tokens(e);
    lemma_at(ts, p.pos, w);
    match e {
        ExprV::Function(name, args) => {
            let head = seq![TokenV::Ident(name), TokenV::LParen];
            let inner = list_tokens(args);
            let end = seq![TokenV::RParen];
            assert(w =~= head + (inner + end));
            lemma_halves(ts, p.pos, head, inner + end);
            lemma_at(ts, p.pos, head);
            lemma_halves(ts, p.pos + 2, inner, end);
            lemma_at(ts, (p.pos + 2 + inner.len()) as int, end);
            if args.len() == 0 {
                assert(args =~= Seq::empty());
            } else {
                lemma_args_read(ts, p.skip(2), args, allow);
                lemma_at(ts, p.pos + 2, inner);
            }
        },
        _ => {},
    }
}

proof fn lemma_args_read(ts: Seq<TokenV>, p: Place, es: Seq<ExprV>, allow: bool)
    requires
        es.len() > 0,
        are_plain(es),
        tokens_at(ts, p.pos, list_tokens(es)),
        token_at(ts, (p.pos + list_tokens(es).len()) as int) == Some(TokenV::RParen),
    ensures
        list_tokens(es).len() > 0,
        list_tokens(es)[0] != TokenV::RParen,
        p_args(ts, p, allow) == Ok::<(Seq<ExprV>, Place), ErrorV>(
            (es, p.skip(list_tokens(es).len() as int)),
        ),
    decreases es, es.len(),
{
    let w = expr_tokens(es[0]);
    let rest = es.drop_first();
    if es.len() == 1 {
        lemma_expr_reads(ts, p, es[0], allow);
        assert(seq![es[0]] =~= es);
    } else {
        let more = list_tokens(rest);
        lemma_halves(ts, p.pos, w, seq![TokenV::Comma] + more);
        let q = p.skip(w.len() as int);
        lemma_at(ts, q.pos, seq![TokenV::Comma] + more);
        assert((seq![TokenV::Comma] + more)[0] == TokenV::Comma);
        lemma_halves(ts, q.pos, seq![TokenV::Comma], more);
        lemma_expr_reads(ts, p, es[0], allow);
        lemma_args_read(ts, q.skip(1), rest, allow);
        assert(seq![es[0]] + rest =~= es);
        assert(list_tokens(es).len() == w.len() + 1 + more.len());
        assert(list_tokens(es)[0] == w[0]);
    }
}

proof fn lemma_values_read(ts: Seq<TokenV>, p: Place, es: Seq<ExprV>, allow: bool)
    requires
        es.len() > 0,
        are_plain(es),
        tokens_at(ts, p.pos, list_tokens(es)),
        token_at(ts, (p.pos + list_tokens(es).len()) as int) == Some(TokenV::RParen),
    ensures
        p_values(ts, p, allow) == Ok::<(Seq<ExprV>, Place), ErrorV>(
            (es, p.skip(list_tokens(es).len() as int + 1)),
        ),
    decreases es.len(),
{
    let w = expr_tokens(es[0]);
    let rest = es.drop_first();
    if es.len() == 1 {
        lemma_expr_reads(ts, p, es[0], allow);
        assert(seq![es[0]] =~= es);
    } else {
        let more = list_tokens(rest);
        lemma_halves(ts, p.pos, w, seq![TokenV::Comma] + more);
        let q = p.skip(w.len() as int);
        lemma_at(ts, q.pos, seq![TokenV::Comma] + more);
        assert((seq![TokenV::Comma] + more)[0] == TokenV::Comma);
        lemma_halves(ts, q.pos, seq![TokenV::Comma], more);
        lemma_expr_reads(ts, p, es[0], allow);
        lemma_values_read(ts, q.skip(1), rest, allow);
        assert(seq![es[0]] + rest =~= es);
        assert(list_tokens(es).len() == w.len() + 1 + more.len());
    }
}

// ---------- INSERT ----------

/// The value lists of an `INSERT`, each in parentheses, with commas between
/// them.
pub open spec fn rows_tokens(rows: Seq<Seq<ExprV>>) -> Seq<TokenV>
    decreases rows.len(),
{
    if rows.len() == 0 {
        Seq::empty()
    } else {
        seq![TokenV::LParen] + list_tokens(rows[0]) + seq![TokenV::RParen] + (if rows.len() == 1 {
            Seq::empty()
        } else {
            seq![TokenV::Comma] + rows_tokens(rows.drop_first())
        })
    }
}

/// Whether each value list has a value, and none has a placeholder.
pub open spec fn rows_plain(rows: Seq<Seq<ExprV>>) -> bool {
    forall|i: int| 0 <= i < rows.len() ==> (#[trigger] rows[i]).len() > 0 && are_plain(rows[i])
}

#[verifier::rlimit(40)]
proof fn lemma_rows_read(ts: Seq<TokenV>, p: Place, rows: Seq<Seq<ExprV>>, allow: bool)
    requires
        rows.len() > 0,
        rows_plain(rows),
        tokens_at(ts, p.pos, rows_tokens(rows)),
        token_at(ts, (p.pos + rows_tokens(rows).len()) as int) != Some(TokenV::Comma),
    ensures
        p_rows(ts, p, allow) == Ok::<(Seq<Seq<ExprV>>, Place), ErrorV>(
            (rows, p.skip(rows_tokens(rows).len() as int)),
        ),
    decreases rows.len(),
{
    let w = list_tokens(rows[0]);
    let rest = rows.drop_first();
    let more = if rows.len() == 1 {
        Seq::empty()
    } else {
        seq![TokenV::Comma] + rows_tokens(rest)
    };
    let all = rows_tokens(rows);
    assert(all =~= seq![TokenV::LParen] + (w + (seq![TokenV::RParen] + more)));
    lemma_at(ts, p.pos, all);
    assert(all[0] == TokenV::LParen);
    lemma_halves(ts, p.pos, seq![TokenV::LParen], w + (seq![TokenV::RParen] + more));
    lemma_halves(ts, p.pos + 1, w, seq![TokenV::RParen] + more);
    let q = p.skip(1 + w.len() as int);
    lemma_at(ts, q.pos, seq![TokenV::RParen] + more);
    assert((seq![TokenV::RParen] + more)[0] == TokenV::RParen);
    lemma_halves(ts, q.pos, seq![TokenV::RParen], more);
    assert(rows[0].len() > 0 && are_plain(rows[0]));
    lemma_values_read(ts, p.skip(1), rows[0], allow);
    if rows.len() == 1 {
        assert(seq![rows[0]] =~= rows);
    } else {
        lemma_at(ts, q.pos + 1, more);
        assert(more[0] == TokenV::Comma);
        lemma_halves(ts, q.pos + 1, seq![TokenV::Comma], rows_tokens(rest));
        assert(rows_plain(rest)) by {
            assert forall|i: int| 0 <= i < rest.len() implies (#[trigger] rest[i]).len() > 0
                && are_plain(rest[i]) by {
                assert(rest[i] == rows[i + 1]);
            }
        }
        lemma_rows_read(ts, q.skip(2), rest, allow);
        assert(seq![rows[0]] + rest =~= rows);
    }
}

/// Names with commas between them.
pub open spec fn names_tokens(names: Seq<Seq<char>>) -> Seq<TokenV>
    decreases names.len(),
{
    if names.len() == 0 {
        Seq::empty()
    } else if names.len() == 1 {
        seq![TokenV::Ident(names[0])]
    } else {
        seq![TokenV::Ident(names[0]), TokenV::Comma] + names_tokens(names.drop_first())
    }
}

proof fn lemma_names_read(ts: Seq<TokenV>, p: Place, names: Seq<Seq<char>>)
    requires
        names.len() > 0,
        tokens_at(ts, p.pos, names_tokens(names)),
        token_at(ts, (p.pos + names_tokens(names).len()) as int) == Some(TokenV::RParen),
    ensures
        p_names(ts, p) == Ok::<(Seq<Seq<char>>, Place), ErrorV>(
            (names, p.skip(names_tokens(names).len() as int + 1)),
        ),
    decreases names.len(),
{
    let all = names_tokens(names);
    lemma_at(ts, p.pos, all);
    if names.len() == 1 {
        assert(seq![names[0]] =~= names);
    } else {
        let rest = names.drop_first();
        lemma_halves(
            ts,
            p.pos,
            seq![TokenV::Ident(names[0]), TokenV::Comma],
            names_tokens(rest),
        );
        lemma_names_read(ts, p.skip(2), rest);
        assert(seq![names[0]] + rest =~= names);
    }
}

/// An `INSERT` as tokens.
pub open spec fn insert_tokens(
    table: Seq<char>,
    columns: Option<Seq<Seq<char>>>,
    rows: Seq<Seq<ExprV>>,
) -> Seq<TokenV> {
    seq![
        TokenV::Keyword(Keyword::Insert),
        TokenV::Keyword(Keyword::Into),
        TokenV::Ident(table),
    ] + columns_tokens(columns) + (seq![TokenV::Keyword(Keyword::Values)] + rows_tokens(rows))
}

/// The column list of an `INSERT`, if it has one.
pub open spec fn columns_tokens(columns: Option<Seq<Seq<char>>>) -> Seq<TokenV> {
    match columns {
        Some(names) => seq![TokenV::LParen] + names_tokens(names) + seq![TokenV::RParen],
        None => Seq::empty(),
    }
}

/// What may stand behind a statement: nothing, or a `;`.
pub open spec fn is_tail(tail: Seq<TokenV>) -> bool {
    tail == Seq::<TokenV>::empty() || tail == seq![TokenV::Semicolon]
}

pub proof fn lemma_tail(ts: Seq<TokenV>, w: Seq<TokenV>, tail: Seq<TokenV>)
    requires
        is_tail(tail),
        ts == w + tail,
    ensures
        tokens_at(ts, 0, w),
        token_at(ts, w.len() as int) is None || token_at(ts, w.len() as int) == Some(
            TokenV::Semicolon,
        ),
        p_end(ts, (Place { pos: w.len() as int, params: 0 })) matches Ok(q) && q.params == 0,
{
    assert(ts.subrange(0, w.len() as int) =~= w);
    if tail.len() > 0 {
        assert(ts[w.len() as int] == tail[0]);
    }
}

#[verifier::rlimit(40)]
proof fn lemma_insert_reads(
    table: Seq<char>,
    columns: Option<Seq<Seq<char>>>,
    rows: Seq<Seq<ExprV>>,
    tail: Seq<TokenV>,
    allow: bool,
)
    requires
        is_tail(tail),
        rows.len() > 0,
        rows_plain(rows),
        columns matches Some(names) ==> names.len() > 0,
    ensures
        statement_of(insert_tokens(table, columns, rows) + tail, allow) == Ok::<
            (StatementV, int),
            ErrorV,
        >((StatementV::Insert { table, columns, rows }, 0)),
{
    let w = insert_tokens(table, columns, rows);
    let ts = w + tail;
    let head = seq![
        TokenV::Keyword(Keyword::Insert),
        TokenV::Keyword(Keyword::Into),
        TokenV::Ident(table),
    ];
    let list = columns_tokens(columns);
    let values = seq![TokenV::Keyword(Keyword::Values)];
    let body = rows_tokens(rows);
    lemma_tail(ts, w, tail);
    assert(w =~= head + (list + (values + body)));
    lemma_halves(ts, 0, head, list + (values + body));
    lemma_at(ts, 0, head);
    lemma_halves(ts, 3, list, values + body);
    let at = 3 + list.len() as int;
    lemma_halves(ts, at, values, body);
    lemma_at(ts, at, values);
    lemma_columns_read(ts, columns);
    let q = Place { pos: at, params: 0 };
    lemma_rows_read(ts, q.skip(1), rows, allow);
    lemma_insert_rule(
        ts,
        table,
        columns,
        rows,
        q,
        Place { pos: w.len() as int, params: 0 },
        allow,
    );
}

#[verifier::rlimit(40)]
proof fn lemma_columns_read(ts: Seq<TokenV>, columns: Option<Seq<Seq<char>>>)
    requires
        tokens_at(ts, 3, columns_tokens(columns)),
        columns matches Some(names) ==> names.len() > 0,
        columns is None ==> token_at(ts, 3) == Some(TokenV::Keyword(Keyword::Values)),
    ensures
        token_at(ts, 3) == Some(TokenV::LParen) || token_at(ts, 3) == Some(
            TokenV::Keyword(Keyword::Values),
        ),
        p_insert_columns(ts, Place { pos: 3, params: 0 }) == Ok::<
            (Option<Seq<Seq<char>>>, Place),
            ErrorV,
        >((columns, Place { pos: 3 + columns_tokens(columns).len() as int, params: 0 })),
{
    let list = columns_tokens(columns);
    match columns {
        Some(names) => {
            let open = seq![TokenV::LParen];
            let close = seq![TokenV::RParen];
            assert(list =~= open + (names_tokens(names) + close));
            lemma_halves(ts, 3, open, names_tokens(names) + close);
            lemma_at(ts, 3, open);
            lemma_halves(ts, 4, names_tokens(names), close);
            lemma_at(ts, (4 + names_tokens(names).len()) as int, close);
            lemma_names_read(ts, Place { pos: 4, params: 0 }, names);
        },
        None => {},
    }
}

#[verifier::rlimit(40)]
proof fn lemma_insert_rule(
    ts: Seq<TokenV>,
    table: Seq<char>,
    columns: Option<Seq<Seq<char>>>,
    rows: Seq<Seq<ExprV>>,
    q: Place,
    end: Place,
    allow: bool,
)
    requires
        token_at(ts, 0) == Some(TokenV::Keyword(Keyword::Insert)),
        token_at(ts, 1) == Some(TokenV::Keyword(Keyword::Into)),
        token_at(ts, 2) == Some(TokenV::Ident(table)),
        token_at(ts, 3) != Some(TokenV::Dot),
        p_insert_columns(ts, Place { pos: 3, params: 0 }) == Ok::<
            (Option<Seq<Seq<char>>>, Place),
            ErrorV,
        >((columns, q)),
        token_at(ts, q.pos) == Some(TokenV::Keyword(Keyword::Values)),
        p_rows(ts, q.skip(1), allow) == Ok::<(Seq<Seq<ExprV>>, Place), ErrorV>((rows, end)),
        p_end(ts, end) matches Ok(z) && z.params == 0,
    ensures
        statement_of(ts, allow) == Ok::<(StatementV, int), ErrorV>(
            (StatementV::Insert { table, columns, rows }, 0),
        ),
{
    reveal(p_statement);
    assert(start().skip(1).skip(1).skip(1) == (Place { pos: 3, params: 0 }));
}

// ---------- SELECT ----------

/// An item of a `SELECT` list as tokens.
pub open spec fn item_tokens(item: SelectItemV) -> Seq<TokenV> {
    match item {
        SelectItemV::Wildcard => seq![TokenV::Star],
        SelectItemV::Expr(e, alias) => expr_tokens(e) + (match alias {
            Some(name) => seq![TokenV::Keyword(Keyword::As), TokenV::Ident(name)],
            None => Seq::empty(),
        }),
    }
}

/// Items with commas between them.
pub open spec fn items_tokens(items: Seq<SelectItemV>) -> Seq<TokenV>
    decreases items.len(),
{
    if items.len() == 0 {
        Seq::empty()
    } else if items.len() == 1 {
        item_tokens(items[0])
    } else {
        item_tokens(items[0]) + (seq![TokenV::Comma] + items_tokens(items.drop_first()))
    }
}

pub open spec fn items_plain(items: Seq<SelectItemV>) -> bool {
    forall|i: int|
        0 <= i < items.len() ==> ((#[trigger] items[i]) matches SelectItemV::Expr(e, _) ==> is_plain(
            e,
        ))
}

/// What may follow an item without being taken for a part of it.
spec fn ends_item(t: Option<TokenV>) -> bool {
    t is None || t == Some(TokenV::Semicolon) || t == Some(TokenV::Comma) || t == Some(
        TokenV::Keyword(Keyword::From),
    )
}

proof fn lemma_item_reads(ts: Seq<TokenV>, p: Place, item: SelectItemV, allow: bool)
    requires
        item matches SelectItemV::Expr(e, _) ==> is_plain(e),
        tokens_at(ts, p.pos, item_tokens(item)),
        ends_item(token_at(ts, (p.pos + item_tokens(item).len()) as int)),
    ensures
        item_tokens(item).len() > 0,
        p_select_item(ts, p, allow) == Ok::<(SelectItemV, Place), ErrorV>(
            (item, p.skip(item_tokens(item).len() as int)),
        ),
{
    let w = item_tokens(item);
    match item {
        SelectItemV::Wildcard => lemma_at(ts, p.pos, w),
        SelectItemV::Expr(e, alias) => {
            let body = expr_tokens(e);
            match alias {
                Some(name) => {
                    let end = seq![TokenV::Keyword(Keyword::As), TokenV::Ident(name)];
                    lemma_halves(ts, p.pos, body, end);
                    lemma_at(ts, (p.pos + body.len()) as int, end);
                },
                None => {
                    assert(w =~= body);
                },
            }
            lemma_expr_reads(ts, p, e, allow);
            lemma_at(ts, p.pos, body);
        },
    }
}

proof fn lemma_items_read(ts: Seq<TokenV>, p: Place, items: Seq<SelectItemV>, allow: bool)
    requires
        items.len() > 0,
        items_plain(items),
        tokens_at(ts, p.pos, items_tokens(items)),
        ends_item(token_at(ts, (p.pos + items_tokens(items).len()) as int)),
        token_at(ts, (p.pos + items_tokens(items).len()) as int) != Some(TokenV::Comma),
    ensures
        p_projection(ts, p, allow) == Ok::<(Seq<SelectItemV>, Place), ErrorV>(
            (items, p.skip(items_tokens(items).len() as int)),
        ),
    decreases items.len(),
{
    let w = item_tokens(items[0]);
    let rest = items.drop_first();
    assert(items[0] matches SelectItemV::Expr(e, _) ==> is_plain(e));
    if items.len() == 1 {
        lemma_item_reads(ts, p, items[0], allow);
        assert(seq![items[0]] =~= items);
    } else {
        let more = items_tokens(rest);
        lemma_halves(ts, p.pos, w, seq![TokenV::Comma] + more);
        let q = p.skip(w.len() as int);
        lemma_at(ts, q.pos, seq![TokenV::Comma] + more);
        assert((seq![TokenV::Comma] + more)[0] == TokenV::Comma);
        lemma_halves(ts, q.pos, seq![TokenV::Comma], more);
        lemma_item_reads(ts, p, items[0], allow);
        assert(items_plain(rest)) by {
            assert forall|i: int| 0 <= i < rest.len() implies (
            (#[trigger] rest[i]) matches SelectItemV::Expr(e, _) ==> is_plain(e)) by {
                assert(rest[i] == items[i + 1]);
            }
        }
        lemma_items_read(ts, q.skip(1), rest, allow);
        assert(seq![items[0]] + rest =~= items);
    }
}

/// The token of a comparison.
pub open spec fn op_token(op: CompareOp) -> TokenV {
    match op {
        CompareOp::Eq => TokenV::Eq,
        CompareOp::NotEq => TokenV::NotEq,
        CompareOp::Lt => TokenV::Lt,
        CompareOp::Gt => TokenV::Gt,
        CompareOp::Le => TokenV::Le,
        CompareOp::Ge => TokenV::Ge,
    }
}

/// A condition as tokens.
pub open spec fn condition_tokens(c: ConditionV) -> Seq<TokenV> {
    seq![TokenV::Ident(c.column), op_token(c.op)] + expr_tokens(c.value)
}

/// The part of a `SELECT` behind its list, as tokens.
pub open spec fn from_tokens(from: Option<Seq<char>>, selection: Option<ConditionV>) -> Seq<TokenV> {
    match from {
        None => Seq::empty(),
        Some(table) => seq![TokenV::Keyword(Keyword::From), TokenV::Ident(table)] + (
        match selection {
            None => Seq::empty(),
            Some(c) => seq![TokenV::Keyword(Keyword::Where)] + condition_tokens(c),
        }),
    }
}

/// A `SELECT` as tokens.
pub open spec fn select_tokens(
    projection: Seq<SelectItemV>,
    from: Option<Seq<char>>,
    selection: Option<ConditionV>,
) -> Seq<TokenV> {
    seq![TokenV::Keyword(Keyword::Select)] + (items_tokens(projection) + from_tokens(
        from,
        selection,
    ))
}

#[verifier::rlimit(40)]
proof fn lemma_select_reads(
    projection: Seq<SelectItemV>,
    from: Option<Seq<char>>,
    selection: Option<ConditionV>,
    tail: Seq<TokenV>,
    allow: bool,
)
    requires
        is_tail(tail),
        projection.len() > 0,
        items_plain(projection),
        selection matches Some(c) ==> is_plain(c.value),
        from is None ==> selection is None,
    ensures
        statement_of(select_tokens(projection, from, selection) + tail, allow) == Ok::<
            (StatementV, int),
            ErrorV,
        >((StatementV::Select { projection, from, selection }, 0)),
{
    let w = select_tokens(projection, from, selection);
    let ts = w + tail;
    let head = seq![TokenV::Keyword(Keyword::Select)];
    let items = items_tokens(projection);
    let rest = from_tokens(from, selection);
    lemma_tail(ts, w, tail);
    lemma_halves(ts, 0, head, items + rest);
    lemma_at(ts, 0, head);
    lemma_halves(ts, 1, items, rest);
    let p = Place { pos: 1 + items.len() as int, params: 0 };
    let end = Place { pos: w.len() as int, params: 0 };
    lemma_from_reads(ts, p, from, selection, allow);
    lemma_items_read(ts, start().skip(1), projection, allow);
    lemma_select_rule(ts, projection, from, selection, p, end, allow);
}

#[verifier::rlimit(40)]
proof fn lemma_from_reads(
    ts: Seq<TokenV>,
    p: Place,
    from: Option<Seq<char>>,
    selection: Option<ConditionV>,
    allow: bool,
)
    requires
        selection matches Some(c) ==> is_plain(c.value),
        from is None ==> selection is None,
        tokens_at(ts, p.pos, from_tokens(from, selection)),
        ({
            let t = token_at(ts, (p.pos + from_tokens(from, selection).len()) as int);
            t is None || t == Some(TokenV::Semicolon)
        }),
    ensures
        p_from(ts, p, allow) == Ok::<((Option<Seq<char>>, Option<ConditionV>), Place), ErrorV>(
            ((from, selection), p.skip(from_tokens(from, selection).len() as int)),
        ),
        from is Some ==> token_at(ts, p.pos) == Some(TokenV::Keyword(Keyword::From)),
        from is None ==> from_tokens(from, selection).len() == 0,
{
    let rest = from_tokens(from, selection);
    let at = p.pos;
    lemma_at(ts, at, rest);
    match from {
        None => {},
        Some(table) => {
            let name = seq![TokenV::Keyword(Keyword::From), TokenV::Ident(table)];
            assert(rest[0] == TokenV::Keyword(Keyword::From));
            assert(rest[1] == TokenV::Ident(table));
            match selection {
                None => {
                    assert(rest =~= name);
                },
                Some(c) => {
                    let mark = seq![TokenV::Keyword(Keyword::Where)];
                    let pair = seq![TokenV::Ident(c.column), op_token(c.op)];
                    let value = expr_tokens(c.value);
                    lemma_halves(ts, at, name, mark + (pair + value));
                    lemma_halves(ts, at + 2, mark, pair + value);
                    lemma_at(ts, at + 2, mark);
                    lemma_halves(ts, at + 3, pair, value);
                    lemma_at(ts, at + 3, pair);
                    lemma_expr_reads(ts, p.skip(5), c.value, allow);
                    assert(p_condition(ts, p.skip(3), allow) == Ok::<(ConditionV, Place), ErrorV>(
                        (c, p.skip(5).skip(value.len() as int)),
                    ));
                    assert(rest.len() == 5 + value.len());
                },
            }
            assert(p_qualified(ts, p.skip(1)) == Ok::<(Seq<char>, Place), ErrorV>(
                (table, p.skip(2)),
            ));
            assert(p_alias(ts, p.skip(2)) == Ok::<(Option<Seq<char>>, Place), ErrorV>(
                (None, p.skip(2)),
            ));
        },
    }
}

#[verifier::rlimit(40)]
proof fn lemma_select_rule(
    ts: Seq<TokenV>,
    projection: Seq<SelectItemV>,
    from: Option<Seq<char>>,
    selection: Option<ConditionV>,
    p: Place,
    end: Place,
    allow: bool,
)
    requires
        token_at(ts, 0) == Some(TokenV::Keyword(Keyword::Select)),
        p_projection(ts, Place { pos: 1, params: 0 }, allow) == Ok::<
            (Seq<SelectItemV>, Place),
            ErrorV,
        >((projection, p)),
        p_from(ts, p, allow) == Ok::<((Option<Seq<char>>, Option<ConditionV>), Place), ErrorV>(
            ((from, selection), end),
        ),
        p_end(ts, end) matches Ok(z) && z.params == 0,
    ensures
        statement_of(ts, allow) == Ok::<(StatementV, int), ErrorV>(
            (StatementV::Select { projection, from, selection }, 0),
        ),
{
    reveal(p_statement);
    assert(start().skip(1) == (Place { pos: 1, params: 0 }));
}

// ---------- other statements ----------

/// A word that is no keyword.
pub open spec fn word(s: Seq<char>) -> TokenV {
    TokenV::Ident(s)
}

/// A `SHOW` as tokens.
pub open spec fn show_tokens(what: ShowStatementV) -> Seq<TokenV> {
    let show = TokenV::Keyword(Keyword::Show);
    match what {
        ShowStatementV::Databases => seq![show, word("DATABASES"@)],
        ShowStatementV::Tables => seq![show, word("TABLES"@)],
        ShowStatementV::Warnings => seq![show, word("WARNINGS"@)],
        ShowStatementV::CharacterSet => seq![show, word("CHARSET"@)],
        ShowStatementV::Collation => seq![show, word("COLLATION"@)],
        ShowStatementV::Variables { like: None } => seq![show, word("VARIABLES"@)],
        ShowStatementV::Variables { like: Some(pattern) } => seq![
            show,
            word("VARIABLES"@),
            word("LIKE"@),
            TokenV::Str(pattern),
        ],
        ShowStatementV::Other => seq![show],
    }
}

/// A statement as tokens, but for `CREATE TABLE`.
pub open spec fn statement_tokens(st: StatementV) -> Seq<TokenV> {
    match st {
        StatementV::Insert { table, columns, rows } => insert_tokens(table, columns, rows),
        StatementV::Select { projection, from, selection } => select_tokens(
            projection,
            from,
            selection,
        ),
        StatementV::Begin => seq![
            TokenV::Keyword(Keyword::Start),
            TokenV::Keyword(Keyword::Transaction),
        ],
        StatementV::Commit => seq![TokenV::Keyword(Keyword::Commit)],
        StatementV::Rollback => seq![TokenV::Keyword(Keyword::Rollback)],
        StatementV::SetOption => seq![TokenV::Keyword(Keyword::SetWord)],
        StatementV::Use => seq![TokenV::Keyword(Keyword::Use)],
        StatementV::Show(what) => show_tokens(what),
        StatementV::CreateDatabase { name, if_not_exists: false } => seq![
            TokenV::Keyword(Keyword::Create),
            word("DATABASE"@),
            TokenV::Ident(name),
        ],
        StatementV::CreateDatabase { name, if_not_exists: true } => seq![
            TokenV::Keyword(Keyword::Create),
            word("DATABASE"@),
            word("IF"@),
            word("NOT"@),
            word("EXISTS"@),
            TokenV::Ident(name),
        ],
        StatementV::DropDatabase { name, if_exists: false } => seq![
            TokenV::Keyword(Keyword::Drop),
            word("DATABASE"@),
            TokenV::Ident(name),
        ],
        StatementV::DropDatabase { name, if_exists: true } => seq![
            TokenV::Keyword(Keyword::Drop),
            word("DATABASE"@),
            word("IF"@),
            word("EXISTS"@),
            TokenV::Ident(name),
        ],
        StatementV::CreateTable { .. } => Seq::empty(),
    }
}

/// Whether a statement can be written so: it has something to insert or to
/// select, no placeholders, and no database that is called like the word that
/// may stand before its name.
pub open spec fn writable(st: StatementV) -> bool {
    match st {
        StatementV::Insert { table, columns, rows } => {
            &&& rows.len() > 0
            &&& rows_plain(rows)
            &&& columns matches Some(names) ==> names.len() > 0
        },
        StatementV::Select { projection, from, selection } => {
            &&& projection.len() > 0
            &&& items_plain(projection)
            &&& selection matches Some(c) ==> is_plain(c.value)
            &&& from is None ==> selection is None
        },
        StatementV::CreateDatabase { name, if_not_exists } => if_not_exists || upper(name) != "IF"@,
        StatementV::DropDatabase { name, if_exists } => if_exists || upper(name) != "IF"@,
        StatementV::CreateTable { .. } => false,
        _ => true,
    }
}

spec fn all_upper(s: Seq<char>) -> bool {
    forall|i: int| 0 <= i < s.len() ==> !('a' <= #[trigger] s[i] <= 'z')
}

proof fn lemma_upper_stays(s: Seq<char>)
    requires
        all_upper(s),
    ensures
        upper(s) == s,
{
    assert forall|i: int| 0 <= i < s.len() implies upper(s)[i] == s[i] by {
        assert(!('a' <= s[i] <= 'z'));
    }
    assert(upper(s) =~= s);
}

pub proof fn lemma_words()
    ensures
        upper("DATABASES"@) == "DATABASES"@,
        upper("TABLES"@) == "TABLES"@,
        upper("WARNINGS"@) == "WARNINGS"@,
        upper("CHARSET"@) == "CHARSET"@,
        upper("COLLATION"@) == "COLLATION"@,
        upper("VARIABLES"@) == "VARIABLES"@,
        upper("LIKE"@) == "LIKE"@,
        upper("DATABASE"@) == "DATABASE"@,
        upper("IF"@) == "IF"@,
        upper("NOT"@) == "NOT"@,
        upper("EXISTS"@) == "EXISTS"@,
        upper("AUTO_INCREMENT"@) == "AUTO_INCREMENT"@,
{
    reveal_strlit("DATABASES");
    reveal_strlit("TABLES");
    reveal_strlit("WARNINGS");
    reveal_strlit("CHARSET");
    reveal_strlit("COLLATION");
    reveal_strlit("VARIABLES");
    reveal_strlit("LIKE");
    reveal_strlit("DATABASE");
    reveal_strlit("IF");
    reveal_strlit("NOT");
    reveal_strlit("EXISTS");
    reveal_strlit("AUTO_INCREMENT");
    lemma_upper_stays("DATABASES"@);
    lemma_upper_stays("TABLES"@);
    lemma_upper_stays("WARNINGS"@);
    lemma_upper_stays("CHARSET"@);
    lemma_upper_stays("COLLATION"@);
    lemma_upper_stays("VARIABLES"@);
    lemma_upper_stays("LIKE"@);
    lemma_upper_stays("DATABASE"@);
    lemma_upper_stays("IF"@);
    lemma_upper_stays("NOT"@);
    lemma_upper_stays("EXISTS"@);
    lemma_upper_stays("AUTO_INCREMENT"@);
}

proof fn lemma_show_words_differ()
    ensures
        "DATABASES"@ != "WARNINGS"@ && "DATABASES"@ != "ERRORS"@,
        "TABLES"@ != "WARNINGS"@ && "TABLES"@ != "ERRORS"@ && "TABLES"@ != "DATABASES"@ && "TABLES"@
            != "SCHEMAS"@,
        "CHARSET"@ != "WARNINGS"@ && "CHARSET"@ != "ERRORS"@ && "CHARSET"@ != "DATABASES"@
            && "CHARSET"@ != "SCHEMAS"@ && "CHARSET"@ != "TABLES"@,
        "COLLATION"@ != "WARNINGS"@ && "COLLATION"@ != "ERRORS"@ && "COLLATION"@ != "DATABASES"@
            && "COLLATION"@ != "SCHEMAS"@ && "COLLATION"@ != "TABLES"@ && "COLLATION"@ != "CHARSET"@
            && "COLLATION"@ != "CHARACTER"@,
        "DATABASES"@ != "VARIABLES"@ && "DATABASES"@ != "STATUS"@,
        "TABLES"@ != "VARIABLES"@ && "TABLES"@ != "STATUS"@,
        "WARNINGS"@ != "VARIABLES"@ && "WARNINGS"@ != "STATUS"@,
        "CHARSET"@ != "VARIABLES"@ && "CHARSET"@ != "STATUS"@,
        "COLLATION"@ != "VARIABLES"@ && "COLLATION"@ != "STATUS"@,
{
    reveal_strlit("DATABASES");
    reveal_strlit("TABLES");
    reveal_strlit("WARNINGS");
    reveal_strlit("ERRORS");
    reveal_strlit("SCHEMAS");
    reveal_strlit("CHARSET");
    reveal_strlit("CHARACTER");
    reveal_strlit("COLLATION");
    reveal_strlit("VARIABLES");
    reveal_strlit("STATUS");
    assert("DATABASES"@[0] == 'D');
    assert("TABLES"@[0] == 'T');
    assert("WARNINGS"@[0] == 'W');
    assert("ERRORS"@[0] == 'E');
    assert("SCHEMAS"@[0] == 'S');
    assert("CHARSET"@[0] == 'C' && "CHARSET"@[1] == 'H');
    assert("CHARACTER"@[0] == 'C' && "CHARACTER"@[1] == 'H');
    assert("COLLATION"@[0] == 'C' && "COLLATION"@[1] == 'O');
    assert("VARIABLES"@[0] == 'V');
    assert("STATUS"@[0] == 'S');
}

/// A statement ends at its first `;`, or at the end.
pub proof fn lemma_no_semicolon(ts: Seq<TokenV>, i: int, j: int)
    requires
        0 <= i <= j <= ts.len(),
        j == ts.len() || ts[j] == TokenV::Semicolon,
        forall|k: int| i <= k < j ==> #[trigger] ts[k] != TokenV::Semicolon,
    ensures
        statement_end(ts, i) == j,
    decreases j - i,
{
    if i < j {
        assert(ts[i] != TokenV::Semicolon);
        lemma_no_semicolon(ts, i + 1, j);
    }
}

pub proof fn lemma_rest_is_tail(ts: Seq<TokenV>, w: Seq<TokenV>, tail: Seq<TokenV>)
    requires
        is_tail(tail),
        ts == w + tail,
    ensures
        statement_end(ts, w.len() as int) == w.len(),
{
    lemma_tail(ts, w, tail);
}

#[verifier::rlimit(40)]
proof fn lemma_database_reads(
    name: Seq<char>,
    lenient: bool,
    create: bool,
    tail: Seq<TokenV>,
    allow: bool,
)
    requires
        is_tail(tail),
        lenient || upper(name) != "IF"@,
    ensures
        ({
            let st = if create {
                StatementV::CreateDatabase { name, if_not_exists: lenient }
            } else {
                StatementV::DropDatabase { name, if_exists: lenient }
            };
            statement_of(statement_tokens(st) + tail, allow) == Ok::<(StatementV, int), ErrorV>(
                (st, 0),
            )
        }),
{
    let st = if create {
        StatementV::CreateDatabase { name, if_not_exists: lenient }
    } else {
        StatementV::DropDatabase { name, if_exists: lenient }
    };
    let w = statement_tokens(st);
    let ts = w + tail;
    lemma_tail(ts, w, tail);
    lemma_rest_is_tail(ts, w, tail);
    lemma_at(ts, 0, w);
    lemma_words();
    let end = Place { pos: w.len() as int, params: 0 };
    if create {
        if lenient {
            assert(w[3] == ts[0int + 3]);
            assert(w[4] == ts[0int + 4]);
            assert(w[5] == ts[0int + 5]);
            assert(p_if_not_exists(ts, start().skip(1).skip(1)) == Ok::<(bool, Place), ErrorV>(
                (true, Place { pos: 5, params: 0 }),
            ));
        } else {
            assert(p_if_not_exists(ts, start().skip(1).skip(1)) == Ok::<(bool, Place), ErrorV>(
                (false, Place { pos: 2, params: 0 }),
            ));
        }
        assert(p_create_database(ts, start()) == p_discard_rest(ts, end, st));
    } else {
        if lenient {
            assert(w[3] == ts[0int + 3]);
            assert(w[4] == ts[0int + 4]);
            assert(p_if_exists(ts, start().skip(1).skip(1)) == Ok::<(bool, Place), ErrorV>(
                (true, Place { pos: 4, params: 0 }),
            ));
        } else {
            assert(p_if_exists(ts, start().skip(1).skip(1)) == Ok::<(bool, Place), ErrorV>(
                (false, Place { pos: 2, params: 0 }),
            ));
        }
        assert(p_drop_database(ts, start()) == p_finish(ts, end, st));
    }
    reveal(p_statement);
}

#[verifier::rlimit(40)]
proof fn lemma_other_reads(st: StatementV, tail: Seq<TokenV>, allow: bool)
    requires
        is_tail(tail),
        st is Begin || st is Commit || st is Rollback || st is SetOption || st is Use,
    ensures
        statement_of(statement_tokens(st) + tail, allow) == Ok::<(StatementV, int), ErrorV>((st, 0)),
{
    let w = statement_tokens(st);
    let ts = w + tail;
    lemma_tail(ts, w, tail);
    lemma_rest_is_tail(ts, w, tail);
    lemma_at(ts, 0, w);
    reveal(p_statement);
}

#[verifier::rlimit(40)]
proof fn lemma_show_reads(what: ShowStatementV, tail: Seq<TokenV>, allow: bool)
    requires
        is_tail(tail),
    ensures
        statement_of(show_tokens(what) + tail, allow) == Ok::<(StatementV, int), ErrorV>(
            (StatementV::Show(what), 0),
        ),
{
    let w = show_tokens(what);
    let ts = w + tail;
    lemma_tail(ts, w, tail);
    lemma_rest_is_tail(ts, w, tail);
    lemma_at(ts, 0, w);
    lemma_words();
    lemma_show_words_differ();
    reveal(p_statement);
    if w.len() == 2 {
        assert(ts.len() == 2 || ts[2] == TokenV::Semicolon);
        assert(statement_end(ts, 1) == statement_end(ts, 2));
    }
    if w.len() > 3 {
        assert(w[3] == ts[0int + 3]);
    }
}

/// A statement that is written down reads back as itself, with or without a
/// `;` behind it: every name, every value, every comparison and every label in
/// its place.
pub proof fn law_statements_read_back(st: StatementV, tail: Seq<TokenV>, allow: bool)
    requires
        is_tail(tail),
        writable(st),
    ensures
        statement_of(statement_tokens(st) + tail, allow) == Ok::<(StatementV, int), ErrorV>((st, 0)),
{
    match st {
        StatementV::Insert { table, columns, rows } => lemma_insert_reads(
            table,
            columns,
            rows,
            tail,
            allow,
        ),
        StatementV::Select { projection, from, selection } => lemma_select_reads(
            projection,
            from,
            selection,
            tail,
            allow,
        ),
        StatementV::Show(what) => lemma_show_reads(what, tail, allow),
        StatementV::CreateDatabase { name, if_not_exists } => lemma_database_reads(
            name,
            if_not_exists,
            true,
            tail,
            allow,
        ),
        StatementV::DropDatabase { name, if_exists } => lemma_database_reads(
            name,
            if_exists,
            false,
            tail,
            allow,
        ),
        _ => lemma_other_reads(st, tail, allow),
    }
}

} // verus!
