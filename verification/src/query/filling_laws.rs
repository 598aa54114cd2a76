//! Filling in placeholders is the same as writing the values into the text.
use vstd::prelude::*;

use crate::error::ErrorV;
use crate::query::ast::{ConditionV, ExprV, SelectItemV, StatementV};
use crate::query::grammar::{
    is_keyword, moved, p_alias, p_args, p_condition, p_expr, p_from, p_ident,
    p_insert, p_insert_columns, p_names, p_projection, p_qualified, p_qualified_rest,
    p_rows, p_select, p_select_item, p_statement, p_token, p_values, start, statement_of, token_at,
    Place,
};
use crate::query::lexer::{Keyword, TokenV};
use crate::query::parser::{
    bound_expr, bound_exprs, bound_item, bound_items, bound_rows, bound_statement,
};

verus! {

/// How many placeholders stand in front of place `i`.
pub open spec fn marks_before(ts: Seq<TokenV>, i: int) -> int
    decreases i,
{
    if i <= 0 {
        0
    } else if i <= ts.len() && ts[i - 1] == TokenV::Placeholder {
        marks_before(ts, i - 1) + 1
    } else {
        marks_before(ts, i - 1)
    }
}

/// How many placeholders there are.
pub open spec fn marks(ts: Seq<TokenV>) -> int {
    marks_before(ts, ts.len() as int)
}

/// The tokens with the literals written in place of the placeholders, the
/// first for the first and so on.
pub open spec fn filled(ts: Seq<TokenV>, literals: Seq<TokenV>) -> Seq<TokenV> {
    Seq::new(
        ts.len(),
        |i: int|
            if ts[i] == TokenV::Placeholder {
                literals[marks_before(ts, i)]
            } else {
                ts[i]
            },
    )
}

/// Whether a literal's token denotes a value.
pub open spec fn token_denotes(t: TokenV, e: ExprV) -> bool {
    match t {
        TokenV::Integer(n) => e == ExprV::Integer(n),
        TokenV::Str(s) => e == ExprV::String(s),
        TokenV::Keyword(Keyword::Null) => e == ExprV::Null,
        _ => false,
    }
}

/// Whether there is a literal for each placeholder, and each denotes its
/// value.
pub open spec fn fills(ts: Seq<TokenV>, literals: Seq<TokenV>, values: Seq<ExprV>) -> bool {
    &&& literals.len() == marks(ts)
    &&& values.len() == literals.len()
    &&& forall|i: int|
        0 <= i < values.len() ==> token_denotes(#[trigger] literals[i], values[i])
}

proof fn lemma_marks_grow(ts: Seq<TokenV>, i: int, j: int)
    requires
        i <= j,
    ensures
        0 <= marks_before(ts, i) <= marks_before(ts, j),
    decreases j,
{
    if j > 0 {
        if i < j {
            lemma_marks_grow(ts, i, j - 1);
        } else {
            lemma_marks_grow(ts, i - 1, j - 1);
        }
    }
}

/// Placeholders are counted from none up.
pub proof fn lemma_marks_count(ts: Seq<TokenV>)
    ensures
        marks(ts) >= 0,
{
    lemma_marks_grow(ts, 0, ts.len() as int);
}

/// The same place among tokens without placeholders.
spec fn plain(p: Place) -> Place {
    Place { pos: p.pos, params: 0 }
}

/// Whether the placeholders in front of `p` have been counted.
spec fn counted_to(ts: Seq<TokenV>, p: Place) -> bool {
    0 <= p.pos <= ts.len() && p.params == marks_before(ts, p.pos)
}

proof fn lemma_token(ts: Seq<TokenV>, literals: Seq<TokenV>, values: Seq<ExprV>, i: int)
    requires
        fills(ts, literals, values),
    ensures
        match token_at(ts, i) {
            Some(TokenV::Placeholder) => {
                &&& 0 <= marks_before(ts, i) < values.len()
                &&& token_at(filled(ts, literals), i) == Some(literals[marks_before(ts, i)])
                &&& token_denotes(literals[marks_before(ts, i)], values[marks_before(ts, i)])
            },
            t => token_at(filled(ts, literals), i) == t,
        },
        0 <= i < ts.len() ==> marks_before(ts, i + 1) == marks_before(ts, i) + (if ts[i]
            == TokenV::Placeholder {
            1int
        } else {
            0int
        }),
{
    if token_at(ts, i) == Some(TokenV::Placeholder) {
        lemma_marks_grow(ts, 0, i);
        lemma_marks_grow(ts, i + 1, ts.len() as int);
        assert(marks_before(ts, i + 1) == marks_before(ts, i) + 1);
        assert(token_denotes(literals[marks_before(ts, i)], values[marks_before(ts, i)]));
    }
}

// ---------- binding lists ----------

proof fn lemma_bound_front(e: ExprV, rest: Seq<ExprV>, values: Seq<ExprV>)
    requires
        bound_expr(e, values) is Ok,
        bound_exprs(rest, values) is Ok,
    ensures
        bound_exprs(seq![e] + rest, values) == Ok::<Seq<ExprV>, ErrorV>(
            seq![bound_expr(e, values)->Ok_0] + bound_exprs(rest, values)->Ok_0,
        ),
    decreases rest.len(),
{
    let all = seq![e] + rest;
    let b = bound_expr(e, values)->Ok_0;
    if rest.len() == 0 {
        assert(all =~= seq![e]);
        assert(all.drop_last() =~= Seq::empty());
        assert(bound_exprs(all.drop_last(), values) == Ok::<Seq<ExprV>, ErrorV>(Seq::empty()));
        assert(Seq::<ExprV>::empty().push(b) =~= seq![b] + Seq::<ExprV>::empty());
    } else {
        lemma_bound_front(e, rest.drop_last(), values);
        assert(all.drop_last() =~= seq![e] + rest.drop_last());
        assert(all.last() == rest.last());
        let front = bound_exprs(rest.drop_last(), values)->Ok_0;
        let last = bound_expr(rest.last(), values)->Ok_0;
        assert((seq![b] + front).push(last) =~= seq![b] + front.push(last));
    }
}

proof fn lemma_bound_one(e: ExprV, values: Seq<ExprV>)
    requires
        bound_expr(e, values) is Ok,
    ensures
        bound_exprs(seq![e], values) == Ok::<Seq<ExprV>, ErrorV>(
            seq![bound_expr(e, values)->Ok_0],
        ),
{
    let none = Seq::<ExprV>::empty();
    assert(bound_exprs(none, values) == Ok::<Seq<ExprV>, ErrorV>(none));
    lemma_bound_front(e, none, values);
    assert(seq![e] + none =~= seq![e]);
    assert(seq![bound_expr(e, values)->Ok_0] + none =~= seq![bound_expr(e, values)->Ok_0]);
}

proof fn lemma_bound_rows_front(row: Seq<ExprV>, rest: Seq<Seq<ExprV>>, values: Seq<ExprV>)
    requires
        bound_exprs(row, values) is Ok,
        bound_rows(rest, values) is Ok,
    ensures
        bound_rows(seq![row] + rest, values) == Ok::<Seq<Seq<ExprV>>, ErrorV>(
            seq![bound_exprs(row, values)->Ok_0] + bound_rows(rest, values)->Ok_0,
        ),
    decreases rest.len(),
{
    let all = seq![row] + rest;
    let b = bound_exprs(row, values)->Ok_0;
    if rest.len() == 0 {
        assert(all =~= seq![row]);
        assert(all.drop_last() =~= Seq::empty());
        assert(bound_rows(all.drop_last(), values) == Ok::<Seq<Seq<ExprV>>, ErrorV>(Seq::empty()));
        assert(Seq::<Seq<ExprV>>::empty().push(b) =~= seq![b] + Seq::<Seq<ExprV>>::empty());
    } else {
        lemma_bound_rows_front(row, rest.drop_last(), values);
        assert(all.drop_last() =~= seq![row] + rest.drop_last());
        assert(all.last() == rest.last());
        let front = bound_rows(rest.drop_last(), values)->Ok_0;
        let last = bound_exprs(rest.last(), values)->Ok_0;
        assert((seq![b] + front).push(last) =~= seq![b] + front.push(last));
    }
}

proof fn lemma_bound_one_row(row: Seq<ExprV>, values: Seq<ExprV>)
    requires
        bound_exprs(row, values) is Ok,
    ensures
        bound_rows(seq![row], values) == Ok::<Seq<Seq<ExprV>>, ErrorV>(
            seq![bound_exprs(row, values)->Ok_0],
        ),
{
    let none = Seq::<Seq<ExprV>>::empty();
    assert(bound_rows(none, values) == Ok::<Seq<Seq<ExprV>>, ErrorV>(none));
    lemma_bound_rows_front(row, none, values);
    assert(seq![row] + none =~= seq![row]);
    assert(seq![bound_exprs(row, values)->Ok_0] + none =~= seq![bound_exprs(row, values)->Ok_0]);
}

proof fn lemma_bound_items_front(item: SelectItemV, rest: Seq<SelectItemV>, values: Seq<ExprV>)
    requires
        bound_item(item, values) is Ok,
        bound_items(rest, values) is Ok,
    ensures
        bound_items(seq![item] + rest, values) == Ok::<Seq<SelectItemV>, ErrorV>(
            seq![bound_item(item, values)->Ok_0] + bound_items(rest, values)->Ok_0,
        ),
    decreases rest.len(),
{
    let all = seq![item] + rest;
    let b = bound_item(item, values)->Ok_0;
    if rest.len() == 0 {
        assert(all =~= seq![item]);
        assert(all.drop_last() =~= Seq::empty());
        assert(bound_items(all.drop_last(), values) == Ok::<Seq<SelectItemV>, ErrorV>(Seq::empty()));
        assert(Seq::<SelectItemV>::empty().push(b) =~= seq![b] + Seq::<SelectItemV>::empty());
    } else {
        lemma_bound_items_front(item, rest.drop_last(), values);
        assert(all.drop_last() =~= seq![item] + rest.drop_last());
        assert(all.last() == rest.last());
        let front = bound_items(rest.drop_last(), values)->Ok_0;
        let last = bound_item(rest.last(), values)->Ok_0;
        assert((seq![b] + front).push(last) =~= seq![b] + front.push(last));
    }
}

proof fn lemma_bound_one_item(item: SelectItemV, values: Seq<ExprV>)
    requires
        bound_item(item, values) is Ok,
    ensures
        bound_items(seq![item], values) == Ok::<Seq<SelectItemV>, ErrorV>(
            seq![bound_item(item, values)->Ok_0],
        ),
{
    let none = Seq::<SelectItemV>::empty();
    assert(bound_items(none, values) == Ok::<Seq<SelectItemV>, ErrorV>(none));
    lemma_bound_items_front(item, none, values);
    assert(seq![item] + none =~= seq![item]);
    assert(seq![bound_item(item, values)->Ok_0] + none =~= seq![bound_item(item, values)->Ok_0]);
}

// ---------- reading filled tokens ----------

proof fn lemma_filled_expr(
    ts: Seq<TokenV>,
    literals: Seq<TokenV>,
    values: Seq<ExprV>,
    p: Place,
)
    requires
        fills(ts, literals, values),
        counted_to(ts, p),
    ensures
        p_expr(ts, p, true) matches Ok((e, q)) ==> {
            &&& counted_to(ts, q)
            &&& bound_expr(e, values) matches Ok(b) && p_expr(filled(ts, literals), plain(p), false)
                == Ok::<(ExprV, Place), ErrorV>((b, plain(q)))
        },
    decreases ts.len() - p.pos, 0int,
{
    lemma_token(ts, literals, values, p.pos);
    lemma_token(ts, literals, values, p.pos + 1);
    lemma_token(ts, literals, values, p.pos + 2);
    let none = Seq::<ExprV>::empty();
    assert(bound_exprs(none, values) == Ok::<Seq<ExprV>, ErrorV>(none));
    match token_at(ts, p.pos) {
        Some(TokenV::Ident(_)) => {
            if token_at(ts, p.pos + 1) == Some(TokenV::LParen) && token_at(ts, p.pos + 2) != Some(
                TokenV::RParen,
            ) {
                lemma_filled_args(ts, literals, values, p.skip(2));
                match p_args(ts, p.skip(2), true) {
                    Ok((args, q)) => lemma_token(ts, literals, values, q.pos),
                    Err(_) => {},
                }
            }
        },
        _ => {},
    }
}

proof fn lemma_filled_args(
    ts: Seq<TokenV>,
    literals: Seq<TokenV>,
    values: Seq<ExprV>,
    p: Place,
)
    requires
        fills(ts, literals, values),
        counted_to(ts, p),
    ensures
        p_args(ts, p, true) matches Ok((es, q)) ==> {
            &&& counted_to(ts, q)
            &&& bound_exprs(es, values) matches Ok(b) && p_args(
                filled(ts, literals),
                plain(p),
                false,
            ) == Ok::<(Seq<ExprV>, Place), ErrorV>((b, plain(q)))
        },
    decreases ts.len() - p.pos, 1int,
{
    lemma_filled_expr(ts, literals, values, p);
    match p_expr(ts, p, true) {
        Ok((e, q)) => {
            lemma_token(ts, literals, values, q.pos);
            lemma_bound_one(e, values);
            if token_at(ts, q.pos) == Some(TokenV::Comma) && moved(ts, p, q) {
                lemma_filled_args(ts, literals, values, q.skip(1));
                match p_args(ts, q.skip(1), true) {
                    Ok((rest, _)) => lemma_bound_front(e, rest, values),
                    Err(_) => {},
                }
            }
        },
        Err(_) => {},
    }
}

proof fn lemma_filled_values(
    ts: Seq<TokenV>,
    literals: Seq<TokenV>,
    values: Seq<ExprV>,
    p: Place,
)
    requires
        fills(ts, literals, values),
        counted_to(ts, p),
    ensures
        p_values(ts, p, true) matches Ok((es, q)) ==> {
            &&& counted_to(ts, q)
            &&& bound_exprs(es, values) matches Ok(b) && p_values(
                filled(ts, literals),
                plain(p),
                false,
            ) == Ok::<(Seq<ExprV>, Place), ErrorV>((b, plain(q)))
        },
    decreases ts.len() - p.pos,
{
    lemma_filled_expr(ts, literals, values, p);
    match p_expr(ts, p, true) {
        Ok((e, q)) => {
            lemma_token(ts, literals, values, q.pos);
            lemma_bound_one(e, values);
            if token_at(ts, q.pos) == Some(TokenV::Comma) && moved(ts, p, q) {
                lemma_filled_values(ts, literals, values, q.skip(1));
                match p_values(ts, q.skip(1), true) {
                    Ok((rest, _)) => lemma_bound_front(e, rest, values),
                    Err(_) => {},
                }
            }
        },
        Err(_) => {},
    }
}

proof fn lemma_filled_rows(
    ts: Seq<TokenV>,
    literals: Seq<TokenV>,
    values: Seq<ExprV>,
    p: Place,
)
    requires
        fills(ts, literals, values),
        counted_to(ts, p),
    ensures
        p_rows(ts, p, true) matches Ok((rows, q)) ==> {
            &&& counted_to(ts, q)
            &&& bound_rows(rows, values) matches Ok(b) && p_rows(
                filled(ts, literals),
                plain(p),
                false,
            ) == Ok::<(Seq<Seq<ExprV>>, Place), ErrorV>((b, plain(q)))
        },
    decreases ts.len() - p.pos,
{
    lemma_token(ts, literals, values, p.pos);
    match p_token(ts, p, TokenV::LParen) {
        Ok(q0) => {
            lemma_filled_values(ts, literals, values, q0);
            match p_values(ts, q0, true) {
                Ok((row, q)) => {
                    lemma_token(ts, literals, values, q.pos);
                    lemma_bound_one_row(row, values);
                    if token_at(ts, q.pos) == Some(TokenV::Comma) && moved(ts, p, q) {
                        lemma_filled_rows(ts, literals, values, q.skip(1));
                        match p_rows(ts, q.skip(1), true) {
                            Ok((rest, _)) => lemma_bound_rows_front(row, rest, values),
                            Err(_) => {},
                        }
                    }
                },
                Err(_) => {},
            }
        },
        Err(_) => {},
    }
}

proof fn lemma_filled_alias(
    ts: Seq<TokenV>,
    literals: Seq<TokenV>,
    values: Seq<ExprV>,
    p: Place,
)
    requires
        fills(ts, literals, values),
        counted_to(ts, p),
    ensures
        p_alias(ts, p) matches Ok((alias, q)) ==> {
            &&& counted_to(ts, q)
            &&& p_alias(filled(ts, literals), plain(p)) == Ok::<
                (Option<Seq<char>>, Place),
                ErrorV,
            >((alias, plain(q)))
        },
{
    lemma_token(ts, literals, values, p.pos);
    lemma_token(ts, literals, values, p.pos + 1);
}

#[verifier::rlimit(40)]
proof fn lemma_filled_items(
    ts: Seq<TokenV>,
    literals: Seq<TokenV>,
    values: Seq<ExprV>,
    p: Place,
)
    requires
        fills(ts, literals, values),
        counted_to(ts, p),
    ensures
        p_projection(ts, p, true) matches Ok((items, q)) ==> {
            &&& counted_to(ts, q)
            &&& bound_items(items, values) matches Ok(b) && p_projection(
                filled(ts, literals),
                plain(p),
                false,
            ) == Ok::<(Seq<SelectItemV>, Place), ErrorV>((b, plain(q)))
        },
    decreases ts.len() - p.pos,
{
    lemma_token(ts, literals, values, p.pos);
    lemma_filled_expr(ts, literals, values, p);
    match p_expr(ts, p, true) {
        Ok((e, q)) => lemma_filled_alias(ts, literals, values, q),
        Err(_) => {},
    }
    match p_select_item(ts, p, true) {
        Ok((item, q)) => {
            assert(counted_to(ts, q));
            assert(bound_item(item, values) matches Ok(b) && p_select_item(
                filled(ts, literals),
                plain(p),
                false,
            ) == Ok::<(SelectItemV, Place), ErrorV>((b, plain(q))));
            lemma_token(ts, literals, values, q.pos);
            lemma_bound_one_item(item, values);
            if token_at(ts, q.pos) == Some(TokenV::Comma) && moved(ts, p, q) {
                lemma_filled_items(ts, literals, values, q.skip(1));
                match p_projection(ts, q.skip(1), true) {
                    Ok((rest, _)) => lemma_bound_items_front(item, rest, values),
                    Err(_) => {},
                }
            }
        },
        Err(_) => {},
    }
}

proof fn lemma_filled_qualified_rest(
    ts: Seq<TokenV>,
    literals: Seq<TokenV>,
    values: Seq<ExprV>,
    p: Place,
    name: Seq<char>,
)
    requires
        fills(ts, literals, values),
        counted_to(ts, p),
    ensures
        p_qualified_rest(ts, p, name) matches Ok((n, q)) ==> {
            &&& counted_to(ts, q)
            &&& p_qualified_rest(filled(ts, literals), plain(p), name) == Ok::<
                (Seq<char>, Place),
                ErrorV,
            >((n, plain(q)))
        },
    decreases ts.len() - p.pos,
{
    lemma_token(ts, literals, values, p.pos);
    lemma_token(ts, literals, values, p.pos + 1);
    if token_at(ts, p.pos) == Some(TokenV::Dot) {
        match p_ident(ts, p.skip(1)) {
            Ok((next, q)) => lemma_filled_qualified_rest(ts, literals, values, q, next),
            Err(_) => {},
        }
    }
}

proof fn lemma_filled_qualified(
    ts: Seq<TokenV>,
    literals: Seq<TokenV>,
    values: Seq<ExprV>,
    p: Place,
)
    requires
        fills(ts, literals, values),
        counted_to(ts, p),
    ensures
        p_qualified(ts, p) matches Ok((n, q)) ==> {
            &&& counted_to(ts, q)
            &&& p_qualified(filled(ts, literals), plain(p)) == Ok::<(Seq<char>, Place), ErrorV>(
                (n, plain(q)),
            )
        },
{
    lemma_token(ts, literals, values, p.pos);
    match p_ident(ts, p) {
        Ok((name, q)) => lemma_filled_qualified_rest(ts, literals, values, q, name),
        Err(_) => {},
    }
}

proof fn lemma_filled_names(
    ts: Seq<TokenV>,
    literals: Seq<TokenV>,
    values: Seq<ExprV>,
    p: Place,
)
    requires
        fills(ts, literals, values),
        counted_to(ts, p),
    ensures
        p_names(ts, p) matches Ok((ns, q)) ==> {
            &&& counted_to(ts, q)
            &&& p_names(filled(ts, literals), plain(p)) == Ok::<(Seq<Seq<char>>, Place), ErrorV>(
                (ns, plain(q)),
            )
        },
    decreases ts.len() - p.pos,
{
    lemma_token(ts, literals, values, p.pos);
    lemma_token(ts, literals, values, p.pos + 1);
    match p_ident(ts, p) {
        Ok((name, q)) => {
            if token_at(ts, q.pos) == Some(TokenV::Comma) {
                lemma_filled_names(ts, literals, values, q.skip(1));
            }
        },
        Err(_) => {},
    }
}

proof fn lemma_filled_condition(
    ts: Seq<TokenV>,
    literals: Seq<TokenV>,
    values: Seq<ExprV>,
    p: Place,
)
    requires
        fills(ts, literals, values),
        counted_to(ts, p),
    ensures
        p_condition(ts, p, true) matches Ok((c, q)) ==> {
            &&& counted_to(ts, q)
            &&& bound_expr(c.value, values) matches Ok(b) && p_condition(
                filled(ts, literals),
                plain(p),
                false,
            ) == Ok::<(ConditionV, Place), ErrorV>((ConditionV { value: b, ..c }, plain(q)))
        },
{
    lemma_token(ts, literals, values, p.pos);
    lemma_token(ts, literals, values, p.pos + 1);
    if p_condition(ts, p, true) is Ok {
        lemma_filled_expr(ts, literals, values, p.skip(2));
    }
}

#[verifier::rlimit(40)]
proof fn lemma_filled_from(
    ts: Seq<TokenV>,
    literals: Seq<TokenV>,
    values: Seq<ExprV>,
    p: Place,
)
    requires
        fills(ts, literals, values),
        counted_to(ts, p),
    ensures
        p_from(ts, p, true) matches Ok(((from, selection), q)) ==> {
            &&& counted_to(ts, q)
            &&& match selection {
                None => p_from(filled(ts, literals), plain(p), false) == Ok::<
                    ((Option<Seq<char>>, Option<ConditionV>), Place),
                    ErrorV,
                >(((from, None), plain(q))),
                Some(c) => bound_expr(c.value, values) matches Ok(b) && p_from(
                    filled(ts, literals),
                    plain(p),
                    false,
                ) == Ok::<((Option<Seq<char>>, Option<ConditionV>), Place), ErrorV>(
                    ((from, Some(ConditionV { value: b, ..c })), plain(q)),
                ),
            }
        },
{
    lemma_token(ts, literals, values, p.pos);
    if is_keyword(token_at(ts, p.pos), Keyword::From) {
        lemma_filled_qualified(ts, literals, values, p.skip(1));
        match p_qualified(ts, p.skip(1)) {
            Ok((table, q)) => {
                lemma_filled_alias(ts, literals, values, q);
                match p_alias(ts, q) {
                    Ok((_, q)) => {
                        lemma_token(ts, literals, values, q.pos);
                        if is_keyword(token_at(ts, q.pos), Keyword::Where) {
                            lemma_filled_condition(ts, literals, values, q.skip(1));
                        }
                    },
                    Err(_) => {},
                }
            },
            Err(_) => {},
        }
    }
}

#[verifier::rlimit(40)]
proof fn lemma_filled_insert(
    ts: Seq<TokenV>,
    literals: Seq<TokenV>,
    values: Seq<ExprV>,
    p: Place,
)
    requires
        fills(ts, literals, values),
        counted_to(ts, p),
    ensures
        p_insert(ts, p, true) matches Ok((s, q)) ==> {
            &&& counted_to(ts, q)
            &&& q.pos == ts.len()
            &&& bound_statement(s, values) matches Ok(b) && p_insert(
                filled(ts, literals),
                plain(p),
                false,
            ) == Ok::<(StatementV, Place), ErrorV>((b, plain(q)))
        },
{
    lemma_token(ts, literals, values, p.pos);
    lemma_token(ts, literals, values, p.pos + 1);
    if p_insert(ts, p, true) is Ok {
        let q = p.skip(2);
        lemma_filled_qualified(ts, literals, values, q);
        let q = p_qualified(ts, q)->Ok_0.1;
        lemma_token(ts, literals, values, q.pos);
        if token_at(ts, q.pos) == Some(TokenV::LParen) {
            lemma_filled_names(ts, literals, values, q.skip(1));
        }
        let q = p_insert_columns(ts, q)->Ok_0.1;
        lemma_token(ts, literals, values, q.pos);
        let q = q.skip(1);
        lemma_filled_rows(ts, literals, values, q);
        let q = p_rows(ts, q, true)->Ok_0.1;
        lemma_token(ts, literals, values, q.pos);
    }
}

#[verifier::rlimit(40)]
proof fn lemma_filled_select(
    ts: Seq<TokenV>,
    literals: Seq<TokenV>,
    values: Seq<ExprV>,
    p: Place,
)
    requires
        fills(ts, literals, values),
        counted_to(ts, p),
    ensures
        p_select(ts, p, true) matches Ok((s, q)) ==> {
            &&& counted_to(ts, q)
            &&& q.pos == ts.len()
            &&& bound_statement(s, values) matches Ok(b) && p_select(
                filled(ts, literals),
                plain(p),
                false,
            ) == Ok::<(StatementV, Place), ErrorV>((b, plain(q)))
        },
{
    lemma_token(ts, literals, values, p.pos);
    if p_select(ts, p, true) is Ok {
        let q = p.skip(1);
        lemma_filled_items(ts, literals, values, q);
        let q = p_projection(ts, q, true)->Ok_0.1;
        lemma_filled_from(ts, literals, values, q);
        let q = p_from(ts, q, true)->Ok_0.1;
        lemma_token(ts, literals, values, q.pos);
    }
}

/// Filling values into the placeholders of a query or an insertion gives the
/// very statement that is read where the literals of those values stand in the
/// text in the placeholders' places, the first for the first and so on. There
/// are as many placeholders as are counted.
pub proof fn law_filling_is_writing_the_values(
    ts: Seq<TokenV>,
    literals: Seq<TokenV>,
    values: Seq<ExprV>,
)
    requires
        fills(ts, literals, values),
    ensures
        statement_of(ts, true) matches Ok((s, n)) ==> (s is Insert || s is Select) ==> {
            &&& n == marks(ts)
            &&& bound_statement(s, values) matches Ok(b) && statement_of(
                filled(ts, literals),
                false,
            ) == Ok::<(StatementV, int), ErrorV>((b, 0))
        },
{
    reveal(p_statement);
    lemma_token(ts, literals, values, 0);
    match statement_of(ts, true) {
        Ok((s, n)) => {
            if s is Insert || s is Select {
                lemma_filled_insert(ts, literals, values, start());
                lemma_filled_select(ts, literals, values, start());
                lemma_only_rule(ts, s);
            }
        },
        Err(_) => {},
    }
}

/// Only the rules of `INSERT` and `SELECT` read such a statement.
proof fn lemma_only_rule(ts: Seq<TokenV>, s: StatementV)
    requires
        ts.len() > 0,
        s is Insert || s is Select,
        p_statement(ts, start(), true) matches Ok((x, _)) && x == s,
    ensures
        token_at(ts, 0) == Some(TokenV::Keyword(Keyword::Insert)) || token_at(ts, 0) == Some(
            TokenV::Keyword(Keyword::Select),
        ),
{
    reveal(p_statement);
}

} // verus!
