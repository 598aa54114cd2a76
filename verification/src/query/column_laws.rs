//! Column definitions: their attributes may stand in any order.
use vstd::prelude::*;

use crate::error::ErrorV;
use crate::query::ast::ColumnDefV;
use crate::query::grammar::{
    is_keyword, is_word, p_args, p_attributes, p_column_def, p_expr, p_numeric_flags,
    p_type_size, token_at, AttributesV, Place,
};
use crate::query::lexer::{Keyword, TokenV};

verus! {

// ---------- clauses ----------

/// `NULL`.
pub open spec fn is_null_clause(c: Seq<TokenV>) -> bool {
    c.len() == 1 && is_keyword(token_at(c, 0), Keyword::Null)
}

/// `NOT NULL`.
pub open spec fn is_not_null_clause(c: Seq<TokenV>) -> bool {
    c.len() == 2 && is_word(token_at(c, 0), "NOT"@) && is_keyword(token_at(c, 1), Keyword::Null)
}

/// `AUTO_INCREMENT`.
pub open spec fn is_auto_clause(c: Seq<TokenV>) -> bool {
    c.len() == 1 && is_word(token_at(c, 0), "AUTO_INCREMENT"@)
}

/// `PRIMARY KEY`.
pub open spec fn is_key_clause(c: Seq<TokenV>) -> bool {
    c.len() == 2 && is_keyword(token_at(c, 0), Keyword::Primary) && is_keyword(
        token_at(c, 1),
        Keyword::Key,
    )
}

/// `UNIQUE` or `UNIQUE KEY`.
pub open spec fn is_unique_clause(c: Seq<TokenV>) -> bool {
    &&& is_word(token_at(c, 0), "UNIQUE"@)
    &&& c.len() == 1 || c.len() == 2 && is_keyword(token_at(c, 1), Keyword::Key)
}

/// `DEFAULT` and a value.
pub open spec fn is_default_clause(c: Seq<TokenV>, allow: bool) -> bool {
    &&& is_word(token_at(c, 0), "DEFAULT"@)
    &&& p_expr(c, Place { pos: 1, params: 0 }, allow) matches Ok((_, q)) && q.pos == c.len()
}

/// `COMMENT` and a string.
pub open spec fn is_comment_clause(c: Seq<TokenV>) -> bool {
    c.len() == 2 && is_word(token_at(c, 0), "COMMENT"@) && (token_at(c, 1) matches Some(
        TokenV::Str(_),
    ))
}

/// Whether `c` is one attribute of a column, well formed.
pub open spec fn is_attribute(c: Seq<TokenV>, allow: bool) -> bool {
    ||| is_null_clause(c)
    ||| is_not_null_clause(c)
    ||| is_auto_clause(c)
    ||| is_key_clause(c)
    ||| is_unique_clause(c)
    ||| is_default_clause(c, allow)
    ||| is_comment_clause(c)
}

/// Clauses, one after the other.
pub open spec fn written(cs: Seq<Seq<TokenV>>) -> Seq<TokenV>
    decreases cs.len(),
{
    if cs.len() == 0 {
        Seq::empty()
    } else {
        cs[0] + written(cs.drop_first())
    }
}

/// Whether `part` stands in `ts` from `pos` on.
pub open spec fn reads_at(ts: Seq<TokenV>, pos: int, part: Seq<TokenV>) -> bool {
    &&& 0 <= pos
    &&& pos + part.len() <= ts.len()
    &&& forall|i: int| 0 <= i < part.len() ==> ts[pos + i] == #[trigger] part[i]
}

/// Whether the clauses `cs` stand in `ts` from `pos` on, and a `,` or `)`
/// behind them.
pub open spec fn attributes_stand(ts: Seq<TokenV>, pos: int, cs: Seq<Seq<TokenV>>) -> bool {
    &&& reads_at(ts, pos, written(cs))
    &&& {
        let end = token_at(ts, pos + written(cs).len());
        end == Some(TokenV::Comma) || end == Some(TokenV::RParen)
    }
}

/// Whether each of `cs` is an attribute.
pub open spec fn all_attributes(cs: Seq<Seq<TokenV>>, allow: bool) -> bool {
    forall|i: int| 0 <= i < cs.len() ==> is_attribute(#[trigger] cs[i], allow)
}

/// What a column is before any attribute.
pub open spec fn plain() -> AttributesV {
    AttributesV { is_primary_key: false, nullable: true, auto_increment: false }
}

/// What the clauses `cs` make of a column, whatever their order.
pub open spec fn said_by(cs: Seq<Seq<TokenV>>) -> AttributesV {
    AttributesV {
        is_primary_key: exists|i: int| 0 <= i < cs.len() && is_key_clause(#[trigger] cs[i]),
        nullable: !exists|i: int| 0 <= i < cs.len() && is_not_null_clause(#[trigger] cs[i]),
        auto_increment: exists|i: int| 0 <= i < cs.len() && is_auto_clause(#[trigger] cs[i]),
    }
}

/// Whether the clauses do not say both `NULL` and `NOT NULL`.
pub open spec fn agree_on_null(cs: Seq<Seq<TokenV>>) -> bool {
    !((exists|i: int| 0 <= i < cs.len() && is_null_clause(#[trigger] cs[i])) && (exists|i: int|
        0 <= i < cs.len() && is_not_null_clause(#[trigger] cs[i])))
}

// ---------- values read the same anywhere ----------

/// Whether a value that is read in `part` is read the same way where `part`
/// stands in a longer text.
spec fn reads_alike<T>(
    near: Result<(T, Place), ErrorV>,
    far: Result<(T, Place), ErrorV>,
    pos: int,
    more: int,
) -> bool {
    near matches Ok((_, q)) ==> (far matches Ok((_, r)) && r.pos == pos + q.pos && r.params == q.params
        + more)
}

proof fn lemma_expr_anywhere(
    part: Seq<TokenV>,
    ts: Seq<TokenV>,
    pos: int,
    p: Place,
    more: int,
    allow: bool,
)
    requires
        reads_at(ts, pos, part),
        0 <= p.pos <= part.len(),
        token_at(ts, pos + part.len()) != Some(TokenV::LParen),
    ensures
        reads_alike(
            p_expr(part, p, allow),
            p_expr(ts, Place { pos: pos + p.pos, params: p.params + more }, allow),
            pos,
            more,
        ),
        p_expr(part, p, allow) matches Ok((_, q)) ==> p.pos < q.pos <= part.len(),
    decreases part.len() - p.pos, 0int,
{
    let far = Place { pos: pos + p.pos, params: p.params + more };
    if p.pos < part.len() {
        assert(ts[pos + p.pos] == part[p.pos]);
        if p.pos + 1 < part.len() {
            assert(ts[pos + (p.pos + 1)] == part[p.pos + 1]);
        }
        if p.pos + 2 < part.len() {
            assert(ts[pos + (p.pos + 2)] == part[p.pos + 2]);
        }
        match part[p.pos] {
            TokenV::Ident(_) => {
                if token_at(part, p.pos + 1) == Some(TokenV::LParen) {
                    lemma_args_anywhere(part, ts, pos, p.skip(2), more, allow);
                    match p_args(part, p.skip(2), allow) {
                        Ok((_, q)) => {
                            if q.pos < part.len() {
                                assert(ts[pos + q.pos] == part[q.pos]);
                            }
                        },
                        Err(_) => {},
                    }
                    assert(far.skip(2) == Place {
                        pos: pos + p.skip(2).pos,
                        params: p.skip(2).params + more,
                    });
                }
            },
            _ => {},
        }
    }
}

proof fn lemma_args_anywhere(
    part: Seq<TokenV>,
    ts: Seq<TokenV>,
    pos: int,
    p: Place,
    more: int,
    allow: bool,
)
    requires
        reads_at(ts, pos, part),
        0 <= p.pos <= part.len(),
        token_at(ts, pos + part.len()) != Some(TokenV::LParen),
    ensures
        p_args(part, p, allow) matches Ok((_, q)) ==> p.pos < q.pos <= part.len() && (q.pos
            < part.len() ==> reads_alike(
            p_args(part, p, allow),
            p_args(ts, Place { pos: pos + p.pos, params: p.params + more }, allow),
            pos,
            more,
        )),
    decreases part.len() - p.pos, 1int,
{
    let far = Place { pos: pos + p.pos, params: p.params + more };
    lemma_expr_anywhere(part, ts, pos, p, more, allow);
    match p_expr(part, p, allow) {
        Ok((_, q)) => {
            if q.pos < part.len() {
                assert(ts[pos + q.pos] == part[q.pos]);
                let r = p_expr(ts, far, allow)->Ok_0.1;
                assert(r == Place { pos: pos + q.pos, params: q.params + more });
                if part[q.pos] == TokenV::Comma {
                    lemma_args_anywhere(part, ts, pos, q.skip(1), more, allow);
                    assert(r.skip(1) == Place {
                        pos: pos + q.skip(1).pos,
                        params: q.skip(1).params + more,
                    });
                }
            }
        },
        Err(_) => {},
    }
}

// ---------- one clause ----------

/// What one clause changes.
spec fn changed_by(a: AttributesV, c: Seq<TokenV>) -> AttributesV {
    if is_null_clause(c) {
        AttributesV { nullable: true, ..a }
    } else if is_not_null_clause(c) {
        AttributesV { nullable: false, ..a }
    } else if is_auto_clause(c) {
        AttributesV { auto_increment: true, ..a }
    } else if is_key_clause(c) {
        AttributesV { is_primary_key: true, ..a }
    } else {
        a
    }
}

/// No word is two of those that start a clause.
pub proof fn lemma_words_differ(t: Option<TokenV>)
    ensures
        is_word(t, "NOT"@) ==> !is_word(t, "AUTO_INCREMENT"@) && !is_word(t, "UNIQUE"@) && !is_word(
            t,
            "DEFAULT"@,
        ) && !is_word(t, "COMMENT"@),
        is_word(t, "AUTO_INCREMENT"@) ==> !is_word(t, "UNIQUE"@) && !is_word(t, "DEFAULT"@)
            && !is_word(t, "COMMENT"@),
        is_word(t, "UNIQUE"@) ==> !is_word(t, "DEFAULT"@) && !is_word(t, "COMMENT"@),
        is_word(t, "DEFAULT"@) ==> !is_word(t, "COMMENT"@),
{
    reveal_strlit("NOT");
    reveal_strlit("AUTO_INCREMENT");
    reveal_strlit("UNIQUE");
    reveal_strlit("DEFAULT");
    reveal_strlit("COMMENT");
    assert("NOT"@.len() == 3 && "AUTO_INCREMENT"@.len() == 14 && "UNIQUE"@.len() == 6);
    assert("DEFAULT"@.len() == 7 && "COMMENT"@.len() == 7);
    assert("DEFAULT"@[0] != "COMMENT"@[0]);
}

/// A clause is not empty, and nothing that starts one belongs to the clause
/// before it.
proof fn lemma_clause_starts(c: Seq<TokenV>, allow: bool)
    requires
        is_attribute(c, allow),
    ensures
        c.len() > 0,
        c[0] != TokenV::LParen,
        !is_keyword(Some(c[0]), Keyword::Key),
{
}

/// Reading one clause.
proof fn lemma_one_attribute(
    ts: Seq<TokenV>,
    p: Place,
    allow: bool,
    a: AttributesV,
    c: Seq<TokenV>,
) -> (q: Place)
    requires
        is_attribute(c, allow),
        reads_at(ts, p.pos, c),
        token_at(ts, p.pos + c.len()) is Some,
        token_at(ts, p.pos + c.len()) != Some(TokenV::LParen),
        !is_keyword(token_at(ts, p.pos + c.len()), Keyword::Key),
    ensures
        q.pos == p.pos + c.len(),
        p_attributes(ts, p, allow, a) == p_attributes(ts, q, allow, changed_by(a, c)),
{
    lemma_clause_starts(c, allow);
    assert(ts[p.pos + 0] == c[0]);
    if c.len() > 1 {
        assert(ts[p.pos + 1] == c[1]);
    }
    let t = token_at(ts, p.pos);
    assert(t == token_at(c, 0));
    lemma_words_differ(t);
    if is_default_clause(c, allow) {
        lemma_expr_anywhere(c, ts, p.pos, Place { pos: 1, params: 0 }, p.params, allow);
        assert(Place { pos: p.pos + 1, params: 0 + p.params } == p.skip(1));
        p_expr(ts, p.skip(1), allow)->Ok_0.1
    } else {
        p.skip(c.len() as int)
    }
}

// ---------- all clauses ----------

spec fn changed_by_all(a: AttributesV, cs: Seq<Seq<TokenV>>) -> AttributesV
    decreases cs.len(),
{
    if cs.len() == 0 {
        a
    } else {
        changed_by_all(changed_by(a, cs[0]), cs.drop_first())
    }
}

proof fn lemma_all_attributes(
    ts: Seq<TokenV>,
    p: Place,
    allow: bool,
    a: AttributesV,
    cs: Seq<Seq<TokenV>>,
) -> (q: Place)
    requires
        all_attributes(cs, allow),
        attributes_stand(ts, p.pos, cs),
    ensures
        q.pos == p.pos + written(cs).len(),
        p_attributes(ts, p, allow, a) == Ok::<(AttributesV, Place), ErrorV>(
            (changed_by_all(a, cs), q),
        ),
    decreases cs.len(),
{
    if cs.len() == 0 {
        p
    } else {
        let rest = cs.drop_first();
        let c = cs[0];
        let all = written(cs);
        assert(is_attribute(cs[0], allow));
        assert forall|i: int| 0 <= i < rest.len() implies is_attribute(#[trigger] rest[i], allow) by {
            assert(is_attribute(cs[i + 1], allow));
        }
        assert forall|i: int| 0 <= i < c.len() implies ts[p.pos + i] == #[trigger] c[i] by {
            assert(all[i] == c[i]);
        }
        let after = p.pos + c.len();
        assert forall|i: int| 0 <= i < written(rest).len() implies ts[after + i] == #[trigger] written(
            rest,
        )[i] by {
            assert(all[c.len() + i] == written(rest)[i]);
            assert(ts[p.pos + (c.len() + i)] == all[c.len() + i]);
        }
        if rest.len() > 0 {
            assert(is_attribute(rest[0], allow));
            lemma_clause_starts(rest[0], allow);
            assert(written(rest)[0] == rest[0][0]);
            assert(ts[after + 0] == written(rest)[0]);
        } else {
            assert(written(rest) =~= Seq::empty());
            assert(all =~= c);
        }
        let mid = lemma_one_attribute(ts, p, allow, a, c);
        lemma_all_attributes(ts, mid, allow, changed_by(a, c), rest)
    }
}

spec fn some_key(cs: Seq<Seq<TokenV>>) -> bool {
    exists|i: int| 0 <= i < cs.len() && is_key_clause(#[trigger] cs[i])
}

spec fn some_auto(cs: Seq<Seq<TokenV>>) -> bool {
    exists|i: int| 0 <= i < cs.len() && is_auto_clause(#[trigger] cs[i])
}

spec fn some_not_null(cs: Seq<Seq<TokenV>>) -> bool {
    exists|i: int| 0 <= i < cs.len() && is_not_null_clause(#[trigger] cs[i])
}

spec fn some_null(cs: Seq<Seq<TokenV>>) -> bool {
    exists|i: int| 0 <= i < cs.len() && is_null_clause(#[trigger] cs[i])
}

proof fn lemma_first_or_rest(cs: Seq<Seq<TokenV>>)
    requires
        cs.len() > 0,
    ensures
        some_key(cs) <==> is_key_clause(cs[0]) || some_key(cs.drop_first()),
        some_auto(cs) <==> is_auto_clause(cs[0]) || some_auto(cs.drop_first()),
        some_not_null(cs) <==> is_not_null_clause(cs[0]) || some_not_null(cs.drop_first()),
        some_null(cs) <==> is_null_clause(cs[0]) || some_null(cs.drop_first()),
{
    let rest = cs.drop_first();
    assert(forall|i: int| 0 <= i < rest.len() ==> #[trigger] rest[i] == cs[i + 1]);
    assert(forall|i: int| 0 < i < cs.len() ==> #[trigger] cs[i] == rest[i - 1]);
}

proof fn lemma_changed_by_all(a: AttributesV, cs: Seq<Seq<TokenV>>)
    requires
        agree_on_null(cs),
    ensures
        changed_by_all(a, cs) == (AttributesV {
            is_primary_key: a.is_primary_key || some_key(cs),
            nullable: if some_not_null(cs) {
                false
            } else {
                a.nullable || some_null(cs)
            },
            auto_increment: a.auto_increment || some_auto(cs),
        }),
    decreases cs.len(),
{
    if cs.len() > 0 {
        lemma_first_or_rest(cs);
        lemma_words_differ(token_at(cs[0], 0));
        assert(!(some_null(cs) && some_not_null(cs)));
        assert(!(some_null(cs.drop_first()) && some_not_null(cs.drop_first())));
        lemma_changed_by_all(changed_by(a, cs[0]), cs.drop_first());
    }
}

/// The attributes of a column are those that its clauses say, and reading them
/// ends at the `,` or `)` behind them.
pub proof fn law_attributes_are_what_the_clauses_say(
    ts: Seq<TokenV>,
    p: Place,
    cs: Seq<Seq<TokenV>>,
    allow: bool,
)
    requires
        all_attributes(cs, allow),
        attributes_stand(ts, p.pos, cs),
        agree_on_null(cs),
    ensures
        p_attributes(ts, p, allow, plain()) matches Ok((a, q)) && a == said_by(cs) && q.pos == p.pos
            + written(cs).len(),
{
    let q = lemma_all_attributes(ts, p, allow, plain(), cs);
    lemma_changed_by_all(plain(), cs);
    assert(some_key(cs) == said_by(cs).is_primary_key);
    assert(some_auto(cs) == said_by(cs).auto_increment);
    assert(some_not_null(cs) == !said_by(cs).nullable);
}

proof fn lemma_same_clauses(a: Seq<Seq<TokenV>>, b: Seq<Seq<TokenV>>, c: Seq<TokenV>)
    requires
        a.to_multiset() == b.to_multiset(),
    ensures
        a.contains(c) == b.contains(c),
{
    a.to_multiset_ensures();
    b.to_multiset_ensures();
    assert(a.contains(c) <==> a.to_multiset().count(c) > 0);
    assert(b.contains(c) <==> b.to_multiset().count(c) > 0);
}

/// Clauses in another order say the same.
proof fn lemma_said_in_any_order(a: Seq<Seq<TokenV>>, b: Seq<Seq<TokenV>>, allow: bool)
    requires
        a.to_multiset() == b.to_multiset(),
    ensures
        some_key(a) ==> some_key(b),
        some_auto(a) ==> some_auto(b),
        some_not_null(a) ==> some_not_null(b),
        some_null(a) ==> some_null(b),
        all_attributes(b, allow) ==> all_attributes(a, allow),
{
    assert forall|i: int| 0 <= i < a.len() implies exists|j: int|
        0 <= j < b.len() && b[j] == #[trigger] a[i] by {
        assert(a.contains(a[i]));
        lemma_same_clauses(a, b, a[i]);
        let j = b.index_of(a[i]);
        assert(b[j] == a[i]);
    }
    if some_key(a) {
        let i = choose|i: int| 0 <= i < a.len() && is_key_clause(#[trigger] a[i]);
        let j = choose|j: int| 0 <= j < b.len() && b[j] == a[i];
        assert(is_key_clause(b[j]));
    }
    if some_auto(a) {
        let i = choose|i: int| 0 <= i < a.len() && is_auto_clause(#[trigger] a[i]);
        let j = choose|j: int| 0 <= j < b.len() && b[j] == a[i];
        assert(is_auto_clause(b[j]));
    }
    if some_not_null(a) {
        let i = choose|i: int| 0 <= i < a.len() && is_not_null_clause(#[trigger] a[i]);
        let j = choose|j: int| 0 <= j < b.len() && b[j] == a[i];
        assert(is_not_null_clause(b[j]));
    }
    if some_null(a) {
        let i = choose|i: int| 0 <= i < a.len() && is_null_clause(#[trigger] a[i]);
        let j = choose|j: int| 0 <= j < b.len() && b[j] == a[i];
        assert(is_null_clause(b[j]));
    }
    if all_attributes(b, allow) {
        assert forall|i: int| 0 <= i < a.len() implies is_attribute(#[trigger] a[i], allow) by {
            let j = choose|j: int| 0 <= j < b.len() && b[j] == a[i];
            assert(is_attribute(b[j], allow));
        }
    }
}

/// Whether a column definition stands at `p`: a name, a type, and then the
/// clauses `cs`.
pub open spec fn column_stands(
    ts: Seq<TokenV>,
    p: Place,
    name: Seq<char>,
    type_text: Seq<char>,
    cs: Seq<Seq<TokenV>>,
) -> bool {
    &&& token_at(ts, p.pos) == Some(TokenV::Ident(name))
    &&& token_at(ts, p.pos + 1) matches Some(TokenV::Ident(base)) && (p_type_size(
        ts,
        p.skip(2),
        base,
    ) matches Ok((t, q)) && t == type_text && attributes_stand(ts, p_numeric_flags(ts, q).pos, cs))
}

/// Where the clauses of a column definition end.
pub open spec fn column_end(ts: Seq<TokenV>, p: Place, cs: Seq<Seq<TokenV>>) -> int {
    match token_at(ts, p.pos + 1) {
        Some(TokenV::Ident(base)) => match p_type_size(ts, p.skip(2), base) {
            Ok((_, q)) => p_numeric_flags(ts, q).pos + written(cs).len(),
            Err(_) => p.pos,
        },
        _ => p.pos,
    }
}

/// The attributes of a column may stand in any order: two definitions with the
/// same name, the same type and the same clauses define the same column, and
/// reading each ends at the `,` or `)` behind it.
pub proof fn law_attribute_order_does_not_matter(
    ts: Seq<TokenV>,
    p: Place,
    cs: Seq<Seq<TokenV>>,
    other_ts: Seq<TokenV>,
    other_p: Place,
    other_cs: Seq<Seq<TokenV>>,
    name: Seq<char>,
    type_text: Seq<char>,
    allow: bool,
)
    requires
        all_attributes(cs, allow),
        agree_on_null(cs),
        cs.to_multiset() == other_cs.to_multiset(),
        column_stands(ts, p, name, type_text, cs),
        column_stands(other_ts, other_p, name, type_text, other_cs),
    ensures
        ({
            let column = ColumnDefV {
                name,
                type_text,
                is_primary_key: said_by(cs).is_primary_key,
                nullable: said_by(cs).nullable,
                auto_increment: said_by(cs).auto_increment,
            };
            &&& p_column_def(ts, p, allow) matches Ok((c, q)) && c == column && q.pos == column_end(
                ts,
                p,
                cs,
            )
            &&& p_column_def(other_ts, other_p, allow) matches Ok((c, q)) && c == column && q.pos
                == column_end(other_ts, other_p, other_cs)
        }),
{
    lemma_said_in_any_order(cs, other_cs, allow);
    lemma_said_in_any_order(other_cs, cs, allow);
    assert(!(some_null(cs) && some_not_null(cs)));
    assert(!(some_null(other_cs) && some_not_null(other_cs)));
    assert(said_by(cs) == said_by(other_cs)) by {
        assert(some_key(cs) == said_by(cs).is_primary_key);
        assert(some_key(other_cs) == said_by(other_cs).is_primary_key);
        assert(some_auto(cs) == said_by(cs).auto_increment);
        assert(some_auto(other_cs) == said_by(other_cs).auto_increment);
        assert(some_not_null(cs) == !said_by(cs).nullable);
        assert(some_not_null(other_cs) == !said_by(other_cs).nullable);
    }
    lemma_column_read(ts, p, cs, allow, name, type_text);
    lemma_column_read(other_ts, other_p, other_cs, allow, name, type_text);
}

proof fn lemma_column_read(
    ts: Seq<TokenV>,
    p: Place,
    cs: Seq<Seq<TokenV>>,
    allow: bool,
    name: Seq<char>,
    type_text: Seq<char>,
)
    requires
        all_attributes(cs, allow),
        agree_on_null(cs),
        column_stands(ts, p, name, type_text, cs),
    ensures
        p_column_def(ts, p, allow) matches Ok((c, q)) && c == (ColumnDefV {
            name,
            type_text,
            is_primary_key: said_by(cs).is_primary_key,
            nullable: said_by(cs).nullable,
            auto_increment: said_by(cs).auto_increment,
        }) && q.pos == column_end(ts, p, cs),
{
    if let Some(TokenV::Ident(base)) = token_at(ts, p.pos + 1) {
        if let Ok((_, q)) = p_type_size(ts, p.skip(2), base) {
            law_attributes_are_what_the_clauses_say(ts, p_numeric_flags(ts, q), cs, allow);
        }
    }
}

} // verus!
