//! What the tables are that `CREATE TABLE` declares.
use vstd::prelude::*;

use crate::query::ast::ColumnDefV;
use crate::query::grammar::{column_named, p_constraint, with_primary_key, Place};
use crate::query::lexer::{Keyword, TokenV};
use crate::query::semantics::declared;
use crate::storage::value::{type_named, ColumnSchemaV};
use crate::text::upper;

verus! {

/// Whether column `k` is the first that is called `name`.
pub open spec fn is_first_named(columns: Seq<ColumnDefV>, name: Seq<char>, k: int) -> bool {
    &&& 0 <= k < columns.len()
    &&& columns[k].name == name
    &&& forall|j: int| 0 <= j < k ==> (#[trigger] columns[j]).name != name
}

/// Whether `after` is `before` with the first column called `name` made the
/// primary key, and nothing else changed.
pub open spec fn keyed(before: Seq<ColumnDefV>, name: Seq<char>, after: Seq<ColumnDefV>) -> bool {
    &&& after.len() == before.len()
    &&& exists|k: int| #[trigger] is_first_named(before, name, k)
    &&& forall|k: int, j: int|
        #[trigger] is_first_named(before, name, k) && 0 <= j < before.len() ==> if j == k {
            &&& after[j].is_primary_key
            &&& after[j].name == before[j].name
            &&& after[j].type_text == before[j].type_text
            &&& after[j].nullable == before[j].nullable
            &&& after[j].auto_increment == before[j].auto_increment
        } else {
            #[trigger] after[j] == before[j]
        }
}

/// Whether some column is called `name`.
pub open spec fn has_column(columns: Seq<ColumnDefV>, name: Seq<char>) -> bool {
    exists|j: int| 0 <= j < columns.len() && (#[trigger] columns[j]).name == name
}

proof fn lemma_column_named(columns: Seq<ColumnDefV>, name: Seq<char>, i: int)
    requires
        0 <= i,
        forall|j: int| 0 <= j < i && j < columns.len() ==> (#[trigger] columns[j]).name != name,
    ensures
        match column_named(columns, name, i) {
            Some(k) => is_first_named(columns, name, k),
            None => !has_column(columns, name),
        },
    decreases columns.len() - i,
{
    if i < columns.len() && columns[i].name != name {
        lemma_column_named(columns, name, i + 1);
    }
}

/// A table-level primary key of one column marks the first column of that
/// name, and leaves every other column as it is. It is refused exactly if no
/// column has the name, or if it names several.
pub proof fn law_primary_key_marks_its_column(columns: Seq<ColumnDefV>, names: Seq<Seq<char>>)
    ensures
        with_primary_key(columns, names) is Ok <==> names.len() == 1 && has_column(
            columns,
            names[0],
        ),
        with_primary_key(columns, names) matches Ok(after) ==> keyed(columns, names[0], after),
{
    if names.len() == 1 {
        lemma_column_named(columns, names[0], 0);
        match column_named(columns, names[0], 0) {
            Some(k) => {
                let after = with_primary_key(columns, names)->Ok_0;
                assert(is_first_named(columns, names[0], k));
                assert forall|m: int, j: int|
                    #[trigger] is_first_named(columns, names[0], m) && 0 <= j
                        < columns.len() implies if j == m {
                    &&& after[j].is_primary_key
                    &&& after[j].name == columns[j].name
                    &&& after[j].type_text == columns[j].type_text
                    &&& after[j].nullable == columns[j].nullable
                    &&& after[j].auto_increment == columns[j].auto_increment
                } else {
                    #[trigger] after[j] == columns[j]
                } by {
                    if m < k {
                        assert(columns[m].name != names[0]);
                    }
                    if k < m {
                        assert(columns[k].name != names[0]);
                    }
                }
            },
            None => {},
        }
    }
}

/// The clause `PRIMARY KEY (name)`, with or without `CONSTRAINT` and a name in
/// front, does that to the columns before it, and ends behind its parenthesis.
#[verifier::rlimit(40)]
pub proof fn law_primary_key_clause_marks_its_column(
    ts: Seq<TokenV>,
    p: Place,
    columns: Seq<ColumnDefV>,
    name: Seq<char>,
    rest: Seq<TokenV>,
    constraint: Seq<TokenV>,
)
    requires
        0 <= p.pos <= ts.len(),
        constraint == Seq::<TokenV>::empty() || (constraint.len() == 2
            && constraint[1] is Ident && (constraint[0] matches TokenV::Ident(w) && upper(w)
            == "CONSTRAINT"@)),
        ts.skip(p.pos) == constraint + seq![
            TokenV::Keyword(Keyword::Primary),
            TokenV::Keyword(Keyword::Key),
            TokenV::LParen,
            TokenV::Ident(name),
            TokenV::RParen,
        ] + rest,
    ensures
        has_column(columns, name) <==> p_constraint(ts, p, columns) is Ok,
        p_constraint(ts, p, columns) matches Ok((after, q)) ==> {
            &&& keyed(columns, name, after)
            &&& ts.skip(q.pos) == rest
            &&& q.params == p.params
        },
{
    let n = constraint.len() as int;
    let all = ts.skip(p.pos);
    let clause = seq![
        TokenV::Keyword(Keyword::Primary),
        TokenV::Keyword(Keyword::Key),
        TokenV::LParen,
        TokenV::Ident(name),
        TokenV::RParen,
    ];
    assert(all.len() == n + 5 + rest.len());
    assert forall|i: int| 0 <= i < 5 implies #[trigger] clause[i] == ts[p.pos + n + i] by {
        assert(all[n + i] == clause[i]);
    }
    assert(clause[0] == ts[p.pos + n + 0]);
    assert(clause[1] == ts[p.pos + n + 1]);
    assert(clause[2] == ts[p.pos + n + 2]);
    assert(clause[3] == ts[p.pos + n + 3]);
    assert(clause[4] == ts[p.pos + n + 4]);
    if n == 2 {
        assert(all[0] == constraint[0]);
        assert(all[1] == constraint[1]);
        assert(ts[p.pos] == constraint[0]);
        assert(ts[p.pos + 1] == constraint[1]);
    } else {
        assert(ts[p.pos] == TokenV::Keyword(Keyword::Primary));
    }
    assert(ts.skip(p.pos + n + 5) =~= rest) by {
        assert forall|i: int| 0 <= i < rest.len() implies ts.skip(p.pos + n + 5)[i] == rest[i] by {
            assert(all[n + 5 + i] == rest[i]);
        }
    }
    law_primary_key_marks_its_column(columns, seq![name]);
}

// ---------- declared tables ----------

/// Whether every definition can be declared beside the others: its type is
/// known, it is the only primary key if it is one, and it counts only as the
/// primary key.
pub open spec fn declarable(defs: Seq<ColumnDefV>) -> bool {
    &&& forall|i: int| 0 <= i < defs.len() ==> type_named((#[trigger] defs[i]).type_text) is Some
    &&& forall|i: int, j: int|
        0 <= i < j < defs.len() ==> !((#[trigger] defs[i]).is_primary_key && (
        #[trigger] defs[j]).is_primary_key)
    &&& forall|i: int|
        0 <= i < defs.len() ==> ((#[trigger] defs[i]).auto_increment ==> defs[i].is_primary_key)
}

/// Whether a column is the one that a definition asks for.
pub open spec fn as_defined(d: ColumnDefV, c: ColumnSchemaV) -> bool {
    &&& c.name == d.name
    &&& type_named(d.type_text) == Some(c.column_type)
    &&& c.nullable <==> d.nullable && !d.is_primary_key
    &&& c.auto_increment == d.auto_increment
}

/// A declared table has the columns of its definitions, in order, and the
/// primary key that one of them marks, if one does. It can be declared exactly
/// if the definitions fit together.
pub proof fn law_tables_are_as_defined(defs: Seq<ColumnDefV>)
    ensures
        declared(defs, defs.len() as int) is Ok <==> declarable(defs),
        declared(defs, defs.len() as int) matches Ok((columns, key)) ==> {
            &&& columns.len() == defs.len()
            &&& forall|i: int| 0 <= i < defs.len() ==> as_defined(#[trigger] defs[i], columns[i])
            &&& forall|i: int|
                0 <= i < defs.len() && (#[trigger] defs[i]).is_primary_key ==> key == Some(
                    defs[i].name,
                )
            &&& key is Some ==> exists|i: int|
                0 <= i < defs.len() && (#[trigger] defs[i]).is_primary_key
        },
{
    lemma_declared(defs, defs.len() as int);
    assert(defs.take(defs.len() as int) =~= defs);
}

proof fn lemma_declared(defs: Seq<ColumnDefV>, n: int)
    requires
        0 <= n <= defs.len(),
    ensures
        declared(defs, n) is Ok <==> declarable(defs.take(n)),
        declared(defs, n) matches Ok((columns, key)) ==> {
            &&& columns.len() == n
            &&& forall|i: int| 0 <= i < n ==> as_defined(#[trigger] defs[i], columns[i])
            &&& forall|i: int|
                0 <= i < n && (#[trigger] defs[i]).is_primary_key ==> key == Some(defs[i].name)
            &&& key is Some ==> exists|i: int| 0 <= i < n && (#[trigger] defs[i]).is_primary_key
        },
    decreases n,
{
    if n > 0 {
        lemma_declared(defs, n - 1);
        let a = defs.take(n - 1);
        let b = defs.take(n);
        let d = defs[n - 1];
        assert(b[n - 1] == d);
        assert forall|i: int| 0 <= i < n - 1 implies #[trigger] a[i] == b[i] by {}
        if declarable(b) {
            assert forall|i: int, j: int| 0 <= i < j < a.len() implies !((
            #[trigger] a[i]).is_primary_key && (#[trigger] a[j]).is_primary_key) by {
                assert(a[i] == b[i] && a[j] == b[j]);
            }
            assert forall|i: int| 0 <= i < a.len() implies type_named(
                (#[trigger] a[i]).type_text,
            ) is Some by {
                assert(a[i] == b[i]);
            }
            assert forall|i: int|
                0 <= i < a.len() && (#[trigger] a[i]).auto_increment implies a[i].is_primary_key by {
                assert(a[i] == b[i]);
            }
            assert(declarable(a));
            let (columns, key) = declared(defs, n - 1)->Ok_0;
            if d.is_primary_key && key is Some {
                let i = choose|i: int| 0 <= i < n - 1 && (#[trigger] defs[i]).is_primary_key;
                assert(b[i] == defs[i]);
                assert(false);
            }
        }
        if declared(defs, n) is Ok {
            let (columns, key) = declared(defs, n)->Ok_0;
            assert(declarable(a));
            if d.is_primary_key {
                assert(defs[n - 1].is_primary_key);
            }
            assert forall|i: int, j: int| 0 <= i < j < b.len() implies !((
            #[trigger] b[i]).is_primary_key && (#[trigger] b[j]).is_primary_key) by {
                assert(a[i] == b[i]);
                if j < n - 1 {
                    assert(a[j] == b[j]);
                } else {
                    assert(defs[i] == b[i]);
                }
            }
            assert forall|i: int| 0 <= i < b.len() implies type_named(
                (#[trigger] b[i]).type_text,
            ) is Some by {
                if i < n - 1 {
                    assert(a[i] == b[i]);
                }
            }
            assert forall|i: int|
                0 <= i < b.len() && (#[trigger] b[i]).auto_increment implies b[i].is_primary_key by {
                if i < n - 1 {
                    assert(a[i] == b[i]);
                }
            }
        }
    }
}

} // verus!
