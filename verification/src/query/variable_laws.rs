//! What clients read of the server's variables.
use vstd::prelude::*;

use crate::numerals::{is_numeral_of, law_numbers_are_written_as_their_numerals};
use crate::query::ast::{ExprV, ShowStatementV, StatementV};
use crate::query::eval::is_like;
use crate::query::order::{in_order, lemma_in_order};
use crate::query::semantics::{executed, name_rows, show, variable_rows};
use crate::query::typed_laws::{law_texts_are_ordered_as_in_a_dictionary, precedes};
use crate::query::variables::{
    bare_name, function_value, known, value_from, variable, SystemVariablesV,
};
use crate::storage::model::StoreV;
use crate::storage::value::ValueV;
use crate::text::{decimal, lemma_decimal_round_trip, lower, text_less};

verus! {

/// The variables that a `SHOW VARIABLES` lists.
pub open spec fn wanted(like: Option<Seq<char>>) -> spec_fn((Seq<char>, ValueV)) -> bool {
    |x: (Seq<char>, ValueV)|
        match like {
            Some(pattern) => is_like(pattern, x.0),
            None => true,
        }
}

proof fn lemma_variable_rows(list: Seq<(Seq<char>, ValueV)>, like: Option<Seq<char>>, n: int)
    requires
        0 <= n <= list.len(),
    ensures
        ({
            let found = list.take(n).filter(wanted(like));
            let rows = variable_rows(list, like, n);
            &&& rows.len() == found.len()
            &&& forall|i: int|
                0 <= i < found.len() ==> (#[trigger] rows[i]).len() == 2 && rows[i][0]
                    == ValueV::Varchar(found[i].0) && rows[i][1] == found[i].1
        }),
    decreases n,
{
    reveal(Seq::filter);
    if n > 0 {
        lemma_variable_rows(list, like, n - 1);
        assert(list.take(n).drop_last() =~= list.take(n - 1));
        assert(list.take(n).last() == list[n - 1]);
    }
}

/// `SHOW VARIABLES` lists the variables whose names are like the pattern, or
/// all of them, in their order and with their values.
pub proof fn law_variables_are_listed(
    s: StoreV,
    v: SystemVariablesV,
    like: Option<Seq<char>>,
)
    ensures
        ({
            let found = known(v).filter(wanted(like));
            let r = show(s, v, ShowStatementV::Variables { like });
            &&& r.columns.len() == 2
            &&& r.rows.len() == found.len()
            &&& forall|i: int|
                0 <= i < found.len() ==> (#[trigger] r.rows[i]).len() == 2 && r.rows[i][0]
                    == ValueV::Varchar(found[i].0) && r.rows[i][1] == found[i].1
            &&& like is None ==> found == known(v)
        }),
{
    let all = known(v);
    lemma_variable_rows(all, like, all.len() as int);
    assert(all.take(all.len() as int) =~= all);
    if like is None {
        lemma_all_wanted(all);
    }
}

proof fn lemma_all_wanted(list: Seq<(Seq<char>, ValueV)>)
    ensures
        list.filter(wanted(None)) == list,
    decreases list.len(),
{
    reveal(Seq::filter);
    if list.len() > 0 {
        lemma_all_wanted(list.drop_last());
        assert(list.drop_last().push(list.last()) =~= list);
    } else {
        assert(list.filter(wanted(None)) =~= list);
    }
}

/// Whether a name is `base`, whatever its case, with or without a scope in
/// front of it.
pub open spec fn names(name: Seq<char>, base: Seq<char>) -> bool {
    let s = lower(name);
    ||| s == base
    ||| s == "session."@ + base
    ||| s == "global."@ + base
    ||| s == "local."@ + base
}

proof fn lemma_scopes()
    ensures
        "session."@.len() == 8 && "session."@[0] == 's' && "session."@[7] == '.',
        "global."@.len() == 7 && "global."@[0] == 'g' && "global."@[6] == '.',
        "local."@.len() == 6 && "local."@[0] == 'l' && "local."@[5] == '.',
{
    reveal_strlit("session.");
    reveal_strlit("global.");
    reveal_strlit("local.");
}

/// Whether a name has no scope: no `.` in it.
pub open spec fn is_bare(base: Seq<char>) -> bool {
    forall|i: int| 0 <= i < base.len() ==> #[trigger] base[i] != '.'
}

proof fn lemma_bare(name: Seq<char>, base: Seq<char>)
    requires
        names(name, base),
        is_bare(base),
    ensures
        bare_name(name) == base,
{
    lemma_scopes();
    let s = lower(name);
    let a = "session."@;
    let b = "global."@;
    let c = "local."@;
    if s == a + base {
        assert(a.is_prefix_of(s)) by {
            assert(s.subrange(0, 8) =~= a);
        }
        assert(s.subrange(8, s.len() as int) =~= base);
    } else if s == b + base {
        assert(s[0] == 'g');
        if a.is_prefix_of(s) {
            assert(s.subrange(0, 8)[0] == a[0]);
        }
        assert(b.is_prefix_of(s)) by {
            assert(s.subrange(0, 7) =~= b);
        }
        assert(s.subrange(7, s.len() as int) =~= base);
    } else if s == c + base {
        assert(s[0] == 'l');
        if a.is_prefix_of(s) {
            assert(s.subrange(0, 8)[0] == a[0]);
        }
        if b.is_prefix_of(s) {
            assert(s.subrange(0, 7)[0] == b[0]);
        }
        assert(c.is_prefix_of(s)) by {
            assert(s.subrange(0, 6) =~= c);
        }
        assert(s.subrange(6, s.len() as int) =~= base);
    } else {
        if a.is_prefix_of(s) {
            assert(s.subrange(0, 8)[7] == a[7]);
            assert(base[7] == '.');
        }
        if b.is_prefix_of(s) {
            assert(s.subrange(0, 7)[6] == b[6]);
            assert(base[6] == '.');
        }
        if c.is_prefix_of(s) {
            assert(s.subrange(0, 6)[5] == c[5]);
            assert(base[5] == '.');
        }
    }
}

/// A number as it is reported: itself, as far as a column can hold it.
pub open spec fn reported_number(n: int, value: ValueV) -> bool {
    &&& n <= i64::MAX ==> value == ValueV::Int(n as i64)
    &&& n > i64::MAX ==> value == ValueV::Int(i64::MAX)
}

/// Variables are read under their names, whatever the case and the scope: the
/// server's version, its limit on packets, its timeout, and that every
/// statement commits. A name that is not listed reads as `NULL`.
pub proof fn law_variables_are_read_by_name(v: SystemVariablesV, name: Seq<char>)
    ensures
        names(name, "version"@) ==> variable(v, name) == ValueV::Varchar(v.version),
        names(name, "max_allowed_packet"@) ==> reported_number(
            v.max_allowed_packet,
            variable(v, name),
        ),
        names(name, "wait_timeout"@) ==> reported_number(v.wait_timeout, variable(v, name)),
        names(name, "interactive_timeout"@) ==> reported_number(v.wait_timeout, variable(v, name)),
        names(name, "autocommit"@) ==> variable(v, name) == ValueV::Int(1),
        (forall|i: int| 0 <= i < known(v).len() ==> (#[trigger] known(v)[i]).0 != bare_name(name))
            ==> variable(v, name) == ValueV::Null,
{
    lemma_lengths();
    let list = known(v);
    if names(name, "version"@) {
        lemma_bare(name, "version"@);
        lemma_first_value(list, "version"@, 0, 0);
    }
    if names(name, "max_allowed_packet"@) {
        lemma_bare(name, "max_allowed_packet"@);
        lemma_first_value(list, "max_allowed_packet"@, 0, 2);
    }
    if names(name, "wait_timeout"@) {
        lemma_bare(name, "wait_timeout"@);
        lemma_first_value(list, "wait_timeout"@, 0, 3);
    }
    if names(name, "interactive_timeout"@) {
        lemma_bare(name, "interactive_timeout"@);
        lemma_first_value(list, "interactive_timeout"@, 0, 4);
    }
    if names(name, "autocommit"@) {
        lemma_bare(name, "autocommit"@);
        lemma_first_value(list, "autocommit"@, 0, 7);
    }
    if forall|i: int| 0 <= i < known(v).len() ==> (#[trigger] known(v)[i]).0 != bare_name(name) {
        lemma_no_value(list, bare_name(name), 0);
    }
}

proof fn lemma_first_value(list: Seq<(Seq<char>, ValueV)>, name: Seq<char>, i: int, at: int)
    requires
        0 <= i <= at < list.len(),
        list[at].0 == name,
        forall|k: int| i <= k < at ==> (#[trigger] list[k]).0.len() != name.len(),
    ensures
        value_from(list, name, i) == list[at].1,
    decreases at - i,
{
    if i < at {
        assert(list[i].0.len() != name.len());
        lemma_first_value(list, name, i + 1, at);
    }
}

proof fn lemma_no_value(list: Seq<(Seq<char>, ValueV)>, name: Seq<char>, i: int)
    requires
        0 <= i,
        forall|k: int| 0 <= k < list.len() ==> (#[trigger] list[k]).0 != name,
    ensures
        value_from(list, name, i) == ValueV::Null,
    decreases list.len() - i,
{
    if i < list.len() {
        lemma_no_value(list, name, i + 1);
    }
}

proof fn lemma_lengths()
    ensures
        "version"@.len() == 7 && is_bare("version"@),
        "version_comment"@.len() == 15,
        "max_allowed_packet"@.len() == 18 && is_bare("max_allowed_packet"@),
        "wait_timeout"@.len() == 12 && is_bare("wait_timeout"@),
        "interactive_timeout"@.len() == 19 && is_bare("interactive_timeout"@),
        "net_write_timeout"@.len() == 17,
        "net_read_timeout"@.len() == 16,
        "autocommit"@.len() == 10 && is_bare("autocommit"@),
{
    reveal_strlit("version");
    reveal_strlit("version_comment");
    reveal_strlit("max_allowed_packet");
    reveal_strlit("wait_timeout");
    reveal_strlit("interactive_timeout");
    reveal_strlit("net_write_timeout");
    reveal_strlit("net_read_timeout");
    reveal_strlit("autocommit");
}

/// `VERSION()` is the server's version, whatever the case it is written in.
pub proof fn law_version_is_a_function_too(v: SystemVariablesV, name: Seq<char>)
    ensures
        lower(name) == "version"@ ==> function_value(v, name) == ValueV::Varchar(v.version),
        lower(name) == "version"@ ==> function_value(v, name) == variable(v, name),
        lower(name) == "connection_id"@ ==> function_value(v, name) == ValueV::Int(1),
        lower(name) == "last_insert_id"@ ==> function_value(v, name) == ValueV::Int(0),
        lower(name).len() != 7 && lower(name).len() != 13 && lower(name).len() != 14
            ==> function_value(v, name) == ValueV::Null,
{
    reveal_strlit("version");
    reveal_strlit("connection_id");
    reveal_strlit("last_insert_id");
    law_variables_are_read_by_name(v, name);
    assert("version"@.len() == 7 && "connection_id"@.len() == 13 && "last_insert_id"@.len() == 14);
}

// ---------- listings ----------

/// Whether rows list the members of a set: one row for each, with its name
/// alone, in the order of a dictionary.
pub open spec fn lists_names(rows: Seq<Seq<ValueV>>, set: Set<Seq<char>>) -> bool {
    &&& forall|i: int|
        0 <= i < rows.len() ==> (#[trigger] rows[i]).len() == 1 && (rows[i][0] matches ValueV::Varchar(
            name,
        ) && set.contains(name))
    &&& forall|name: Seq<char>| #[trigger]
        set.contains(name) ==> rows.contains(seq![ValueV::Varchar(name)])
    &&& forall|i: int, j: int|
        0 <= i < j < rows.len() ==> precedes(
            (#[trigger] rows[i])[0].shown(),
            (#[trigger] rows[j])[0].shown(),
        )
}

proof fn lemma_names_listed(set: Set<Seq<char>>)
    requires
        set.finite(),
    ensures
        lists_names(name_rows(in_order(set)), set),
{
    lemma_in_order(set);
    let names = in_order(set);
    let rows = name_rows(names);
    assert forall|i: int| 0 <= i < rows.len() implies (#[trigger] rows[i]).len() == 1 && (
    rows[i][0] matches ValueV::Varchar(name) && set.contains(name)) by {
        assert(names.contains(names[i]));
    }
    assert forall|name: Seq<char>| #[trigger] set.contains(name) implies rows.contains(
        seq![ValueV::Varchar(name)],
    ) by {
        assert(names.contains(name));
        let i = names.index_of(name);
        assert(rows[i] =~= seq![ValueV::Varchar(name)]);
    }
    assert forall|i: int, j: int| 0 <= i < j < rows.len() implies precedes(
        (#[trigger] rows[i])[0].shown(),
        (#[trigger] rows[j])[0].shown(),
    ) by {
        law_texts_are_ordered_as_in_a_dictionary(names[i], names[j]);
        assert(text_less(names[i], names[j]));
    }
}

/// `SHOW DATABASES` lists the databases and `SHOW TABLES` the tables, each by
/// its name and in the order of a dictionary.
pub proof fn law_listings_list_what_is_there(s: StoreV, v: SystemVariablesV)
    requires
        s.tables.dom().finite(),
        s.databases.finite(),
    ensures
        lists_names(show(s, v, ShowStatementV::Databases).rows, s.databases),
        lists_names(show(s, v, ShowStatementV::Tables).rows, s.tables.dom()),
{
    lemma_names_listed(s.databases);
    lemma_names_listed(s.tables.dom());
}

/// `SET` and `USE` succeed and do nothing. Where there is no connection,
/// nothing can start or end a transaction.
pub proof fn law_settings_are_accepted(s: StoreV, v: SystemVariablesV, b: bool, st: StatementV)
    ensures
        st is SetOption || st is Use ==> executed(st, s, v, b).store == s && (executed(
            st,
            s,
            v,
            b,
        ).result matches Ok(r) && r.columns.len() == 0 && r.rows.len() == 0 && r.affected == 0),
        st is Begin || st is Commit || st is Rollback ==> executed(st, s, v, b).store == s
            && executed(st, s, v, b).result is Err,
{
}

/// An expression is shown as it is written: a number as its numeral, a text and
/// a name as they are, a call with its parentheses, and `NULL` not at all.
pub proof fn law_expressions_are_shown_as_written(e: ExprV)
    ensures
        match e {
            ExprV::Integer(n) => e.value_string() matches Some(t) && is_numeral_of(t, n as int),
            ExprV::String(s) => e.value_string() == Some(s),
            ExprV::Null => e.value_string() is None,
            ExprV::SystemVariable(name) => e.value_string() == Some(seq!['@', '@'] + name),
            ExprV::Column(name) => e.value_string() == Some(name),
            ExprV::Function(name, _) => e.value_string() == Some(name + seq!['(', ')']),
            ExprV::Placeholder(i) => i >= 0 ==> (e.value_string() matches Some(t) && t.len() > 1
                && t[0] == '?' && is_numeral_of(t.drop_first(), i as int)),
        },
{
    reveal_strlit("@@");
    reveal_strlit("()");
    reveal_strlit("?");
    assert("@@"@ =~= seq!['@', '@']);
    assert("()"@ =~= seq!['(', ')']);
    match e {
        ExprV::Integer(n) => law_numbers_are_written_as_their_numerals(n as int),
        ExprV::Placeholder(i) => {
            if i >= 0 {
                law_numbers_are_written_as_their_numerals(i as int);
                let t = e.value_string()->0;
                assert(t.drop_first() =~= decimal(i as nat));
                lemma_decimal_round_trip(i as nat);
            }
        },
        _ => {},
    }
}

} // verus!
