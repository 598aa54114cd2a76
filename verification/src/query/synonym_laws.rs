//! Other ways to write the same.
use vstd::prelude::*;

use crate::error::ErrorV;
use crate::query::ast::{ColumnDefV, ShowStatementV, StatementV};
use crate::query::grammar::{
    item_end, p_alias, p_constraint, p_create_database, p_drop_database, p_end, p_foreign_key,
    p_from, p_if_exists, p_if_not_exists, p_index_columns,
    p_index_columns_rest, p_optional_name, p_prefix_length, p_qualified, p_qualified_rest,
    p_skip_index, p_statement, start, statement_end, statement_of, token_at, Place,
};
use crate::query::lexer::{Keyword, TokenV};
use crate::query::written_laws::{
    is_tail, lemma_at, lemma_halves, lemma_no_semicolon, lemma_tail, names_tokens, tokens_at, word,
};
use crate::text::upper;

verus! {

// ---------- statements ----------

/// `BEGIN` is `START TRANSACTION`.
pub proof fn law_begin_starts_a_transaction(tail: Seq<TokenV>, allow: bool)
    requires
        is_tail(tail),
    ensures
        statement_of(seq![TokenV::Keyword(Keyword::Begin)] + tail, allow) == Ok::<
            (StatementV, int),
            ErrorV,
        >((StatementV::Begin, 0)),
{
    let w = seq![TokenV::Keyword(Keyword::Begin)];
    let ts = w + tail;
    lemma_tail(ts, w, tail);
    lemma_at(ts, 0, w);
    reveal(p_statement);
}

/// Whatever `SET` and `USE` say up to the end of the statement is accepted and
/// ignored.
pub proof fn law_set_and_use_are_ignored(rest: Seq<TokenV>, tail: Seq<TokenV>, allow: bool)
    requires
        is_tail(tail),
        forall|k: int| 0 <= k < rest.len() ==> #[trigger] rest[k] != TokenV::Semicolon,
    ensures
        statement_of(seq![TokenV::Keyword(Keyword::SetWord)] + rest + tail, allow) == Ok::<
            (StatementV, int),
            ErrorV,
        >((StatementV::SetOption, 0)),
        statement_of(seq![TokenV::Keyword(Keyword::Use)] + rest + tail, allow) == Ok::<
            (StatementV, int),
            ErrorV,
        >((StatementV::Use, 0)),
{
    lemma_ignored(Keyword::SetWord, rest, tail);
    lemma_ignored(Keyword::Use, rest, tail);
    reveal(p_statement);
}

proof fn lemma_ignored(kw: Keyword, rest: Seq<TokenV>, tail: Seq<TokenV>)
    requires
        is_tail(tail),
        forall|k: int| 0 <= k < rest.len() ==> #[trigger] rest[k] != TokenV::Semicolon,
    ensures
        ({
            let ts = seq![TokenV::Keyword(kw)] + rest + tail;
            &&& token_at(ts, 0) == Some(TokenV::Keyword(kw))
            &&& p_end(ts, Place { pos: statement_end(ts, 1), params: 0 }) matches Ok(q) && q.params
                == 0
        }),
{
    let w = seq![TokenV::Keyword(kw)] + rest;
    let ts = w + tail;
    lemma_tail(ts, w, tail);
    lemma_at(ts, 0, w);
    assert(w[0] == TokenV::Keyword(kw));
    assert forall|k: int| 1 <= k < w.len() implies #[trigger] ts[k] != TokenV::Semicolon by {
        assert(w[k] == ts[0int + k]);
        assert(w[k] == rest[k - 1]);
    }
    lemma_no_semicolon(ts, 1, w.len() as int);
}

/// `SHOW` knows some things under two names, and what it does not know is
/// accepted too.
#[verifier::rlimit(40)]
pub proof fn law_shown_things_have_other_names(name: Seq<char>, allow: bool)
    ensures
        ({
            let r = statement_of(
                seq![TokenV::Keyword(Keyword::Show), TokenV::Ident(name)],
                allow,
            );
            let w = upper(name);
            &&& r matches Ok((StatementV::Show(what), n)) && n == 0 && {
                &&& w == "SCHEMAS"@ || w == "DATABASES"@ ==> what == ShowStatementV::Databases
                &&& w == "ERRORS"@ || w == "WARNINGS"@ ==> what == ShowStatementV::Warnings
                &&& w == "TABLES"@ ==> what == ShowStatementV::Tables
                &&& w == "STATUS"@ || w == "VARIABLES"@ ==> what == (ShowStatementV::Variables {
                    like: None,
                })
                &&& w == "CHARSET"@ ==> what == ShowStatementV::CharacterSet
                &&& w == "COLLATION"@ ==> what == ShowStatementV::Collation
            }
        }),
{
    let ts = seq![TokenV::Keyword(Keyword::Show), TokenV::Ident(name)];
    reveal_strlit("SCHEMAS");
    reveal_strlit("DATABASES");
    reveal_strlit("ERRORS");
    reveal_strlit("WARNINGS");
    reveal_strlit("TABLES");
    reveal_strlit("STATUS");
    reveal_strlit("VARIABLES");
    reveal_strlit("CHARSET");
    reveal_strlit("COLLATION");
    reveal_strlit("CHARACTER");
    assert("SCHEMAS"@[0] == 'S' && "SCHEMAS"@[1] == 'C');
    assert("STATUS"@[0] == 'S' && "STATUS"@[1] == 'T');
    assert("DATABASES"@[0] == 'D' && "ERRORS"@[0] == 'E' && "WARNINGS"@[0] == 'W');
    assert("TABLES"@[0] == 'T' && "VARIABLES"@[0] == 'V');
    assert("CHARSET"@[0] == 'C' && "CHARSET"@[1] == 'H' && "CHARSET"@.len() == 7);
    assert("CHARACTER"@[0] == 'C' && "CHARACTER"@[1] == 'H' && "CHARACTER"@.len() == 9);
    assert("COLLATION"@[0] == 'C' && "COLLATION"@[1] == 'O');
    assert(token_at(ts, 0) == Some(TokenV::Keyword(Keyword::Show)));
    assert(token_at(ts, 1) == Some(TokenV::Ident(name)));
    assert(statement_end(ts, 2) == 2);
    assert(statement_end(ts, 1) == 2);
    reveal(p_statement);
}

/// `SHOW CHARACTER SET` is `SHOW CHARSET`.
pub proof fn law_character_set_is_charset(name: Seq<char>, allow: bool)
    requires
        upper(name) == "CHARACTER"@,
    ensures
        statement_of(
            seq![
                TokenV::Keyword(Keyword::Show),
                TokenV::Ident(name),
                TokenV::Keyword(Keyword::SetWord),
            ],
            allow,
        ) == Ok::<(StatementV, int), ErrorV>((StatementV::Show(ShowStatementV::CharacterSet), 0)),
{
    let ts = seq![
        TokenV::Keyword(Keyword::Show),
        TokenV::Ident(name),
        TokenV::Keyword(Keyword::SetWord),
    ];
    reveal_strlit("CHARACTER");
    reveal_strlit("VARIABLES");
    reveal_strlit("STATUS");
    reveal_strlit("WARNINGS");
    reveal_strlit("ERRORS");
    reveal_strlit("DATABASES");
    reveal_strlit("SCHEMAS");
    reveal_strlit("TABLES");
    reveal_strlit("CHARSET");
    assert("CHARACTER"@[0] == 'C' && "VARIABLES"@[0] == 'V' && "STATUS"@[0] == 'S');
    assert("WARNINGS"@[0] == 'W' && "ERRORS"@[0] == 'E' && "DATABASES"@[0] == 'D');
    assert("SCHEMAS"@[0] == 'S' && "TABLES"@[0] == 'T');
    assert("CHARACTER"@.len() == 9 && "CHARSET"@.len() == 7);
    assert(token_at(ts, 0) == Some(TokenV::Keyword(Keyword::Show)));
    assert(token_at(ts, 1) == Some(TokenV::Ident(name)));
    assert(token_at(ts, 2) == Some(TokenV::Keyword(Keyword::SetWord)));
    lemma_no_semicolon(ts, 1, 3);
    reveal(p_statement);
}

/// A database may be called a schema, and options behind its name count for
/// nothing when it is created.
#[verifier::rlimit(40)]
pub proof fn law_schemas_are_databases(
    kind: Seq<char>,
    name: Seq<char>,
    options: Seq<TokenV>,
    tail: Seq<TokenV>,
    allow: bool,
)
    requires
        is_tail(tail),
        upper(kind) == "DATABASE"@ || upper(kind) == "SCHEMA"@,
        upper(name) != "IF"@,
        forall|k: int| 0 <= k < options.len() ==> #[trigger] options[k] != TokenV::Semicolon,
    ensures
        statement_of(
            seq![
                TokenV::Keyword(Keyword::Create),
                TokenV::Ident(kind),
                TokenV::Ident(name),
            ] + options + tail,
            allow,
        ) == Ok::<(StatementV, int), ErrorV>(
            (StatementV::CreateDatabase { name, if_not_exists: false }, 0),
        ),
        statement_of(
            seq![TokenV::Keyword(Keyword::Drop), TokenV::Ident(kind), TokenV::Ident(name)] + tail,
            allow,
        ) == Ok::<(StatementV, int), ErrorV>(
            (StatementV::DropDatabase { name, if_exists: false }, 0),
        ),
{
    let w = seq![TokenV::Keyword(Keyword::Create), TokenV::Ident(kind), TokenV::Ident(name)];
    let all = w + options;
    let ts = all + tail;
    lemma_tail(ts, all, tail);
    lemma_halves(ts, 0, w, options);
    lemma_at(ts, 0, w);
    lemma_at(ts, 3, options);
    assert forall|k: int| 3 <= k < all.len() implies #[trigger] ts[k] != TokenV::Semicolon by {
        assert(options[k - 3] == ts[3 + (k - 3)]);
    }
    lemma_no_semicolon(ts, 3, all.len() as int);
    let two = Place { pos: 2, params: 0 };
    assert(p_if_not_exists(ts, two) == Ok::<(bool, Place), ErrorV>((false, two)));
    assert(p_create_database(ts, start()) matches Ok((st, q)) && st == (
    StatementV::CreateDatabase { name, if_not_exists: false }) && q.params == 0);
    let d = seq![TokenV::Keyword(Keyword::Drop), TokenV::Ident(kind), TokenV::Ident(name)];
    let us = d + tail;
    lemma_tail(us, d, tail);
    lemma_at(us, 0, d);
    assert(p_if_exists(us, two) == Ok::<(bool, Place), ErrorV>((false, two)));
    assert(p_drop_database(us, start()) matches Ok((st, q)) && st == (StatementV::DropDatabase {
        name,
        if_exists: false,
    }) && q.params == 0);
    reveal(p_statement);
}

// ---------- names ----------

/// Of a qualified name the last part counts, however many stand before it.
pub proof fn law_qualified_names_keep_their_last_part(
    ts: Seq<TokenV>,
    p: Place,
    first: Seq<char>,
    last: Seq<char>,
)
    requires
        0 <= p.pos,
        token_at(ts, p.pos) == Some(TokenV::Ident(first)),
        token_at(ts, p.pos + 1) == Some(TokenV::Dot),
        token_at(ts, p.pos + 2) == Some(TokenV::Ident(last)),
    ensures
        p_qualified(ts, p) == p_qualified(ts, p.skip(2)),
        token_at(ts, p.pos + 3) != Some(TokenV::Dot) ==> p_qualified(ts, p) == Ok::<
            (Seq<char>, Place),
            ErrorV,
        >((last, p.skip(3))),
{
    let q = p.skip(1);
    assert(p_qualified_rest(ts, q, first) == p_qualified_rest(ts, q.skip(2), last));
    assert(q.skip(2) == p.skip(3));
    assert(p.skip(2).skip(1) == p.skip(3));
}

/// A label may stand with or without `AS`.
pub proof fn law_labels_need_no_as(
    ts: Seq<TokenV>,
    p: Place,
    name: Seq<char>,
    other: Seq<TokenV>,
    q: Place,
)
    requires
        0 <= p.pos,
        0 <= q.pos,
        token_at(ts, p.pos) == Some(TokenV::Keyword(Keyword::As)),
        token_at(ts, p.pos + 1) == Some(TokenV::Ident(name)),
        token_at(other, q.pos) == Some(TokenV::Ident(name)),
    ensures
        p_alias(ts, p) == Ok::<(Option<Seq<char>>, Place), ErrorV>((Some(name), p.skip(2))),
        p_alias(other, q) == Ok::<(Option<Seq<char>>, Place), ErrorV>((Some(name), q.skip(1))),
{
}

/// A label for a table counts for nothing.
pub proof fn law_table_labels_count_for_nothing(
    ts: Seq<TokenV>,
    p: Place,
    table: Seq<char>,
    label: Seq<char>,
    allow: bool,
)
    requires
        0 <= p.pos,
        token_at(ts, p.pos) == Some(TokenV::Keyword(Keyword::From)),
        token_at(ts, p.pos + 1) == Some(TokenV::Ident(table)),
        token_at(ts, p.pos + 2) == Some(TokenV::Ident(label)),
        token_at(ts, p.pos + 3) is None,
    ensures
        p_from(ts, p, allow) matches Ok(((from, selection), q)) && from == Some(table)
            && selection is None && q == p.skip(3),
{
    assert(p_qualified(ts, p.skip(1)) == Ok::<(Seq<char>, Place), ErrorV>((table, p.skip(2))));
}

// ---------- keys and indexes ----------

proof fn lemma_index_columns(ts: Seq<TokenV>, p: Place, names: Seq<Seq<char>>)
    requires
        names.len() > 0,
        tokens_at(ts, p.pos, names_tokens(names)),
        token_at(ts, (p.pos + names_tokens(names).len()) as int) == Some(TokenV::RParen),
    ensures
        p_index_columns_rest(ts, p) == Ok::<(Seq<Seq<char>>, Place), ErrorV>(
            (names, p.skip(names_tokens(names).len() as int + 1)),
        ),
    decreases names.len(),
{
    let all = names_tokens(names);
    lemma_at(ts, p.pos, all);
    if names.len() == 1 {
        assert(seq![names[0]] =~= names);
    } else {
        let rest = names.drop_first();
        lemma_halves(
            ts,
            p.pos,
            seq![TokenV::Ident(names[0]), TokenV::Comma],
            names_tokens(rest),
        );
        lemma_index_columns(ts, p.skip(2), rest);
        assert(seq![names[0]] + rest =~= names);
    }
}

/// Names in parentheses, as tokens.
pub open spec fn in_parentheses(names: Seq<Seq<char>>) -> Seq<TokenV> {
    seq![TokenV::LParen] + (names_tokens(names) + seq![TokenV::RParen])
}

/// The columns of a key or an index are all of those named, in order.
pub proof fn law_keys_name_all_of_their_columns(ts: Seq<TokenV>, p: Place, names: Seq<Seq<char>>)
    requires
        names.len() > 0,
        tokens_at(ts, p.pos, in_parentheses(names)),
    ensures
        p_index_columns(ts, p) == Ok::<(Seq<Seq<char>>, Place), ErrorV>(
            (names, p.skip(in_parentheses(names).len() as int)),
        ),
        token_at(ts, p.pos) == Some(TokenV::LParen),
{
    let open = seq![TokenV::LParen];
    let close = seq![TokenV::RParen];
    lemma_halves(ts, p.pos, open, names_tokens(names) + close);
    lemma_at(ts, p.pos, open);
    lemma_halves(ts, p.pos + 1, names_tokens(names), close);
    lemma_at(ts, (p.pos + 1 + names_tokens(names).len()) as int, close);
    lemma_index_columns(ts, p.skip(1), names);
}

/// A table-level primary key of several columns is refused.
pub proof fn law_composite_keys_are_refused(
    ts: Seq<TokenV>,
    p: Place,
    names: Seq<Seq<char>>,
    columns: Seq<ColumnDefV>,
)
    requires
        names.len() > 1,
        0 <= p.pos,
        token_at(ts, p.pos) == Some(TokenV::Keyword(Keyword::Primary)),
        token_at(ts, p.pos + 1) == Some(TokenV::Keyword(Keyword::Key)),
        tokens_at(ts, p.pos + 2, in_parentheses(names)),
    ensures
        p_constraint(ts, p, columns) matches Err(ErrorV::Unsupported(_)),
{
    law_keys_name_all_of_their_columns(ts, p.skip(2), names);
    assert(p.skip(1).skip(1) == p.skip(2));
}

/// `UNIQUE`, `KEY` and `INDEX`, with or without a name, are read to their end
/// and change no column.
#[verifier::rlimit(40)]
pub proof fn law_indexes_change_nothing(
    ts: Seq<TokenV>,
    p: Place,
    head: Seq<TokenV>,
    name: Option<Seq<char>>,
    names: Seq<Seq<char>>,
    columns: Seq<ColumnDefV>,
)
    requires
        names.len() > 0,
        head == seq![TokenV::Keyword(Keyword::Key)] || head == seq![word("INDEX"@)] || head == seq![
            word("UNIQUE"@),
        ] && (name matches Some(n) ==> upper(n) != "INDEX"@) || head == seq![
            word("UNIQUE"@),
            TokenV::Keyword(Keyword::Key),
        ] || head == seq![word("UNIQUE"@), word("INDEX"@)],
        tokens_at(
            ts,
            p.pos,
            head + ((match name {
                Some(n) => seq![TokenV::Ident(n)],
                None => Seq::empty(),
            }) + in_parentheses(names)),
        ),
    ensures
        p_constraint(ts, p, columns) == Ok::<(Seq<ColumnDefV>, Place), ErrorV>(
            (
                columns,
                p.skip(
                    head.len() as int + (if name is Some {
                        1int
                    } else {
                        0int
                    }) + in_parentheses(names).len() as int,
                ),
            ),
        ),
{
    let label: Seq<TokenV> = match name {
        Some(n) => seq![TokenV::Ident(n)],
        None => Seq::empty(),
    };
    lemma_index_words();
    lemma_halves(ts, p.pos, head, label + in_parentheses(names));
    lemma_at(ts, p.pos, head);
    let q = p.skip(head.len() as int);
    lemma_halves(ts, q.pos, label, in_parentheses(names));
    lemma_at(ts, q.pos, label);
    let r = q.skip(label.len() as int);
    law_keys_name_all_of_their_columns(ts, r, names);
    assert(p_optional_name(ts, q) == r);
}

proof fn lemma_index_words()
    ensures
        upper("INDEX"@) == "INDEX"@,
        upper("UNIQUE"@) == "UNIQUE"@,
        "INDEX"@ != "CONSTRAINT"@ && "UNIQUE"@ != "CONSTRAINT"@ && "INDEX"@ != "UNIQUE"@,
{
    reveal_strlit("INDEX");
    reveal_strlit("UNIQUE");
    reveal_strlit("CONSTRAINT");
    assert(upper("INDEX"@) =~= "INDEX"@);
    assert(upper("UNIQUE"@) =~= "UNIQUE"@);
    assert("INDEX"@[0] == 'I' && "UNIQUE"@[0] == 'U' && "CONSTRAINT"@[0] == 'C');
}

/// The columns of an index, each with or without the length of a prefix, with
/// commas between them.
pub open spec fn prefixed_tokens(columns: Seq<(Seq<char>, Option<i64>)>) -> Seq<TokenV>
    decreases columns.len(),
{
    if columns.len() == 0 {
        Seq::empty()
    } else {
        seq![TokenV::Ident(columns[0].0)] + ((match columns[0].1 {
            Some(n) => seq![TokenV::LParen, TokenV::Integer(n), TokenV::RParen],
            None => Seq::empty(),
        }) + (if columns.len() == 1 {
            Seq::empty()
        } else {
            seq![TokenV::Comma] + prefixed_tokens(columns.drop_first())
        }))
    }
}

/// Prefixes count for nothing: the columns are those named, in order.
pub proof fn law_prefixes_count_for_nothing(
    ts: Seq<TokenV>,
    p: Place,
    columns: Seq<(Seq<char>, Option<i64>)>,
)
    requires
        columns.len() > 0,
        tokens_at(ts, p.pos, prefixed_tokens(columns)),
        token_at(ts, (p.pos + prefixed_tokens(columns).len()) as int) == Some(TokenV::RParen),
    ensures
        p_index_columns_rest(ts, p) == Ok::<(Seq<Seq<char>>, Place), ErrorV>(
            (
                Seq::new(columns.len(), |i: int| columns[i].0),
                p.skip(prefixed_tokens(columns).len() as int + 1),
            ),
        ),
    decreases columns.len(),
{
    let (name, prefix) = columns[0];
    let head = seq![TokenV::Ident(name)];
    let size: Seq<TokenV> = match prefix {
        Some(n) => seq![TokenV::LParen, TokenV::Integer(n), TokenV::RParen],
        None => Seq::empty(),
    };
    let rest = columns.drop_first();
    let more: Seq<TokenV> = if columns.len() == 1 {
        Seq::empty()
    } else {
        seq![TokenV::Comma] + prefixed_tokens(rest)
    };
    lemma_halves(ts, p.pos, head, size + more);
    lemma_at(ts, p.pos, head);
    let q = p.skip(1);
    lemma_halves(ts, q.pos, size, more);
    lemma_at(ts, q.pos, size);
    let r = q.skip(size.len() as int);
    let names = Seq::new(columns.len(), |i: int| columns[i].0);
    if columns.len() == 1 {
        assert(seq![name] =~= names);
        assert(p_prefix_length(ts, q) == Ok::<Place, ErrorV>(r));
    } else {
        lemma_at(ts, r.pos, more);
        assert(more[0] == TokenV::Comma);
        lemma_halves(ts, r.pos, seq![TokenV::Comma], prefixed_tokens(rest));
        assert(p_prefix_length(ts, q) == Ok::<Place, ErrorV>(r));
        law_prefixes_count_for_nothing(ts, r.skip(1), rest);
        assert(seq![name] + Seq::new(rest.len(), |i: int| rest[i].0) =~= names);
    }
}

/// A foreign key, with or without a name, is read up to the next item or the
/// end of the list, whatever it says about changes, and changes no column.
#[verifier::rlimit(40)]
pub proof fn law_foreign_keys_change_nothing(
    ts: Seq<TokenV>,
    p: Place,
    name: Option<Seq<char>>,
    names: Seq<Seq<char>>,
    table: Seq<char>,
    others: Seq<Seq<char>>,
    rest: Seq<TokenV>,
    columns: Seq<ColumnDefV>,
)
    requires
        names.len() > 0,
        others.len() > 0,
        forall|k: int|
            0 <= k < rest.len() ==> #[trigger] rest[k] != TokenV::Comma && rest[k] != TokenV::RParen,
        tokens_at(ts, p.pos, foreign_tokens(name, names, table, others, rest)),
        ({
            let t = token_at(
                ts,
                (p.pos + foreign_tokens(name, names, table, others, rest).len()) as int,
            );
            t == Some(TokenV::Comma) || t == Some(TokenV::RParen)
        }),
    ensures
        p_constraint(ts, p, columns) == Ok::<(Seq<ColumnDefV>, Place), ErrorV>(
            (columns, p.skip(foreign_tokens(name, names, table, others, rest).len() as int)),
        ),
{
    let head = seq![word("FOREIGN"@), TokenV::Keyword(Keyword::Key)];
    let label = label_tokens(name);
    let one = in_parentheses(names);
    let reference = seq![word("REFERENCES"@), TokenV::Ident(table)];
    let two = in_parentheses(others);
    lemma_foreign_words();
    lemma_halves(ts, p.pos, head, label + (one + (reference + (two + rest))));
    lemma_at(ts, p.pos, head);
    let q = p.skip(2);
    lemma_halves(ts, q.pos, label, one + (reference + (two + rest)));
    lemma_at(ts, q.pos, label);
    let r = q.skip(label.len() as int);
    lemma_halves(ts, r.pos, one, reference + (two + rest));
    law_keys_name_all_of_their_columns(ts, r, names);
    let u = r.skip(one.len() as int);
    lemma_halves(ts, u.pos, reference, two + rest);
    lemma_at(ts, u.pos, reference);
    let v = u.skip(2);
    lemma_halves(ts, v.pos, two, rest);
    law_keys_name_all_of_their_columns(ts, v, others);
    let x = v.skip(two.len() as int);
    lemma_at(ts, x.pos, rest);
    assert forall|k: int| x.pos <= k < x.pos + rest.len() implies #[trigger] ts[k] != TokenV::Comma
        && ts[k] != TokenV::RParen by {
        assert(rest[k - x.pos] == ts[x.pos + (k - x.pos)]);
    }
    lemma_item_end(ts, x.pos, (x.pos + rest.len()) as int);
    assert(p_qualified(ts, u.skip(1)) == Ok::<(Seq<char>, Place), ErrorV>((table, v)));
    assert(p_optional_name(ts, q) == r);
    assert(p_skip_index(ts, r) == Ok::<Place, ErrorV>(u));
    assert(p_skip_index(ts, v) == Ok::<Place, ErrorV>(x));
    assert(p_foreign_key(ts, p.skip(1)) == Ok::<Place, ErrorV>(x.skip(rest.len() as int)));
}

/// A name, if there is one, as tokens.
pub open spec fn label_tokens(name: Option<Seq<char>>) -> Seq<TokenV> {
    match name {
        Some(n) => seq![TokenV::Ident(n)],
        None => Seq::empty(),
    }
}

/// A foreign key as tokens, with whatever stands behind it.
pub open spec fn foreign_tokens(
    name: Option<Seq<char>>,
    names: Seq<Seq<char>>,
    table: Seq<char>,
    others: Seq<Seq<char>>,
    rest: Seq<TokenV>,
) -> Seq<TokenV> {
    seq![word("FOREIGN"@), TokenV::Keyword(Keyword::Key)] + (label_tokens(name) + (in_parentheses(
        names,
    ) + (seq![word("REFERENCES"@), TokenV::Ident(table)] + (in_parentheses(others) + rest))))
}

proof fn lemma_item_end(ts: Seq<TokenV>, i: int, j: int)
    requires
        0 <= i <= j < ts.len(),
        ts[j] == TokenV::Comma || ts[j] == TokenV::RParen,
        forall|k: int|
            i <= k < j ==> #[trigger] ts[k] != TokenV::Comma && ts[k] != TokenV::RParen,
    ensures
        item_end(ts, i) == j,
    decreases j - i,
{
    if i < j {
        assert(ts[i] != TokenV::Comma);
        lemma_item_end(ts, i + 1, j);
    }
}

proof fn lemma_foreign_words()
    ensures
        upper("FOREIGN"@) == "FOREIGN"@,
        upper("REFERENCES"@) == "REFERENCES"@,
        "FOREIGN"@ != "CONSTRAINT"@ && "FOREIGN"@ != "UNIQUE"@ && "FOREIGN"@ != "INDEX"@,
{
    reveal_strlit("FOREIGN");
    reveal_strlit("REFERENCES");
    reveal_strlit("CONSTRAINT");
    reveal_strlit("UNIQUE");
    reveal_strlit("INDEX");
    assert(upper("FOREIGN"@) =~= "FOREIGN"@);
    assert(upper("REFERENCES"@) =~= "REFERENCES"@);
    assert("FOREIGN"@[0] == 'F' && "CONSTRAINT"@[0] == 'C' && "UNIQUE"@[0] == 'U' && "INDEX"@[0]
        == 'I');
}

} // verus!
