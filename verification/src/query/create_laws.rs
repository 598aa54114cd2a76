//! Every table that can be written down reads back as itself.
use vstd::prelude::*;

use crate::error::ErrorV;
use crate::query::ast::{ColumnDefV, StatementV};
use crate::query::column_laws::lemma_words_differ;
use crate::query::grammar::{
    constraint_starts, moved, p_attributes, p_constraint, p_end, p_numeric_flags, p_qualified,
    p_sizes, p_statement, p_table_item, p_table_items, p_type_size, start, statement_end,
    statement_of, token_at, AttributesV, Place,
};
use crate::query::lexer::{Keyword, TokenV};
use crate::query::table_laws::{
    has_column, keyed, law_primary_key_clause_marks_its_column,
};
use crate::query::written_laws::{
    is_tail, lemma_at, lemma_halves, lemma_no_semicolon, lemma_tail, lemma_words, tokens_at, word,
};
use crate::text::{decimal_int, upper};

verus! {

/// A column definition as it may be written: a name, a type with or without
/// sizes, and attributes.
pub ghost struct WrittenColumnV {
    pub name: Seq<char>,
    pub base: Seq<char>,
    pub sizes: Seq<i64>,
    /// `UNSIGNED` where true and `ZEROFILL` where not; neither counts.
    pub flags: Seq<bool>,
    pub key: bool,
    pub required: bool,
    pub counted: bool,
}

/// Sizes as they stand in a type, with commas between them.
pub open spec fn sizes_text(sizes: Seq<i64>) -> Seq<char>
    decreases sizes.len(),
{
    if sizes.len() == 0 {
        Seq::empty()
    } else if sizes.len() == 1 {
        decimal_int(sizes[0] as int)
    } else {
        decimal_int(sizes[0] as int) + seq![','] + sizes_text(sizes.drop_first())
    }
}

/// Sizes as tokens.
pub open spec fn sizes_tokens(sizes: Seq<i64>) -> Seq<TokenV>
    decreases sizes.len(),
{
    if sizes.len() == 0 {
        Seq::empty()
    } else if sizes.len() == 1 {
        seq![TokenV::Integer(sizes[0])]
    } else {
        seq![TokenV::Integer(sizes[0]), TokenV::Comma] + sizes_tokens(sizes.drop_first())
    }
}

impl WrittenColumnV {
    /// The column that it defines.
    pub open spec fn def(self) -> ColumnDefV {
        ColumnDefV {
            name: self.name,
            type_text: if self.sizes.len() == 0 {
                self.base
            } else {
                self.base + seq!['('] + sizes_text(self.sizes) + seq![')']
            },
            is_primary_key: self.key,
            nullable: !self.required,
            auto_increment: self.counted,
        }
    }

    /// Its type as tokens.
    pub open spec fn type_tokens(self) -> Seq<TokenV> {
        if self.sizes.len() == 0 {
            Seq::empty()
        } else {
            seq![TokenV::LParen] + sizes_tokens(self.sizes) + seq![TokenV::RParen]
        }
    }

    /// Its flags as tokens.
    pub open spec fn flag_tokens(self) -> Seq<TokenV> {
        Seq::new(
            self.flags.len(),
            |i: int|
                if self.flags[i] {
                    word("UNSIGNED"@)
                } else {
                    word("ZEROFILL"@)
                },
        )
    }

    /// Its attributes as tokens.
    pub open spec fn attribute_tokens(self) -> Seq<TokenV> {
        (if self.key {
            seq![TokenV::Keyword(Keyword::Primary), TokenV::Keyword(Keyword::Key)]
        } else {
            Seq::empty()
        }) + ((if self.required {
            seq![word("NOT"@), TokenV::Keyword(Keyword::Null)]
        } else {
            Seq::empty()
        }) + (if self.counted {
            seq![word("AUTO_INCREMENT"@)]
        } else {
            Seq::empty()
        }))
    }

    /// The definition as tokens.
    pub open spec fn tokens(self) -> Seq<TokenV> {
        seq![TokenV::Ident(self.name), TokenV::Ident(self.base)] + (self.type_tokens() + (
        self.flag_tokens() + self.attribute_tokens()))
    }

    /// Whether the name is not one that starts something else.
    pub open spec fn named_well(self) -> bool {
        !constraint_starts(Some(TokenV::Ident(self.name)))
    }
}

/// What may follow an item.
spec fn ends_column(t: Option<TokenV>) -> bool {
    t == Some(TokenV::Comma) || t == Some(TokenV::RParen)
}

proof fn lemma_sizes_read(ts: Seq<TokenV>, p: Place, sizes: Seq<i64>, text: Seq<char>)
    requires
        sizes.len() > 0,
        tokens_at(ts, p.pos, sizes_tokens(sizes)),
        token_at(ts, (p.pos + sizes_tokens(sizes).len()) as int) == Some(TokenV::RParen),
    ensures
        p_sizes(ts, p, text) == Ok::<(Seq<char>, Place), ErrorV>(
            (text + sizes_text(sizes) + seq![')'], p.skip(sizes_tokens(sizes).len() as int + 1)),
        ),
    decreases sizes.len(),
{
    lemma_at(ts, p.pos, sizes_tokens(sizes));
    reveal_strlit(")");
    reveal_strlit(",");
    assert(")"@ =~= seq![')']);
    assert(","@ =~= seq![',']);
    if sizes.len() > 1 {
        let head = seq![TokenV::Integer(sizes[0]), TokenV::Comma];
        let rest = sizes.drop_first();
        lemma_halves(ts, p.pos, head, sizes_tokens(rest));
        let longer = text + decimal_int(sizes[0] as int) + ","@;
        lemma_sizes_read(ts, p.skip(2), rest, longer);
        assert(longer + sizes_text(rest) + seq![')'] =~= text + sizes_text(sizes) + seq![')']);
    }
}

proof fn lemma_type_reads(ts: Seq<TokenV>, p: Place, c: WrittenColumnV)
    requires
        tokens_at(ts, p.pos, c.type_tokens()),
        c.sizes.len() == 0 ==> token_at(ts, p.pos) != Some(TokenV::LParen),
    ensures
        p_type_size(ts, p, c.base) == Ok::<(Seq<char>, Place), ErrorV>(
            (c.def().type_text, p.skip(c.type_tokens().len() as int)),
        ),
{
    if c.sizes.len() > 0 {
        let open = seq![TokenV::LParen];
        let inner = sizes_tokens(c.sizes);
        let close = seq![TokenV::RParen];
        assert(c.type_tokens() =~= open + (inner + close));
        lemma_halves(ts, p.pos, open, inner + close);
        lemma_at(ts, p.pos, open);
        lemma_halves(ts, p.pos + 1, inner, close);
        lemma_at(ts, (p.pos + 1 + inner.len()) as int, close);
        reveal_strlit("(");
        assert("("@ =~= seq!['(']);
        lemma_sizes_read(ts, p.skip(1), c.sizes, c.base + "("@);
    }
}

proof fn lemma_ends_attributes(ts: Seq<TokenV>, p: Place, allow: bool, a: AttributesV)
    requires
        ends_column(token_at(ts, p.pos)),
    ensures
        p_attributes(ts, p, allow, a) == Ok::<(AttributesV, Place), ErrorV>((a, p)),
{
}

proof fn lemma_counted_reads(
    ts: Seq<TokenV>,
    p: Place,
    counted: bool,
    allow: bool,
    a: AttributesV,
)
    requires
        counted ==> token_at(ts, p.pos) == Some(word("AUTO_INCREMENT"@)) && ends_column(
            token_at(ts, p.pos + 1),
        ),
        !counted ==> ends_column(token_at(ts, p.pos)),
    ensures
        p_attributes(ts, p, allow, a) == Ok::<(AttributesV, Place), ErrorV>(
            if counted {
                (AttributesV { auto_increment: true, ..a }, p.skip(1))
            } else {
                (a, p)
            },
        ),
{
    lemma_words();
    lemma_words_differ(token_at(ts, p.pos));
    if counted {
        lemma_ends_attributes(ts, p.skip(1), allow, AttributesV { auto_increment: true, ..a });
    }
}

#[verifier::rlimit(40)]
proof fn lemma_attributes_read(ts: Seq<TokenV>, p: Place, c: WrittenColumnV, allow: bool)
    requires
        tokens_at(ts, p.pos, c.attribute_tokens()),
        ends_column(token_at(ts, (p.pos + c.attribute_tokens().len()) as int)),
    ensures
        p_numeric_flags(ts, p) == p,
        token_at(ts, p.pos) != Some(TokenV::LParen),
        p_attributes(
            ts,
            p,
            allow,
            AttributesV { is_primary_key: false, nullable: true, auto_increment: false },
        ) == Ok::<(AttributesV, Place), ErrorV>(
            (
                AttributesV {
                    is_primary_key: c.key,
                    nullable: !c.required,
                    auto_increment: c.counted,
                },
                p.skip(c.attribute_tokens().len() as int),
            ),
        ),
{
    let fresh = AttributesV { is_primary_key: false, nullable: true, auto_increment: false };
    let key: Seq<TokenV> = if c.key {
        seq![TokenV::Keyword(Keyword::Primary), TokenV::Keyword(Keyword::Key)]
    } else {
        Seq::empty()
    };
    let required: Seq<TokenV> = if c.required {
        seq![word("NOT"@), TokenV::Keyword(Keyword::Null)]
    } else {
        Seq::empty()
    };
    let counted: Seq<TokenV> = if c.counted {
        seq![word("AUTO_INCREMENT"@)]
    } else {
        Seq::empty()
    };
    lemma_words();
    lemma_flags_differ();
    lemma_halves(ts, p.pos, key, required + counted);
    lemma_at(ts, p.pos, key);
    let p2 = p.skip(key.len() as int);
    lemma_halves(ts, p2.pos, required, counted);
    lemma_at(ts, p2.pos, required);
    let p3 = p2.skip(required.len() as int);
    lemma_at(ts, p3.pos, counted);
    let a2 = AttributesV { is_primary_key: c.key, ..fresh };
    let a3 = AttributesV { nullable: !c.required, ..a2 };
    lemma_counted_reads(ts, p3, c.counted, allow, a3);
    lemma_words_differ(token_at(ts, p2.pos));
    assert(p_attributes(ts, p2, allow, a2) == p_attributes(ts, p3, allow, a3));
    assert(p_attributes(ts, p, allow, fresh) == p_attributes(ts, p2, allow, a2));
}

proof fn lemma_flags_differ()
    ensures
        "NOT"@ != "UNSIGNED"@ && "NOT"@ != "ZEROFILL"@,
        "AUTO_INCREMENT"@ != "UNSIGNED"@ && "AUTO_INCREMENT"@ != "ZEROFILL"@,
{
    reveal_strlit("NOT");
    reveal_strlit("UNSIGNED");
    reveal_strlit("ZEROFILL");
    reveal_strlit("AUTO_INCREMENT");
    assert("NOT"@.len() == 3 && "UNSIGNED"@.len() == 8 && "ZEROFILL"@.len() == 8);
    assert("AUTO_INCREMENT"@.len() == 14);
}

#[verifier::rlimit(40)]
proof fn lemma_column_reads(
    ts: Seq<TokenV>,
    p: Place,
    c: WrittenColumnV,
    allow: bool,
    columns: Seq<ColumnDefV>,
)
    requires
        c.named_well(),
        tokens_at(ts, p.pos, c.tokens()),
        ends_column(token_at(ts, (p.pos + c.tokens().len()) as int)),
    ensures
        p_table_item(ts, p, allow, columns) == Ok::<(Seq<ColumnDefV>, Place), ErrorV>(
            (columns.push(c.def()), p.skip(c.tokens().len() as int)),
        ),
{
    let head = seq![TokenV::Ident(c.name), TokenV::Ident(c.base)];
    let kind = c.type_tokens();
    let flags = c.flag_tokens();
    let attributes = c.attribute_tokens();
    lemma_halves(ts, p.pos, head, kind + (flags + attributes));
    lemma_at(ts, p.pos, head);
    lemma_halves(ts, p.pos + 2, kind, flags + attributes);
    let q = p.skip(2);
    let f = q.skip(kind.len() as int);
    lemma_halves(ts, f.pos, flags, attributes);
    lemma_at(ts, f.pos, flags);
    let r = f.skip(flags.len() as int);
    lemma_attributes_read(ts, r, c, allow);
    lemma_flags_read(ts, f, c, 0);
    lemma_type_reads(ts, q, c);
}

proof fn lemma_flags_read(ts: Seq<TokenV>, p: Place, c: WrittenColumnV, i: int)
    requires
        0 <= i <= c.flags.len(),
        tokens_at(ts, p.pos, c.flag_tokens()),
        p_numeric_flags(ts, p.skip(c.flags.len() as int)) == p.skip(c.flags.len() as int),
    ensures
        p_numeric_flags(ts, p.skip(i)) == p.skip(c.flags.len() as int),
    decreases c.flags.len() - i,
{
    if i < c.flags.len() {
        lemma_flags_read(ts, p, c, i + 1);
        lemma_at(ts, p.pos, c.flag_tokens());
        assert(c.flag_tokens()[i] == ts[p.pos + i]);
        reveal_strlit("UNSIGNED");
        reveal_strlit("ZEROFILL");
        assert(upper("UNSIGNED"@) =~= "UNSIGNED"@);
        assert(upper("ZEROFILL"@) =~= "ZEROFILL"@);
        assert(p.skip(i).skip(1) == p.skip(i + 1));
    }
}

/// Definitions with commas between them.
pub open spec fn columns_written(cs: Seq<WrittenColumnV>) -> Seq<TokenV>
    decreases cs.len(),
{
    if cs.len() == 0 {
        Seq::empty()
    } else if cs.len() == 1 {
        cs[0].tokens()
    } else {
        columns_written(cs.drop_last()) + (seq![TokenV::Comma] + cs.last().tokens())
    }
}

/// The columns that they define.
pub open spec fn columns_defined(cs: Seq<WrittenColumnV>) -> Seq<ColumnDefV> {
    Seq::new(cs.len(), |i: int| cs[i].def())
}

/// A primary key for the table, if there is one, as tokens.
pub open spec fn key_written(key: Option<Seq<char>>) -> Seq<TokenV> {
    match key {
        None => Seq::empty(),
        Some(name) => seq![
            TokenV::Comma,
            TokenV::Keyword(Keyword::Primary),
            TokenV::Keyword(Keyword::Key),
            TokenV::LParen,
            TokenV::Ident(name),
            TokenV::RParen,
        ],
    }
}

/// A `CREATE TABLE` as tokens.
pub open spec fn create_tokens(
    table: Seq<char>,
    cs: Seq<WrittenColumnV>,
    key: Option<Seq<char>>,
) -> Seq<TokenV> {
    seq![
        TokenV::Keyword(Keyword::Create),
        TokenV::Keyword(Keyword::Table),
        TokenV::Ident(table),
        TokenV::LParen,
    ] + (columns_written(cs) + (key_written(key) + seq![TokenV::RParen]))
}

proof fn lemma_columns_at_last(ts: Seq<TokenV>, i: int, cs: Seq<WrittenColumnV>)
    requires
        cs.len() > 0,
        tokens_at(ts, i, columns_written(cs)),
    ensures
        ({
            let n = cs.len() - 1;
            let before = if n == 0 {
                0int
            } else {
                columns_written(cs.take(n)).len() + 1int
            };
            &&& tokens_at(ts, i + before, cs[n].tokens())
            &&& columns_written(cs).len() == before + cs[n].tokens().len()
            &&& n > 0 ==> tokens_at(ts, i, columns_written(cs.take(n))) && token_at(
                ts,
                i + before - 1,
            ) == Some(TokenV::Comma)
        }),
{
    let n = cs.len() - 1;
    if n > 0 {
        assert(cs.drop_last() =~= cs.take(n));
        let front = columns_written(cs.take(n));
        let comma = seq![TokenV::Comma];
        lemma_halves(ts, i, front, comma + cs[n].tokens());
        lemma_halves(ts, (i + front.len()) as int, comma, cs[n].tokens());
        lemma_at(ts, (i + front.len()) as int, comma);
    }
}

/// What reading the items from the first comes to once `n` columns are read.
#[verifier::rlimit(40)]
proof fn lemma_columns_read(
    ts: Seq<TokenV>,
    p: Place,
    cs: Seq<WrittenColumnV>,
    n: int,
    allow: bool,
)
    requires
        0 < n <= cs.len(),
        forall|i: int| 0 <= i < cs.len() ==> (#[trigger] cs[i]).named_well(),
        tokens_at(ts, p.pos, columns_written(cs.take(n))),
        ends_column(token_at(ts, (p.pos + columns_written(cs.take(n)).len()) as int)),
    ensures
        ({
            let at = p.skip(columns_written(cs.take(n)).len() as int);
            let seen = columns_defined(cs.take(n));
            p_table_items(ts, p, allow, Seq::empty()) == (match token_at(ts, at.pos) {
                Some(TokenV::Comma) => p_table_items(ts, at.skip(1), allow, seen),
                _ => Ok((seen, at.skip(1))),
            })
        }),
    decreases n,
{
    let all = cs.take(n);
    let seen = columns_defined(all);
    let c = cs[n - 1];
    assert(all[n - 1] == c);
    assert(c.named_well());
    lemma_columns_at_last(ts, p.pos, all);
    assert(all.take(n - 1) =~= cs.take(n - 1));
    assert(seen =~= columns_defined(cs.take(n - 1)).push(c.def()));
    let start_of = if n == 1 {
        p
    } else {
        p.skip(columns_written(cs.take(n - 1)).len() + 1int)
    };
    let before = columns_defined(cs.take(n - 1));
    lemma_column_reads(ts, start_of, c, allow, before);
    assert(c.tokens().len() >= 2);
    assert(moved(ts, start_of, start_of.skip(c.tokens().len() as int)));
    if n > 1 {
        lemma_columns_read(ts, p, cs, n - 1, allow);
    } else {
        assert(before =~= Seq::empty());
    }
}

/// A `CREATE TABLE` reads back: its name, and of each column its name, its type
/// with its sizes, and its attributes. A primary key for the table marks the
/// column that it names, and is refused if there is none. Options behind the
/// parenthesis count for nothing.
#[verifier::rlimit(40)]
pub proof fn law_tables_read_back(
    table: Seq<char>,
    cs: Seq<WrittenColumnV>,
    key: Option<Seq<char>>,
    options: Seq<TokenV>,
    tail: Seq<TokenV>,
    allow: bool,
)
    requires
        is_tail(tail),
        forall|k: int| 0 <= k < options.len() ==> #[trigger] options[k] != TokenV::Semicolon,
        cs.len() > 0,
        forall|i: int| 0 <= i < cs.len() ==> (#[trigger] cs[i]).named_well(),
    ensures
        ({
            let r = statement_of(create_tokens(table, cs, key) + options + tail, allow);
            match key {
                None => r == Ok::<(StatementV, int), ErrorV>(
                    (StatementV::CreateTable { table, columns: columns_defined(cs) }, 0),
                ),
                Some(name) => {
                    &&& r is Ok <==> has_column(columns_defined(cs), name)
                    &&& r matches Ok((st, n)) ==> n == 0 && (st matches StatementV::CreateTable {
                        table: t,
                        columns,
                    } && t == table && keyed(columns_defined(cs), name, columns))
                },
            }
        }),
{
    let w = create_tokens(table, cs, key);
    let all = w + options;
    let ts = all + tail;
    let head = seq![
        TokenV::Keyword(Keyword::Create),
        TokenV::Keyword(Keyword::Table),
        TokenV::Ident(table),
        TokenV::LParen,
    ];
    let body = columns_written(cs) + (key_written(key) + seq![TokenV::RParen]);
    lemma_tail(ts, all, tail);
    lemma_halves(ts, 0, w, options);
    lemma_at(ts, w.len() as int, options);
    assert forall|k: int| w.len() <= k < all.len() implies #[trigger] ts[k]
        != TokenV::Semicolon by {
        assert(options[k - w.len()] == ts[w.len() + (k - w.len())]);
    }
    lemma_no_semicolon(ts, w.len() as int, all.len() as int);
    lemma_halves(ts, 0, head, body);
    lemma_at(ts, 0, head);
    assert(head[3] == ts[0int + 3]);
    lemma_all_items_read(ts, cs, key, allow);
    lemma_create_rule(ts, table, Place { pos: w.len() as int, params: 0 }, allow);
}

#[verifier::rlimit(40)]
proof fn lemma_all_items_read(
    ts: Seq<TokenV>,
    cs: Seq<WrittenColumnV>,
    key: Option<Seq<char>>,
    allow: bool,
)
    requires
        cs.len() > 0,
        forall|i: int| 0 <= i < cs.len() ==> (#[trigger] cs[i]).named_well(),
        tokens_at(ts, 4, columns_written(cs) + (key_written(key) + seq![TokenV::RParen])),
    ensures
        ({
            let end = Place {
                pos: 5int + columns_written(cs).len() + key_written(key).len(),
                params: 0,
            };
            match p_table_items(ts, Place { pos: 4, params: 0 }, allow, Seq::empty()) {
                Ok((columns, q)) => q == end && match key {
                    None => columns == columns_defined(cs),
                    Some(name) => has_column(columns_defined(cs), name) && keyed(
                        columns_defined(cs),
                        name,
                        columns,
                    ),
                },
                Err(_) => key matches Some(name) && !has_column(columns_defined(cs), name),
            }
        }),
{
    let body = columns_written(cs);
    let clause = key_written(key);
    let close = seq![TokenV::RParen];
    lemma_halves(ts, 4, body, clause + close);
    let at = 4 + body.len() as int;
    lemma_halves(ts, at, clause, close);
    lemma_at(ts, (at + clause.len()) as int, close);
    lemma_at(ts, at, clause);
    let p = Place { pos: 4, params: 0 };
    assert(cs.take(cs.len() as int) =~= cs);
    match key {
        None => {
            lemma_columns_read(ts, p, cs, cs.len() as int, allow);
        },
        Some(name) => {
            assert(clause[0] == TokenV::Comma);
            lemma_columns_read(ts, p, cs, cs.len() as int, allow);
            lemma_key_reads(ts, at, name, columns_defined(cs), allow);
        },
    }
}

#[verifier::rlimit(40)]
proof fn lemma_key_reads(
    ts: Seq<TokenV>,
    at: int,
    name: Seq<char>,
    seen: Seq<ColumnDefV>,
    allow: bool,
)
    requires
        tokens_at(ts, at, key_written(Some(name))),
        token_at(ts, at + 6) == Some(TokenV::RParen),
    ensures
        match p_table_items(ts, Place { pos: at + 1, params: 0 }, allow, seen) {
            Ok((after, q)) => has_column(seen, name) && keyed(seen, name, after) && q == (Place {
                pos: at + 7,
                params: 0,
            }),
            Err(_) => !has_column(seen, name),
        },
{
    let q = Place { pos: at + 1, params: 0 };
    let rest = ts.skip(at + 6);
    let clause = key_written(Some(name));
    let five = seq![
        TokenV::Keyword(Keyword::Primary),
        TokenV::Keyword(Keyword::Key),
        TokenV::LParen,
        TokenV::Ident(name),
        TokenV::RParen,
    ];
    let none = Seq::<TokenV>::empty();
    lemma_at(ts, at, clause);
    assert(clause =~= seq![TokenV::Comma] + five);
    lemma_halves(ts, at, seq![TokenV::Comma], five);
    assert(ts.skip(q.pos) =~= five + rest) by {
        lemma_at(ts, at + 1, five);
        assert forall|k: int| 0 <= k < 5 implies ts[q.pos + k] == five[k] by {}
    }
    assert(none + five =~= five);
    law_primary_key_clause_marks_its_column(ts, q, seen, name, rest, none);
    assert(p_table_item(ts, q, allow, seen) == p_constraint(ts, q, seen));
    match p_constraint(ts, q, seen) {
        Ok((after, r)) => {
            lemma_constraint_place(ts, q, seen);
            lemma_same_rest(ts, r.pos, at + 6);
            assert(moved(ts, q, r));
        },
        Err(_) => {},
    }
}

proof fn lemma_constraint_place(ts: Seq<TokenV>, q: Place, seen: Seq<ColumnDefV>)
    requires
        0 <= q.pos,
        token_at(ts, q.pos) == Some(TokenV::Keyword(Keyword::Primary)),
        token_at(ts, q.pos + 1) == Some(TokenV::Keyword(Keyword::Key)),
        token_at(ts, q.pos + 2) == Some(TokenV::LParen),
        token_at(ts, q.pos + 3) is Some,
        token_at(ts, q.pos + 3)->Some_0 is Ident,
        token_at(ts, q.pos + 4) == Some(TokenV::RParen),
    ensures
        p_constraint(ts, q, seen) matches Ok((_, r)) ==> r == q.skip(5),
{
}

/// Two places with the same tokens behind them, where there are any, are one.
proof fn lemma_same_rest(ts: Seq<TokenV>, i: int, j: int)
    requires
        0 <= i <= ts.len(),
        0 <= j <= ts.len(),
        ts.skip(i) == ts.skip(j),
    ensures
        i == j,
{
    assert(ts.skip(i).len() == ts.len() - i);
    assert(ts.skip(j).len() == ts.len() - j);
}

#[verifier::rlimit(40)]
proof fn lemma_create_rule(ts: Seq<TokenV>, table: Seq<char>, end: Place, allow: bool)
    requires
        token_at(ts, 0) == Some(TokenV::Keyword(Keyword::Create)),
        token_at(ts, 1) == Some(TokenV::Keyword(Keyword::Table)),
        token_at(ts, 2) == Some(TokenV::Ident(table)),
        token_at(ts, 3) == Some(TokenV::LParen),
        p_end(ts, (Place { pos: statement_end(ts, end.pos), params: 0 })) matches Ok(z) && z.params
            == 0,
        end.params == 0,
    ensures
        match p_table_items(ts, Place { pos: 4, params: 0 }, allow, Seq::empty()) {
            Ok((columns, q)) => q == end ==> statement_of(ts, allow) == Ok::<
                (StatementV, int),
                ErrorV,
            >((StatementV::CreateTable { table, columns }, 0)),
            Err(e) => statement_of(ts, allow) is Err,
        },
{
    reveal(p_statement);
    assert(p_qualified(ts, start().skip(1).skip(1)) == Ok::<(Seq<char>, Place), ErrorV>(
        (table, Place { pos: 3, params: 0 }),
    ));
    assert((Place { pos: 3, params: 0 }).skip(1) == (Place { pos: 4, params: 0 }));
}

} // verus!
