//! The grammar of the SQL subset: what each sequence of tokens means.
//!
//! Every rule maps a token sequence and a place in it to what is read there
//! together with the place behind it, or to the syntax error.
use vstd::prelude::*;

use crate::error::ErrorV;
use crate::query::ast::{
    ColumnDefV, CompareOp, ConditionV, ExprV, SelectItemV, ShowStatementV, StatementV,
};
use crate::query::lexer::{
    description, keyword_spelling, token_spelling, Keyword, TokenV,
};
use crate::text::{decimal_int, upper};

verus! {

/// A place in a token sequence, with the number of placeholders before it.
pub ghost struct Place {
    pub pos: int,
    pub params: int,
}

impl Place {
    /// The place `n` tokens further on.
    pub open spec fn skip(self, n: int) -> Place {
        Place { pos: self.pos + n, params: self.params }
    }
}

/// What a rule that reads a `T` yields.
pub type Parsed<T> = Result<(T, Place), ErrorV>;

/// The token at `pos`, if the sequence is that long.
pub open spec fn token_at(ts: Seq<TokenV>, pos: int) -> Option<TokenV> {
    if 0 <= pos < ts.len() {
        Some(ts[pos])
    } else {
        None
    }
}

/// The error for finding something other than `what`.
pub open spec fn expected(what: Seq<char>, found: Option<TokenV>) -> ErrorV {
    ErrorV::Parse("expected "@ + what + ", found "@ + description(found))
}

/// Whether a token is the unreserved word `word` (given in upper case),
/// whatever its case.
pub open spec fn is_word(t: Option<TokenV>, word: Seq<char>) -> bool {
    match t {
        Some(TokenV::Ident(s)) => upper(s) == word,
        _ => false,
    }
}

/// Whether a token is the keyword `kw`.
pub open spec fn is_keyword(t: Option<TokenV>, kw: Keyword) -> bool {
    t == Some(TokenV::Keyword(kw))
}

/// `DATABASE` or its synonym `SCHEMA`.
pub open spec fn is_database_word(t: Option<TokenV>) -> bool {
    is_word(t, "DATABASE"@) || is_word(t, "SCHEMA"@)
}

/// `acc` in front of a list that is read.
pub open spec fn ahead<T>(acc: Seq<T>, r: Parsed<Seq<T>>) -> Parsed<Seq<T>> {
    match r {
        Ok((rest, q)) => Ok((acc + rest, q)),
        Err(e) => Err(e),
    }
}

pub proof fn lemma_ahead_push<T>(acc: Seq<T>, x: T, r: Parsed<Seq<T>>)
    ensures
        ahead(acc, ahead(seq![x], r)) == ahead(acc.push(x), r),
{
    match r {
        Ok((rest, _)) => assert(acc + (seq![x] + rest) =~= acc.push(x) + rest),
        Err(_) => {},
    }
}

pub proof fn lemma_ahead_empty<T>(r: Parsed<Seq<T>>)
    ensures
        ahead(Seq::<T>::empty(), r) == r,
{
    match r {
        Ok((rest, _)) => assert(Seq::<T>::empty() + rest =~= rest),
        Err(_) => {},
    }
}

pub proof fn lemma_ahead_last<T>(acc: Seq<T>, x: T, q: Place)
    ensures
        ahead(acc, Ok((seq![x], q))) == Ok::<(Seq<T>, Place), ErrorV>((acc.push(x), q)),
{
    assert(acc + seq![x] =~= acc.push(x));
}

// ---------- single tokens ----------

pub open spec fn p_keyword(ts: Seq<TokenV>, p: Place, kw: Keyword) -> Result<Place, ErrorV> {
    if is_keyword(token_at(ts, p.pos), kw) {
        Ok(p.skip(1))
    } else {
        Err(expected(keyword_spelling(kw), token_at(ts, p.pos)))
    }
}

pub open spec fn p_word(ts: Seq<TokenV>, p: Place, word: Seq<char>) -> Result<Place, ErrorV> {
    if is_word(token_at(ts, p.pos), word) {
        Ok(p.skip(1))
    } else {
        Err(expected("'"@ + word + "'"@, token_at(ts, p.pos)))
    }
}

pub open spec fn p_database_word(ts: Seq<TokenV>, p: Place) -> Result<Place, ErrorV> {
    if is_database_word(token_at(ts, p.pos)) {
        Ok(p.skip(1))
    } else {
        Err(expected("'DATABASE' or 'SCHEMA'"@, token_at(ts, p.pos)))
    }
}

pub open spec fn p_token(ts: Seq<TokenV>, p: Place, t: TokenV) -> Result<Place, ErrorV> {
    if token_at(ts, p.pos) == Some(t) {
        Ok(p.skip(1))
    } else {
        Err(expected("'"@ + token_spelling(t) + "'"@, token_at(ts, p.pos)))
    }
}

pub open spec fn p_ident(ts: Seq<TokenV>, p: Place) -> Parsed<Seq<char>> {
    match token_at(ts, p.pos) {
        Some(TokenV::Ident(s)) => Ok((s, p.skip(1))),
        other => Err(expected("an identifier"@, other)),
    }
}

/// What closes or continues a comma-separated list in parentheses.
pub open spec fn list_error(t: Option<TokenV>) -> ErrorV {
    expected("',' or ')'"@, t)
}

/// An optional name, read and discarded.
pub open spec fn p_optional_name(ts: Seq<TokenV>, p: Place) -> Place {
    match token_at(ts, p.pos) {
        Some(TokenV::Ident(_)) => p.skip(1),
        _ => p,
    }
}

// ---------- names ----------

/// The segments after a name that is `name` so far: each `.` and identifier
/// replaces it.
pub open spec fn p_qualified_rest(ts: Seq<TokenV>, p: Place, name: Seq<char>) -> Parsed<Seq<char>>
    decreases ts.len() - p.pos,
{
    if token_at(ts, p.pos) == Some(TokenV::Dot) {
        match p_ident(ts, p.skip(1)) {
            Ok((next, q)) => p_qualified_rest(ts, q, next),
            Err(e) => Err(e),
        }
    } else {
        Ok((name, p))
    }
}

/// A possibly qualified name; only its last segment is kept.
pub open spec fn p_qualified(ts: Seq<TokenV>, p: Place) -> Parsed<Seq<char>> {
    match p_ident(ts, p) {
        Ok((name, q)) => p_qualified_rest(ts, q, name),
        Err(e) => Err(e),
    }
}

/// Identifiers separated by commas, up to a closing parenthesis.
pub open spec fn p_names(ts: Seq<TokenV>, p: Place) -> Parsed<Seq<Seq<char>>>
    decreases ts.len() - p.pos,
{
    match p_ident(ts, p) {
        Err(e) => Err(e),
        Ok((name, q)) => match token_at(ts, q.pos) {
            Some(TokenV::Comma) => ahead(seq![name], p_names(ts, q.skip(1))),
            Some(TokenV::RParen) => Ok((seq![name], q.skip(1))),
            other => Err(list_error(other)),
        },
    }
}

/// An optional index prefix length, `(20)`.
pub open spec fn p_prefix_length(ts: Seq<TokenV>, p: Place) -> Result<Place, ErrorV> {
    if token_at(ts, p.pos) == Some(TokenV::LParen) {
        match token_at(ts, p.pos + 1) {
            Some(TokenV::Integer(_)) => p_token(ts, p.skip(2), TokenV::RParen),
            other => Err(expected("an integer prefix length"@, other)),
        }
    } else {
        Ok(p)
    }
}

/// The columns of an index, up to its closing parenthesis.
pub open spec fn p_index_columns_rest(ts: Seq<TokenV>, p: Place) -> Parsed<Seq<Seq<char>>>
    decreases ts.len() - p.pos,
{
    match p_ident(ts, p) {
        Err(e) => Err(e),
        Ok((name, q)) => match p_prefix_length(ts, q) {
            Err(e) => Err(e),
            Ok(q) => match token_at(ts, q.pos) {
                Some(TokenV::Comma) => ahead(seq![name], p_index_columns_rest(ts, q.skip(1))),
                Some(TokenV::RParen) => Ok((seq![name], q.skip(1))),
                other => Err(list_error(other)),
            },
        },
    }
}

/// A parenthesized list of index columns.
pub open spec fn p_index_columns(ts: Seq<TokenV>, p: Place) -> Parsed<Seq<Seq<char>>> {
    match p_token(ts, p, TokenV::LParen) {
        Ok(q) => p_index_columns_rest(ts, q),
        Err(e) => Err(e),
    }
}

// ---------- ends of statements ----------

/// The first `;` at or after `pos`, or the end.
pub open spec fn statement_end(ts: Seq<TokenV>, pos: int) -> int
    decreases ts.len() - pos,
{
    if 0 <= pos < ts.len() && ts[pos] != TokenV::Semicolon {
        statement_end(ts, pos + 1)
    } else {
        pos
    }
}

pub proof fn lemma_statement_end(ts: Seq<TokenV>, pos: int)
    requires
        0 <= pos <= ts.len(),
    ensures
        pos <= statement_end(ts, pos) <= ts.len(),
        pos < ts.len() && ts[pos] != TokenV::Semicolon ==> pos < statement_end(ts, pos),
    decreases ts.len() - pos,
{
    if pos < ts.len() && ts[pos] != TokenV::Semicolon {
        lemma_statement_end(ts, pos + 1);
    }
}

/// An optional `;`, then nothing more.
pub open spec fn p_end(ts: Seq<TokenV>, p: Place) -> Result<Place, ErrorV> {
    let q = if token_at(ts, p.pos) == Some(TokenV::Semicolon) {
        p.skip(1)
    } else {
        p
    };
    if q.pos == ts.len() {
        Ok(q)
    } else {
        Err(
            ErrorV::Parse(
                "unexpected trailing input near "@ + description(token_at(ts, q.pos)),
            ),
        )
    }
}

/// `s`, provided the statement ends here.
pub open spec fn p_finish(ts: Seq<TokenV>, p: Place, s: StatementV) -> Parsed<StatementV> {
    match p_end(ts, p) {
        Ok(q) => Ok((s, q)),
        Err(e) => Err(e),
    }
}

/// `s`, whatever else stands before the end of the statement.
pub open spec fn p_discard_rest(ts: Seq<TokenV>, p: Place, s: StatementV) -> Parsed<StatementV> {
    p_finish(ts, Place { pos: statement_end(ts, p.pos), params: p.params }, s)
}

// ---------- expressions ----------

pub open spec fn placeholder_error() -> ErrorV {
    ErrorV::Parse("'?' placeholders are only allowed in prepared statements"@)
}

/// A value: a literal, a variable, a column, a call, or (where `allow` says
/// so) a placeholder.
pub open spec fn p_expr(ts: Seq<TokenV>, p: Place, allow: bool) -> Parsed<ExprV>
    decreases ts.len() - p.pos, 0int,
{
    match token_at(ts, p.pos) {
        Some(TokenV::Integer(n)) => Ok((ExprV::Integer(n), p.skip(1))),
        Some(TokenV::Str(s)) => Ok((ExprV::String(s), p.skip(1))),
        Some(TokenV::Keyword(Keyword::Null)) => Ok((ExprV::Null, p.skip(1))),
        Some(TokenV::SystemVariable(name)) => Ok((ExprV::SystemVariable(name), p.skip(1))),
        Some(TokenV::Ident(name)) => if token_at(ts, p.pos + 1) == Some(TokenV::LParen) {
            if token_at(ts, p.pos + 2) == Some(TokenV::RParen) {
                Ok((ExprV::Function(name, Seq::empty()), p.skip(3)))
            } else {
                match p_args(ts, p.skip(2), allow) {
                    Err(e) => Err(e),
                    Ok((args, q)) => match p_token(ts, q, TokenV::RParen) {
                        Err(e) => Err(e),
                        Ok(q) => Ok((ExprV::Function(name, args), q)),
                    },
                }
            }
        } else {
            Ok((ExprV::Column(name), p.skip(1)))
        },
        Some(TokenV::Placeholder) => if allow {
            Ok((ExprV::Placeholder(p.params), Place { pos: p.pos + 1, params: p.params + 1 }))
        } else {
            Err(placeholder_error())
        },
        other => Err(expected("a value or column"@, other)),
    }
}

/// Whether reading has moved on from `p` to `q`, inside `ts`. Reading a value
/// always does.
pub open spec fn moved(ts: Seq<TokenV>, p: Place, q: Place) -> bool {
    p.pos < q.pos <= ts.len()
}

/// One or more values separated by commas.
pub open spec fn p_args(ts: Seq<TokenV>, p: Place, allow: bool) -> Parsed<Seq<ExprV>>
    decreases ts.len() - p.pos, 1int,
{
    match p_expr(ts, p, allow) {
        Err(e) => Err(e),
        Ok((e, q)) => if token_at(ts, q.pos) == Some(TokenV::Comma) && moved(ts, p, q) {
            ahead(seq![e], p_args(ts, q.skip(1), allow))
        } else {
            Ok((seq![e], q))
        },
    }
}

/// The values of one row, up to its closing parenthesis.
pub open spec fn p_values(ts: Seq<TokenV>, p: Place, allow: bool) -> Parsed<Seq<ExprV>>
    decreases ts.len() - p.pos,
{
    match p_expr(ts, p, allow) {
        Err(e) => Err(e),
        Ok((e, q)) => match token_at(ts, q.pos) {
            Some(TokenV::Comma) => if moved(ts, p, q) {
                ahead(seq![e], p_values(ts, q.skip(1), allow))
            } else {
                Err(list_error(None))
            },
            Some(TokenV::RParen) => Ok((seq![e], q.skip(1))),
            other => Err(list_error(other)),
        },
    }
}

/// The rows of an `INSERT`, separated by commas.
pub open spec fn p_rows(ts: Seq<TokenV>, p: Place, allow: bool) -> Parsed<Seq<Seq<ExprV>>>
    decreases ts.len() - p.pos,
{
    match p_token(ts, p, TokenV::LParen) {
        Err(e) => Err(e),
        Ok(q) => match p_values(ts, q, allow) {
            Err(e) => Err(e),
            Ok((row, q)) => if token_at(ts, q.pos) == Some(TokenV::Comma) && moved(ts, p, q) {
                ahead(seq![row], p_rows(ts, q.skip(1), allow))
            } else {
                Ok((seq![row], q))
            },
        },
    }
}

/// An optional alias: `AS name`, or just `name`.
pub open spec fn p_alias(ts: Seq<TokenV>, p: Place) -> Parsed<Option<Seq<char>>> {
    if is_keyword(token_at(ts, p.pos), Keyword::As) {
        match p_ident(ts, p.skip(1)) {
            Ok((name, q)) => Ok((Some(name), q)),
            Err(e) => Err(e),
        }
    } else {
        match token_at(ts, p.pos) {
            Some(TokenV::Ident(name)) => Ok((Some(name), p.skip(1))),
            _ => Ok((None, p)),
        }
    }
}

/// One item of a `SELECT` list.
pub open spec fn p_select_item(ts: Seq<TokenV>, p: Place, allow: bool) -> Parsed<SelectItemV> {
    if token_at(ts, p.pos) == Some(TokenV::Star) {
        Ok((SelectItemV::Wildcard, p.skip(1)))
    } else {
        match p_expr(ts, p, allow) {
            Err(e) => Err(e),
            Ok((e, q)) => match p_alias(ts, q) {
                Err(e) => Err(e),
                Ok((alias, q)) => Ok((SelectItemV::Expr(e, alias), q)),
            },
        }
    }
}

/// A `SELECT` list.
pub open spec fn p_projection(ts: Seq<TokenV>, p: Place, allow: bool) -> Parsed<Seq<SelectItemV>>
    decreases ts.len() - p.pos,
{
    match p_select_item(ts, p, allow) {
        Err(e) => Err(e),
        Ok((item, q)) => if token_at(ts, q.pos) == Some(TokenV::Comma) && moved(ts, p, q) {
            ahead(seq![item], p_projection(ts, q.skip(1), allow))
        } else {
            Ok((seq![item], q))
        },
    }
}

/// The comparison a token stands for.
pub open spec fn compare_op(t: Option<TokenV>) -> Option<CompareOp> {
    match t {
        Some(TokenV::Eq) => Some(CompareOp::Eq),
        Some(TokenV::NotEq) => Some(CompareOp::NotEq),
        Some(TokenV::Lt) => Some(CompareOp::Lt),
        Some(TokenV::Gt) => Some(CompareOp::Gt),
        Some(TokenV::Le) => Some(CompareOp::Le),
        Some(TokenV::Ge) => Some(CompareOp::Ge),
        _ => None,
    }
}

/// A `WHERE` predicate.
pub open spec fn p_condition(ts: Seq<TokenV>, p: Place, allow: bool) -> Parsed<ConditionV> {
    match p_ident(ts, p) {
        Err(e) => Err(e),
        Ok((column, q)) => match compare_op(token_at(ts, q.pos)) {
            None => Err(expected("a comparison operator"@, token_at(ts, q.pos))),
            Some(op) => match p_expr(ts, q.skip(1), allow) {
                Err(e) => Err(e),
                Ok((value, q)) => Ok((ConditionV { column, op, value }, q)),
            },
        },
    }
}

// ---------- column definitions ----------

/// The numbers of a type's size, up to the closing parenthesis, written behind
/// the `text` so far.
pub open spec fn p_sizes(ts: Seq<TokenV>, p: Place, text: Seq<char>) -> Parsed<Seq<char>>
    decreases ts.len() - p.pos,
{
    match token_at(ts, p.pos) {
        Some(TokenV::Integer(n)) => match token_at(ts, p.pos + 1) {
            Some(TokenV::Comma) => p_sizes(ts, p.skip(2), text + decimal_int(n as int) + ","@),
            Some(TokenV::RParen) => Ok((text + decimal_int(n as int) + ")"@, p.skip(2))),
            other => Err(list_error(other)),
        },
        other => Err(expected("an integer in type size"@, other)),
    }
}

/// A type as written: its name, and its size if it has one.
pub open spec fn p_type_size(ts: Seq<TokenV>, p: Place, name: Seq<char>) -> Parsed<Seq<char>> {
    if token_at(ts, p.pos) == Some(TokenV::LParen) {
        p_sizes(ts, p.skip(1), name + "("@)
    } else {
        Ok((name, p))
    }
}

/// `UNSIGNED` and `ZEROFILL`, read and discarded.
pub open spec fn p_numeric_flags(ts: Seq<TokenV>, p: Place) -> Place
    decreases ts.len() - p.pos,
{
    if is_word(token_at(ts, p.pos), "UNSIGNED"@) || is_word(token_at(ts, p.pos), "ZEROFILL"@) {
        p_numeric_flags(ts, p.skip(1))
    } else {
        p
    }
}

/// The attributes of a column that matter.
pub ghost struct AttributesV {
    pub is_primary_key: bool,
    pub nullable: bool,
    pub auto_increment: bool,
}

/// The attributes of a column, in any order; `a` holds those read so far.
pub open spec fn p_attributes(
    ts: Seq<TokenV>,
    p: Place,
    allow: bool,
    a: AttributesV,
) -> Parsed<AttributesV>
    decreases ts.len() - p.pos,
{
    let t = token_at(ts, p.pos);
    if is_keyword(t, Keyword::Null) {
        p_attributes(ts, p.skip(1), allow, AttributesV { nullable: true, ..a })
    } else if is_word(t, "NOT"@) && is_keyword(token_at(ts, p.pos + 1), Keyword::Null) {
        p_attributes(ts, p.skip(2), allow, AttributesV { nullable: false, ..a })
    } else if is_word(t, "AUTO_INCREMENT"@) {
        p_attributes(ts, p.skip(1), allow, AttributesV { auto_increment: true, ..a })
    } else if is_keyword(t, Keyword::Primary) {
        match p_keyword(ts, p.skip(1), Keyword::Key) {
            Ok(q) => p_attributes(ts, q, allow, AttributesV { is_primary_key: true, ..a }),
            Err(e) => Err(e),
        }
    } else if is_word(t, "UNIQUE"@) {
        if is_keyword(token_at(ts, p.pos + 1), Keyword::Key) {
            p_attributes(ts, p.skip(2), allow, a)
        } else {
            p_attributes(ts, p.skip(1), allow, a)
        }
    } else if is_word(t, "DEFAULT"@) {
        match p_expr(ts, p.skip(1), allow) {
            Ok((_, q)) => if moved(ts, p, q) {
                p_attributes(ts, q, allow, a)
            } else {
                Err(list_error(None))
            },
            Err(e) => Err(e),
        }
    } else if is_word(t, "COMMENT"@) {
        match token_at(ts, p.pos + 1) {
            Some(TokenV::Str(_)) => p_attributes(ts, p.skip(2), allow, a),
            other => Err(expected("a string after COMMENT"@, other)),
        }
    } else {
        Ok((a, p))
    }
}

/// A column definition.
pub open spec fn p_column_def(ts: Seq<TokenV>, p: Place, allow: bool) -> Parsed<ColumnDefV> {
    match p_ident(ts, p) {
        Err(e) => Err(e),
        Ok((name, q)) => match p_ident(ts, q) {
            Err(e) => Err(e),
            Ok((base, q)) => match p_type_size(ts, q, base) {
                Err(e) => Err(e),
                Ok((type_text, q)) => match p_attributes(
                    ts,
                    p_numeric_flags(ts, q),
                    allow,
                    AttributesV { is_primary_key: false, nullable: true, auto_increment: false },
                ) {
                    Err(e) => Err(e),
                    Ok((a, q)) => Ok(
                        (
                            ColumnDefV {
                                name,
                                type_text,
                                is_primary_key: a.is_primary_key,
                                nullable: a.nullable,
                                auto_increment: a.auto_increment,
                            },
                            q,
                        ),
                    ),
                },
            },
        },
    }
}

// ---------- table constraints ----------

/// The place of the first column called `name`, from `i` on.
pub open spec fn column_named(columns: Seq<ColumnDefV>, name: Seq<char>, i: int) -> Option<int>
    decreases columns.len() - i,
{
    if i < 0 || i >= columns.len() {
        None
    } else if columns[i].name == name {
        Some(i)
    } else {
        column_named(columns, name, i + 1)
    }
}

/// The columns after a table-level `PRIMARY KEY (names)`.
pub open spec fn with_primary_key(columns: Seq<ColumnDefV>, names: Seq<Seq<char>>) -> Result<
    Seq<ColumnDefV>,
    ErrorV,
> {
    if names.len() != 1 {
        Err(ErrorV::Unsupported("composite primary keys"@))
    } else {
        match column_named(columns, names[0], 0) {
            None => Err(
                ErrorV::Parse("PRIMARY KEY references unknown column '"@ + names[0] + "'"@),
            ),
            Some(i) => Ok(
                columns.update(i, ColumnDefV { is_primary_key: true, ..columns[i] }),
            ),
        }
    }
}

/// Whether a table constraint, rather than a column definition, starts here.
pub open spec fn constraint_starts(t: Option<TokenV>) -> bool {
    is_keyword(t, Keyword::Primary) || is_keyword(t, Keyword::Key) || is_word(t, "CONSTRAINT"@)
        || is_word(t, "UNIQUE"@) || is_word(t, "INDEX"@) || is_word(t, "FOREIGN"@)
}

/// The next `,` or `)`, or the end.
pub open spec fn item_end(ts: Seq<TokenV>, pos: int) -> int
    decreases ts.len() - pos,
{
    if 0 <= pos < ts.len() && ts[pos] != TokenV::Comma && ts[pos] != TokenV::RParen {
        item_end(ts, pos + 1)
    } else {
        pos
    }
}

/// A list of index columns, read and discarded.
pub open spec fn p_skip_index(ts: Seq<TokenV>, p: Place) -> Result<Place, ErrorV> {
    match p_index_columns(ts, p) {
        Ok((_, q)) => Ok(q),
        Err(e) => Err(e),
    }
}

/// The rest of a foreign key after `FOREIGN`, read and discarded.
pub open spec fn p_foreign_key(ts: Seq<TokenV>, p: Place) -> Result<Place, ErrorV> {
    match p_keyword(ts, p, Keyword::Key) {
        Err(e) => Err(e),
        Ok(q) => match p_skip_index(ts, p_optional_name(ts, q)) {
            Err(e) => Err(e),
            Ok(q) => match p_word(ts, q, "REFERENCES"@) {
                Err(e) => Err(e),
                Ok(q) => match p_qualified(ts, q) {
                    Err(e) => Err(e),
                    Ok((_, q)) => match p_skip_index(ts, q) {
                        Err(e) => Err(e),
                        Ok(q) => Ok(Place { pos: item_end(ts, q.pos), params: q.params }),
                    },
                },
            },
        },
    }
}

/// A table-level constraint: the columns with its effect applied. Only
/// `PRIMARY KEY` has one.
pub open spec fn p_constraint(ts: Seq<TokenV>, p: Place, columns: Seq<ColumnDefV>) -> Parsed<
    Seq<ColumnDefV>,
> {
    let p = if is_word(token_at(ts, p.pos), "CONSTRAINT"@) {
        p_optional_name(ts, p.skip(1))
    } else {
        p
    };
    let t = token_at(ts, p.pos);
    if is_keyword(t, Keyword::Primary) {
        match p_keyword(ts, p.skip(1), Keyword::Key) {
            Err(e) => Err(e),
            Ok(q) => match p_index_columns(ts, q) {
                Err(e) => Err(e),
                Ok((names, q)) => match with_primary_key(columns, names) {
                    Err(e) => Err(e),
                    Ok(c) => Ok((c, q)),
                },
            },
        }
    } else {
        let skipped = if is_word(t, "UNIQUE"@) {
            let next = token_at(ts, p.pos + 1);
            let q = if is_keyword(next, Keyword::Key) || is_word(next, "INDEX"@) {
                p.skip(2)
            } else {
                p.skip(1)
            };
            p_skip_index(ts, p_optional_name(ts, q))
        } else if is_keyword(t, Keyword::Key) || is_word(t, "INDEX"@) {
            p_skip_index(ts, p_optional_name(ts, p.skip(1)))
        } else if is_word(t, "FOREIGN"@) {
            p_foreign_key(ts, p.skip(1))
        } else {
            Err(expected("a table constraint (PRIMARY KEY/UNIQUE/KEY/FOREIGN KEY)"@, t))
        };
        match skipped {
            Ok(q) => Ok((columns, q)),
            Err(e) => Err(e),
        }
    }
}

/// One item of a `CREATE TABLE` list, applied to the columns before it.
pub open spec fn p_table_item(
    ts: Seq<TokenV>,
    p: Place,
    allow: bool,
    columns: Seq<ColumnDefV>,
) -> Parsed<Seq<ColumnDefV>> {
    if constraint_starts(token_at(ts, p.pos)) {
        p_constraint(ts, p, columns)
    } else {
        match p_column_def(ts, p, allow) {
            Ok((c, q)) => Ok((columns.push(c), q)),
            Err(e) => Err(e),
        }
    }
}

/// The items of a `CREATE TABLE`, up to the closing parenthesis.
pub open spec fn p_table_items(
    ts: Seq<TokenV>,
    p: Place,
    allow: bool,
    columns: Seq<ColumnDefV>,
) -> Parsed<Seq<ColumnDefV>>
    decreases ts.len() - p.pos,
{
    match p_table_item(ts, p, allow, columns) {
        Err(e) => Err(e),
        Ok((columns, q)) => match token_at(ts, q.pos) {
            Some(TokenV::Comma) => if moved(ts, p, q) {
                p_table_items(ts, q.skip(1), allow, columns)
            } else {
                Err(list_error(None))
            },
            Some(TokenV::RParen) => Ok((columns, q.skip(1))),
            other => Err(list_error(other)),
        },
    }
}

// ---------- statements ----------

pub open spec fn p_create_table(ts: Seq<TokenV>, p: Place, allow: bool) -> Parsed<StatementV> {
    match p_keyword(ts, p, Keyword::Create) {
        Err(e) => Err(e),
        Ok(q) => match p_keyword(ts, q, Keyword::Table) {
            Err(e) => Err(e),
            Ok(q) => match p_qualified(ts, q) {
                Err(e) => Err(e),
                Ok((table, q)) => match p_token(ts, q, TokenV::LParen) {
                    Err(e) => Err(e),
                    Ok(q) => match p_table_items(ts, q, allow, Seq::empty()) {
                        Err(e) => Err(e),
                        Ok((columns, q)) => p_discard_rest(
                            ts,
                            q,
                            StatementV::CreateTable { table, columns },
                        ),
                    },
                },
            },
        },
    }
}

/// An optional `IF NOT EXISTS`.
pub open spec fn p_if_not_exists(ts: Seq<TokenV>, p: Place) -> Parsed<bool> {
    if is_word(token_at(ts, p.pos), "IF"@) {
        match p_word(ts, p.skip(1), "NOT"@) {
            Err(e) => Err(e),
            Ok(q) => match p_word(ts, q, "EXISTS"@) {
                Err(e) => Err(e),
                Ok(q) => Ok((true, q)),
            },
        }
    } else {
        Ok((false, p))
    }
}

/// An optional `IF EXISTS`.
pub open spec fn p_if_exists(ts: Seq<TokenV>, p: Place) -> Parsed<bool> {
    if is_word(token_at(ts, p.pos), "IF"@) {
        match p_word(ts, p.skip(1), "EXISTS"@) {
            Err(e) => Err(e),
            Ok(q) => Ok((true, q)),
        }
    } else {
        Ok((false, p))
    }
}

pub open spec fn p_create_database(ts: Seq<TokenV>, p: Place) -> Parsed<StatementV> {
    match p_keyword(ts, p, Keyword::Create) {
        Err(e) => Err(e),
        Ok(q) => match p_database_word(ts, q) {
            Err(e) => Err(e),
            Ok(q) => match p_if_not_exists(ts, q) {
                Err(e) => Err(e),
                Ok((if_not_exists, q)) => match p_ident(ts, q) {
                    Err(e) => Err(e),
                    Ok((name, q)) => p_discard_rest(
                        ts,
                        q,
                        StatementV::CreateDatabase { name, if_not_exists },
                    ),
                },
            },
        },
    }
}

pub open spec fn p_drop_database(ts: Seq<TokenV>, p: Place) -> Parsed<StatementV> {
    match p_keyword(ts, p, Keyword::Drop) {
        Err(e) => Err(e),
        Ok(q) => match p_database_word(ts, q) {
            Err(e) => Err(e),
            Ok(q) => match p_if_exists(ts, q) {
                Err(e) => Err(e),
                Ok((if_exists, q)) => match p_ident(ts, q) {
                    Err(e) => Err(e),
                    Ok((name, q)) => p_finish(ts, q, StatementV::DropDatabase { name, if_exists }),
                },
            },
        },
    }
}

/// The optional column list of an `INSERT`.
pub open spec fn p_insert_columns(ts: Seq<TokenV>, p: Place) -> Parsed<Option<Seq<Seq<char>>>> {
    if token_at(ts, p.pos) == Some(TokenV::LParen) {
        match p_names(ts, p.skip(1)) {
            Ok((names, q)) => Ok((Some(names), q)),
            Err(e) => Err(e),
        }
    } else {
        Ok((None, p))
    }
}

pub open spec fn p_insert(ts: Seq<TokenV>, p: Place, allow: bool) -> Parsed<StatementV> {
    match p_keyword(ts, p, Keyword::Insert) {
        Err(e) => Err(e),
        Ok(q) => match p_keyword(ts, q, Keyword::Into) {
            Err(e) => Err(e),
            Ok(q) => match p_qualified(ts, q) {
                Err(e) => Err(e),
                Ok((table, q)) => match p_insert_columns(ts, q) {
                    Err(e) => Err(e),
                    Ok((columns, q)) => match p_keyword(ts, q, Keyword::Values) {
                        Err(e) => Err(e),
                        Ok(q) => match p_rows(ts, q, allow) {
                            Err(e) => Err(e),
                            Ok((rows, q)) => p_finish(
                                ts,
                                q,
                                StatementV::Insert { table, columns, rows },
                            ),
                        },
                    },
                },
            },
        },
    }
}

/// The `FROM` part of a `SELECT`: a table (with an alias that is discarded)
/// and an optional predicate.
pub open spec fn p_from(ts: Seq<TokenV>, p: Place, allow: bool) -> Parsed<
    (Option<Seq<char>>, Option<ConditionV>),
> {
    if is_keyword(token_at(ts, p.pos), Keyword::From) {
        match p_qualified(ts, p.skip(1)) {
            Err(e) => Err(e),
            Ok((table, q)) => match p_alias(ts, q) {
                Err(e) => Err(e),
                Ok((_, q)) => if is_keyword(token_at(ts, q.pos), Keyword::Where) {
                    match p_condition(ts, q.skip(1), allow) {
                        Err(e) => Err(e),
                        Ok((c, q)) => Ok(((Some(table), Some(c)), q)),
                    }
                } else {
                    Ok(((Some(table), None), q))
                },
            },
        }
    } else {
        Ok(((None, None), p))
    }
}

pub open spec fn p_select(ts: Seq<TokenV>, p: Place, allow: bool) -> Parsed<StatementV> {
    match p_keyword(ts, p, Keyword::Select) {
        Err(e) => Err(e),
        Ok(q) => match p_projection(ts, q, allow) {
            Err(e) => Err(e),
            Ok((projection, q)) => match p_from(ts, q, allow) {
                Err(e) => Err(e),
                Ok(((from, selection), q)) => p_finish(
                    ts,
                    q,
                    StatementV::Select { projection, from, selection },
                ),
            },
        },
    }
}

/// A keyword that is a whole statement.
pub open spec fn p_simple(ts: Seq<TokenV>, p: Place, kw: Keyword, s: StatementV) -> Parsed<
    StatementV,
> {
    match p_keyword(ts, p, kw) {
        Err(e) => Err(e),
        Ok(q) => p_finish(ts, q, s),
    }
}

pub open spec fn p_start_transaction(ts: Seq<TokenV>, p: Place) -> Parsed<StatementV> {
    match p_keyword(ts, p, Keyword::Start) {
        Err(e) => Err(e),
        Ok(q) => p_simple(ts, q, Keyword::Transaction, StatementV::Begin),
    }
}

/// A keyword whose statement is accepted and ignored.
pub open spec fn p_ignored(ts: Seq<TokenV>, p: Place, kw: Keyword, s: StatementV) -> Parsed<
    StatementV,
> {
    match p_keyword(ts, p, kw) {
        Err(e) => Err(e),
        Ok(q) => p_discard_rest(ts, q, s),
    }
}

/// An optional `LIKE '<pattern>'`.
pub open spec fn p_like(ts: Seq<TokenV>, p: Place) -> Parsed<Option<Seq<char>>> {
    if is_word(token_at(ts, p.pos), "LIKE"@) {
        match token_at(ts, p.pos + 1) {
            Some(TokenV::Str(pattern)) => Ok((Some(pattern), p.skip(2))),
            other => Err(expected("a string pattern after LIKE"@, other)),
        }
    } else {
        Ok((None, p))
    }
}

/// The form of `SHOW` that `t` and the token `next` behind it announce, apart
/// from `SHOW VARIABLES`.
pub open spec fn show_form(t: Option<TokenV>, next: Option<TokenV>) -> ShowStatementV {
    if is_word(t, "WARNINGS"@) || is_word(t, "ERRORS"@) {
        ShowStatementV::Warnings
    } else if is_word(t, "DATABASES"@) || is_word(t, "SCHEMAS"@) {
        ShowStatementV::Databases
    } else if is_word(t, "TABLES"@) {
        ShowStatementV::Tables
    } else if is_word(t, "CHARSET"@) {
        ShowStatementV::CharacterSet
    } else if is_word(t, "CHARACTER"@) && is_keyword(next, Keyword::SetWord) {
        ShowStatementV::CharacterSet
    } else if is_word(t, "COLLATION"@) {
        ShowStatementV::Collation
    } else {
        ShowStatementV::Other
    }
}

/// Whether `SHOW` is followed by `VARIABLES` or `STATUS`.
pub open spec fn shows_variables(t: Option<TokenV>) -> bool {
    is_word(t, "VARIABLES"@) || is_word(t, "STATUS"@)
}

pub open spec fn p_show(ts: Seq<TokenV>, p: Place) -> Parsed<StatementV> {
    match p_keyword(ts, p, Keyword::Show) {
        Err(e) => Err(e),
        Ok(q) => if shows_variables(token_at(ts, q.pos)) {
            match p_like(ts, q.skip(1)) {
                Err(e) => Err(e),
                Ok((like, q)) => p_discard_rest(
                    ts,
                    q,
                    StatementV::Show(ShowStatementV::Variables { like }),
                ),
            }
        } else {
            p_discard_rest(
                ts,
                q,
                StatementV::Show(show_form(token_at(ts, q.pos), token_at(ts, q.pos + 1))),
            )
        },
    }
}

/// One whole statement.
#[verifier::opaque]
pub open spec fn p_statement(ts: Seq<TokenV>, p: Place, allow: bool) -> Parsed<StatementV> {
    match token_at(ts, p.pos) {
        Some(TokenV::Keyword(Keyword::Create)) => if is_database_word(token_at(ts, p.pos + 1)) {
            p_create_database(ts, p)
        } else {
            p_create_table(ts, p, allow)
        },
        Some(TokenV::Keyword(Keyword::Drop)) => p_drop_database(ts, p),
        Some(TokenV::Keyword(Keyword::Insert)) => p_insert(ts, p, allow),
        Some(TokenV::Keyword(Keyword::Select)) => p_select(ts, p, allow),
        Some(TokenV::Keyword(Keyword::Begin)) => p_simple(
            ts,
            p,
            Keyword::Begin,
            StatementV::Begin,
        ),
        Some(TokenV::Keyword(Keyword::Start)) => p_start_transaction(ts, p),
        Some(TokenV::Keyword(Keyword::Commit)) => p_simple(
            ts,
            p,
            Keyword::Commit,
            StatementV::Commit,
        ),
        Some(TokenV::Keyword(Keyword::Rollback)) => p_simple(
            ts,
            p,
            Keyword::Rollback,
            StatementV::Rollback,
        ),
        Some(TokenV::Keyword(Keyword::SetWord)) => p_ignored(
            ts,
            p,
            Keyword::SetWord,
            StatementV::SetOption,
        ),
        Some(TokenV::Keyword(Keyword::Use)) => p_ignored(ts, p, Keyword::Use, StatementV::Use),
        Some(TokenV::Keyword(Keyword::Show)) => p_show(ts, p),
        other => Err(
            expected(
                "CREATE, DROP, INSERT, SELECT, BEGIN, START, COMMIT, ROLLBACK, SET, USE, or SHOW"@,
                other,
            ),
        ),
    }
}

/// Where reading starts.
pub open spec fn start() -> Place {
    Place { pos: 0, params: 0 }
}

pub open spec fn empty_statement_error() -> ErrorV {
    ErrorV::Parse("empty statement"@)
}

/// One statement that is the whole of `ts`, with the number of placeholders
/// in it.
pub open spec fn statement_of(ts: Seq<TokenV>, allow: bool) -> Result<(StatementV, int), ErrorV> {
    if ts.len() == 0 {
        Err(empty_statement_error())
    } else {
        match p_statement(ts, start(), allow) {
            Ok((s, q)) => Ok((s, q.params)),
            Err(e) => Err(e),
        }
    }
}

/// `s` in front of further statements.
pub open spec fn before(s: Seq<StatementV>, r: Result<Seq<StatementV>, ErrorV>) -> Result<
    Seq<StatementV>,
    ErrorV,
> {
    match r {
        Ok(rest) => Ok(s + rest),
        Err(e) => Err(e),
    }
}

/// The statements of `ts` from `i` on, separated by `;`; empty ones are
/// skipped.
pub open spec fn statements_from(ts: Seq<TokenV>, i: int) -> Result<Seq<StatementV>, ErrorV>
    decreases ts.len() - i,
{
    if i < 0 || i >= ts.len() {
        Ok(Seq::empty())
    } else if ts[i] == TokenV::Semicolon {
        statements_from(ts, i + 1)
    } else {
        proof {
            lemma_statement_end(ts, i);
        }
        let end = statement_end(ts, i);
        let rest = statements_from(ts, end);
        match statement_of(ts.subrange(i, end), false) {
            Ok((s, _)) => before(seq![s], rest),
            Err(e) => Err(e),
        }
    }
}

/// All statements of `ts`; there has to be at least one.
pub open spec fn statements_of(ts: Seq<TokenV>) -> Result<Seq<StatementV>, ErrorV> {
    match statements_from(ts, 0) {
        Ok(s) => if s.len() == 0 {
            Err(empty_statement_error())
        } else {
            Ok(s)
        },
        Err(e) => Err(e),
    }
}

} // verus!
