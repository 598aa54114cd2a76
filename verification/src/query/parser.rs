//! A recursive-descent parser for the SQL subset.
use vstd::prelude::*;

use crate::error::{Error, ErrorV};
use crate::query::ast::{
    copy_expr, expr_rows, lemma_function_view, ColumnDefV, ConditionV, ExprV, SelectItemV,
    StatementV,
};
pub use crate::query::ast::{
    ColumnDef, CompareOp, Condition, Expr, SelectItem, ShowStatement, Statement,
};
use crate::query::grammar::{
    ahead, before, column_named, constraint_starts, expected, is_database_word, is_keyword, is_word,
    item_end, lemma_ahead_empty, lemma_ahead_last, lemma_ahead_push, p_alias, p_args, p_attributes,
    p_column_def, p_condition, p_constraint, p_create_database, p_create_table, p_database_word,
    p_discard_rest, p_drop_database, p_end, p_expr, p_finish, p_foreign_key, p_ident, p_if_exists,
    p_if_not_exists, p_ignored, p_index_columns, p_index_columns_rest, p_insert, p_insert_columns,
    p_keyword, p_like, p_names, p_numeric_flags, p_optional_name, p_prefix_length, p_projection,
    p_qualified, p_qualified_rest, p_rows, p_select, p_select_item, p_show, p_simple, p_sizes,
    p_skip_index, p_start_transaction, p_statement, p_table_items, p_token, p_type_size, p_values,
    p_word, show_form, start, statement_end, statement_of, statements_from, statements_of, token_at,
    with_primary_key, AttributesV, Parsed, Place,
};
use crate::query::lexer::{
    describe, keyword_text, lex, token_text, tokenize, Keyword, Token, TokenV,
};
use crate::seqs::{duplicate_opt, opt_view, views};
use crate::text::{cat2, cat3, cat4, decimal, i64_text, same_text, to_upper, u128_text};

verus! {

broadcast use crate::seqs::group_views;

/// Whether two tokens are the same.
fn same_token(a: &Token, b: &Token) -> (r: bool)
    ensures
        r == (a@ == b@),
{
    match (a, b) {
        (Token::Keyword(x), Token::Keyword(y)) => *x == *y,
        (Token::Ident(x), Token::Ident(y)) => same_text(x.as_str(), y.as_str()),
        (Token::SystemVariable(x), Token::SystemVariable(y)) => same_text(x.as_str(), y.as_str()),
        (Token::Integer(x), Token::Integer(y)) => *x == *y,
        (Token::Str(x), Token::Str(y)) => same_text(x.as_str(), y.as_str()),
        (Token::Comma, Token::Comma) => true,
        (Token::LParen, Token::LParen) => true,
        (Token::RParen, Token::RParen) => true,
        (Token::Semicolon, Token::Semicolon) => true,
        (Token::Star, Token::Star) => true,
        (Token::Eq, Token::Eq) => true,
        (Token::NotEq, Token::NotEq) => true,
        (Token::Lt, Token::Lt) => true,
        (Token::Gt, Token::Gt) => true,
        (Token::Le, Token::Le) => true,
        (Token::Ge, Token::Ge) => true,
        (Token::Dot, Token::Dot) => true,
        (Token::Placeholder, Token::Placeholder) => true,
        _ => false,
    }
}

/// Whether `t` is the unreserved word `word`, given in upper case.
fn token_is_word(t: Option<&Token>, word: &str) -> (r: bool)
    ensures
        r == is_word(
            match t {
                Some(t) => Some(t@),
                None => None,
            },
            word@,
        ),
{
    match t {
        Some(Token::Ident(s)) => same_text(to_upper(s.as_str()).as_str(), word),
        _ => false,
    }
}

/// Reads statements off a token sequence.
struct Parser<'a> {
    tokens: &'a [Token],
    pos: usize,
    /// Whether `?` placeholders are permitted.
    allow_placeholders: bool,
    /// Number of placeholders seen so far; also the next placeholder's index.
    param_count: usize,
}

impl<'a> Parser<'a> {
    spec fn ts(&self) -> Seq<TokenV> {
        views(self.tokens@)
    }

    spec fn place(&self) -> Place {
        Place { pos: self.pos as int, params: self.param_count as int }
    }

    spec fn wf(&self) -> bool {
        self.param_count <= self.pos <= self.tokens@.len() <= usize::MAX
    }

    /// Whether this is `before`, possibly further on.
    spec fn follows(&self, before: &Self) -> bool {
        &&& self.wf()
        &&& self.tokens@ == before.tokens@
        &&& self.allow_placeholders == before.allow_placeholders
        &&& before.pos <= self.pos
    }

    fn new(tokens: &'a [Token], allow_placeholders: bool) -> (r: Self)
        ensures
            r.wf(),
            r.tokens@ == tokens@,
            r.allow_placeholders == allow_placeholders,
            r.place() == start(),
    {
        let _len: usize = tokens.len();
        Parser { tokens, pos: 0, allow_placeholders, param_count: 0 }
    }

    fn peek(&self) -> (r: Option<&'a Token>)
        requires
            self.wf(),
        ensures
            match r {
                Some(t) => token_at(self.ts(), self.pos as int) == Some(t@) && self.pos
                    < self.tokens@.len(),
                None => token_at(self.ts(), self.pos as int) is None && self.pos
                    == self.tokens@.len(),
            },
    {
        if self.pos < self.tokens.len() {
            Some(&self.tokens[self.pos])
        } else {
            None
        }
    }

    fn peek_next(&self) -> (r: Option<&'a Token>)
        requires
            self.wf(),
        ensures
            match r {
                Some(t) => token_at(self.ts(), self.pos + 1) == Some(t@) && self.pos + 1
                    < self.tokens@.len(),
                None => token_at(self.ts(), self.pos + 1) is None && self.pos + 1
                    >= self.tokens@.len(),
            },
    {
        if self.pos < self.tokens.len() && self.tokens.len() - self.pos > 1 {
            Some(&self.tokens[self.pos + 1])
        } else {
            None
        }
    }

    /// The next token, stepping past it if there is one.
    fn advance(&mut self) -> (r: Option<&'a Token>)
        requires
            old(self).wf(),
        ensures
            final(self).follows(old(self)),
            match r {
                Some(t) => token_at(old(self).ts(), old(self).pos as int) == Some(t@)
                    && final(self).place() == old(self).place().skip(1),
                None => token_at(old(self).ts(), old(self).pos as int) is None,
            },
    {
        if self.pos < self.tokens.len() {
            let t = &self.tokens[self.pos];
            self.pos = self.pos + 1;
            Some(t)
        } else {
            None
        }
    }

    fn peek_is(&self, t: &Token) -> (r: bool)
        requires
            self.wf(),
        ensures
            r == (token_at(self.ts(), self.pos as int) == Some(t@)),
            r ==> self.pos < self.tokens@.len(),
    {
        match self.peek() {
            Some(found) => same_token(found, t),
            None => false,
        }
    }

    fn peek_is_keyword(&self, kw: Keyword) -> (r: bool)
        requires
            self.wf(),
        ensures
            r == is_keyword(token_at(self.ts(), self.pos as int), kw),
            r ==> self.pos < self.tokens@.len(),
    {
        match self.peek() {
            Some(Token::Keyword(k)) => *k == kw,
            _ => false,
        }
    }

    fn next_is_keyword(&self, kw: Keyword) -> (r: bool)
        requires
            self.wf(),
        ensures
            r == is_keyword(token_at(self.ts(), self.pos + 1), kw),
            r ==> self.pos + 1 < self.tokens@.len(),
    {
        match self.peek_next() {
            Some(Token::Keyword(k)) => *k == kw,
            _ => false,
        }
    }

    fn peek_is_word(&self, word: &str) -> (r: bool)
        requires
            self.wf(),
        ensures
            r == is_word(token_at(self.ts(), self.pos as int), word@),
            r ==> self.pos < self.tokens@.len(),
    {
        token_is_word(self.peek(), word)
    }

    fn next_is_word(&self, word: &str) -> (r: bool)
        requires
            self.wf(),
        ensures
            r == is_word(token_at(self.ts(), self.pos + 1), word@),
            r ==> self.pos + 1 < self.tokens@.len(),
    {
        token_is_word(self.peek_next(), word)
    }

    fn peek_is_database_word(&self) -> (r: bool)
        requires
            self.wf(),
        ensures
            r == is_database_word(token_at(self.ts(), self.pos as int)),
            r ==> self.pos < self.tokens@.len(),
    {
        self.peek_is_word("DATABASE") || self.peek_is_word("SCHEMA")
    }

    /// The error for finding something other than `what` here.
    fn unexpected(&self, what: &str) -> (r: Error)
        requires
            self.wf(),
        ensures
            r@ == expected(what@, token_at(self.ts(), self.pos as int)),
    {
        Error::Parse(cat4("expected ", what, ", found ", describe(self.peek()).as_str()))
    }

    /// The error for finding something other than `what` one token on.
    fn unexpected_next(&self, what: &str) -> (r: Error)
        requires
            self.wf(),
        ensures
            r@ == expected(what@, token_at(self.ts(), self.pos + 1)),
    {
        Error::Parse(cat4("expected ", what, ", found ", describe(self.peek_next()).as_str()))
    }

    fn expect_keyword(&mut self, kw: Keyword) -> (r: Result<(), Error>)
        requires
            old(self).wf(),
        ensures
            final(self).follows(old(self)),
            match r {
                Ok(()) => p_keyword(old(self).ts(), old(self).place(), kw) == Ok::<Place, ErrorV>(
                    final(self).place(),
                ) && final(self).pos > old(self).pos,
                Err(e) => p_keyword(old(self).ts(), old(self).place(), kw) == Err::<Place, ErrorV>(
                    e@,
                ),
            },
    {
        if self.peek_is_keyword(kw) {
            self.pos = self.pos + 1;
            Ok(())
        } else {
            Err(self.unexpected(keyword_text(kw)))
        }
    }

    fn expect_word(&mut self, word: &str) -> (r: Result<(), Error>)
        requires
            old(self).wf(),
        ensures
            final(self).follows(old(self)),
            match r {
                Ok(()) => p_word(old(self).ts(), old(self).place(), word@) == Ok::<Place, ErrorV>(
                    final(self).place(),
                ),
                Err(e) => p_word(old(self).ts(), old(self).place(), word@) == Err::<Place, ErrorV>(
                    e@,
                ),
            },
    {
        if self.peek_is_word(word) {
            self.pos = self.pos + 1;
            Ok(())
        } else {
            let what = cat3("'", word, "'");
            Err(self.unexpected(what.as_str()))
        }
    }

    /// Consume `DATABASE` or its synonym `SCHEMA`.
    fn expect_database_or_schema(&mut self) -> (r: Result<(), Error>)
        requires
            old(self).wf(),
        ensures
            final(self).follows(old(self)),
            match r {
                Ok(()) => p_database_word(old(self).ts(), old(self).place()) == Ok::<Place, ErrorV>(
                    final(self).place(),
                ),
                Err(e) => p_database_word(old(self).ts(), old(self).place()) == Err::<
                    Place,
                    ErrorV,
                >(e@),
            },
    {
        if self.peek_is_database_word() {
            self.pos = self.pos + 1;
            Ok(())
        } else {
            Err(self.unexpected("'DATABASE' or 'SCHEMA'"))
        }
    }

    fn expect_punct(&mut self, t: &Token) -> (r: Result<(), Error>)
        requires
            old(self).wf(),
        ensures
            final(self).follows(old(self)),
            match r {
                Ok(()) => p_token(old(self).ts(), old(self).place(), t@) == Ok::<Place, ErrorV>(
                    final(self).place(),
                ) && final(self).pos > old(self).pos,
                Err(e) => p_token(old(self).ts(), old(self).place(), t@) == Err::<Place, ErrorV>(
                    e@,
                ),
            },
    {
        if self.peek_is(t) {
            self.pos = self.pos + 1;
            Ok(())
        } else {
            let what = cat3("'", token_text(t).as_str(), "'");
            Err(self.unexpected(what.as_str()))
        }
    }

    fn expect_ident(&mut self) -> (r: Result<String, Error>)
        requires
            old(self).wf(),
        ensures
            final(self).follows(old(self)),
            match r {
                Ok(s) => p_ident(old(self).ts(), old(self).place()) == Ok::<
                    (Seq<char>, Place),
                    ErrorV,
                >((s@, final(self).place())) && final(self).pos > old(self).pos,
                Err(e) => p_ident(old(self).ts(), old(self).place()) == Err::<
                    (Seq<char>, Place),
                    ErrorV,
                >(e@),
            },
    {
        match self.peek() {
            Some(Token::Ident(s)) => {
                self.pos = self.pos + 1;
                Ok(s.clone())
            },
            _ => Err(self.unexpected("an identifier")),
        }
    }

    /// An optional name, consumed and discarded.
    fn eat_optional_name(&mut self)
        requires
            old(self).wf(),
        ensures
            final(self).follows(old(self)),
            final(self).place() == p_optional_name(old(self).ts(), old(self).place()),
    {
        match self.peek() {
            Some(Token::Ident(_)) => {
                self.pos = self.pos + 1;
            },
            _ => {},
        }
    }

    /// A name with any number of `.` segments; the last segment is the name.
    fn expect_qualified_ident(&mut self) -> (r: Result<String, Error>)
        requires
            old(self).wf(),
        ensures
            final(self).follows(old(self)),
            match r {
                Ok(s) => p_qualified(old(self).ts(), old(self).place()) == Ok::<
                    (Seq<char>, Place),
                    ErrorV,
                >((s@, final(self).place())) && final(self).pos > old(self).pos,
                Err(e) => p_qualified(old(self).ts(), old(self).place()) == Err::<
                    (Seq<char>, Place),
                    ErrorV,
                >(e@),
            },
    {
        let mut name = self.expect_ident()?;
        while self.peek_is(&Token::Dot)
            invariant
                self.follows(old(self)),
                self.pos > old(self).pos,
                p_qualified(old(self).ts(), old(self).place()) == p_qualified_rest(
                    self.ts(),
                    self.place(),
                    name@,
                ),
            decreases self.tokens@.len() - self.pos,
        {
            self.pos = self.pos + 1;
            name = self.expect_ident()?;
        }
        Ok(name)
    }

    /// Identifiers separated by commas, through the closing parenthesis.
    fn parse_names(&mut self) -> (r: Result<Vec<String>, Error>)
        requires
            old(self).wf(),
        ensures
            final(self).follows(old(self)),
            match r {
                Ok(v) => p_names(old(self).ts(), old(self).place()) == Ok::<
                    (Seq<Seq<char>>, Place),
                    ErrorV,
                >((views(v@), final(self).place())),
                Err(e) => p_names(old(self).ts(), old(self).place()) == Err::<
                    (Seq<Seq<char>>, Place),
                    ErrorV,
                >(e@),
            },
    {
        let mut names: Vec<String> = Vec::new();
        proof {
            lemma_ahead_empty(p_names(self.ts(), self.place()));
        }
        loop
            invariant
                self.follows(old(self)),
                p_names(old(self).ts(), old(self).place()) == ahead(
                    views(names@),
                    p_names(self.ts(), self.place()),
                ),
            decreases self.tokens@.len() - self.pos,
        {
            let name = self.expect_ident()?;
            let ghost so_far = views(names@);
            match self.peek() {
                Some(Token::Comma) => {
                    self.pos = self.pos + 1;
                    proof {
                        lemma_ahead_push(so_far, name@, p_names(self.ts(), self.place()));
                    }
                    names.push(name);
                },
                Some(Token::RParen) => {
                    self.pos = self.pos + 1;
                    proof {
                        lemma_ahead_last(so_far, name@, self.place());
                    }
                    names.push(name);
                    return Ok(names);
                },
                _ => {
                    return Err(self.unexpected("',' or ')'"));
                },
            }
        }
    }

    /// An optional index prefix length.
    fn eat_prefix_length(&mut self) -> (r: Result<(), Error>)
        requires
            old(self).wf(),
        ensures
            final(self).follows(old(self)),
            match r {
                Ok(()) => p_prefix_length(old(self).ts(), old(self).place()) == Ok::<Place, ErrorV>(
                    final(self).place(),
                ),
                Err(e) => p_prefix_length(old(self).ts(), old(self).place()) == Err::<
                    Place,
                    ErrorV,
                >(e@),
            },
    {
        if self.peek_is(&Token::LParen) {
            match self.peek_next() {
                Some(Token::Integer(_)) => {
                    self.pos = self.pos + 2;
                    self.expect_punct(&Token::RParen)
                },
                _ => Err(self.unexpected_next("an integer prefix length")),
            }
        } else {
            Ok(())
        }
    }

    /// A parenthesized list of index columns.
    fn parse_parenthesized_column_list(&mut self) -> (r: Result<Vec<String>, Error>)
        requires
            old(self).wf(),
        ensures
            final(self).follows(old(self)),
            match r {
                Ok(v) => p_index_columns(old(self).ts(), old(self).place()) == Ok::<
                    (Seq<Seq<char>>, Place),
                    ErrorV,
                >((views(v@), final(self).place())) && final(self).pos > old(self).pos,
                Err(e) => p_index_columns(old(self).ts(), old(self).place()) == Err::<
                    (Seq<Seq<char>>, Place),
                    ErrorV,
                >(e@),
            },
    {
        self.expect_punct(&Token::LParen)?;
        let mut names: Vec<String> = Vec::new();
        proof {
            lemma_ahead_empty(p_index_columns_rest(self.ts(), self.place()));
        }
        loop
            invariant
                self.follows(old(self)),
                self.pos > old(self).pos,
                p_index_columns(old(self).ts(), old(self).place()) == ahead(
                    views(names@),
                    p_index_columns_rest(self.ts(), self.place()),
                ),
            decreases self.tokens@.len() - self.pos,
        {
            let name = self.expect_ident()?;
            self.eat_prefix_length()?;
            let ghost so_far = views(names@);
            match self.peek() {
                Some(Token::Comma) => {
                    self.pos = self.pos + 1;
                    proof {
                        lemma_ahead_push(
                            so_far,
                            name@,
                            p_index_columns_rest(self.ts(), self.place()),
                        );
                    }
                    names.push(name);
                },
                Some(Token::RParen) => {
                    self.pos = self.pos + 1;
                    proof {
                        lemma_ahead_last(so_far, name@, self.place());
                    }
                    names.push(name);
                    return Ok(names);
                },
                _ => {
                    return Err(self.unexpected("',' or ')'"));
                },
            }
        }
    }

    /// Consume any remaining tokens up to `;` or end of input.
    fn consume_to_statement_end(&mut self)
        requires
            old(self).wf(),
        ensures
            final(self).follows(old(self)),
            final(self).place() == (Place {
                pos: statement_end(old(self).ts(), old(self).pos as int),
                params: old(self).place().params,
            }),
    {
        while self.pos < self.tokens.len() && !same_token(&self.tokens[self.pos], &Token::Semicolon)
            invariant
                self.follows(old(self)),
                self.param_count == old(self).param_count,
                statement_end(old(self).ts(), old(self).pos as int) == statement_end(
                    self.ts(),
                    self.pos as int,
                ),
            decreases self.tokens@.len() - self.pos,
        {
            self.pos = self.pos + 1;
        }
    }

    fn eat_semicolon_and_ensure_end(&mut self) -> (r: Result<(), Error>)
        requires
            old(self).wf(),
        ensures
            final(self).follows(old(self)),
            match r {
                Ok(()) => p_end(old(self).ts(), old(self).place()) == Ok::<Place, ErrorV>(
                    final(self).place(),
                ),
                Err(e) => p_end(old(self).ts(), old(self).place()) == Err::<Place, ErrorV>(e@),
            },
    {
        if self.peek_is(&Token::Semicolon) {
            self.pos = self.pos + 1;
        }
        if self.pos != self.tokens.len() {
            return Err(
                Error::Parse(
                    cat2("unexpected trailing input near ", describe(self.peek()).as_str()),
                ),
            );
        }
        Ok(())
    }

    // ---------- expressions ----------

    fn parse_expr(&mut self) -> (r: Result<Expr, Error>)
        requires
            old(self).wf(),
        ensures
            final(self).follows(old(self)),
            reads(
                r,
                final(self).place(),
                p_expr(old(self).ts(), old(self).place(), old(self).allow_placeholders),
            ),
            r is Ok ==> final(self).pos > old(self).pos,
        decreases old(self).tokens@.len() - old(self).pos, 0int,
    {
        match self.peek() {
            Some(Token::Integer(n)) => {
                self.pos = self.pos + 1;
                Ok(Expr::Integer(*n))
            },
            Some(Token::Str(s)) => {
                self.pos = self.pos + 1;
                Ok(Expr::String(s.clone()))
            },
            Some(Token::Keyword(Keyword::Null)) => {
                self.pos = self.pos + 1;
                Ok(Expr::Null)
            },
            Some(Token::SystemVariable(name)) => {
                self.pos = self.pos + 1;
                Ok(Expr::SystemVariable(name.clone()))
            },
            Some(Token::Ident(name)) => {
                self.pos = self.pos + 1;
                if self.peek_is(&Token::LParen) {
                    self.parse_function_call(name.clone())
                } else {
                    Ok(Expr::Column(name.clone()))
                }
            },
            Some(Token::Placeholder) => {
                if self.allow_placeholders {
                    let index: usize = self.param_count;
                    self.param_count = self.param_count + 1;
                    self.pos = self.pos + 1;
                    Ok(Expr::Placeholder(index))
                } else {
                    Err(
                        Error::Parse(
                            "'?' placeholders are only allowed in prepared statements".to_string(),
                        ),
                    )
                }
            },
            _ => Err(self.unexpected("a value or column")),
        }
    }

    /// The call of `name`, standing at its opening parenthesis.
    fn parse_function_call(&mut self, name: String) -> (r: Result<Expr, Error>)
        requires
            old(self).wf(),
            old(self).pos > 0,
            token_at(old(self).ts(), old(self).pos - 1) == Some(TokenV::Ident(name@)),
            token_at(old(self).ts(), old(self).pos as int) == Some(TokenV::LParen),
        ensures
            final(self).follows(old(self)),
            reads(
                r,
                final(self).place(),
                p_expr(old(self).ts(), old(self).place().skip(-1), old(self).allow_placeholders),
            ),
            r is Ok ==> final(self).pos > old(self).pos,
        decreases old(self).tokens@.len() - old(self).pos, 2int,
    {
        self.pos = self.pos + 1;
        let mut args: Vec<Expr> = Vec::new();
        if !self.peek_is(&Token::RParen) {
            args = self.parse_args()?;
        }
        self.expect_punct(&Token::RParen)?;
        proof {
            lemma_function_view(name, args);
        }
        Ok(Expr::Function(name, args))
    }

    /// One or more values separated by commas.
    fn parse_args(&mut self) -> (r: Result<Vec<Expr>, Error>)
        requires
            old(self).wf(),
        ensures
            final(self).follows(old(self)),
            match r {
                Ok(v) => p_args(
                    old(self).ts(),
                    old(self).place(),
                    old(self).allow_placeholders,
                ) == Ok::<(Seq<ExprV>, Place), ErrorV>((views(v@), final(self).place()))
                    && final(self).pos > old(self).pos,
                Err(e) => p_args(
                    old(self).ts(),
                    old(self).place(),
                    old(self).allow_placeholders,
                ) == Err::<(Seq<ExprV>, Place), ErrorV>(e@),
            },
        decreases old(self).tokens@.len() - old(self).pos, 1int,
    {
        let mut args: Vec<Expr> = Vec::new();
        let ghost allow = self.allow_placeholders;
        proof {
            lemma_ahead_empty(p_args(self.ts(), self.place(), allow));
        }
        loop
            invariant
                self.follows(old(self)),
                allow == old(self).allow_placeholders,
                p_args(old(self).ts(), old(self).place(), allow) == ahead(
                    views(args@),
                    p_args(self.ts(), self.place(), allow),
                ),
            decreases self.tokens@.len() - self.pos,
        {
            let arg = self.parse_expr()?;
            let ghost so_far = views(args@);
            if self.peek_is(&Token::Comma) {
                self.pos = self.pos + 1;
                proof {
                    lemma_ahead_push(so_far, arg@, p_args(self.ts(), self.place(), allow));
                }
                args.push(arg);
            } else {
                proof {
                    lemma_ahead_last(so_far, arg@, self.place());
                }
                args.push(arg);
                return Ok(args);
            }
        }
    }

    /// The values of one row, through the closing parenthesis.
    fn parse_values(&mut self) -> (r: Result<Vec<Expr>, Error>)
        requires
            old(self).wf(),
        ensures
            final(self).follows(old(self)),
            match r {
                Ok(v) => p_values(
                    old(self).ts(),
                    old(self).place(),
                    old(self).allow_placeholders,
                ) == Ok::<(Seq<ExprV>, Place), ErrorV>((views(v@), final(self).place()))
                    && final(self).pos > old(self).pos,
                Err(e) => p_values(
                    old(self).ts(),
                    old(self).place(),
                    old(self).allow_placeholders,
                ) == Err::<(Seq<ExprV>, Place), ErrorV>(e@),
            },
    {
        let mut values: Vec<Expr> = Vec::new();
        let ghost allow = self.allow_placeholders;
        proof {
            lemma_ahead_empty(p_values(self.ts(), self.place(), allow));
        }
        loop
            invariant
                self.follows(old(self)),
                allow == old(self).allow_placeholders,
                p_values(old(self).ts(), old(self).place(), allow) == ahead(
                    views(values@),
                    p_values(self.ts(), self.place(), allow),
                ),
            decreases self.tokens@.len() - self.pos,
        {
            let value = self.parse_expr()?;
            let ghost so_far = views(values@);
            match self.peek() {
                Some(Token::Comma) => {
                    self.pos = self.pos + 1;
                    proof {
                        lemma_ahead_push(so_far, value@, p_values(self.ts(), self.place(), allow));
                    }
                    values.push(value);
                },
                Some(Token::RParen) => {
                    self.pos = self.pos + 1;
                    proof {
                        lemma_ahead_last(so_far, value@, self.place());
                    }
                    values.push(value);
                    return Ok(values);
                },
                _ => {
                    return Err(self.unexpected("',' or ')'"));
                },
            }
        }
    }

    /// The rows of an `INSERT`.
    fn parse_rows(&mut self) -> (r: Result<Vec<Vec<Expr>>, Error>)
        requires
            old(self).wf(),
        ensures
            final(self).follows(old(self)),
            match r {
                Ok(v) => p_rows(
                    old(self).ts(),
                    old(self).place(),
                    old(self).allow_placeholders,
                ) == Ok::<(Seq<Seq<ExprV>>, Place), ErrorV>((expr_rows(v@), final(self).place())),
                Err(e) => p_rows(
                    old(self).ts(),
                    old(self).place(),
                    old(self).allow_placeholders,
                ) == Err::<(Seq<Seq<ExprV>>, Place), ErrorV>(e@),
            },
    {
        let mut rows: Vec<Vec<Expr>> = Vec::new();
        let ghost allow = self.allow_placeholders;
        proof {
            assert(expr_rows(rows@) =~= Seq::empty());
            lemma_ahead_empty(p_rows(self.ts(), self.place(), allow));
        }
        loop
            invariant
                self.follows(old(self)),
                allow == old(self).allow_placeholders,
                p_rows(old(self).ts(), old(self).place(), allow) == ahead(
                    expr_rows(rows@),
                    p_rows(self.ts(), self.place(), allow),
                ),
            decreases self.tokens@.len() - self.pos,
        {
            self.expect_punct(&Token::LParen)?;
            let row = self.parse_values()?;
            let ghost so_far = expr_rows(rows@);
            let ghost after = rows@.push(row);
            proof {
                assert(expr_rows(after) =~= so_far.push(views(row@)));
            }
            if self.peek_is(&Token::Comma) {
                self.pos = self.pos + 1;
                proof {
                    lemma_ahead_push(so_far, views(row@), p_rows(self.ts(), self.place(), allow));
                }
                rows.push(row);
            } else {
                proof {
                    lemma_ahead_last(so_far, views(row@), self.place());
                }
                rows.push(row);
                return Ok(rows);
            }
        }
    }

    /// An optional alias: `AS name`, or just `name`.
    fn parse_optional_alias(&mut self) -> (r: Result<Option<String>, Error>)
        requires
            old(self).wf(),
        ensures
            final(self).follows(old(self)),
            match r {
                Ok(a) => p_alias(old(self).ts(), old(self).place()) == Ok::<
                    (Option<Seq<char>>, Place),
                    ErrorV,
                >((opt_view(a), final(self).place())),
                Err(e) => p_alias(old(self).ts(), old(self).place()) == Err::<
                    (Option<Seq<char>>, Place),
                    ErrorV,
                >(e@),
            },
    {
        if self.peek_is_keyword(Keyword::As) {
            self.pos = self.pos + 1;
            let name = self.expect_ident()?;
            return Ok(Some(name));
        }
        match self.peek() {
            Some(Token::Ident(name)) => {
                self.pos = self.pos + 1;
                Ok(Some(name.clone()))
            },
            _ => Ok(None),
        }
    }

    fn parse_select_item(&mut self) -> (r: Result<SelectItem, Error>)
        requires
            old(self).wf(),
        ensures
            final(self).follows(old(self)),
            reads(
                r,
                final(self).place(),
                p_select_item(old(self).ts(), old(self).place(), old(self).allow_placeholders),
            ),
            r is Ok ==> final(self).pos > old(self).pos,
    {
        if self.peek_is(&Token::Star) {
            self.pos = self.pos + 1;
            Ok(SelectItem::Wildcard)
        } else {
            let expr = self.parse_expr()?;
            let alias = self.parse_optional_alias()?;
            Ok(SelectItem::Expr(expr, alias))
        }
    }

    fn parse_projection(&mut self) -> (r: Result<Vec<SelectItem>, Error>)
        requires
            old(self).wf(),
        ensures
            final(self).follows(old(self)),
            match r {
                Ok(v) => p_projection(
                    old(self).ts(),
                    old(self).place(),
                    old(self).allow_placeholders,
                ) == Ok::<(Seq<SelectItemV>, Place), ErrorV>((views(v@), final(self).place())),
                Err(e) => p_projection(
                    old(self).ts(),
                    old(self).place(),
                    old(self).allow_placeholders,
                ) == Err::<(Seq<SelectItemV>, Place), ErrorV>(e@),
            },
    {
        let mut items: Vec<SelectItem> = Vec::new();
        let ghost allow = self.allow_placeholders;
        proof {
            lemma_ahead_empty(p_projection(self.ts(), self.place(), allow));
        }
        loop
            invariant
                self.follows(old(self)),
                allow == old(self).allow_placeholders,
                p_projection(old(self).ts(), old(self).place(), allow) == ahead(
                    views(items@),
                    p_projection(self.ts(), self.place(), allow),
                ),
            decreases self.tokens@.len() - self.pos,
        {
            let item = self.parse_select_item()?;
            let ghost so_far = views(items@);
            if self.peek_is(&Token::Comma) {
                self.pos = self.pos + 1;
                proof {
                    lemma_ahead_push(so_far, item@, p_projection(self.ts(), self.place(), allow));
                }
                items.push(item);
            } else {
                proof {
                    lemma_ahead_last(so_far, item@, self.place());
                }
                items.push(item);
                return Ok(items);
            }
        }
    }

    fn parse_condition(&mut self) -> (r: Result<Condition, Error>)
        requires
            old(self).wf(),
        ensures
            final(self).follows(old(self)),
            reads(
                r,
                final(self).place(),
                p_condition(old(self).ts(), old(self).place(), old(self).allow_placeholders),
            ),
    {
        let column = self.expect_ident()?;
        let op = match self.peek() {
            Some(Token::Eq) => CompareOp::Eq,
            Some(Token::NotEq) => CompareOp::NotEq,
            Some(Token::Lt) => CompareOp::Lt,
            Some(Token::Gt) => CompareOp::Gt,
            Some(Token::Le) => CompareOp::Le,
            Some(Token::Ge) => CompareOp::Ge,
            _ => {
                return Err(self.unexpected("a comparison operator"));
            },
        };
        self.pos = self.pos + 1;
        let value = self.parse_expr()?;
        Ok(Condition { column, op, value })
    }

    // ---------- column definitions ----------

    /// A type as written: `name`, and its size if it has one.
    fn parse_type_size(&mut self, name: String) -> (r: Result<String, Error>)
        requires
            old(self).wf(),
        ensures
            final(self).follows(old(self)),
            reads(
                r,
                final(self).place(),
                p_type_size(old(self).ts(), old(self).place(), name@),
            ),
    {
        if !self.peek_is(&Token::LParen) {
            return Ok(name);
        }
        self.pos = self.pos + 1;
        let mut text = cat2(name.as_str(), "(");
        loop
            invariant
                self.follows(old(self)),
                p_type_size(old(self).ts(), old(self).place(), name@) == p_sizes(
                    self.ts(),
                    self.place(),
                    text@,
                ),
            decreases self.tokens@.len() - self.pos,
        {
            let size = match self.peek() {
                Some(Token::Integer(n)) => i64_text(*n),
                _ => {
                    return Err(self.unexpected("an integer in type size"));
                },
            };
            match self.peek_next() {
                Some(Token::Comma) => {
                    self.pos = self.pos + 2;
                    text = cat3(text.as_str(), size.as_str(), ",");
                },
                Some(Token::RParen) => {
                    self.pos = self.pos + 2;
                    return Ok(cat3(text.as_str(), size.as_str(), ")"));
                },
                _ => {
                    return Err(self.unexpected_next("',' or ')'"));
                },
            }
        }
    }

    /// `UNSIGNED` and `ZEROFILL`, consumed and discarded.
    fn eat_numeric_flags(&mut self)
        requires
            old(self).wf(),
        ensures
            final(self).follows(old(self)),
            final(self).place() == p_numeric_flags(old(self).ts(), old(self).place()),
    {
        while self.peek_is_word("UNSIGNED") || self.peek_is_word("ZEROFILL")
            invariant
                self.follows(old(self)),
                p_numeric_flags(old(self).ts(), old(self).place()) == p_numeric_flags(
                    self.ts(),
                    self.place(),
                ),
            decreases self.tokens@.len() - self.pos,
        {
            self.pos = self.pos + 1;
        }
    }

    /// The attributes of a column, in any order: whether it is the primary
    /// key, whether it may be `NULL`, and whether it is `AUTO_INCREMENT`.
    fn parse_attributes(&mut self) -> (r: Result<(bool, bool, bool), Error>)
        requires
            old(self).wf(),
        ensures
            final(self).follows(old(self)),
            ({
                let read = p_attributes(
                    old(self).ts(),
                    old(self).place(),
                    old(self).allow_placeholders,
                    AttributesV { is_primary_key: false, nullable: true, auto_increment: false },
                );
                match r {
                    Ok((pk, nullable, auto)) => read == Ok::<(AttributesV, Place), ErrorV>(
                        (
                            AttributesV { is_primary_key: pk, nullable, auto_increment: auto },
                            final(self).place(),
                        ),
                    ),
                    Err(e) => read == Err::<(AttributesV, Place), ErrorV>(e@),
                }
            }),
    {
        let mut is_primary_key: bool = false;
        let mut nullable: bool = true;
        let mut auto_increment: bool = false;
        let ghost allow = self.allow_placeholders;
        let ghost whole = p_attributes(
            self.ts(),
            self.place(),
            allow,
            AttributesV { is_primary_key, nullable, auto_increment },
        );
        loop
            invariant
                self.follows(old(self)),
                allow == old(self).allow_placeholders,
                whole == p_attributes(
                    self.ts(),
                    self.place(),
                    allow,
                    AttributesV { is_primary_key, nullable, auto_increment },
                ),
                whole == p_attributes(
                    old(self).ts(),
                    old(self).place(),
                    old(self).allow_placeholders,
                    AttributesV { is_primary_key: false, nullable: true, auto_increment: false },
                ),
            decreases self.tokens@.len() - self.pos,
        {
            if self.peek_is_keyword(Keyword::Null) {
                self.pos = self.pos + 1;
                nullable = true;
            } else if self.peek_is_word("NOT") && self.next_is_keyword(Keyword::Null) {
                self.pos = self.pos + 2;
                nullable = false;
            } else if self.peek_is_word("AUTO_INCREMENT") {
                self.pos = self.pos + 1;
                auto_increment = true;
            } else if self.peek_is_keyword(Keyword::Primary) {
                self.pos = self.pos + 1;
                self.expect_keyword(Keyword::Key)?;
                is_primary_key = true;
            } else if self.peek_is_word("UNIQUE") {
                if self.next_is_keyword(Keyword::Key) {
                    self.pos = self.pos + 2;
                } else {
                    self.pos = self.pos + 1;
                }
            } else if self.peek_is_word("DEFAULT") {
                self.pos = self.pos + 1;
                let _default = self.parse_expr()?;
            } else if self.peek_is_word("COMMENT") {
                match self.peek_next() {
                    Some(Token::Str(_)) => {
                        self.pos = self.pos + 2;
                    },
                    _ => {
                        return Err(self.unexpected_next("a string after COMMENT"));
                    },
                }
            } else {
                return Ok((is_primary_key, nullable, auto_increment));
            }
        }
    }

    /// One column definition inside `CREATE TABLE (...)`: name, type, then
    /// any number of attributes in any order.
    fn parse_column_def(&mut self) -> (r: Result<ColumnDef, Error>)
        requires
            old(self).wf(),
        ensures
            final(self).follows(old(self)),
            reads(
                r,
                final(self).place(),
                p_column_def(old(self).ts(), old(self).place(), old(self).allow_placeholders),
            ),
            r is Ok ==> final(self).pos > old(self).pos,
    {
        let name = self.expect_ident()?;
        let base = self.expect_ident()?;
        let type_text = self.parse_type_size(base)?;
        self.eat_numeric_flags();
        let (is_primary_key, nullable, auto_increment) = self.parse_attributes()?;
        Ok(ColumnDef { name, type_text, is_primary_key, nullable, auto_increment })
    }

    // ---------- table constraints ----------

    fn peek_is_table_constraint_start(&self) -> (r: bool)
        requires
            self.wf(),
        ensures
            r == constraint_starts(token_at(self.ts(), self.pos as int)),
    {
        self.peek_is_keyword(Keyword::Primary) || self.peek_is_keyword(Keyword::Key)
            || self.peek_is_word("CONSTRAINT") || self.peek_is_word("UNIQUE") || self.peek_is_word(
            "INDEX",
        ) || self.peek_is_word("FOREIGN")
    }

    fn skip_index(&mut self) -> (r: Result<(), Error>)
        requires
            old(self).wf(),
        ensures
            final(self).follows(old(self)),
            steps(r, final(self).place(), p_skip_index(old(self).ts(), old(self).place())),
    {
        match self.parse_parenthesized_column_list() {
            Ok(_) => Ok(()),
            Err(e) => Err(e),
        }
    }

    /// The rest of a foreign key, after `FOREIGN`.
    fn skip_foreign_key(&mut self) -> (r: Result<(), Error>)
        requires
            old(self).wf(),
        ensures
            final(self).follows(old(self)),
            steps(r, final(self).place(), p_foreign_key(old(self).ts(), old(self).place())),
    {
        self.expect_keyword(Keyword::Key)?;
        self.eat_optional_name();
        self.skip_index()?;
        self.expect_word("REFERENCES")?;
        let _table = self.expect_qualified_ident()?;
        self.skip_index()?;
        let ghost here = self.place();
        while self.pos < self.tokens.len() && !same_token(&self.tokens[self.pos], &Token::Comma)
            && !same_token(&self.tokens[self.pos], &Token::RParen)
            invariant
                self.follows(old(self)),
                here.params == self.param_count,
                item_end(self.ts(), here.pos) == item_end(self.ts(), self.pos as int),
            decreases self.tokens@.len() - self.pos,
        {
            self.pos = self.pos + 1;
        }
        Ok(())
    }

    /// Parse one table-level constraint and apply its effect, if it has one,
    /// to `columns`. Only `PRIMARY KEY (...)` has: it marks the named column.
    fn parse_table_constraint(&mut self, columns: &mut Vec<ColumnDef>) -> (r: Result<(), Error>)
        requires
            old(self).wf(),
        ensures
            final(self).follows(old(self)),
            match r {
                Ok(()) => p_constraint(
                    old(self).ts(),
                    old(self).place(),
                    views(old(columns)@),
                ) == Ok::<(Seq<ColumnDefV>, Place), ErrorV>(
                    (views(final(columns)@), final(self).place()),
                ),
                Err(e) => final(columns)@ == old(columns)@ && p_constraint(
                    old(self).ts(),
                    old(self).place(),
                    views(old(columns)@),
                ) == Err::<(Seq<ColumnDefV>, Place), ErrorV>(e@),
            },
            r is Ok ==> final(self).pos > old(self).pos,
    {
        if self.peek_is_word("CONSTRAINT") {
            self.pos = self.pos + 1;
            self.eat_optional_name();
        }
        if self.peek_is_keyword(Keyword::Primary) {
            self.pos = self.pos + 1;
            self.expect_keyword(Keyword::Key)?;
            let names = self.parse_parenthesized_column_list()?;
            apply_primary_key_constraint(columns, names.as_slice())?;
        } else if self.peek_is_word("UNIQUE") {
            if self.next_is_keyword(Keyword::Key) || self.next_is_word("INDEX") {
                self.pos = self.pos + 2;
            } else {
                self.pos = self.pos + 1;
            }
            self.eat_optional_name();
            self.skip_index()?;
        } else if self.peek_is_keyword(Keyword::Key) || self.peek_is_word("INDEX") {
            self.pos = self.pos + 1;
            self.eat_optional_name();
            self.skip_index()?;
        } else if self.peek_is_word("FOREIGN") {
            self.pos = self.pos + 1;
            self.skip_foreign_key()?;
        } else {
            return Err(
                self.unexpected("a table constraint (PRIMARY KEY/UNIQUE/KEY/FOREIGN KEY)"),
            );
        }
        Ok(())
    }

    /// The items of a `CREATE TABLE`, through the closing parenthesis.
    fn parse_table_items(&mut self) -> (r: Result<Vec<ColumnDef>, Error>)
        requires
            old(self).wf(),
        ensures
            final(self).follows(old(self)),
            match r {
                Ok(v) => p_table_items(
                    old(self).ts(),
                    old(self).place(),
                    old(self).allow_placeholders,
                    Seq::empty(),
                ) == Ok::<(Seq<ColumnDefV>, Place), ErrorV>((views(v@), final(self).place())),
                Err(e) => p_table_items(
                    old(self).ts(),
                    old(self).place(),
                    old(self).allow_placeholders,
                    Seq::empty(),
                ) == Err::<(Seq<ColumnDefV>, Place), ErrorV>(e@),
            },
    {
        let mut columns: Vec<ColumnDef> = Vec::new();
        let ghost allow = self.allow_placeholders;
        loop
            invariant
                self.follows(old(self)),
                allow == old(self).allow_placeholders,
                p_table_items(old(self).ts(), old(self).place(), allow, Seq::empty())
                    == p_table_items(self.ts(), self.place(), allow, views(columns@)),
            decreases self.tokens@.len() - self.pos,
        {
            if self.peek_is_table_constraint_start() {
                self.parse_table_constraint(&mut columns)?;
            } else {
                let column = self.parse_column_def()?;
                columns.push(column);
            }
            match self.peek() {
                Some(Token::Comma) => {
                    self.pos = self.pos + 1;
                },
                Some(Token::RParen) => {
                    self.pos = self.pos + 1;
                    return Ok(columns);
                },
                _ => {
                    return Err(self.unexpected("',' or ')'"));
                },
            }
        }
    }
}

/// Whether a rule's outcome `r`, ending at `place`, is what the grammar says.
spec fn reads<T: View>(r: Result<T, Error>, place: Place, grammar: Parsed<T::V>) -> bool {
    match r {
        Ok(x) => grammar == Ok::<(T::V, Place), ErrorV>((x@, place)),
        Err(e) => grammar == Err::<(T::V, Place), ErrorV>(e@),
    }
}

/// The same for a rule that yields nothing but a place.
spec fn steps(r: Result<(), Error>, place: Place, grammar: Result<Place, ErrorV>) -> bool {
    match r {
        Ok(()) => grammar == Ok::<Place, ErrorV>(place),
        Err(e) => grammar == Err::<Place, ErrorV>(e@),
    }
}

/// Apply a table-level `PRIMARY KEY (names)` to the matching column. Only a
/// single-column key is supported.
fn apply_primary_key_constraint(columns: &mut Vec<ColumnDef>, names: &[String]) -> (r: Result<
    (),
    Error,
>)
    ensures
        match r {
            Ok(()) => with_primary_key(views(old(columns)@), views(names@)) == Ok::<
                Seq<ColumnDefV>,
                ErrorV,
            >(views(final(columns)@)),
            Err(e) => final(columns)@ == old(columns)@ && with_primary_key(
                views(old(columns)@),
                views(names@),
            ) == Err::<Seq<ColumnDefV>, ErrorV>(e@),
        },
{
    if names.len() != 1 {
        return Err(Error::Unsupported("composite primary keys"));
    }
    let name = names[0].as_str();
    let ghost before = views(columns@);
    proof {
        assert(views(names@)[0] == name@);
    }
    let mut i: usize = 0;
    while i < columns.len()
        invariant
            i <= columns@.len(),
            columns@ == old(columns)@,
            names@.len() == 1,
            views(names@)[0] == name@,
            before == views(columns@),
            column_named(before, name@, 0) == column_named(before, name@, i as int),
        decreases columns@.len() - i,
    {
        if same_text(columns[i].name.as_str(), name) {
            proof {
                assert(before[i as int].name == name@);
            }
            columns[i].is_primary_key = true;
            proof {
                assert(views(columns@) =~= before.update(
                    i as int,
                    ColumnDefV { is_primary_key: true, ..before[i as int] },
                ));
            }
            return Ok(());
        }
        i = i + 1;
    }
    Err(Error::Parse(cat3("PRIMARY KEY references unknown column '", name, "'")))
}

impl<'a> Parser<'a> {
    // ---------- statements ----------

    /// `s`, provided the statement ends here.
    fn finish(&mut self, s: Statement) -> (r: Result<Statement, Error>)
        requires
            old(self).wf(),
        ensures
            final(self).follows(old(self)),
            reads(r, final(self).place(), p_finish(old(self).ts(), old(self).place(), s@)),
    {
        self.eat_semicolon_and_ensure_end()?;
        Ok(s)
    }

    /// `s`, whatever else stands before the end of the statement.
    fn discard_rest(&mut self, s: Statement) -> (r: Result<Statement, Error>)
        requires
            old(self).wf(),
        ensures
            final(self).follows(old(self)),
            reads(r, final(self).place(), p_discard_rest(old(self).ts(), old(self).place(), s@)),
    {
        self.consume_to_statement_end();
        self.finish(s)
    }

    /// `CREATE TABLE [db.]name (item, ...) [options]`; the options are
    /// discarded.
    fn parse_create_table(&mut self) -> (r: Result<Statement, Error>)
        requires
            old(self).wf(),
        ensures
            final(self).follows(old(self)),
            reads(
                r,
                final(self).place(),
                p_create_table(old(self).ts(), old(self).place(), old(self).allow_placeholders),
            ),
    {
        self.expect_keyword(Keyword::Create)?;
        self.expect_keyword(Keyword::Table)?;
        let table = self.expect_qualified_ident()?;
        self.expect_punct(&Token::LParen)?;
        let columns = self.parse_table_items()?;
        self.discard_rest(Statement::CreateTable { table, columns })
    }

    /// Consume an optional `IF NOT EXISTS`, reporting whether it was present.
    fn eat_if_not_exists(&mut self) -> (r: Result<bool, Error>)
        requires
            old(self).wf(),
        ensures
            final(self).follows(old(self)),
            reads(r, final(self).place(), p_if_not_exists(old(self).ts(), old(self).place())),
    {
        if !self.peek_is_word("IF") {
            return Ok(false);
        }
        self.pos = self.pos + 1;
        self.expect_word("NOT")?;
        self.expect_word("EXISTS")?;
        Ok(true)
    }

    /// Consume an optional `IF EXISTS`, reporting whether it was present.
    fn eat_if_exists(&mut self) -> (r: Result<bool, Error>)
        requires
            old(self).wf(),
        ensures
            final(self).follows(old(self)),
            reads(r, final(self).place(), p_if_exists(old(self).ts(), old(self).place())),
    {
        if !self.peek_is_word("IF") {
            return Ok(false);
        }
        self.pos = self.pos + 1;
        self.expect_word("EXISTS")?;
        Ok(true)
    }

    /// `CREATE {DATABASE | SCHEMA} [IF NOT EXISTS] <name> [...]`.
    fn parse_create_database(&mut self) -> (r: Result<Statement, Error>)
        requires
            old(self).wf(),
        ensures
            final(self).follows(old(self)),
            reads(r, final(self).place(), p_create_database(old(self).ts(), old(self).place())),
    {
        self.expect_keyword(Keyword::Create)?;
        self.expect_database_or_schema()?;
        let if_not_exists = self.eat_if_not_exists()?;
        let name = self.expect_ident()?;
        self.discard_rest(Statement::CreateDatabase { name, if_not_exists })
    }

    /// `DROP {DATABASE | SCHEMA} [IF EXISTS] <name>`.
    fn parse_drop_database(&mut self) -> (r: Result<Statement, Error>)
        requires
            old(self).wf(),
        ensures
            final(self).follows(old(self)),
            reads(r, final(self).place(), p_drop_database(old(self).ts(), old(self).place())),
    {
        self.expect_keyword(Keyword::Drop)?;
        self.expect_database_or_schema()?;
        let if_exists = self.eat_if_exists()?;
        let name = self.expect_ident()?;
        self.finish(Statement::DropDatabase { name, if_exists })
    }

    /// The optional column list of an `INSERT`.
    fn parse_insert_columns(&mut self) -> (r: Result<Option<Vec<String>>, Error>)
        requires
            old(self).wf(),
        ensures
            final(self).follows(old(self)),
            ({
                let read = p_insert_columns(old(self).ts(), old(self).place());
                match r {
                    Ok(Some(v)) => read == Ok::<(Option<Seq<Seq<char>>>, Place), ErrorV>(
                        (Some(views(v@)), final(self).place()),
                    ),
                    Ok(None) => read == Ok::<(Option<Seq<Seq<char>>>, Place), ErrorV>(
                        (None, final(self).place()),
                    ),
                    Err(e) => read == Err::<(Option<Seq<Seq<char>>>, Place), ErrorV>(e@),
                }
            }),
    {
        if !self.peek_is(&Token::LParen) {
            return Ok(None);
        }
        self.pos = self.pos + 1;
        let names = self.parse_names()?;
        Ok(Some(names))
    }

    /// `INSERT INTO [db.]name [(col, ...)] VALUES (v, ...), ...`.
    fn parse_insert(&mut self) -> (r: Result<Statement, Error>)
        requires
            old(self).wf(),
        ensures
            final(self).follows(old(self)),
            reads(
                r,
                final(self).place(),
                p_insert(old(self).ts(), old(self).place(), old(self).allow_placeholders),
            ),
    {
        self.expect_keyword(Keyword::Insert)?;
        self.expect_keyword(Keyword::Into)?;
        let table = self.expect_qualified_ident()?;
        let columns = self.parse_insert_columns()?;
        self.expect_keyword(Keyword::Values)?;
        let rows = self.parse_rows()?;
        self.finish(Statement::Insert { table, columns, rows })
    }

    /// `SELECT item, ... [FROM table [alias] [WHERE predicate]]`.
    fn parse_select(&mut self) -> (r: Result<Statement, Error>)
        requires
            old(self).wf(),
        ensures
            final(self).follows(old(self)),
            reads(
                r,
                final(self).place(),
                p_select(old(self).ts(), old(self).place(), old(self).allow_placeholders),
            ),
    {
        self.expect_keyword(Keyword::Select)?;
        let projection = self.parse_projection()?;
        let mut from: Option<String> = None;
        let mut selection: Option<Condition> = None;
        if self.peek_is_keyword(Keyword::From) {
            self.pos = self.pos + 1;
            let table = self.expect_qualified_ident()?;
            from = Some(table);
            let _alias = self.parse_optional_alias()?;
            if self.peek_is_keyword(Keyword::Where) {
                self.pos = self.pos + 1;
                let condition = self.parse_condition()?;
                selection = Some(condition);
            }
        }
        self.finish(Statement::Select { projection, from, selection })
    }

    /// A keyword that is a whole statement.
    fn parse_simple(&mut self, kw: Keyword, s: Statement) -> (r: Result<Statement, Error>)
        requires
            old(self).wf(),
        ensures
            final(self).follows(old(self)),
            reads(r, final(self).place(), p_simple(old(self).ts(), old(self).place(), kw, s@)),
    {
        self.expect_keyword(kw)?;
        self.finish(s)
    }

    fn parse_start_transaction(&mut self) -> (r: Result<Statement, Error>)
        requires
            old(self).wf(),
        ensures
            final(self).follows(old(self)),
            reads(r, final(self).place(), p_start_transaction(old(self).ts(), old(self).place())),
    {
        self.expect_keyword(Keyword::Start)?;
        self.parse_simple(Keyword::Transaction, Statement::Begin)
    }

    /// A keyword whose statement is accepted and ignored (`SET`, `USE`).
    fn parse_ignored(&mut self, kw: Keyword, s: Statement) -> (r: Result<Statement, Error>)
        requires
            old(self).wf(),
        ensures
            final(self).follows(old(self)),
            reads(r, final(self).place(), p_ignored(old(self).ts(), old(self).place(), kw, s@)),
    {
        self.expect_keyword(kw)?;
        self.discard_rest(s)
    }

    /// An optional `LIKE '<pattern>'`.
    fn parse_optional_like(&mut self) -> (r: Result<Option<String>, Error>)
        requires
            old(self).wf(),
        ensures
            final(self).follows(old(self)),
            match r {
                Ok(a) => p_like(old(self).ts(), old(self).place()) == Ok::<
                    (Option<Seq<char>>, Place),
                    ErrorV,
                >((opt_view(a), final(self).place())),
                Err(e) => p_like(old(self).ts(), old(self).place()) == Err::<
                    (Option<Seq<char>>, Place),
                    ErrorV,
                >(e@),
            },
    {
        if !self.peek_is_word("LIKE") {
            return Ok(None);
        }
        match self.peek_next() {
            Some(Token::Str(pattern)) => {
                self.pos = self.pos + 2;
                Ok(Some(pattern.clone()))
            },
            _ => Err(self.unexpected_next("a string pattern after LIKE")),
        }
    }

    /// The form of `SHOW` announced here.
    fn show_form(&self) -> (r: ShowStatement)
        requires
            self.wf(),
        ensures
            r@ == show_form(
                token_at(self.ts(), self.pos as int),
                token_at(self.ts(), self.pos + 1),
            ),
    {
        if self.peek_is_word("WARNINGS") || self.peek_is_word("ERRORS") {
            ShowStatement::Warnings
        } else if self.peek_is_word("DATABASES") || self.peek_is_word("SCHEMAS") {
            ShowStatement::Databases
        } else if self.peek_is_word("TABLES") {
            ShowStatement::Tables
        } else if self.peek_is_word("CHARSET") {
            ShowStatement::CharacterSet
        } else if self.peek_is_word("CHARACTER") && self.next_is_keyword(Keyword::SetWord) {
            ShowStatement::CharacterSet
        } else if self.peek_is_word("COLLATION") {
            ShowStatement::Collation
        } else {
            ShowStatement::Other
        }
    }

    /// `SHOW <what>`: a few common forms; anything else is
    /// [`ShowStatement::Other`].
    fn parse_show(&mut self) -> (r: Result<Statement, Error>)
        requires
            old(self).wf(),
        ensures
            final(self).follows(old(self)),
            reads(r, final(self).place(), p_show(old(self).ts(), old(self).place())),
    {
        self.expect_keyword(Keyword::Show)?;
        if self.peek_is_word("VARIABLES") || self.peek_is_word("STATUS") {
            self.pos = self.pos + 1;
            let like = self.parse_optional_like()?;
            self.discard_rest(Statement::Show(ShowStatement::Variables { like }))
        } else {
            let show = self.show_form();
            self.discard_rest(Statement::Show(show))
        }
    }

    /// One whole statement.
    fn parse_statement(&mut self) -> (r: Result<Statement, Error>)
        requires
            old(self).wf(),
        ensures
            final(self).follows(old(self)),
            reads(
                r,
                final(self).place(),
                p_statement(old(self).ts(), old(self).place(), old(self).allow_placeholders),
            ),
    {
        proof {
            reveal(p_statement);
        }
        match self.peek() {
            Some(Token::Keyword(Keyword::Create)) => {
                if self.next_is_word("DATABASE") || self.next_is_word("SCHEMA") {
                    self.parse_create_database()
                } else {
                    self.parse_create_table()
                }
            },
            Some(Token::Keyword(Keyword::Drop)) => self.parse_drop_database(),
            Some(Token::Keyword(Keyword::Insert)) => self.parse_insert(),
            Some(Token::Keyword(Keyword::Select)) => self.parse_select(),
            Some(Token::Keyword(Keyword::Begin)) => self.parse_simple(
                Keyword::Begin,
                Statement::Begin,
            ),
            Some(Token::Keyword(Keyword::Start)) => self.parse_start_transaction(),
            Some(Token::Keyword(Keyword::Commit)) => self.parse_simple(
                Keyword::Commit,
                Statement::Commit,
            ),
            Some(Token::Keyword(Keyword::Rollback)) => self.parse_simple(
                Keyword::Rollback,
                Statement::Rollback,
            ),
            Some(Token::Keyword(Keyword::SetWord)) => self.parse_ignored(
                Keyword::SetWord,
                Statement::SetOption,
            ),
            Some(Token::Keyword(Keyword::Use)) => self.parse_ignored(Keyword::Use, Statement::Use),
            Some(Token::Keyword(Keyword::Show)) => self.parse_show(),
            _ => Err(
                self.unexpected(
                    "CREATE, DROP, INSERT, SELECT, BEGIN, START, COMMIT, ROLLBACK, SET, USE, or SHOW",
                ),
            ),
        }
    }
}

// ---------- entry points ----------

/// What `sql` means as one statement, with its number of placeholders.
pub open spec fn parse_result(sql: Seq<char>, allow: bool) -> Result<(StatementV, int), ErrorV> {
    match lex(sql, 0) {
        Ok(ts) => statement_of(ts, allow),
        Err(e) => Err(e),
    }
}

/// What `sql` means as a sequence of statements.
pub open spec fn parse_many_result(sql: Seq<char>) -> Result<Seq<StatementV>, ErrorV> {
    match lex(sql, 0) {
        Ok(ts) => statements_of(ts),
        Err(e) => Err(e),
    }
}

/// Parse the whole of `tokens` as one statement.
fn parse_tokens(tokens: &[Token], allow_placeholders: bool) -> (r: Result<(Statement, usize), Error>)
    ensures
        match r {
            Ok((s, n)) => statement_of(views(tokens@), allow_placeholders) == Ok::<
                (StatementV, int),
                ErrorV,
            >((s@, n as int)),
            Err(e) => statement_of(views(tokens@), allow_placeholders) == Err::<
                (StatementV, int),
                ErrorV,
            >(e@),
        },
{
    if tokens.len() == 0 {
        return Err(Error::Parse("empty statement".to_string()));
    }
    let mut parser = Parser::new(tokens, allow_placeholders);
    let statement = parser.parse_statement()?;
    Ok((statement, parser.param_count))
}

/// Parse a raw SQL string into a [`Statement`]. `?` placeholders are
/// rejected; use [`parse_prepared`] for prepared-statement text.
pub fn parse(sql: &str) -> (r: Result<Statement, Error>)
    ensures
        match r {
            Ok(s) => parse_result(sql@, false) matches Ok((v, _)) && v == s@,
            Err(e) => parse_result(sql@, false) == Err::<(StatementV, int), ErrorV>(e@),
        },
{
    let tokens = tokenize(sql)?;
    let (statement, _params) = parse_tokens(tokens.as_slice(), false)?;
    Ok(statement)
}

/// Parse one or more `;`-separated statements from a single query string.
/// Empty segments are skipped. Errors if there is no statement at all or if
/// any segment is not a complete valid statement.
pub fn parse_many(sql: &str) -> (r: Result<Vec<Statement>, Error>)
    ensures
        match r {
            Ok(v) => parse_many_result(sql@) == Ok::<Seq<StatementV>, ErrorV>(views(v@)),
            Err(e) => parse_many_result(sql@) == Err::<Seq<StatementV>, ErrorV>(e@),
        },
{
    let tokens = tokenize(sql)?;
    let ghost ts = views(tokens@);
    let mut statements: Vec<Statement> = Vec::new();
    let mut i: usize = 0;
    proof {
        assert(before(views(statements@), statements_from(ts, 0)) == statements_from(ts, 0)) by {
            match statements_from(ts, 0) {
                Ok(rest) => assert(views(statements@) + rest =~= rest),
                Err(_) => {},
            }
        }
    }
    while i < tokens.len()
        invariant
            i <= tokens@.len(),
            ts == views(tokens@),
            lex(sql@, 0) == Ok::<Seq<TokenV>, ErrorV>(ts),
            statements_from(ts, 0) == before(views(statements@), statements_from(ts, i as int)),
        decreases tokens@.len() - i,
    {
        if same_token(&tokens[i], &Token::Semicolon) {
            i = i + 1;
        } else {
            let mut end: usize = i + 1;
            while end < tokens.len() && !same_token(&tokens[end], &Token::Semicolon)
                invariant
                    i < end <= tokens@.len(),
                    ts == views(tokens@),
                    ts[i as int] != TokenV::Semicolon,
                    statement_end(ts, i as int) == statement_end(ts, end as int),
                decreases tokens@.len() - end,
            {
                end = end + 1;
            }
            let segment = vstd::slice::slice_subrange(tokens.as_slice(), i, end);
            proof {
                assert(views(segment@) =~= ts.subrange(i as int, end as int));
            }
            let (statement, _params) = parse_tokens(segment, false)?;
            proof {
                match statements_from(ts, end as int) {
                    Ok(rest) => assert(views(statements@) + (seq![statement@] + rest) =~= views(
                        statements@,
                    ).push(statement@) + rest),
                    Err(_) => {},
                }
            }
            statements.push(statement);
            i = end;
        }
    }
    proof {
        assert(views(statements@) + Seq::<StatementV>::empty() =~= views(statements@));
    }
    if statements.len() == 0 {
        return Err(Error::Parse("empty statement".to_string()));
    }
    Ok(statements)
}

/// Parse prepared-statement text, allowing `?` placeholders. Returns the
/// statement (with [`Expr::Placeholder`] holes) and the number of
/// placeholders.
pub fn parse_prepared(sql: &str) -> (r: Result<(Statement, usize), Error>)
    ensures
        match r {
            Ok((s, n)) => parse_result(sql@, true) == Ok::<(StatementV, int), ErrorV>(
                (s@, n as int),
            ),
            Err(e) => parse_result(sql@, true) == Err::<(StatementV, int), ErrorV>(e@),
        },
{
    let tokens = tokenize(sql)?;
    parse_tokens(tokens.as_slice(), true)
}

// ---------- binding ----------

/// The error for a placeholder that no parameter fills.
pub open spec fn missing_parameter(i: int) -> ErrorV {
    ErrorV::Execution("missing value for parameter "@ + decimal((i + 1) as nat))
}

/// `e` with its placeholders filled from `params`.
pub open spec fn bound_expr(e: ExprV, params: Seq<ExprV>) -> Result<ExprV, ErrorV>
    decreases e, 0int,
{
    match e {
        ExprV::Placeholder(i) => if 0 <= i < params.len() {
            Ok(params[i])
        } else {
            Err(missing_parameter(i))
        },
        ExprV::Function(name, args) => match bound_exprs(args, params) {
            Ok(a) => Ok(ExprV::Function(name, a)),
            Err(e) => Err(e),
        },
        _ => Ok(e),
    }
}

/// Each of `es` with its placeholders filled; the first failure is reported.
pub open spec fn bound_exprs(es: Seq<ExprV>, params: Seq<ExprV>) -> Result<Seq<ExprV>, ErrorV>
    decreases es, es.len(),
{
    if es.len() == 0 {
        Ok(Seq::empty())
    } else {
        match bound_exprs(es.drop_last(), params) {
            Err(e) => Err(e),
            Ok(front) => match bound_expr(es.last(), params) {
                Err(e) => Err(e),
                Ok(e) => Ok(front.push(e)),
            },
        }
    }
}

/// Each row with its placeholders filled.
pub open spec fn bound_rows(rows: Seq<Seq<ExprV>>, params: Seq<ExprV>) -> Result<
    Seq<Seq<ExprV>>,
    ErrorV,
>
    decreases rows.len(),
{
    if rows.len() == 0 {
        Ok(Seq::empty())
    } else {
        match bound_rows(rows.drop_last(), params) {
            Err(e) => Err(e),
            Ok(front) => match bound_exprs(rows.last(), params) {
                Err(e) => Err(e),
                Ok(row) => Ok(front.push(row)),
            },
        }
    }
}

/// A `SELECT` item with its placeholders filled.
pub open spec fn bound_item(item: SelectItemV, params: Seq<ExprV>) -> Result<SelectItemV, ErrorV> {
    match item {
        SelectItemV::Wildcard => Ok(item),
        SelectItemV::Expr(e, alias) => match bound_expr(e, params) {
            Ok(e) => Ok(SelectItemV::Expr(e, alias)),
            Err(e) => Err(e),
        },
    }
}

/// Each `SELECT` item with its placeholders filled.
pub open spec fn bound_items(items: Seq<SelectItemV>, params: Seq<ExprV>) -> Result<
    Seq<SelectItemV>,
    ErrorV,
>
    decreases items.len(),
{
    if items.len() == 0 {
        Ok(Seq::empty())
    } else {
        match bound_items(items.drop_last(), params) {
            Err(e) => Err(e),
            Ok(front) => match bound_item(items.last(), params) {
                Err(e) => Err(e),
                Ok(item) => Ok(front.push(item)),
            },
        }
    }
}

/// A statement with its placeholders filled.
pub open spec fn bound_statement(s: StatementV, params: Seq<ExprV>) -> Result<StatementV, ErrorV> {
    match s {
        StatementV::Insert { table, columns, rows } => match bound_rows(rows, params) {
            Ok(rows) => Ok(StatementV::Insert { table, columns, rows }),
            Err(e) => Err(e),
        },
        StatementV::Select { projection, from, selection } => match bound_items(
            projection,
            params,
        ) {
            Err(e) => Err(e),
            Ok(projection) => match selection {
                None => Ok(StatementV::Select { projection, from, selection }),
                Some(c) => match bound_expr(c.value, params) {
                    Err(e) => Err(e),
                    Ok(value) => Ok(
                        StatementV::Select {
                            projection,
                            from,
                            selection: Some(ConditionV { value, ..c }),
                        },
                    ),
                },
            },
        },
        _ => Ok(s),
    }
}

/// Whether the outcome of binding is what is wanted.
spec fn binds<T: View>(r: Result<T, Error>, want: Result<T::V, ErrorV>) -> bool {
    match r {
        Ok(x) => want == Ok::<T::V, ErrorV>(x@),
        Err(e) => want == Err::<T::V, ErrorV>(e@),
    }
}

fn bind_expr(expr: &Expr, params: &[Expr]) -> (r: Result<Expr, Error>)
    ensures
        binds(r, bound_expr(expr@, views(params@))),
    decreases expr, 1int,
{
    match expr {
        Expr::Placeholder(i) => {
            if *i < params.len() {
                Ok(copy_expr(&params[*i]))
            } else {
                Err(
                    Error::Execution(
                        cat2("missing value for parameter ", u128_text(*i as u128 + 1).as_str()),
                    ),
                )
            }
        },
        Expr::Function(name, args) => {
            proof {
                lemma_function_view(*name, *args);
            }
            let mut out: Vec<Expr> = Vec::new();
            let mut i: usize = 0;
            let ghost want = views(args@);
            let ghost filled = views(params@);
            proof {
                assert(want.take(0) =~= Seq::empty());
            }
            while i < args.len()
                invariant
                    i <= args@.len(),
                    want == views(args@),
                    filled == views(params@),
                    expr@ == ExprV::Function(name@, want),
                    decreases_to!(expr => args),
                    bound_exprs(want.take(i as int), filled) == Ok::<Seq<ExprV>, ErrorV>(
                        views(out@),
                    ),
                decreases args@.len() - i,
            {
                proof {
                    assert(decreases_to!(args => args@[i as int]));
                    assert(want.take(i + 1).drop_last() =~= want.take(i as int));
                    assert(want.take(i + 1).last() == args@[i as int]@);
                }
                match bind_expr(&args[i], params) {
                    Ok(e) => {
                        out.push(e);
                    },
                    Err(e) => {
                        proof {
                            lemma_bound_exprs_stops(want, i + 1, filled);
                        }
                        return Err(e);
                    },
                }
                i = i + 1;
            }
            proof {
                assert(want.take(args@.len() as int) =~= want);
                lemma_function_view(*name, out);
            }
            Ok(Expr::Function(name.clone(), out))
        },
        _ => Ok(copy_expr(expr)),
    }
}

/// A failure in a prefix is the failure of the whole.
proof fn lemma_bound_exprs_stops(es: Seq<ExprV>, n: int, params: Seq<ExprV>)
    requires
        0 <= n <= es.len(),
        bound_exprs(es.take(n), params) is Err,
    ensures
        bound_exprs(es, params) == bound_exprs(es.take(n), params),
    decreases es.len(),
{
    if n < es.len() {
        assert(es.drop_last().take(n) =~= es.take(n));
        lemma_bound_exprs_stops(es.drop_last(), n, params);
    } else {
        assert(es.take(n) =~= es);
    }
}

proof fn lemma_bound_rows_stops(rows: Seq<Seq<ExprV>>, n: int, params: Seq<ExprV>)
    requires
        0 <= n <= rows.len(),
        bound_rows(rows.take(n), params) is Err,
    ensures
        bound_rows(rows, params) == bound_rows(rows.take(n), params),
    decreases rows.len(),
{
    if n < rows.len() {
        assert(rows.drop_last().take(n) =~= rows.take(n));
        lemma_bound_rows_stops(rows.drop_last(), n, params);
    } else {
        assert(rows.take(n) =~= rows);
    }
}

proof fn lemma_bound_items_stops(items: Seq<SelectItemV>, n: int, params: Seq<ExprV>)
    requires
        0 <= n <= items.len(),
        bound_items(items.take(n), params) is Err,
    ensures
        bound_items(items, params) == bound_items(items.take(n), params),
    decreases items.len(),
{
    if n < items.len() {
        assert(items.drop_last().take(n) =~= items.take(n));
        lemma_bound_items_stops(items.drop_last(), n, params);
    } else {
        assert(items.take(n) =~= items);
    }
}

fn bind_row(row: &Vec<Expr>, params: &[Expr]) -> (r: Result<Vec<Expr>, Error>)
    ensures
        match r {
            Ok(v) => bound_exprs(views(row@), views(params@)) == Ok::<Seq<ExprV>, ErrorV>(
                views(v@),
            ),
            Err(e) => bound_exprs(views(row@), views(params@)) == Err::<Seq<ExprV>, ErrorV>(e@),
        },
{
    let mut out: Vec<Expr> = Vec::new();
    let mut i: usize = 0;
    let ghost want = views(row@);
    let ghost filled = views(params@);
    proof {
        assert(want.take(0) =~= Seq::empty());
    }
    while i < row.len()
        invariant
            i <= row@.len(),
            want == views(row@),
            filled == views(params@),
            bound_exprs(want.take(i as int), filled) == Ok::<Seq<ExprV>, ErrorV>(views(out@)),
        decreases row@.len() - i,
    {
        proof {
            assert(want.take(i + 1).drop_last() =~= want.take(i as int));
            assert(want.take(i + 1).last() == row@[i as int]@);
        }
        match bind_expr(&row[i], params) {
            Ok(e) => {
                out.push(e);
            },
            Err(e) => {
                proof {
                    lemma_bound_exprs_stops(want, i + 1, filled);
                }
                return Err(e);
            },
        }
        i = i + 1;
    }
    proof {
        assert(want.take(row@.len() as int) =~= want);
    }
    Ok(out)
}

fn bind_rows(rows: &Vec<Vec<Expr>>, params: &[Expr]) -> (r: Result<Vec<Vec<Expr>>, Error>)
    ensures
        match r {
            Ok(v) => bound_rows(expr_rows(rows@), views(params@)) == Ok::<
                Seq<Seq<ExprV>>,
                ErrorV,
            >(expr_rows(v@)),
            Err(e) => bound_rows(expr_rows(rows@), views(params@)) == Err::<
                Seq<Seq<ExprV>>,
                ErrorV,
            >(e@),
        },
{
    let mut out: Vec<Vec<Expr>> = Vec::new();
    let mut i: usize = 0;
    let ghost want = expr_rows(rows@);
    let ghost filled = views(params@);
    proof {
        assert(want.take(0) =~= Seq::empty());
        assert(expr_rows(out@) =~= Seq::empty());
    }
    while i < rows.len()
        invariant
            i <= rows@.len(),
            want == expr_rows(rows@),
            filled == views(params@),
            bound_rows(want.take(i as int), filled) == Ok::<Seq<Seq<ExprV>>, ErrorV>(
                expr_rows(out@),
            ),
        decreases rows@.len() - i,
    {
        proof {
            assert(want.take(i + 1).drop_last() =~= want.take(i as int));
            assert(want.take(i + 1).last() == views(rows@[i as int]@));
        }
        match bind_row(&rows[i], params) {
            Ok(row) => {
                proof {
                    assert(expr_rows(out@.push(row)) =~= expr_rows(out@).push(views(row@)));
                }
                out.push(row);
            },
            Err(e) => {
                proof {
                    lemma_bound_rows_stops(want, i + 1, filled);
                }
                return Err(e);
            },
        }
        i = i + 1;
    }
    proof {
        assert(want.take(rows@.len() as int) =~= want);
    }
    Ok(out)
}

fn bind_items(items: &Vec<SelectItem>, params: &[Expr]) -> (r: Result<Vec<SelectItem>, Error>)
    ensures
        match r {
            Ok(v) => bound_items(views(items@), views(params@)) == Ok::<Seq<SelectItemV>, ErrorV>(
                views(v@),
            ),
            Err(e) => bound_items(views(items@), views(params@)) == Err::<
                Seq<SelectItemV>,
                ErrorV,
            >(e@),
        },
{
    let mut out: Vec<SelectItem> = Vec::new();
    let mut i: usize = 0;
    let ghost want = views(items@);
    let ghost filled = views(params@);
    proof {
        assert(want.take(0) =~= Seq::empty());
    }
    while i < items.len()
        invariant
            i <= items@.len(),
            want == views(items@),
            filled == views(params@),
            bound_items(want.take(i as int), filled) == Ok::<Seq<SelectItemV>, ErrorV>(
                views(out@),
            ),
        decreases items@.len() - i,
    {
        proof {
            assert(want.take(i + 1).drop_last() =~= want.take(i as int));
            assert(want.take(i + 1).last() == items@[i as int]@);
        }
        match &items[i] {
            SelectItem::Wildcard => {
                out.push(SelectItem::Wildcard);
            },
            SelectItem::Expr(e, alias) => match bind_expr(e, params) {
                Ok(e) => {
                    out.push(SelectItem::Expr(e, duplicate_opt(alias)));
                },
                Err(e) => {
                    proof {
                        lemma_bound_items_stops(want, i + 1, filled);
                    }
                    return Err(e);
                },
            },
        }
        i = i + 1;
    }
    proof {
        assert(want.take(items@.len() as int) =~= want);
    }
    Ok(out)
}

/// Replace every [`Expr::Placeholder`] in `statement` with the corresponding
/// literal from `params`: a `?` at position `i` is filled by `params[i]`.
/// Errors if there are fewer parameters than placeholders ask for.
pub fn bind_parameters(statement: Statement, params: &[Expr]) -> (r: Result<Statement, Error>)
    ensures
        match r {
            Ok(s) => bound_statement(statement@, views(params@)) == Ok::<StatementV, ErrorV>(s@),
            Err(e) => bound_statement(statement@, views(params@)) == Err::<StatementV, ErrorV>(e@),
        },
{
    match statement {
        Statement::Insert { table, columns, rows } => {
            let rows = bind_rows(&rows, params)?;
            Ok(Statement::Insert { table, columns, rows })
        },
        Statement::Select { projection, from, selection } => {
            let projection = bind_items(&projection, params)?;
            match selection {
                None => Ok(Statement::Select { projection, from, selection: None }),
                Some(condition) => {
                    let value = bind_expr(&condition.value, params)?;
                    let bound = Condition { column: condition.column, op: condition.op, value };
                    Ok(Statement::Select { projection, from, selection: Some(bound) })
                },
            }
        },
        other => Ok(other),
    }
}

} // verus!
