//! Several statements in one text.
use vstd::prelude::*;

use crate::error::ErrorV;
use crate::query::ast::{ColumnDefV, ShowStatementV, StatementV};
use crate::query::grammar::{
    before, item_end, moved, p_alias, p_args, p_attributes, p_column_def, p_condition, p_constraint,
    p_create_database, p_create_table, p_discard_rest, p_drop_database, p_expr, p_finish,
    p_foreign_key, p_from, p_ident, p_if_exists, p_if_not_exists, p_ignored, p_index_columns,
    p_index_columns_rest, p_insert, p_insert_columns, p_keyword, p_like, p_names, p_numeric_flags,
    p_optional_name, p_prefix_length, p_projection, p_qualified, p_qualified_rest, p_rows, p_select,
    p_select_item, p_show, p_simple, p_sizes, p_skip_index, p_statement, p_table_item,
    p_table_items, p_token, p_type_size, p_values, is_word, show_form, start, statement_end,
    statement_of, statements_from, token_at, AttributesV, Parsed, Place,
};
use crate::query::lexer::{
    at, comment_close, digits_end, lemma_lexeme_advances, lex, lexeme, line_end, prepend, quoted,
    word_end, Keyword, Lexeme, TokenV,
};
use crate::query::parse_laws::{doubled, law_string_literals_read_back};
use crate::query::parser::{parse_many_result, parse_result};
use crate::text::decimal_int;

verus! {

// ---------- the tokens of a text and of what follows it ----------

/// Whether `s` is `a`, a line feed and more.
spec fn goes_on(s: Seq<char>, a: Seq<char>) -> bool {
    &&& a.len() < s.len()
    &&& s[a.len() as int] == '\n'
    &&& forall|k: int| 0 <= k < a.len() ==> #[trigger] s[k] == a[k]
}

proof fn lemma_same_word_end(s: Seq<char>, a: Seq<char>, i: int)
    requires
        goes_on(s, a),
        0 <= i <= a.len(),
    ensures
        word_end(s, i) == word_end(a, i),
        i <= word_end(a, i) <= a.len(),
    decreases a.len() - i,
{
    if i < a.len() {
        lemma_same_word_end(s, a, i + 1);
    }
}

proof fn lemma_same_digits_end(s: Seq<char>, a: Seq<char>, i: int, limit: int)
    requires
        goes_on(s, a),
        0 <= i <= limit <= a.len(),
    ensures
        digits_end(s, i, limit) == digits_end(a, i, limit),
        i <= digits_end(a, i, limit) <= limit,
        limit == a.len() ==> digits_end(s, i, s.len() as int) == digits_end(a, i, limit),
    decreases limit - i,
{
    if i < limit {
        lemma_same_digits_end(s, a, i + 1, limit);
    }
}

proof fn lemma_same_line_end(s: Seq<char>, a: Seq<char>, i: int)
    requires
        goes_on(s, a),
        0 <= i <= a.len(),
    ensures
        line_end(s, i) == line_end(a, i),
    decreases a.len() - i,
{
    if i < a.len() {
        lemma_same_line_end(s, a, i + 1);
    }
}

proof fn lemma_same_comment_close(s: Seq<char>, a: Seq<char>, i: int)
    requires
        goes_on(s, a),
        0 <= i,
    ensures
        comment_close(a, i) is Some ==> comment_close(s, i) == comment_close(a, i) && i
            <= comment_close(a, i)->0 && comment_close(a, i)->0 + 1 < a.len(),
    decreases a.len() - i,
{
    if i + 1 < a.len() {
        assert(s[i] == a[i]);
        assert(s[i + 1] == a[i + 1]);
        lemma_same_comment_close(s, a, i + 1);
    }
}

proof fn lemma_same_quoted(s: Seq<char>, a: Seq<char>, i: int, q: char)
    requires
        goes_on(s, a),
        0 <= i,
        q != '\n',
    ensures
        quoted(a, i, q) is Some ==> quoted(s, i, q) == quoted(a, i, q),
    decreases a.len() - i,
{
    if i < a.len() {
        assert(s[i] == a[i]);
        assert(at(s, i + 1, q) == at(a, i + 1, q));
        lemma_same_quoted(s, a, i + 1, q);
        if i + 1 < a.len() {
            lemma_same_quoted(s, a, i + 2, q);
        }
    }
}

proof fn lemma_same_lexeme(s: Seq<char>, a: Seq<char>, i: int)
    requires
        goes_on(s, a),
        0 <= i < a.len(),
        !(lexeme(a, i) is Fail),
    ensures
        lexeme(s, i) == lexeme(a, i),
{
    assert(s[i] == a[i]);
    assert forall|k: int, c: char| 0 <= k <= a.len() && c != '\n' implies #[trigger] at(s, k, c)
        == at(a, k, c) by {}
    lemma_same_line_end(s, a, i);
    lemma_same_word_end(s, a, i);
    lemma_same_word_end(s, a, i + 1);
    lemma_same_comment_close(s, a, i + 2);
    lemma_same_digits_end(s, a, i, a.len() as int);
    lemma_same_digits_end(s, a, i + 1, a.len() as int);
    if a[i] == '\'' || a[i] == '`' {
        lemma_same_quoted(s, a, i + 1, a[i]);
    }
    assert forall|x: int, y: int| 0 <= x <= y <= a.len() implies #[trigger] s.subrange(x, y)
        == a.subrange(x, y) by {
        assert(s.subrange(x, y) =~= a.subrange(x, y));
    }
    if at(a, i + 1, '@') {
        lemma_same_word_end(s, a, i + 2);
        let end = word_end(a, i + 2);
        if at(a, end, '.') {
            lemma_same_word_end(s, a, end + 1);
        }
    }
    match comment_close(a, i + 2) {
        Some(j) => {
            if at(a, i + 2, '!') && i + 3 <= j {
                lemma_same_digits_end(s, a, i + 3, j);
            }
        },
        None => {},
    }
}

proof fn lemma_prepend_twice(x: Seq<TokenV>, y: Seq<TokenV>, r: Result<Seq<TokenV>, ErrorV>)
    ensures
        prepend(x, prepend(y, r)) == prepend(x + y, r),
        prepend(Seq::empty(), r) == r,
{
    match r {
        Ok(rest) => {
            assert(x + (y + rest) =~= (x + y) + rest);
            assert(Seq::<TokenV>::empty() + rest =~= rest);
        },
        Err(_) => {},
    }
}

/// The tokens of a text come first, whatever follows on the next line.
proof fn lemma_lex_goes_on(s: Seq<char>, a: Seq<char>, i: int)
    requires
        goes_on(s, a),
        0 <= i <= a.len(),
    ensures
        lex(a, i) matches Ok(ts) ==> lex(s, i) == prepend(ts, lex(s, a.len() as int)),
    decreases a.len() - i,
{
    if i == a.len() {
        lemma_prepend_twice(Seq::empty(), Seq::empty(), lex(s, i));
    } else {
        lemma_lexeme_advances(a, i);
        if !(lexeme(a, i) is Fail) {
            lemma_same_lexeme(s, a, i);
        }
        match lexeme(a, i) {
            Lexeme::Skip(next) => lemma_lex_goes_on(s, a, next),
            Lexeme::Emit(t, next) => {
                lemma_lex_goes_on(s, a, next);
                if let Ok(rest) = lex(a, next) {
                    lemma_prepend_twice(seq![t], rest, lex(s, a.len() as int));
                }
            },
            Lexeme::Unwrap { from, to, next } => {
                assert(s.subrange(from, to) =~= a.subrange(from, to));
                lemma_lex_goes_on(s, a, next);
                if let Ok(inner) = lex(a.subrange(from, to), 0) {
                    if let Ok(rest) = lex(a, next) {
                        lemma_prepend_twice(inner, rest, lex(s, a.len() as int));
                    }
                }
            },
            Lexeme::Fail(_) => {},
        }
    }
}

/// Whether `b` stands in `s` from `n` on, up to the end.
spec fn ends_with(s: Seq<char>, b: Seq<char>, n: int) -> bool {
    &&& 0 <= n
    &&& s.len() == n + b.len()
    &&& forall|k: int| 0 <= k < b.len() ==> s[n + k] == #[trigger] b[k]
}

proof fn lemma_later_word_end(s: Seq<char>, b: Seq<char>, n: int, i: int)
    requires
        ends_with(s, b, n),
        0 <= i,
    ensures
        word_end(s, n + i) == n + word_end(b, i),
        i <= word_end(b, i),
        i <= b.len() ==> word_end(b, i) <= b.len(),
    decreases b.len() - i,
{
    if i < b.len() {
        assert(s[n + i] == b[i]);
        lemma_later_word_end(s, b, n, i + 1);
    }
}

proof fn lemma_later_digits_end(s: Seq<char>, b: Seq<char>, n: int, i: int, limit: int)
    requires
        ends_with(s, b, n),
        0 <= i,
        limit <= b.len(),
    ensures
        digits_end(s, n + i, n + limit) == n + digits_end(b, i, limit),
        i <= digits_end(b, i, limit),
        i <= limit ==> digits_end(b, i, limit) <= limit,
    decreases limit - i,
{
    if i < limit {
        assert(s[n + i] == b[i]);
        lemma_later_digits_end(s, b, n, i + 1, limit);
    }
}

proof fn lemma_later_line_end(s: Seq<char>, b: Seq<char>, n: int, i: int)
    requires
        ends_with(s, b, n),
        0 <= i,
    ensures
        line_end(s, n + i) == n + line_end(b, i),
    decreases b.len() - i,
{
    if i < b.len() {
        assert(s[n + i] == b[i]);
        lemma_later_line_end(s, b, n, i + 1);
    }
}

proof fn lemma_later_comment_close(s: Seq<char>, b: Seq<char>, n: int, i: int)
    requires
        ends_with(s, b, n),
        0 <= i,
    ensures
        comment_close(s, n + i) == (match comment_close(b, i) {
            Some(j) => Some(n + j),
            None => None::<int>,
        }),
        comment_close(b, i) matches Some(j) ==> i <= j && j + 1 < b.len(),
    decreases b.len() - i,
{
    if i + 1 < b.len() {
        assert(s[n + i] == b[i]);
        assert(s[n + (i + 1)] == b[i + 1]);
        lemma_later_comment_close(s, b, n, i + 1);
    }
}

proof fn lemma_later_quoted(s: Seq<char>, b: Seq<char>, n: int, i: int, q: char)
    requires
        ends_with(s, b, n),
        0 <= i,
    ensures
        quoted(s, n + i, q) == (match quoted(b, i, q) {
            Some((content, end)) => Some((content, n + end)),
            None => None::<(Seq<char>, int)>,
        }),
    decreases b.len() - i,
{
    if i < b.len() {
        assert(s[n + i] == b[i]);
        if i + 1 < b.len() {
            assert(s[n + (i + 1)] == b[i + 1]);
        }
        assert(at(s, n + i + 1, q) == at(b, i + 1, q));
        lemma_later_quoted(s, b, n, i + 1, q);
        if i + 1 < b.len() {
            lemma_later_quoted(s, b, n, i + 2, q);
        }
    }
}

/// A lexeme, `n` places further on.
spec fn later(l: Lexeme, n: int) -> Lexeme {
    match l {
        Lexeme::Skip(next) => Lexeme::Skip(n + next),
        Lexeme::Emit(t, next) => Lexeme::Emit(t, n + next),
        Lexeme::Unwrap { from, to, next } => Lexeme::Unwrap {
            from: n + from,
            to: n + to,
            next: n + next,
        },
        Lexeme::Fail(e) => Lexeme::Fail(e),
    }
}

proof fn lemma_later_lexeme(s: Seq<char>, b: Seq<char>, n: int, i: int)
    requires
        ends_with(s, b, n),
        0 <= i < b.len(),
        !(lexeme(b, i) is Fail),
    ensures
        lexeme(s, n + i) == later(lexeme(b, i), n),
{
    let k = n + i;
    assert(s[k] == b[i]);
    if i + 1 < b.len() {
        assert(s[n + (i + 1)] == b[i + 1]);
    }
    if i + 2 < b.len() {
        assert(s[n + (i + 2)] == b[i + 2]);
    }
    assert forall|c: char| #[trigger] at(s, k + 1, c) == at(b, i + 1, c) by {}
    assert forall|c: char| #[trigger] at(s, k + 2, c) == at(b, i + 2, c) by {}
    lemma_later_line_end(s, b, n, i);
    lemma_later_word_end(s, b, n, i);
    lemma_later_word_end(s, b, n, i + 1);
    lemma_later_word_end(s, b, n, i + 2);
    lemma_later_comment_close(s, b, n, i + 2);
    lemma_later_quoted(s, b, n, i + 1, b[i]);
    lemma_later_digits_end(s, b, n, i, b.len() as int);
    lemma_later_digits_end(s, b, n, i + 1, b.len() as int);
    assert forall|x: int, y: int| 0 <= x <= y <= b.len() implies #[trigger] b.subrange(x, y)
        == s.subrange(n + x, n + y) by {
        assert forall|j: int| 0 <= j < y - x implies b.subrange(x, y)[j] == s.subrange(
            n + x,
            n + y,
        )[j] by {
            assert(s[n + (x + j)] == b[x + j]);
        }
        assert(b.subrange(x, y) =~= s.subrange(n + x, n + y));
    }
    let end = word_end(b, i + 2);
    if end < b.len() {
        assert(s[n + end] == b[end]);
        lemma_later_word_end(s, b, n, end + 1);
        assert(b.subrange(i + 2, end) == s.subrange(n + (i + 2), n + end));
        if at(b, end, '.') {
            let second = word_end(b, end + 1);
            assert(b.subrange(i + 2, second) == s.subrange(n + (i + 2), n + second));
        }
    }
    if i + 2 <= b.len() {
        assert(b.subrange(i + 2, end) == s.subrange(n + (i + 2), n + end));
    }
    assert(b.subrange(i, word_end(b, i)) == s.subrange(n + i, n + word_end(b, i)));
    assert(b.subrange(i, word_end(b, i + 1)) == s.subrange(n + i, n + word_end(b, i + 1)));
    let d = digits_end(b, i, b.len() as int);
    assert(b.subrange(i, d) == s.subrange(n + i, n + d));
    let d = digits_end(b, i + 1, b.len() as int);
    if d <= b.len() {
        assert(b.subrange(i, d) == s.subrange(n + i, n + d));
    }
    match comment_close(b, i + 2) {
        Some(j) => lemma_later_digits_end(s, b, n, i + 3, j),
        None => {},
    }
}

/// A text has the same tokens behind another one.
proof fn lemma_lex_later(s: Seq<char>, b: Seq<char>, n: int, i: int)
    requires
        ends_with(s, b, n),
        0 <= i <= b.len(),
    ensures
        lex(b, i) is Ok ==> lex(s, n + i) == lex(b, i),
    decreases b.len() - i,
{
    if i < b.len() {
        lemma_lexeme_advances(b, i);
        if !(lexeme(b, i) is Fail) {
            lemma_later_lexeme(s, b, n, i);
        }
        match lexeme(b, i) {
            Lexeme::Skip(next) => lemma_lex_later(s, b, n, next),
            Lexeme::Emit(_, next) => lemma_lex_later(s, b, n, next),
            Lexeme::Unwrap { from, to, next } => {
                assert forall|j: int| 0 <= j < to - from implies b.subrange(from, to)[j]
                    == s.subrange(n + from, n + to)[j] by {
                    assert(s[n + (from + j)] == b[from + j]);
                }
                assert(b.subrange(from, to) =~= s.subrange(n + from, n + to));
                lemma_lex_later(s, b, n, next);
            },
            Lexeme::Fail(_) => {},
        }
    }
}

/// Two texts with a `;` between them. It stands on a new line, so that a
/// comment at the end of the first text does not swallow it.
pub open spec fn joined(a: Seq<char>, b: Seq<char>) -> Seq<char> {
    a + seq!['\n', ';'] + b
}

proof fn lemma_lex_joined(a: Seq<char>, b: Seq<char>)
    requires
        lex(a, 0) is Ok,
        lex(b, 0) is Ok,
    ensures
        lex(joined(a, b), 0) == Ok::<Seq<TokenV>, ErrorV>(
            lex(a, 0)->Ok_0 + seq![TokenV::Semicolon] + lex(b, 0)->Ok_0,
        ),
{
    let s = joined(a, b);
    let n = a.len() as int;
    assert(goes_on(s, a));
    lemma_lex_goes_on(s, a, 0);
    assert(ends_with(s, b, n + 2));
    lemma_lex_later(s, b, n + 2, 0);
    assert(s[n] == '\n');
    assert(lexeme(s, n) == Lexeme::Skip(n + 1));
    assert(lex(s, n) == lex(s, n + 1));
    assert(s[n + 1] == ';');
    assert(lexeme(s, n + 1) == Lexeme::Emit(TokenV::Semicolon, n + 2));
    assert(lex(s, n + 1) == prepend(seq![TokenV::Semicolon], lex(s, n + 2)));
    lemma_prepend_twice(lex(a, 0)->Ok_0, seq![TokenV::Semicolon], lex(b, 0));
}

/// A string literal behind a text adds one token to it, whatever the literal
/// holds: a `;` inside does not split the text.
pub proof fn law_literals_do_not_split(a: Seq<char>, content: Seq<char>)
    requires
        lex(a, 0) is Ok,
    ensures
        lex(a + seq!['\n'] + (seq!['\''] + doubled(content, '\'') + seq!['\'']), 0) == Ok::<
            Seq<TokenV>,
            ErrorV,
        >(lex(a, 0)->Ok_0.push(TokenV::Str(content))),
{
    let literal = seq!['\''] + doubled(content, '\'') + seq!['\''];
    let s = a + seq!['\n'] + literal;
    let n = a.len() as int;
    law_string_literals_read_back(content);
    assert(goes_on(s, a));
    lemma_lex_goes_on(s, a, 0);
    assert(ends_with(s, literal, n + 1));
    lemma_lex_later(s, literal, n + 1, 0);
    assert(lexeme(s, n) == Lexeme::Skip(n + 1));
    assert(lex(s, n) == lex(s, n + 1));
    assert(lex(a, 0)->Ok_0 + seq![TokenV::Str(content)] =~= lex(a, 0)->Ok_0.push(
        TokenV::Str(content),
    ));
}

// ---------- the statements of token sequences ----------

proof fn lemma_end_before(x: Seq<TokenV>, y: Seq<TokenV>, i: int)
    requires
        0 <= i <= x.len(),
    ensures
        statement_end(x + seq![TokenV::Semicolon] + y, i) == statement_end(x, i),
        i <= statement_end(x, i) <= x.len(),
        i < x.len() && x[i] != TokenV::Semicolon ==> i < statement_end(x, i),
    decreases x.len() - i,
{
    let all = x + seq![TokenV::Semicolon] + y;
    if i < x.len() {
        assert(all[i] == x[i]);
        lemma_end_before(x, y, i + 1);
    } else {
        assert(all[i] == TokenV::Semicolon);
    }
}

proof fn lemma_end_behind(x: Seq<TokenV>, y: Seq<TokenV>, i: int)
    requires
        0 <= i <= y.len(),
    ensures
        statement_end(x + y, x.len() + i) == x.len() + statement_end(y, i),
        i <= statement_end(y, i) <= y.len(),
        i < y.len() && y[i] != TokenV::Semicolon ==> i < statement_end(y, i),
    decreases y.len() - i,
{
    if i < y.len() {
        assert((x + y)[x.len() + i] == y[i]);
        lemma_end_behind(x, y, i + 1);
    }
}

proof fn lemma_statements_behind(x: Seq<TokenV>, y: Seq<TokenV>, i: int)
    requires
        0 <= i <= y.len(),
    ensures
        statements_from(x + y, x.len() + i) == statements_from(y, i),
    decreases y.len() - i,
{
    let all = x + y;
    if i < y.len() {
        assert(all[x.len() + i] == y[i]);
        if y[i] == TokenV::Semicolon {
            lemma_statements_behind(x, y, i + 1);
        } else {
            lemma_end_behind(x, y, i);
            let end = statement_end(y, i);
            lemma_statements_behind(x, y, end);
            assert(all.subrange(x.len() + i, x.len() + end) =~= y.subrange(i, end));
        }
    }
}

/// The statements of `x`, then those of `y`.
spec fn one_after_the_other(
    x: Result<Seq<StatementV>, ErrorV>,
    y: Result<Seq<StatementV>, ErrorV>,
) -> Result<Seq<StatementV>, ErrorV> {
    match x {
        Ok(s) => before(s, y),
        Err(e) => Err(e),
    }
}

proof fn lemma_statements_joined(x: Seq<TokenV>, y: Seq<TokenV>, i: int)
    requires
        0 <= i <= x.len(),
    ensures
        statements_from(x + seq![TokenV::Semicolon] + y, i) == one_after_the_other(
            statements_from(x, i),
            statements_from(y, 0),
        ),
    decreases x.len() - i,
{
    let all = x + seq![TokenV::Semicolon] + y;
    let rest = statements_from(y, 0);
    if i < x.len() {
        assert(all[i] == x[i]);
        if x[i] == TokenV::Semicolon {
            lemma_statements_joined(x, y, i + 1);
        } else {
            lemma_end_before(x, y, i);
            let end = statement_end(x, i);
            lemma_statements_joined(x, y, end);
            assert(all.subrange(i, end) =~= x.subrange(i, end));
            match statement_of(x.subrange(i, end), false) {
                Ok((s, _)) => {
                    match (statements_from(x, end), rest) {
                        (Ok(a), Ok(b)) => assert(seq![s] + (a + b) =~= (seq![s] + a) + b),
                        _ => {},
                    }
                },
                Err(_) => {},
            }
        }
    } else {
        assert(all[i] == TokenV::Semicolon);
        lemma_statements_behind(x + seq![TokenV::Semicolon], y, 0);
        assert(statements_from(all, i) == statements_from(all, i + 1));
        match rest {
            Ok(b) => assert(Seq::<StatementV>::empty() + b =~= b),
            Err(_) => {},
        }
    }
}

/// Whether a text holds no token but `;`.
pub open spec fn blank(sql: Seq<char>) -> bool {
    lex(sql, 0) matches Ok(ts) && forall|k: int|
        0 <= k < ts.len() ==> #[trigger] ts[k] == TokenV::Semicolon
}

proof fn lemma_no_statements(ts: Seq<TokenV>, i: int)
    requires
        0 <= i <= ts.len(),
        forall|k: int| 0 <= k < ts.len() ==> #[trigger] ts[k] == TokenV::Semicolon,
    ensures
        statements_from(ts, i) == Ok::<Seq<StatementV>, ErrorV>(Seq::empty()),
    decreases ts.len() - i,
{
    if i < ts.len() {
        lemma_no_statements(ts, i + 1);
    }
}

/// A list of statements is never empty.
pub proof fn law_lists_are_not_empty(sql: Seq<char>)
    ensures
        parse_many_result(sql) matches Ok(x) ==> x.len() > 0,
{
}

/// Two texts joined by a `;` are the two lists joined. The first text that is
/// in error decides which error it is.
pub proof fn law_joined_texts_are_joined_lists(a: Seq<char>, b: Seq<char>)
    ensures
        parse_many_result(a) matches Ok(x) ==> (parse_many_result(b) matches Ok(y)
            ==> parse_many_result(joined(a, b)) == Ok::<Seq<StatementV>, ErrorV>(x + y)),
        !blank(a) && lex(a, 0) is Ok && lex(b, 0) is Ok && parse_many_result(a) is Err
            ==> parse_many_result(joined(a, b)) == parse_many_result(a),
        !blank(b) && parse_many_result(a) is Ok && lex(b, 0) is Ok && parse_many_result(b) is Err
            ==> parse_many_result(joined(a, b)) == parse_many_result(b),
{
    if lex(a, 0) is Ok && lex(b, 0) is Ok {
        let x = lex(a, 0)->Ok_0;
        let y = lex(b, 0)->Ok_0;
        lemma_lex_joined(a, b);
        lemma_statements_joined(x, y, 0);
        if let Ok(p) = statements_from(x, 0) {
            if p.len() == 0 {
                assert(p =~= Seq::empty());
                lemma_only_blanks(x, 0);
            }
        }
        if let Ok(q) = statements_from(y, 0) {
            if q.len() == 0 {
                assert(q =~= Seq::empty());
                lemma_only_blanks(y, 0);
            }
        }
    }
}

/// Only tokens that are all `;` hold no statement.
proof fn lemma_only_blanks(ts: Seq<TokenV>, i: int)
    requires
        0 <= i <= ts.len(),
        statements_from(ts, i) == Ok::<Seq<StatementV>, ErrorV>(Seq::empty()),
    ensures
        forall|k: int| i <= k < ts.len() ==> #[trigger] ts[k] == TokenV::Semicolon,
    decreases ts.len() - i,
{
    if i < ts.len() {
        if ts[i] == TokenV::Semicolon {
            lemma_only_blanks(ts, i + 1);
        } else {
            match (
                statement_of(ts.subrange(i, statement_end(ts, i)), false),
                statements_from(ts, statement_end(ts, i)),
            ) {
                (Ok((s, _)), Ok(rest)) => assert((seq![s] + rest).len() > 0),
                _ => {},
            }
        }
    }
}

/// Empty statements are skipped, before and behind the others.
pub proof fn law_empty_statements_are_skipped(sql: Seq<char>, empty: Seq<char>)
    requires
        lex(sql, 0) is Ok,
        blank(empty),
    ensures
        parse_many_result(joined(sql, empty)) == parse_many_result(sql),
        parse_many_result(joined(empty, sql)) == parse_many_result(sql),
{
    let x = lex(sql, 0)->Ok_0;
    let y = lex(empty, 0)->Ok_0;
    lemma_lex_joined(sql, empty);
    lemma_lex_joined(empty, sql);
    lemma_statements_joined(x, y, 0);
    lemma_statements_joined(y, x, 0);
    lemma_no_statements(y, 0);
    match statements_from(x, 0) {
        Ok(s) => {
            assert(s + Seq::<StatementV>::empty() =~= s);
            assert(Seq::<StatementV>::empty() + s =~= s);
        },
        Err(_) => {},
    }
}

// ---------- a `;` at the end ----------

/// `ts` with a `;` behind it.
spec fn closed_off(ts: Seq<TokenV>) -> Seq<TokenV> {
    ts.push(TokenV::Semicolon)
}

/// Whether a rule that reads something in front of the closing `;` reads the
/// same without it.
spec fn unclosed<T>(ts: Seq<TokenV>, with: Parsed<T>, without: Parsed<T>) -> bool {
    with matches Ok((_, q)) ==> with == without && q.pos <= ts.len()
}

/// The same for a rule that only moves on.
spec fn unclosed_step(
    ts: Seq<TokenV>,
    with: Result<Place, ErrorV>,
    without: Result<Place, ErrorV>,
) -> bool {
    with matches Ok(q) ==> with == without && q.pos <= ts.len()
}

/// The same for a rule that reads a statement to its end.
spec fn unclosed_statement(with: Parsed<StatementV>, without: Parsed<StatementV>) -> bool {
    with matches Ok((s, q)) ==> (without matches Ok((t, r)) && s == t && q.params == r.params)
}

proof fn lemma_qualified_unclosed(ts: Seq<TokenV>, p: Place, name: Seq<char>)
    requires
        0 <= p.pos <= ts.len(),
    ensures
        unclosed(
            ts,
            p_qualified_rest(closed_off(ts), p, name),
            p_qualified_rest(ts, p, name),
        ),
    decreases ts.len() - p.pos,
{
    if let Some(TokenV::Dot) = token_at(ts, p.pos) {
        if let Ok((next, q)) = p_ident(ts, p.skip(1)) {
            lemma_qualified_unclosed(ts, q, next);
        }
    }
}

proof fn lemma_table_unclosed(ts: Seq<TokenV>, p: Place)
    requires
        0 <= p.pos <= ts.len(),
    ensures
        unclosed(ts, p_qualified(closed_off(ts), p), p_qualified(ts, p)),
{
    if let Ok((name, q)) = p_ident(ts, p) {
        lemma_qualified_unclosed(ts, q, name);
    }
}

proof fn lemma_names_unclosed(ts: Seq<TokenV>, p: Place)
    requires
        0 <= p.pos <= ts.len(),
    ensures
        unclosed(ts, p_names(closed_off(ts), p), p_names(ts, p)),
    decreases ts.len() - p.pos,
{
    if let Ok((_, q)) = p_ident(ts, p) {
        if let Some(TokenV::Comma) = token_at(ts, q.pos) {
            lemma_names_unclosed(ts, q.skip(1));
        }
    }
}

proof fn lemma_index_rest_unclosed(ts: Seq<TokenV>, p: Place)
    requires
        0 <= p.pos <= ts.len(),
    ensures
        unclosed(
            ts,
            p_index_columns_rest(closed_off(ts), p),
            p_index_columns_rest(ts, p),
        ),
    decreases ts.len() - p.pos,
{
    if let Ok((_, q)) = p_ident(ts, p) {
        assert(unclosed_step(ts, p_prefix_length(closed_off(ts), q), p_prefix_length(ts, q)));
        if let Ok(q) = p_prefix_length(ts, q) {
            if let Some(TokenV::Comma) = token_at(ts, q.pos) {
                lemma_index_rest_unclosed(ts, q.skip(1));
            }
        }
    }
}

proof fn lemma_index_unclosed(ts: Seq<TokenV>, p: Place)
    requires
        0 <= p.pos <= ts.len(),
    ensures
        unclosed(ts, p_index_columns(closed_off(ts), p), p_index_columns(ts, p)),
        unclosed_step(ts, p_skip_index(closed_off(ts), p), p_skip_index(ts, p)),
{
    if let Ok(q) = p_token(ts, p, TokenV::LParen) {
        lemma_index_rest_unclosed(ts, q);
    }
}

proof fn lemma_expr_unclosed(ts: Seq<TokenV>, p: Place, allow: bool)
    requires
        0 <= p.pos <= ts.len(),
    ensures
        unclosed(ts, p_expr(closed_off(ts), p, allow), p_expr(ts, p, allow)),
        p_expr(ts, p, allow) matches Ok((_, q)) ==> p.pos < q.pos <= ts.len(),
    decreases ts.len() - p.pos, 0int,
{
    if let Some(TokenV::Ident(_)) = token_at(ts, p.pos) {
        if let Some(TokenV::LParen) = token_at(ts, p.pos + 1) {
            lemma_args_unclosed(ts, p.skip(2), allow);
        }
    }
}

proof fn lemma_args_unclosed(ts: Seq<TokenV>, p: Place, allow: bool)
    requires
        0 <= p.pos <= ts.len(),
    ensures
        unclosed(ts, p_args(closed_off(ts), p, allow), p_args(ts, p, allow)),
        p_args(ts, p, allow) matches Ok((_, q)) ==> p.pos < q.pos <= ts.len(),
    decreases ts.len() - p.pos, 1int,
{
    lemma_expr_unclosed(ts, p, allow);
    if let Ok((_, q)) = p_expr(ts, p, allow) {
        if let Some(TokenV::Comma) = token_at(ts, q.pos) {
            lemma_args_unclosed(ts, q.skip(1), allow);
        }
    }
}

proof fn lemma_values_unclosed(ts: Seq<TokenV>, p: Place, allow: bool)
    requires
        0 <= p.pos <= ts.len(),
    ensures
        unclosed(ts, p_values(closed_off(ts), p, allow), p_values(ts, p, allow)),
        p_values(ts, p, allow) matches Ok((_, q)) ==> p.pos < q.pos <= ts.len(),
    decreases ts.len() - p.pos,
{
    lemma_expr_unclosed(ts, p, allow);
    if let Ok((_, q)) = p_expr(ts, p, allow) {
        if let Some(TokenV::Comma) = token_at(ts, q.pos) {
            lemma_values_unclosed(ts, q.skip(1), allow);
        }
    }
}

proof fn lemma_rows_unclosed(ts: Seq<TokenV>, p: Place, allow: bool)
    requires
        0 <= p.pos <= ts.len(),
    ensures
        unclosed(ts, p_rows(closed_off(ts), p, allow), p_rows(ts, p, allow)),
    decreases ts.len() - p.pos,
{
    if let Ok(q) = p_token(ts, p, TokenV::LParen) {
        lemma_values_unclosed(ts, q, allow);
        if let Ok((_, q)) = p_values(ts, q, allow) {
            if let Some(TokenV::Comma) = token_at(ts, q.pos) {
                lemma_rows_unclosed(ts, q.skip(1), allow);
            }
        }
    }
}

proof fn lemma_item_unclosed(ts: Seq<TokenV>, p: Place, allow: bool)
    requires
        0 <= p.pos <= ts.len(),
    ensures
        unclosed(ts, p_select_item(closed_off(ts), p, allow), p_select_item(ts, p, allow)),
        p_select_item(ts, p, allow) matches Ok((_, q)) ==> p.pos < q.pos <= ts.len(),
{
    lemma_expr_unclosed(ts, p, allow);
}

proof fn lemma_projection_unclosed(ts: Seq<TokenV>, p: Place, allow: bool)
    requires
        0 <= p.pos <= ts.len(),
    ensures
        unclosed(ts, p_projection(closed_off(ts), p, allow), p_projection(ts, p, allow)),
    decreases ts.len() - p.pos,
{
    lemma_item_unclosed(ts, p, allow);
    if let Ok((_, q)) = p_select_item(ts, p, allow) {
        if let Some(TokenV::Comma) = token_at(ts, q.pos) {
            lemma_projection_unclosed(ts, q.skip(1), allow);
        }
    }
}

proof fn lemma_condition_unclosed(ts: Seq<TokenV>, p: Place, allow: bool)
    requires
        0 <= p.pos <= ts.len(),
    ensures
        unclosed(ts, p_condition(closed_off(ts), p, allow), p_condition(ts, p, allow)),
{
    if p.pos + 2 <= ts.len() {
        lemma_expr_unclosed(ts, p.skip(2), allow);
    }
}

proof fn lemma_sizes_unclosed(ts: Seq<TokenV>, p: Place, text: Seq<char>)
    requires
        0 <= p.pos <= ts.len(),
    ensures
        unclosed(ts, p_sizes(closed_off(ts), p, text), p_sizes(ts, p, text)),
    decreases ts.len() - p.pos,
{
    if let Some(TokenV::Integer(n)) = token_at(ts, p.pos) {
        if let Some(TokenV::Comma) = token_at(ts, p.pos + 1) {
            lemma_sizes_unclosed(ts, p.skip(2), text + decimal_int(n as int) + ","@);
        }
    }
}

proof fn lemma_flags_unclosed(ts: Seq<TokenV>, p: Place)
    requires
        0 <= p.pos <= ts.len(),
    ensures
        p_numeric_flags(closed_off(ts), p) == p_numeric_flags(ts, p),
        p.pos <= p_numeric_flags(ts, p).pos <= ts.len(),
    decreases ts.len() - p.pos,
{
    if p.pos < ts.len() {
        lemma_flags_unclosed(ts, p.skip(1));
    }
}

proof fn lemma_attributes_unclosed(ts: Seq<TokenV>, p: Place, allow: bool, a: AttributesV)
    requires
        0 <= p.pos <= ts.len(),
    ensures
        unclosed(ts, p_attributes(closed_off(ts), p, allow, a), p_attributes(ts, p, allow, a)),
    decreases ts.len() - p.pos,
{
    if p.pos < ts.len() {
        lemma_attributes_unclosed(ts, p.skip(1), allow, AttributesV { nullable: true, ..a });
        lemma_attributes_unclosed(ts, p.skip(1), allow, AttributesV { auto_increment: true, ..a });
        lemma_attributes_unclosed(ts, p.skip(1), allow, a);
        if p.pos + 2 <= ts.len() {
            lemma_attributes_unclosed(ts, p.skip(2), allow, AttributesV { nullable: false, ..a });
            lemma_attributes_unclosed(
                ts,
                p.skip(2),
                allow,
                AttributesV { is_primary_key: true, ..a },
            );
            lemma_attributes_unclosed(ts, p.skip(2), allow, a);
        }
        lemma_expr_unclosed(ts, p.skip(1), allow);
        if let Ok((_, q)) = p_expr(ts, p.skip(1), allow) {
            lemma_attributes_unclosed(ts, q, allow, a);
        }
    }
}

proof fn lemma_column_unclosed(ts: Seq<TokenV>, p: Place, allow: bool)
    requires
        0 <= p.pos <= ts.len(),
    ensures
        unclosed(ts, p_column_def(closed_off(ts), p, allow), p_column_def(ts, p, allow)),
{
    if p.pos + 2 <= ts.len() {
        if let Ok((base, _)) = p_ident(ts, p.skip(1)) {
            if p.pos + 3 <= ts.len() {
                lemma_sizes_unclosed(ts, p.skip(3), base + "("@);
            }
            assert(unclosed(
                ts,
                p_type_size(closed_off(ts), p.skip(2), base),
                p_type_size(ts, p.skip(2), base),
            ));
            if let Ok((_, q)) = p_type_size(closed_off(ts), p.skip(2), base) {
                lemma_sizes_forward(closed_off(ts), p.skip(3), base + "("@);
                lemma_flags_unclosed(ts, q);
                lemma_attributes_unclosed(
                    ts,
                    p_numeric_flags(ts, q),
                    allow,
                    AttributesV { is_primary_key: false, nullable: true, auto_increment: false },
                );
            }
        }
    }
}

proof fn lemma_sizes_forward(ts: Seq<TokenV>, p: Place, text: Seq<char>)
    ensures
        p_sizes(ts, p, text) matches Ok((_, q)) ==> p.pos < q.pos,
    decreases ts.len() - p.pos,
{
    if let Some(TokenV::Integer(n)) = token_at(ts, p.pos) {
        if let Some(TokenV::Comma) = token_at(ts, p.pos + 1) {
            lemma_sizes_forward(ts, p.skip(2), text + decimal_int(n as int) + ","@);
        }
    }
}

proof fn lemma_item_end_unclosed(ts: Seq<TokenV>, pos: int)
    requires
        0 <= pos <= ts.len(),
    ensures
        item_end(closed_off(ts), pos) == item_end(ts, pos) && pos <= item_end(ts, pos) < ts.len()
            || item_end(closed_off(ts), pos) == ts.len() + 1,
    decreases ts.len() - pos,
{
    let long = closed_off(ts);
    if pos < ts.len() {
        assert(long[pos] == ts[pos]);
        lemma_item_end_unclosed(ts, pos + 1);
    } else {
        assert(long[pos] == TokenV::Semicolon);
        assert(item_end(long, pos) == item_end(long, pos + 1));
    }
}

/// Reading a constraint: the same without the closing `;`, unless it runs to
/// the very end, where no table can go on.
spec fn unclosed_or_at_end(
    ts: Seq<TokenV>,
    with: Parsed<Seq<ColumnDefV>>,
    without: Parsed<Seq<ColumnDefV>>,
) -> bool {
    with matches Ok((_, q)) ==> q.pos == ts.len() + 1 || with == without && q.pos <= ts.len()
}

proof fn lemma_forward(ts: Seq<TokenV>, p: Place)
    ensures
        p_skip_index(ts, p) matches Ok(q) ==> p.pos < q.pos,
        p_qualified(ts, p) matches Ok((_, q)) ==> p.pos < q.pos,
{
    lemma_index_rest_forward(ts, p.skip(1));
    if let Ok((name, q)) = p_ident(ts, p) {
        lemma_qualified_forward(ts, q, name);
    }
}

proof fn lemma_index_rest_forward(ts: Seq<TokenV>, p: Place)
    ensures
        p_index_columns_rest(ts, p) matches Ok((_, q)) ==> p.pos < q.pos,
    decreases ts.len() - p.pos,
{
    if let Ok((_, q)) = p_ident(ts, p) {
        if let Ok(q) = p_prefix_length(ts, q) {
            if let Some(TokenV::Comma) = token_at(ts, q.pos) {
                lemma_index_rest_forward(ts, q.skip(1));
            }
        }
    }
}

proof fn lemma_qualified_forward(ts: Seq<TokenV>, p: Place, name: Seq<char>)
    ensures
        p_qualified_rest(ts, p, name) matches Ok((_, q)) ==> p.pos <= q.pos,
    decreases ts.len() - p.pos,
{
    if let Some(TokenV::Dot) = token_at(ts, p.pos) {
        if let Ok((next, q)) = p_ident(ts, p.skip(1)) {
            lemma_qualified_forward(ts, q, next);
        }
    }
}

proof fn lemma_foreign_key_unclosed(ts: Seq<TokenV>, p: Place)
    requires
        0 <= p.pos <= ts.len(),
    ensures
        p_foreign_key(closed_off(ts), p) matches Ok(q) ==> q.pos == ts.len() + 1 || p_foreign_key(
            closed_off(ts),
            p,
        ) == p_foreign_key(ts, p) && q.pos <= ts.len(),
{
    let long = closed_off(ts);
    if let Ok(q) = p_keyword(long, p, Keyword::Key) {
        let q = p_optional_name(long, q);
        assert(q == p_optional_name(ts, p.skip(1)));
        lemma_index_unclosed(ts, q);
        lemma_forward(long, q);
        if let Ok(q) = p_skip_index(long, q) {
            if q.pos + 1 <= ts.len() {
                lemma_table_unclosed(ts, q.skip(1));
                lemma_forward(long, q.skip(1));
                if let Ok((_, q)) = p_qualified(long, q.skip(1)) {
                    lemma_index_unclosed(ts, q);
                    lemma_forward(long, q);
                    if let Ok(q) = p_skip_index(long, q) {
                        lemma_item_end_unclosed(ts, q.pos);
                    }
                }
            }
        }
    }
}

proof fn lemma_constraint_unclosed(ts: Seq<TokenV>, p: Place, columns: Seq<ColumnDefV>)
    requires
        0 <= p.pos <= ts.len(),
    ensures
        unclosed_or_at_end(
            ts,
            p_constraint(closed_off(ts), p, columns),
            p_constraint(ts, p, columns),
        ),
{
    let long = closed_off(ts);
    let s = if is_word(token_at(ts, p.pos), "CONSTRAINT"@) {
        p_optional_name(ts, p.skip(1))
    } else {
        p
    };
    assert(s.pos <= ts.len());
    assert(s == if is_word(token_at(long, p.pos), "CONSTRAINT"@) {
        p_optional_name(long, p.skip(1))
    } else {
        p
    });
    if s.pos + 1 <= ts.len() {
        let one = p_optional_name(ts, s.skip(1));
        assert(one == p_optional_name(long, s.skip(1)));
        lemma_index_unclosed(ts, one);
        lemma_foreign_key_unclosed(ts, s.skip(1));
        if s.pos + 2 <= ts.len() {
            let two = p_optional_name(ts, s.skip(2));
            assert(two == p_optional_name(long, s.skip(2)));
            lemma_index_unclosed(ts, two);
            lemma_index_unclosed(ts, s.skip(2));
        }
    }
}

proof fn lemma_table_items_unclosed(
    ts: Seq<TokenV>,
    p: Place,
    allow: bool,
    columns: Seq<ColumnDefV>,
)
    requires
        0 <= p.pos <= ts.len(),
    ensures
        unclosed(
            ts,
            p_table_items(closed_off(ts), p, allow, columns),
            p_table_items(ts, p, allow, columns),
        ),
    decreases ts.len() - p.pos,
{
    let long = closed_off(ts);
    lemma_constraint_unclosed(ts, p, columns);
    lemma_column_unclosed(ts, p, allow);
    if let Ok((more, q)) = p_table_item(long, p, allow, columns) {
        if q.pos <= ts.len() && token_at(long, q.pos) == Some(TokenV::Comma) && moved(long, p, q) {
            lemma_table_items_unclosed(ts, q.skip(1), allow, more);
        }
    }
}

// ---------- whole statements ----------

proof fn lemma_finish_unclosed(ts: Seq<TokenV>, p: Place, s: StatementV)
    requires
        0 <= p.pos <= ts.len(),
    ensures
        unclosed_statement(p_finish(closed_off(ts), p, s), p_finish(ts, p, s)),
{
    if p.pos < ts.len() {
        assert(closed_off(ts)[p.pos] == ts[p.pos]);
    }
}

proof fn lemma_discard_unclosed(ts: Seq<TokenV>, p: Place, s: StatementV)
    requires
        0 <= p.pos <= ts.len(),
    ensures
        unclosed_statement(p_discard_rest(closed_off(ts), p, s), p_discard_rest(ts, p, s)),
{
    lemma_end_before(ts, Seq::empty(), p.pos);
    assert(ts + seq![TokenV::Semicolon] + Seq::<TokenV>::empty() =~= closed_off(ts));
    lemma_finish_unclosed(
        ts,
        Place { pos: statement_end(ts, p.pos), params: p.params },
        s,
    );
}

proof fn lemma_create_table_unclosed(ts: Seq<TokenV>, p: Place, allow: bool)
    requires
        0 <= p.pos <= ts.len(),
    ensures
        unclosed_statement(p_create_table(closed_off(ts), p, allow), p_create_table(ts, p, allow)),
{
    let long = closed_off(ts);
    if p.pos + 2 <= ts.len() {
        lemma_table_unclosed(ts, p.skip(2));
        lemma_forward(long, p.skip(2));
        if let Ok((table, q)) = p_qualified(long, p.skip(2)) {
            if q.pos + 1 <= ts.len() {
                lemma_table_items_unclosed(ts, q.skip(1), allow, Seq::empty());
                lemma_table_items_forward(long, q.skip(1), allow, Seq::empty());
                if let Ok((columns, q)) = p_table_items(long, q.skip(1), allow, Seq::empty()) {
                    lemma_discard_unclosed(ts, q, StatementV::CreateTable { table, columns });
                }
            }
        }
    }
}

proof fn lemma_table_items_forward(
    ts: Seq<TokenV>,
    p: Place,
    allow: bool,
    columns: Seq<ColumnDefV>,
)
    requires
        0 <= p.pos,
    ensures
        p_table_items(ts, p, allow, columns) matches Ok((_, q)) ==> 0 <= q.pos,
    decreases ts.len() - p.pos,
{
    if let Ok((more, q)) = p_table_item(ts, p, allow, columns) {
        if token_at(ts, q.pos) == Some(TokenV::Comma) && moved(ts, p, q) {
            lemma_table_items_forward(ts, q.skip(1), allow, more);
        }
    }
}

proof fn lemma_databases_unclosed(ts: Seq<TokenV>, p: Place)
    requires
        0 <= p.pos <= ts.len(),
    ensures
        unclosed_statement(p_create_database(closed_off(ts), p), p_create_database(ts, p)),
        unclosed_statement(p_drop_database(closed_off(ts), p), p_drop_database(ts, p)),
{
    let long = closed_off(ts);
    if p.pos + 2 <= ts.len() {
        let q = p.skip(2);
        assert(unclosed(ts, p_if_not_exists(long, q), p_if_not_exists(ts, q)));
        assert(unclosed(ts, p_if_exists(long, q), p_if_exists(ts, q)));
        if let Ok((if_not_exists, q)) = p_if_not_exists(long, q) {
            if let Ok((name, q)) = p_ident(long, q) {
                lemma_discard_unclosed(ts, q, StatementV::CreateDatabase { name, if_not_exists });
            }
        }
        if let Ok((if_exists, q)) = p_if_exists(long, q) {
            if let Ok((name, q)) = p_ident(long, q) {
                lemma_finish_unclosed(ts, q, StatementV::DropDatabase { name, if_exists });
            }
        }
    }
}

proof fn lemma_names_forward(ts: Seq<TokenV>, p: Place)
    ensures
        p_names(ts, p) matches Ok((_, q)) ==> p.pos < q.pos,
    decreases ts.len() - p.pos,
{
    if let Ok((_, q)) = p_ident(ts, p) {
        if let Some(TokenV::Comma) = token_at(ts, q.pos) {
            lemma_names_forward(ts, q.skip(1));
        }
    }
}

proof fn lemma_rows_forward(ts: Seq<TokenV>, p: Place, allow: bool)
    requires
        0 <= p.pos <= ts.len(),
    ensures
        p_rows(ts, p, allow) matches Ok((_, q)) ==> p.pos < q.pos,
    decreases ts.len() - p.pos,
{
    if let Ok(q) = p_token(ts, p, TokenV::LParen) {
        lemma_values_unclosed(ts, q, allow);
        if let Ok((_, q)) = p_values(ts, q, allow) {
            if token_at(ts, q.pos) == Some(TokenV::Comma) {
                lemma_rows_forward(ts, q.skip(1), allow);
            }
        }
    }
}

proof fn lemma_insert_unclosed(ts: Seq<TokenV>, p: Place, allow: bool)
    requires
        0 <= p.pos <= ts.len(),
    ensures
        unclosed_statement(p_insert(closed_off(ts), p, allow), p_insert(ts, p, allow)),
{
    let long = closed_off(ts);
    if p.pos + 2 <= ts.len() {
        lemma_table_unclosed(ts, p.skip(2));
        lemma_forward(long, p.skip(2));
        if let Ok((table, q)) = p_qualified(long, p.skip(2)) {
            if q.pos + 1 <= ts.len() {
                lemma_names_unclosed(ts, q.skip(1));
                lemma_names_forward(long, q.skip(1));
            }
            assert(unclosed(ts, p_insert_columns(long, q), p_insert_columns(ts, q)));
            if let Ok((columns, q)) = p_insert_columns(long, q) {
                if q.pos + 1 <= ts.len() {
                    lemma_rows_unclosed(ts, q.skip(1), allow);
                    lemma_rows_forward(long, q.skip(1), allow);
                    if let Ok((rows, q)) = p_rows(long, q.skip(1), allow) {
                        lemma_finish_unclosed(ts, q, StatementV::Insert { table, columns, rows });
                    }
                }
            }
        }
    }
}

proof fn lemma_projection_forward(ts: Seq<TokenV>, p: Place, allow: bool)
    requires
        0 <= p.pos <= ts.len(),
    ensures
        p_projection(ts, p, allow) matches Ok((_, q)) ==> p.pos < q.pos,
    decreases ts.len() - p.pos,
{
    lemma_item_unclosed(ts, p, allow);
    if let Ok((_, q)) = p_select_item(ts, p, allow) {
        if token_at(ts, q.pos) == Some(TokenV::Comma) {
            lemma_projection_forward(ts, q.skip(1), allow);
        }
    }
}

proof fn lemma_from_unclosed(ts: Seq<TokenV>, p: Place, allow: bool)
    requires
        0 <= p.pos <= ts.len(),
    ensures
        unclosed(ts, p_from(closed_off(ts), p, allow), p_from(ts, p, allow)),
        p_from(closed_off(ts), p, allow) matches Ok((_, q)) ==> 0 <= q.pos,
{
    let long = closed_off(ts);
    if p.pos + 1 <= ts.len() {
        lemma_table_unclosed(ts, p.skip(1));
        lemma_forward(long, p.skip(1));
        if let Ok((_, q)) = p_qualified(long, p.skip(1)) {
            assert(unclosed(ts, p_alias(long, q), p_alias(ts, q)));
            if let Ok((_, q)) = p_alias(long, q) {
                if q.pos + 1 <= ts.len() {
                    lemma_condition_unclosed(ts, q.skip(1), allow);
                    if q.pos + 3 <= long.len() {
                        lemma_expr_unclosed(long, q.skip(3), allow);
                    }
                }
            }
        }
    }
}

proof fn lemma_select_unclosed(ts: Seq<TokenV>, p: Place, allow: bool)
    requires
        0 <= p.pos <= ts.len(),
    ensures
        unclosed_statement(p_select(closed_off(ts), p, allow), p_select(ts, p, allow)),
{
    let long = closed_off(ts);
    if p.pos + 1 <= ts.len() {
        lemma_projection_unclosed(ts, p.skip(1), allow);
        lemma_projection_forward(long, p.skip(1), allow);
        if let Ok((projection, q)) = p_projection(long, p.skip(1), allow) {
            lemma_from_unclosed(ts, q, allow);
            if let Ok(((from, selection), q)) = p_from(long, q, allow) {
                lemma_finish_unclosed(ts, q, StatementV::Select { projection, from, selection });
            }
        }
    }
}

proof fn lemma_simple_unclosed(ts: Seq<TokenV>, p: Place, kw: Keyword, s: StatementV)
    requires
        0 <= p.pos <= ts.len(),
    ensures
        unclosed_statement(p_simple(closed_off(ts), p, kw, s), p_simple(ts, p, kw, s)),
        unclosed_statement(p_ignored(closed_off(ts), p, kw, s), p_ignored(ts, p, kw, s)),
{
    if p.pos + 1 <= ts.len() {
        lemma_finish_unclosed(ts, p.skip(1), s);
        lemma_discard_unclosed(ts, p.skip(1), s);
    }
}

proof fn lemma_show_unclosed(ts: Seq<TokenV>, p: Place)
    requires
        0 <= p.pos <= ts.len(),
    ensures
        unclosed_statement(p_show(closed_off(ts), p), p_show(ts, p)),
{
    let long = closed_off(ts);
    if p.pos + 1 <= ts.len() {
        let q = p.skip(1);
        if q.pos + 1 <= ts.len() {
            assert(unclosed(ts, p_like(long, q.skip(1)), p_like(ts, q.skip(1))));
            if let Ok((like, q)) = p_like(long, q.skip(1)) {
                lemma_discard_unclosed(
                    ts,
                    q,
                    StatementV::Show(ShowStatementV::Variables { like }),
                );
            }
        }
        let form = show_form(token_at(ts, q.pos), token_at(ts, q.pos + 1));
        assert(form == show_form(
            token_at(long, q.pos),
            token_at(long, q.pos + 1),
        ));
        lemma_discard_unclosed(ts, q, StatementV::Show(form));
    }
}

/// A statement is the same with and without the `;` at its end.
proof fn lemma_statement_unclosed(ts: Seq<TokenV>, allow: bool)
    ensures
        statement_of(closed_off(ts), allow) is Ok ==> statement_of(ts, allow) == statement_of(
            closed_off(ts),
            allow,
        ),
{
    reveal(p_statement);
    let p = start();
    if ts.len() > 0 {
        lemma_create_table_unclosed(ts, p, allow);
        lemma_databases_unclosed(ts, p);
        lemma_insert_unclosed(ts, p, allow);
        lemma_select_unclosed(ts, p, allow);
        lemma_simple_unclosed(ts, p, Keyword::Begin, StatementV::Begin);
        lemma_simple_unclosed(ts, p.skip(1), Keyword::Transaction, StatementV::Begin);
        lemma_simple_unclosed(ts, p, Keyword::Commit, StatementV::Commit);
        lemma_simple_unclosed(ts, p, Keyword::Rollback, StatementV::Rollback);
        lemma_simple_unclosed(ts, p, Keyword::SetWord, StatementV::SetOption);
        lemma_simple_unclosed(ts, p, Keyword::Use, StatementV::Use);
        lemma_show_unclosed(ts, p);
    } else {
        assert(closed_off(ts)[0] == TokenV::Semicolon);
    }
}

/// Whether a text has no `;` token but, perhaps, as its last one.
pub open spec fn one_segment(sql: Seq<char>) -> bool {
    lex(sql, 0) matches Ok(ts) ==> forall|k: int|
        0 <= k < ts.len() - 1 ==> #[trigger] ts[k] != TokenV::Semicolon
}

/// A text that is one statement, with or without a `;` at its end, is also a
/// list of one.
pub proof fn law_a_statement_is_a_list_of_one(sql: Seq<char>)
    requires
        one_segment(sql),
    ensures
        parse_result(sql, false) matches Ok((s, _)) ==> parse_many_result(sql) == Ok::<
            Seq<StatementV>,
            ErrorV,
        >(seq![s]),
{
    if let Ok((s, _)) = parse_result(sql, false) {
        let ts = lex(sql, 0)->Ok_0;
        let none = Seq::<StatementV>::empty();
        assert(seq![s] + none =~= seq![s]);
        if ts.last() == TokenV::Semicolon {
            let front = ts.drop_last();
            assert(closed_off(front) =~= ts);
            lemma_statement_unclosed(front, false);
            lemma_ends_at(front, 0);
            assert(front + seq![TokenV::Semicolon] + Seq::<TokenV>::empty() =~= ts);
            lemma_statements_joined(front, Seq::empty(), 0);
            assert(front.subrange(0, front.len() as int) =~= front);
            assert(statements_from(front, front.len() as int) == Ok::<Seq<StatementV>, ErrorV>(none));
            assert(statements_from(front, 0) == Ok::<Seq<StatementV>, ErrorV>(seq![s]));
        } else {
            lemma_ends_at(ts, 0);
            assert(ts.subrange(0, ts.len() as int) =~= ts);
            assert(statements_from(ts, ts.len() as int) == Ok::<Seq<StatementV>, ErrorV>(none));
        }
    }
}

proof fn lemma_ends_at(ts: Seq<TokenV>, i: int)
    requires
        0 <= i <= ts.len(),
        forall|k: int| 0 <= k < ts.len() ==> #[trigger] ts[k] != TokenV::Semicolon,
    ensures
        statement_end(ts, i) == ts.len(),
    decreases ts.len() - i,
{
    if i < ts.len() {
        lemma_ends_at(ts, i + 1);
    }
}

} // verus!
