//! Every token can be spelled, and reads back as itself.
use vstd::prelude::*;

use crate::error::ErrorV;
use crate::query::ast::StatementV;
use crate::query::create_laws::{columns_defined, create_tokens, law_tables_read_back, WrittenColumnV};
use crate::query::lexer::{
    comment_close, digits_end, keyword_of, lex, lexeme, line_end, quoted, word_char, word_end,
    Keyword, Lexeme, TokenV,
};
use crate::query::parse_laws::doubled;
use crate::query::parser::parse_result;
use crate::query::written_laws::{law_statements_read_back, statement_tokens, writable};
use crate::text::{
    decimal, decimal_int, is_ascii_letter, is_digit, is_space, law_numerals_read_back,
    lemma_decimal_round_trip, upper,
};

verus! {

// ---------- keywords ----------

/// A keyword, letter by letter.
pub open spec fn keyword_letters(kw: Keyword) -> Seq<char> {
    match kw {
        Keyword::Create => seq!['C', 'R', 'E', 'A', 'T', 'E'],
        Keyword::Table => seq!['T', 'A', 'B', 'L', 'E'],
        Keyword::Insert => seq!['I', 'N', 'S', 'E', 'R', 'T'],
        Keyword::Into => seq!['I', 'N', 'T', 'O'],
        Keyword::Values => seq!['V', 'A', 'L', 'U', 'E', 'S'],
        Keyword::Select => seq!['S', 'E', 'L', 'E', 'C', 'T'],
        Keyword::From => seq!['F', 'R', 'O', 'M'],
        Keyword::Where => seq!['W', 'H', 'E', 'R', 'E'],
        Keyword::Null => seq!['N', 'U', 'L', 'L'],
        Keyword::Primary => seq!['P', 'R', 'I', 'M', 'A', 'R', 'Y'],
        Keyword::Key => seq!['K', 'E', 'Y'],
        Keyword::Begin => seq!['B', 'E', 'G', 'I', 'N'],
        Keyword::Start => seq!['S', 'T', 'A', 'R', 'T'],
        Keyword::Transaction => seq!['T', 'R', 'A', 'N', 'S', 'A', 'C', 'T', 'I', 'O', 'N'],
        Keyword::Commit => seq!['C', 'O', 'M', 'M', 'I', 'T'],
        Keyword::Rollback => seq!['R', 'O', 'L', 'L', 'B', 'A', 'C', 'K'],
        Keyword::SetWord => seq!['S', 'E', 'T'],
        Keyword::Use => seq!['U', 'S', 'E'],
        Keyword::Show => seq!['S', 'H', 'O', 'W'],
        Keyword::As => seq!['A', 'S'],
        Keyword::Drop => seq!['D', 'R', 'O', 'P'],
    }
}

pub proof fn lemma_keyword_texts()
    ensures
        "CREATE"@ == keyword_letters(Keyword::Create),
        "TABLE"@ == keyword_letters(Keyword::Table),
        "INSERT"@ == keyword_letters(Keyword::Insert),
        "INTO"@ == keyword_letters(Keyword::Into),
        "VALUES"@ == keyword_letters(Keyword::Values),
        "SELECT"@ == keyword_letters(Keyword::Select),
        "FROM"@ == keyword_letters(Keyword::From),
        "WHERE"@ == keyword_letters(Keyword::Where),
        "NULL"@ == keyword_letters(Keyword::Null),
        "PRIMARY"@ == keyword_letters(Keyword::Primary),
        "KEY"@ == keyword_letters(Keyword::Key),
        "BEGIN"@ == keyword_letters(Keyword::Begin),
        "START"@ == keyword_letters(Keyword::Start),
        "TRANSACTION"@ == keyword_letters(Keyword::Transaction),
        "COMMIT"@ == keyword_letters(Keyword::Commit),
        "ROLLBACK"@ == keyword_letters(Keyword::Rollback),
        "SET"@ == keyword_letters(Keyword::SetWord),
        "USE"@ == keyword_letters(Keyword::Use),
        "SHOW"@ == keyword_letters(Keyword::Show),
        "AS"@ == keyword_letters(Keyword::As),
        "DROP"@ == keyword_letters(Keyword::Drop),
{
    reveal_strlit("CREATE");
    reveal_strlit("TABLE");
    reveal_strlit("INSERT");
    reveal_strlit("INTO");
    reveal_strlit("VALUES");
    reveal_strlit("SELECT");
    reveal_strlit("FROM");
    reveal_strlit("WHERE");
    reveal_strlit("NULL");
    reveal_strlit("PRIMARY");
    reveal_strlit("KEY");
    reveal_strlit("BEGIN");
    reveal_strlit("START");
    reveal_strlit("TRANSACTION");
    reveal_strlit("COMMIT");
    reveal_strlit("ROLLBACK");
    reveal_strlit("SET");
    reveal_strlit("USE");
    reveal_strlit("SHOW");
    reveal_strlit("AS");
    reveal_strlit("DROP");
    assert("CREATE"@ =~= keyword_letters(Keyword::Create));
    assert("TABLE"@ =~= keyword_letters(Keyword::Table));
    assert("INSERT"@ =~= keyword_letters(Keyword::Insert));
    assert("INTO"@ =~= keyword_letters(Keyword::Into));
    assert("VALUES"@ =~= keyword_letters(Keyword::Values));
    assert("SELECT"@ =~= keyword_letters(Keyword::Select));
    assert("FROM"@ =~= keyword_letters(Keyword::From));
    assert("WHERE"@ =~= keyword_letters(Keyword::Where));
    assert("NULL"@ =~= keyword_letters(Keyword::Null));
    assert("PRIMARY"@ =~= keyword_letters(Keyword::Primary));
    assert("KEY"@ =~= keyword_letters(Keyword::Key));
    assert("BEGIN"@ =~= keyword_letters(Keyword::Begin));
    assert("START"@ =~= keyword_letters(Keyword::Start));
    assert("TRANSACTION"@ =~= keyword_letters(Keyword::Transaction));
    assert("COMMIT"@ =~= keyword_letters(Keyword::Commit));
    assert("ROLLBACK"@ =~= keyword_letters(Keyword::Rollback));
    assert("SET"@ =~= keyword_letters(Keyword::SetWord));
    assert("USE"@ =~= keyword_letters(Keyword::Use));
    assert("SHOW"@ =~= keyword_letters(Keyword::Show));
    assert("AS"@ =~= keyword_letters(Keyword::As));
    assert("DROP"@ =~= keyword_letters(Keyword::Drop));
}

/// No two keywords are spelled alike.
proof fn lemma_keywords_differ(a: Keyword, b: Keyword)
    requires
        keyword_letters(a) == keyword_letters(b),
    ensures
        a == b,
{
    let x = keyword_letters(a);
    let y = keyword_letters(b);
    assert(x.len() == y.len());
    assert(x[0] == y[0]);
    assert(x[1] == y[1]);
    if x.len() > 2 {
        assert(x[2] == y[2]);
    }
}

/// A word is a keyword exactly if it has its letters, whatever their case.
pub proof fn law_keywords_are_spelled_by_their_letters(w: Seq<char>, kw: Keyword)
    ensures
        keyword_of(w) == Some(kw) <==> upper(w) == keyword_letters(kw),
{
    lemma_keyword_texts();
    if upper(w) == keyword_letters(kw) {
        match keyword_of(w) {
            Some(k) => {
                assert(upper(w) == keyword_letters(k));
                lemma_keywords_differ(k, kw);
            },
            None => {},
        }
    }
}

// ---------- spelling ----------

/// A name that can be spelled without quotes: unaccented letters, figures and
/// underscores, not starting with a figure.
pub open spec fn is_simple_word(s: Seq<char>) -> bool {
    &&& s.len() > 0
    &&& is_ascii_letter(s[0]) || s[0] == '_'
    &&& forall|i: int|
        0 <= i < s.len() ==> is_ascii_letter(#[trigger] s[i]) || is_digit(s[i]) || s[i] == '_'
}

/// A token as it is spelled in a text.
pub open spec fn spelling(t: TokenV) -> Seq<char> {
    match t {
        TokenV::Keyword(k) => keyword_letters(k),
        TokenV::Ident(s) => if is_simple_word(s) && keyword_of(s) is None {
            s
        } else {
            seq!['`'] + doubled(s, '`') + seq!['`']
        },
        TokenV::SystemVariable(s) => seq!['@', '@'] + s,
        TokenV::Integer(n) => decimal_int(n as int),
        TokenV::Str(s) => seq!['\''] + doubled(s, '\'') + seq!['\''],
        TokenV::Comma => seq![','],
        TokenV::LParen => seq!['('],
        TokenV::RParen => seq![')'],
        TokenV::Semicolon => seq![';'],
        TokenV::Star => seq!['*'],
        TokenV::Eq => seq!['='],
        TokenV::NotEq => seq!['<', '>'],
        TokenV::Lt => seq!['<'],
        TokenV::Gt => seq!['>'],
        TokenV::Le => seq!['<', '='],
        TokenV::Ge => seq!['>', '='],
        TokenV::Dot => seq!['.'],
        TokenV::Placeholder => seq!['?'],
    }
}

/// Whether a token can be spelled: every name has to have a character, and a
/// variable's has to be simple.
pub open spec fn is_spellable(t: TokenV) -> bool {
    match t {
        TokenV::Ident(s) => s.len() > 0,
        TokenV::SystemVariable(s) => is_simple_word(s),
        _ => true,
    }
}

/// Tokens in a text, with a blank behind each.
pub open spec fn spelled(ts: Seq<TokenV>) -> Seq<char>
    decreases ts.len(),
{
    if ts.len() == 0 {
        Seq::empty()
    } else {
        spelling(ts[0]) + seq![' '] + spelled(ts.drop_first())
    }
}

/// Whether `part` stands in `s` at place `i`.
pub open spec fn chars_at(s: Seq<char>, i: int, part: Seq<char>) -> bool {
    0 <= i && i + part.len() <= s.len() && forall|k: int|
        0 <= k < part.len() ==> s[i + k] == #[trigger] part[k]
}

proof fn lemma_word_runs(s: Seq<char>, i: int, n: int)
    requires
        0 <= i,
        0 <= n,
        i + n < s.len(),
        forall|k: int| i <= k < i + n ==> word_char(#[trigger] s[k]),
        !word_char(s[i + n]),
    ensures
        word_end(s, i) == i + n,
    decreases n,
{
    if n > 0 {
        assert(word_char(s[i]));
        lemma_word_runs(s, i + 1, n - 1);
    }
}

proof fn lemma_digits_run(s: Seq<char>, i: int, n: int)
    requires
        0 <= i,
        0 <= n,
        i + n < s.len(),
        forall|k: int| i <= k < i + n ==> is_digit(#[trigger] s[k]),
        !is_digit(s[i + n]),
    ensures
        digits_end(s, i, s.len() as int) == i + n,
    decreases n,
{
    if n > 0 {
        assert(is_digit(s[i]));
        lemma_digits_run(s, i + 1, n - 1);
    }
}

proof fn lemma_quoted_reads(s: Seq<char>, i: int, x: Seq<char>, q: char)
    requires
        chars_at(s, i, doubled(x, q) + seq![q]),
        i + doubled(x, q).len() + 1 < s.len(),
        s[i + doubled(x, q).len() + 1] != q,
    ensures
        quoted(s, i, q) == Some((x, (i + doubled(x, q).len() + 1) as int)),
    decreases x.len(),
{
    let all = doubled(x, q) + seq![q];
    if x.len() == 0 {
        assert(all[0] == q);
        assert(s[i + 0] == all[0]);
        assert(x =~= Seq::empty());
    } else {
        let rest = x.drop_first();
        let step = if x[0] == q {
            seq![q, q]
        } else {
            seq![x[0]]
        };
        let n = step.len() as int;
        assert(doubled(x, q) == step + doubled(rest, q));
        let tail = doubled(rest, q) + seq![q];
        assert forall|k: int| 0 <= k < tail.len() implies s[i + n + k] == #[trigger] tail[k] by {
            assert(all[n + k] == tail[k]);
            assert(s[i + (n + k)] == all[n + k]);
        }
        assert(all[0] == x[0]);
        assert(s[i + 0] == all[0]);
        if x[0] == q {
            assert(all[1] == q);
            assert(s[i + 1] == all[1]);
        }
        lemma_quoted_reads(s, i + n, rest, q);
        assert(seq![x[0]] + rest =~= x);
    }
}

proof fn lemma_letters(kw: Keyword)
    ensures
        is_simple_word(keyword_letters(kw)),
        keyword_letters(kw).len() > 1,
        upper(keyword_letters(kw)) == keyword_letters(kw),
{
    let w = keyword_letters(kw);
    assert forall|i: int| 0 <= i < w.len() implies 'A' <= #[trigger] w[i] <= 'Z' by {}
    assert(upper(w) =~= w);
}

proof fn lemma_word_reads(s: Seq<char>, i: int, w: Seq<char>)
    requires
        chars_at(s, i, w),
        i + w.len() < s.len(),
        s[(i + w.len()) as int] == ' ',
        is_simple_word(w),
    ensures
        lexeme(s, i) == Lexeme::Emit(
            match keyword_of(w) {
                Some(k) => TokenV::Keyword(k),
                None => TokenV::Ident(w),
            },
            (i + w.len()) as int,
        ),
        word_end(s, i) == i + w.len(),
{
    assert(s[i + 0] == w[0]);
    assert forall|k: int| i <= k < i + w.len() implies word_char(#[trigger] s[k]) by {
        assert(s[i + (k - i)] == w[k - i]);
    }
    lemma_word_runs(s, i, w.len() as int);
    assert(s.subrange(i, (i + w.len()) as int) =~= w);
}

proof fn lemma_number_reads(s: Seq<char>, i: int, n: i64)
    requires
        chars_at(s, i, decimal_int(n as int)),
        i + decimal_int(n as int).len() < s.len(),
        s[(i + decimal_int(n as int).len()) as int] == ' ',
    ensures
        lexeme(s, i) == Lexeme::Emit(TokenV::Integer(n), (i + decimal_int(n as int).len()) as int),
{
    let w = decimal_int(n as int);
    let m = if n < 0 {
        (-(n as int)) as nat
    } else {
        n as nat
    };
    let digits = decimal(m);
    lemma_decimal_round_trip(m);
    law_numerals_read_back(n);
    let from = if n < 0 {
        1int
    } else {
        0int
    };
    assert forall|k: int| i + from <= k < i + w.len() implies is_digit(#[trigger] s[k]) by {
        assert(s[i + (k - i)] == w[k - i]);
        assert(w[k - i] == digits[k - i - from]);
    }
    lemma_digits_run(s, i + from, digits.len() as int);
    assert(s.subrange(i, (i + w.len()) as int) =~= w);
    assert(s[i + 0] == w[0]);
    if n < 0 {
        assert(w[0] == '-');
        assert(is_digit(s[i + 1]));
        assert(s[i + 1] != '-');
    } else {
        assert(is_digit(s[i]));
    }
}

#[verifier::rlimit(40)]
proof fn lemma_token_reads(s: Seq<char>, i: int, t: TokenV)
    requires
        is_spellable(t),
        chars_at(s, i, spelling(t)),
        i + spelling(t).len() < s.len(),
        s[(i + spelling(t).len()) as int] == ' ',
    ensures
        spelling(t).len() > 0,
        lexeme(s, i) == Lexeme::Emit(t, (i + spelling(t).len()) as int),
{
    let w = spelling(t);
    match t {
        TokenV::Keyword(k) => {
            lemma_letters(k);
            law_keywords_are_spelled_by_their_letters(w, k);
            lemma_word_reads(s, i, w);
        },
        TokenV::Ident(x) => {
            if is_simple_word(x) && keyword_of(x) is None {
                lemma_word_reads(s, i, w);
            } else {
                lemma_quoted_token(s, i, x, '`');
            }
        },
        TokenV::Str(x) => lemma_quoted_token(s, i, x, '\''),
        TokenV::Integer(n) => {
            lemma_number_reads(s, i, n);
            let m = if n < 0 {
                (-(n as int)) as nat
            } else {
                n as nat
            };
            lemma_decimal_round_trip(m);
        },
        TokenV::SystemVariable(x) => {
            assert(w[0] == '@' && w[1] == '@');
            assert(s[i + 0] == w[0]);
            assert(s[i + 1] == w[1]);
            assert forall|k: int| i + 2 <= k < i + w.len() implies word_char(#[trigger] s[k]) by {
                assert(s[i + (k - i)] == w[k - i]);
                assert(w[k - i] == x[k - i - 2]);
            }
            lemma_word_runs(s, i + 2, x.len() as int);
            assert(s.subrange(i + 2, (i + w.len()) as int) =~= x) by {
                assert forall|k: int| 0 <= k < x.len() implies s[i + 2 + k] == x[k] by {
                    assert(s[i + (k + 2)] == w[k + 2]);
                }
            }
        },
        TokenV::NotEq | TokenV::Le | TokenV::Ge => {
            assert(s[i + 0] == w[0]);
            assert(s[i + 1] == w[1]);
        },
        _ => {
            assert(s[i + 0] == w[0]);
            assert(s[i + 1] == ' ');
        },
    }
}

proof fn lemma_quoted_token(s: Seq<char>, i: int, x: Seq<char>, q: char)
    requires
        q == '`' && x.len() > 0 || q == '\'',
        chars_at(s, i, seq![q] + doubled(x, q) + seq![q]),
        i + 2 + doubled(x, q).len() < s.len(),
        s[(i + 2 + doubled(x, q).len()) as int] == ' ',
    ensures
        lexeme(s, i) == Lexeme::Emit(
            if q == '`' {
                TokenV::Ident(x)
            } else {
                TokenV::Str(x)
            },
            (i + 2 + doubled(x, q).len()) as int,
        ),
{
    let w = seq![q] + doubled(x, q) + seq![q];
    let inner = doubled(x, q) + seq![q];
    assert(w[0] == q);
    assert(s[i + 0] == w[0]);
    assert forall|k: int| 0 <= k < inner.len() implies s[i + 1 + k] == #[trigger] inner[k] by {
        assert(w[k + 1] == inner[k]);
        assert(s[i + (k + 1)] == w[k + 1]);
    }
    lemma_quoted_reads(s, i + 1, x, q);
}

proof fn lemma_spelled_reads(s: Seq<char>, i: int, ts: Seq<TokenV>)
    requires
        forall|k: int| 0 <= k < ts.len() ==> is_spellable(#[trigger] ts[k]),
        chars_at(s, i, spelled(ts)),
        i + spelled(ts).len() == s.len(),
    ensures
        lex(s, i) == Ok::<Seq<TokenV>, ErrorV>(ts),
    decreases ts.len(),
{
    if ts.len() == 0 {
        assert(ts =~= Seq::empty());
    } else {
        let t = ts[0];
        let rest = ts.drop_first();
        let w = spelling(t);
        let all = spelled(ts);
        let more = spelled(rest);
        assert(all =~= w + seq![' '] + more);
        assert forall|k: int| 0 <= k < w.len() implies s[i + k] == #[trigger] w[k] by {
            assert(all[k] == w[k]);
        }
        let n = w.len() as int;
        assert(all[n] == ' ');
        assert(s[i + n] == all[n]);
        assert forall|k: int| 0 <= k < more.len() implies s[i + n + 1 + k] == #[trigger] more[k] by {
            assert(all[n + 1 + k] == more[k]);
            assert(s[i + (n + 1 + k)] == all[n + 1 + k]);
        }
        assert forall|k: int| 0 <= k < rest.len() implies is_spellable(#[trigger] rest[k]) by {
            assert(rest[k] == ts[k + 1]);
        }
        assert(is_spellable(ts[0]));
        lemma_token_reads(s, i, t);
        lemma_spelled_reads(s, i + n + 1, rest);
        assert(lexeme(s, i + n) == Lexeme::Skip(i + n + 1));
        assert(lex(s, i + n) == lex(s, i + n + 1));
        assert(seq![t] + rest =~= ts);
    }
}

/// Tokens that are spelled with blanks between them read back as themselves:
/// keywords, names, variables, numbers, literals, punctuation and operators.
pub proof fn law_tokens_read_back(ts: Seq<TokenV>)
    requires
        forall|k: int| 0 <= k < ts.len() ==> is_spellable(#[trigger] ts[k]),
    ensures
        lex(spelled(ts), 0) == Ok::<Seq<TokenV>, ErrorV>(ts),
{
    lemma_spelled_reads(spelled(ts), 0, ts);
}

/// The text of a statement reads back as the statement: every name, value,
/// comparison and label in its place.
pub proof fn law_statement_texts_read_back(st: StatementV, allow: bool)
    requires
        writable(st),
        forall|k: int|
            0 <= k < statement_tokens(st).len() ==> is_spellable(#[trigger] statement_tokens(st)[k]),
    ensures
        parse_result(spelled(statement_tokens(st)), allow) == Ok::<(StatementV, int), ErrorV>(
            (st, 0),
        ),
{
    let ts = statement_tokens(st);
    law_tokens_read_back(ts);
    law_statements_read_back(st, Seq::empty(), allow);
    assert(ts + Seq::<TokenV>::empty() =~= ts);
}

/// So does the text of a `CREATE TABLE`.
pub proof fn law_table_texts_read_back(table: Seq<char>, cs: Seq<WrittenColumnV>, allow: bool)
    requires
        cs.len() > 0,
        forall|i: int| 0 <= i < cs.len() ==> (#[trigger] cs[i]).named_well(),
        forall|k: int|
            0 <= k < create_tokens(table, cs, None).len() ==> is_spellable(
                #[trigger] create_tokens(table, cs, None)[k],
            ),
    ensures
        parse_result(spelled(create_tokens(table, cs, None)), allow) == Ok::<
            (StatementV, int),
            ErrorV,
        >((StatementV::CreateTable { table, columns: columns_defined(cs) }, 0)),
{
    let ts = create_tokens(table, cs, None);
    law_tokens_read_back(ts);
    law_tables_read_back(table, cs, None, Seq::empty(), Seq::empty(), allow);
    assert(ts + Seq::<TokenV>::empty() + Seq::<TokenV>::empty() =~= ts);
}

// ---------- comments ----------

proof fn lemma_comment_closes(s: Seq<char>, i: int, n: int)
    requires
        0 <= i,
        0 <= n,
        i + n + 2 <= s.len(),
        forall|k: int| i <= k < i + n ==> !(#[trigger] s[k] == '*' && s[k + 1] == '/'),
        s[i + n] == '*',
        s[i + n + 1] == '/',
    ensures
        comment_close(s, i) == Some(i + n),
    decreases n,
{
    if n > 0 {
        assert(!(s[i] == '*' && s[i + 1] == '/'));
        lemma_comment_closes(s, i + 1, n - 1);
    }
}

proof fn lemma_line_runs(s: Seq<char>, i: int, n: int)
    requires
        0 <= i,
        0 <= n,
        i + n < s.len(),
        forall|k: int| i <= k < i + n ==> #[trigger] s[k] != '\n',
        s[i + n] == '\n',
    ensures
        line_end(s, i) == i + n,
    decreases n,
{
    if n > 0 {
        assert(s[i] != '\n');
        lemma_line_runs(s, i + 1, n - 1);
    }
}

/// A comment counts for nothing: reading goes on behind it. One between `/*`
/// and `*/` must not start with a `!`.
pub proof fn law_comments_are_skipped(s: Seq<char>, i: int, n: int)
    requires
        0 <= i,
        0 <= n,
        i + n + 4 <= s.len(),
        s[i] == '/' && s[i + 1] == '*',
        s[i + 2] != '!',
        forall|k: int| i + 2 <= k < i + 2 + n ==> !(#[trigger] s[k] == '*' && s[k + 1] == '/'),
        s[i + 2 + n] == '*' && s[i + 3 + n] == '/',
    ensures
        lex(s, i) == lex(s, i + n + 4),
{
    lemma_comment_closes(s, i + 2, n);
}

/// What stands between `/*!` and `*/` counts as if it stood there without, but
/// for a number at its front.
pub proof fn law_executable_comments_count(s: Seq<char>, i: int, n: int, digits: int)
    requires
        0 <= i,
        0 <= digits < n,
        i + n + 5 <= s.len(),
        s[i] == '/' && s[i + 1] == '*' && s[i + 2] == '!',
        forall|k: int| i + 3 <= k < i + 3 + n ==> !(#[trigger] s[k] == '*' && s[k + 1] == '/'),
        s[i + 3 + n] == '*' && s[i + 4 + n] == '/',
        forall|k: int| i + 3 <= k < i + 3 + digits ==> is_digit(#[trigger] s[k]),
        !is_digit(s[i + 3 + digits]),
    ensures
        match (lex(s.subrange(i + 3 + digits, i + 3 + n), 0), lex(s, i + n + 5)) {
            (Ok(inner), Ok(rest)) => lex(s, i) == Ok::<Seq<TokenV>, ErrorV>(inner + rest),
            _ => lex(s, i) is Err,
        },
{
    assert(!(s[i + 2] == '*' && s[i + 3] == '/'));
    assert forall|k: int| i + 2 <= k < i + 2 + (n + 1) implies !(#[trigger] s[k] == '*' && s[k + 1]
        == '/') by {}
    lemma_comment_closes(s, i + 2, n + 1);
    lemma_digits_before(s, i + 3, digits, i + 3 + n);
}

proof fn lemma_digits_before(s: Seq<char>, i: int, n: int, limit: int)
    requires
        0 <= i,
        0 <= n,
        i + n < limit <= s.len(),
        forall|k: int| i <= k < i + n ==> is_digit(#[trigger] s[k]),
        !is_digit(s[i + n]),
    ensures
        digits_end(s, i, limit) == i + n,
    decreases n,
{
    if n > 0 {
        assert(is_digit(s[i]));
        lemma_digits_before(s, i + 1, n - 1, limit);
    }
}

/// From a `#`, or two dashes and a blank, nothing counts up to the end of the
/// line.
pub proof fn law_line_comments_are_skipped(s: Seq<char>, i: int, n: int)
    requires
        0 <= i,
        0 < n,
        i + n < s.len(),
        s[i] == '#' || (s[i] == '-' && s[i + 1] == '-' && n >= 2 && (s[i + 2] == ' ' || s[i + 2]
            == '\n')),
        forall|k: int| i <= k < i + n ==> #[trigger] s[k] != '\n',
        s[i + n] == '\n',
    ensures
        lex(s, i) == lex(s, i + n + 1),
{
    lemma_line_runs(s, i, n);
    assert(is_space('\n'));
    assert(is_space(' '));
    assert(lex(s, i) == lex(s, i + n));
    assert(lexeme(s, i + n) == Lexeme::Skip(i + n + 1));
}

/// Blanks count for nothing.
pub proof fn law_blanks_are_skipped(s: Seq<char>, i: int)
    requires
        0 <= i < s.len(),
        s[i] == ' ' || s[i] == '\t' || s[i] == '\n' || s[i] == '\r',
    ensures
        lex(s, i) == lex(s, i + 1),
{
    assert(is_space(s[i]));
}

/// `!=` is `<>`.
pub proof fn law_unequal_is_spelled_two_ways(s: Seq<char>, i: int)
    requires
        0 <= i,
        i + 1 < s.len(),
        s[i] == '!' && s[i + 1] == '=' || s[i] == '<' && s[i + 1] == '>',
    ensures
        lexeme(s, i) == Lexeme::Emit(TokenV::NotEq, i + 2),
{
}

// ---------- variables and errors ----------

/// A variable may have a scope, which stays a part of its name.
pub proof fn law_variables_may_have_a_scope(
    s: Seq<char>,
    i: int,
    scope: Seq<char>,
    name: Seq<char>,
)
    requires
        is_simple_word(scope),
        is_simple_word(name),
        chars_at(s, i, seq!['@', '@'] + scope + seq!['.'] + name),
        i + 3 + scope.len() + name.len() < s.len(),
        s[(i + 3 + scope.len() + name.len()) as int] == ' ',
    ensures
        lexeme(s, i) == Lexeme::Emit(
            TokenV::SystemVariable(scope + seq!['.'] + name),
            (i + 3 + scope.len() + name.len()) as int,
        ),
{
    let w = seq!['@', '@'] + scope + seq!['.'] + name;
    let n = scope.len() as int;
    let m = name.len() as int;
    assert(w[0] == '@' && w[1] == '@');
    assert(s[i + 0] == w[0]);
    assert(s[i + 1] == w[1]);
    assert forall|k: int| i + 2 <= k < i + 2 + n implies word_char(#[trigger] s[k]) by {
        assert(s[i + (k - i)] == w[k - i]);
        assert(w[k - i] == scope[k - i - 2]);
    }
    assert(w[2 + n] == '.');
    assert(s[i + (2 + n)] == w[2 + n]);
    lemma_word_runs(s, i + 2, n);
    assert forall|k: int| i + 3 + n <= k < i + 3 + n + m implies word_char(#[trigger] s[k]) by {
        assert(s[i + (k - i)] == w[k - i]);
        assert(w[k - i] == name[k - i - 3 - n]);
    }
    lemma_word_runs(s, i + 3 + n, m);
    assert(s.subrange(i + 2, i + 3 + n + m) =~= scope + seq!['.'] + name) by {
        let x = scope + seq!['.'] + name;
        assert forall|k: int| 0 <= k < x.len() implies s[i + 2 + k] == x[k] by {
            assert(s[i + (k + 2)] == w[k + 2]);
            assert(w[k + 2] == x[k]);
        }
    }
}

/// A user's own variable is a name that starts with `@`.
pub proof fn law_user_variables_are_names(s: Seq<char>, i: int, name: Seq<char>)
    requires
        is_simple_word(name),
        chars_at(s, i, seq!['@'] + name),
        i + 1 + name.len() < s.len(),
        s[(i + 1 + name.len()) as int] == ' ',
    ensures
        lexeme(s, i) == Lexeme::Emit(
            TokenV::Ident(seq!['@'] + name),
            (i + 1 + name.len()) as int,
        ),
{
    let w = seq!['@'] + name;
    let n = name.len() as int;
    assert(w[0] == '@');
    assert(s[i + 0] == w[0]);
    assert(w[1] == name[0]);
    assert(s[i + 1] == w[1]);
    assert forall|k: int| i + 1 <= k < i + 1 + n implies word_char(#[trigger] s[k]) by {
        assert(s[i + (k - i)] == w[k - i]);
        assert(w[k - i] == name[k - i - 1]);
    }
    lemma_word_runs(s, i + 1, n);
    assert(s.subrange(i, i + 1 + n) =~= w) by {
        assert forall|k: int| 0 <= k < w.len() implies s[i + k] == w[k] by {}
    }
}

proof fn lemma_never_closed(s: Seq<char>, i: int, q: char)
    requires
        0 <= i,
        forall|k: int| i <= k < s.len() ==> #[trigger] s[k] != q,
    ensures
        quoted(s, i, q) is None,
    decreases s.len() - i,
{
    if i < s.len() {
        lemma_never_closed(s, i + 1, q);
    }
}

/// A text in which a quote or a comment is not closed is refused.
pub proof fn law_broken_texts_are_refused(s: Seq<char>, i: int)
    requires
        0 <= i < s.len(),
    ensures
        (s[i] == '\'' || s[i] == '`') && (forall|k: int|
            i < k < s.len() ==> #[trigger] s[k] != s[i]) ==> (lex(s, i) matches Err(ErrorV::Parse(_))),
        i + 1 < s.len() && s[i] == '/' && s[i + 1] == '*' && (forall|k: int|
            i + 2 <= k < s.len() - 1 ==> !(#[trigger] s[k] == '*' && s[k + 1] == '/')) ==> (lex(s, i)
            matches Err(ErrorV::Parse(_))),
{
    if (s[i] == '\'' || s[i] == '`') && (forall|k: int| i < k < s.len() ==> #[trigger] s[k] != s[i]) {
        lemma_never_closed(s, i + 1, s[i]);
    }
    if i + 1 < s.len() && s[i] == '/' && s[i + 1] == '*' && (forall|k: int|
        i + 2 <= k < s.len() - 1 ==> !(#[trigger] s[k] == '*' && s[k + 1] == '/')) {
        lemma_comment_open(s, i + 2);
    }
}

proof fn lemma_comment_open(s: Seq<char>, i: int)
    requires
        0 <= i,
        forall|k: int| i <= k < s.len() - 1 ==> !(#[trigger] s[k] == '*' && s[k + 1] == '/'),
    ensures
        comment_close(s, i) is None,
    decreases s.len() - i,
{
    if i + 1 < s.len() {
        assert(!(s[i] == '*' && s[i + 1] == '/'));
        lemma_comment_open(s, i + 1);
    }
}

} // verus!
