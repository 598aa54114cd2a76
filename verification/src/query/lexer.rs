//! The SQL tokenizer.
use vstd::prelude::*;

use crate::error::{Error, ErrorV};
use crate::seqs::views;
use crate::text::{
    cat2, cat3, cat4, char_is_alphabetic, char_is_numeric, char_is_whitespace, char_text, chars_of,
    decimal, decimal_int, i64_text, is_digit, is_letter, is_space, is_word_char, parsed_i64,
    read_i64, same_text, text_of, to_upper, u64_text, upper,
};

verus! {

broadcast use crate::seqs::group_views;

/// A reserved word.
#[derive(Debug, Clone, Copy, PartialEq, Eq, Structural)]
pub enum Keyword {
    Create,
    Table,
    Insert,
    Into,
    Values,
    Select,
    From,
    Where,
    Null,
    Primary,
    Key,
    Begin,
    Start,
    Transaction,
    Commit,
    Rollback,
    SetWord,
    Use,
    Show,
    As,
    Drop,
}

/// A lexical token.
#[derive(Debug, Clone, PartialEq)]
pub enum Token {
    Keyword(Keyword),
    Ident(String),
    SystemVariable(String),
    Integer(i64),
    Str(String),
    Comma,
    LParen,
    RParen,
    Semicolon,
    Star,
    Eq,
    NotEq,
    Lt,
    Gt,
    Le,
    Ge,
    /// `.`: separates a schema or table qualifier from what follows.
    Dot,
    /// `?`: a prepared-statement parameter placeholder.
    Placeholder,
}

pub ghost enum TokenV {
    Keyword(Keyword),
    Ident(Seq<char>),
    SystemVariable(Seq<char>),
    Integer(i64),
    Str(Seq<char>),
    Comma,
    LParen,
    RParen,
    Semicolon,
    Star,
    Eq,
    NotEq,
    Lt,
    Gt,
    Le,
    Ge,
    Dot,
    Placeholder,
}

impl View for Token {
    type V = TokenV;

    open spec fn view(&self) -> TokenV {
        match self {
            Token::Keyword(k) => TokenV::Keyword(*k),
            Token::Ident(s) => TokenV::Ident(s@),
            Token::SystemVariable(s) => TokenV::SystemVariable(s@),
            Token::Integer(n) => TokenV::Integer(*n),
            Token::Str(s) => TokenV::Str(s@),
            Token::Comma => TokenV::Comma,
            Token::LParen => TokenV::LParen,
            Token::RParen => TokenV::RParen,
            Token::Semicolon => TokenV::Semicolon,
            Token::Star => TokenV::Star,
            Token::Eq => TokenV::Eq,
            Token::NotEq => TokenV::NotEq,
            Token::Lt => TokenV::Lt,
            Token::Gt => TokenV::Gt,
            Token::Le => TokenV::Le,
            Token::Ge => TokenV::Ge,
            Token::Dot => TokenV::Dot,
            Token::Placeholder => TokenV::Placeholder,
        }
    }
}

// ---------- words ----------

/// A keyword as it is written in upper case.
pub open spec fn keyword_spelling(kw: Keyword) -> Seq<char> {
    match kw {
        Keyword::Create => "CREATE"@,
        Keyword::Table => "TABLE"@,
        Keyword::Insert => "INSERT"@,
        Keyword::Into => "INTO"@,
        Keyword::Values => "VALUES"@,
        Keyword::Select => "SELECT"@,
        Keyword::From => "FROM"@,
        Keyword::Where => "WHERE"@,
        Keyword::Null => "NULL"@,
        Keyword::Primary => "PRIMARY"@,
        Keyword::Key => "KEY"@,
        Keyword::Begin => "BEGIN"@,
        Keyword::Start => "START"@,
        Keyword::Transaction => "TRANSACTION"@,
        Keyword::Commit => "COMMIT"@,
        Keyword::Rollback => "ROLLBACK"@,
        Keyword::SetWord => "SET"@,
        Keyword::Use => "USE"@,
        Keyword::Show => "SHOW"@,
        Keyword::As => "AS"@,
        Keyword::Drop => "DROP"@,
    }
}

/// The keyword a word spells, whatever its case.
pub open spec fn keyword_of(word: Seq<char>) -> Option<Keyword> {
    let w = upper(word);
    if w == "CREATE"@ {
        Some(Keyword::Create)
    } else if w == "TABLE"@ {
        Some(Keyword::Table)
    } else if w == "INSERT"@ {
        Some(Keyword::Insert)
    } else if w == "INTO"@ {
        Some(Keyword::Into)
    } else if w == "VALUES"@ {
        Some(Keyword::Values)
    } else if w == "SELECT"@ {
        Some(Keyword::Select)
    } else if w == "FROM"@ {
        Some(Keyword::From)
    } else if w == "WHERE"@ {
        Some(Keyword::Where)
    } else if w == "NULL"@ {
        Some(Keyword::Null)
    } else if w == "PRIMARY"@ {
        Some(Keyword::Primary)
    } else if w == "KEY"@ {
        Some(Keyword::Key)
    } else if w == "BEGIN"@ {
        Some(Keyword::Begin)
    } else if w == "START"@ {
        Some(Keyword::Start)
    } else if w == "TRANSACTION"@ {
        Some(Keyword::Transaction)
    } else if w == "COMMIT"@ {
        Some(Keyword::Commit)
    } else if w == "ROLLBACK"@ {
        Some(Keyword::Rollback)
    } else if w == "SET"@ {
        Some(Keyword::SetWord)
    } else if w == "USE"@ {
        Some(Keyword::Use)
    } else if w == "SHOW"@ {
        Some(Keyword::Show)
    } else if w == "AS"@ {
        Some(Keyword::As)
    } else if w == "DROP"@ {
        Some(Keyword::Drop)
    } else {
        None
    }
}

/// A keyword as it is written in upper case.
pub fn keyword_text(kw: Keyword) -> (r: &'static str)
    ensures
        r@ == keyword_spelling(kw),
{
    match kw {
        Keyword::Create => "CREATE",
        Keyword::Table => "TABLE",
        Keyword::Insert => "INSERT",
        Keyword::Into => "INTO",
        Keyword::Values => "VALUES",
        Keyword::Select => "SELECT",
        Keyword::From => "FROM",
        Keyword::Where => "WHERE",
        Keyword::Null => "NULL",
        Keyword::Primary => "PRIMARY",
        Keyword::Key => "KEY",
        Keyword::Begin => "BEGIN",
        Keyword::Start => "START",
        Keyword::Transaction => "TRANSACTION",
        Keyword::Commit => "COMMIT",
        Keyword::Rollback => "ROLLBACK",
        Keyword::SetWord => "SET",
        Keyword::Use => "USE",
        Keyword::Show => "SHOW",
        Keyword::As => "AS",
        Keyword::Drop => "DROP",
    }
}

/// The keyword `s` spells, whatever its case.
pub fn keyword_from_ident(s: &str) -> (r: Option<Keyword>)
    ensures
        r == keyword_of(s@),
{
    let w = to_upper(s);
    let w = w.as_str();
    if same_text(w, "CREATE") {
        Some(Keyword::Create)
    } else if same_text(w, "TABLE") {
        Some(Keyword::Table)
    } else if same_text(w, "INSERT") {
        Some(Keyword::Insert)
    } else if same_text(w, "INTO") {
        Some(Keyword::Into)
    } else if same_text(w, "VALUES") {
        Some(Keyword::Values)
    } else if same_text(w, "SELECT") {
        Some(Keyword::Select)
    } else if same_text(w, "FROM") {
        Some(Keyword::From)
    } else if same_text(w, "WHERE") {
        Some(Keyword::Where)
    } else if same_text(w, "NULL") {
        Some(Keyword::Null)
    } else if same_text(w, "PRIMARY") {
        Some(Keyword::Primary)
    } else if same_text(w, "KEY") {
        Some(Keyword::Key)
    } else if same_text(w, "BEGIN") {
        Some(Keyword::Begin)
    } else if same_text(w, "START") {
        Some(Keyword::Start)
    } else if same_text(w, "TRANSACTION") {
        Some(Keyword::Transaction)
    } else if same_text(w, "COMMIT") {
        Some(Keyword::Commit)
    } else if same_text(w, "ROLLBACK") {
        Some(Keyword::Rollback)
    } else if same_text(w, "SET") {
        Some(Keyword::SetWord)
    } else if same_text(w, "USE") {
        Some(Keyword::Use)
    } else if same_text(w, "SHOW") {
        Some(Keyword::Show)
    } else if same_text(w, "AS") {
        Some(Keyword::As)
    } else if same_text(w, "DROP") {
        Some(Keyword::Drop)
    } else {
        None
    }
}

// ---------- tokens as text ----------

/// A token as it is shown in an error message.
pub open spec fn token_spelling(t: TokenV) -> Seq<char> {
    match t {
        TokenV::Keyword(k) => keyword_spelling(k),
        TokenV::Ident(s) => s,
        TokenV::SystemVariable(s) => "@@"@ + s,
        TokenV::Integer(n) => decimal_int(n as int),
        TokenV::Str(s) => "'"@ + s + "'"@,
        TokenV::Comma => ","@,
        TokenV::LParen => "("@,
        TokenV::RParen => ")"@,
        TokenV::Semicolon => ";"@,
        TokenV::Star => "*"@,
        TokenV::Eq => "="@,
        TokenV::NotEq => "<>"@,
        TokenV::Lt => "<"@,
        TokenV::Gt => ">"@,
        TokenV::Le => "<="@,
        TokenV::Ge => ">="@,
        TokenV::Dot => "."@,
        TokenV::Placeholder => "?"@,
    }
}

/// What stands at a place in the token stream, for an error message.
pub open spec fn description(t: Option<TokenV>) -> Seq<char> {
    match t {
        None => "end of input"@,
        Some(t) => "'"@ + token_spelling(t) + "'"@,
    }
}

/// A token as it is shown in an error message.
pub fn token_text(token: &Token) -> (r: String)
    ensures
        r@ == token_spelling(token@),
{
    match token {
        Token::Keyword(k) => keyword_text(*k).to_string(),
        Token::Ident(s) => s.clone(),
        Token::SystemVariable(s) => cat2("@@", s.as_str()),
        Token::Integer(n) => i64_text(*n),
        Token::Str(s) => cat3("'", s.as_str(), "'"),
        Token::Comma => ",".to_string(),
        Token::LParen => "(".to_string(),
        Token::RParen => ")".to_string(),
        Token::Semicolon => ";".to_string(),
        Token::Star => "*".to_string(),
        Token::Eq => "=".to_string(),
        Token::NotEq => "<>".to_string(),
        Token::Lt => "<".to_string(),
        Token::Gt => ">".to_string(),
        Token::Le => "<=".to_string(),
        Token::Ge => ">=".to_string(),
        Token::Dot => ".".to_string(),
        Token::Placeholder => "?".to_string(),
    }
}

/// What stands at a place in the token stream, for an error message.
pub fn describe(token: Option<&Token>) -> (r: String)
    ensures
        r@ == description(match token {
            Some(t) => Some(t@),
            None => None,
        }),
{
    match token {
        None => "end of input".to_string(),
        Some(t) => cat3("'", token_text(t).as_str(), "'"),
    }
}

// ---------- lexical structure ----------

/// Whether `s[i]` is `c`.
pub open spec fn at(s: Seq<char>, i: int, c: char) -> bool {
    0 <= i < s.len() && s[i] == c
}

/// Whether `c` may stand in a word.
pub open spec fn word_char(c: char) -> bool {
    is_word_char(c) || c == '_'
}

/// Where the run of word characters from `i` on ends.
pub open spec fn word_end(s: Seq<char>, i: int) -> int
    decreases s.len() - i,
{
    if 0 <= i < s.len() && word_char(s[i]) {
        word_end(s, i + 1)
    } else {
        i
    }
}

/// Where the run of digits from `i` on, but before `limit`, ends.
pub open spec fn digits_end(s: Seq<char>, i: int, limit: int) -> int
    decreases limit - i,
{
    if 0 <= i < limit && i < s.len() && is_digit(s[i]) {
        digits_end(s, i + 1, limit)
    } else {
        i
    }
}

/// Where the line that `i` stands in ends: at its line feed, or at the end.
pub open spec fn line_end(s: Seq<char>, i: int) -> int
    decreases s.len() - i,
{
    if 0 <= i < s.len() && s[i] != '\n' {
        line_end(s, i + 1)
    } else {
        i
    }
}

/// Where the first `*/` at or after `i` begins.
pub open spec fn comment_close(s: Seq<char>, i: int) -> Option<int>
    decreases s.len() - i,
{
    if i < 0 || i + 1 >= s.len() {
        None
    } else if s[i] == '*' && s[i + 1] == '/' {
        Some(i)
    } else {
        comment_close(s, i + 1)
    }
}

/// The text quoted by `q` from `i` on (just past the opening quote), with
/// doubled quotes undone, and the place after the closing quote. `None` when
/// the quote is never closed.
pub open spec fn quoted(s: Seq<char>, i: int, q: char) -> Option<(Seq<char>, int)>
    decreases s.len() - i,
{
    if i < 0 || i >= s.len() {
        None
    } else if s[i] == q && !at(s, i + 1, q) {
        Some((Seq::empty(), i + 1))
    } else {
        let next = if s[i] == q {
            i + 2
        } else {
            i + 1
        };
        match quoted(s, next, q) {
            Some((rest, end)) => Some((seq![s[i]] + rest, end)),
            None => None,
        }
    }
}

/// What the lexer finds at one place.
pub ghost enum Lexeme {
    /// Nothing to keep; go on at the given place.
    Skip(int),
    /// A token; go on at the given place.
    Emit(TokenV, int),
    /// An executable comment: the tokens of `s[from..to]`, then go on at
    /// `next`.
    Unwrap { from: int, to: int, next: int },
    Fail(ErrorV),
}

pub open spec fn unexpected_char(c: char, i: int) -> ErrorV {
    ErrorV::Parse("unexpected character '"@ + seq![c] + "' at position "@ + decimal(i as nat))
}

/// A `/* ... */` comment, plain or executable (`/*! ... */`, optionally with a
/// version number).
pub open spec fn comment_lexeme(s: Seq<char>, i: int) -> Lexeme {
    match comment_close(s, i + 2) {
        None => Lexeme::Fail(
            ErrorV::Parse("unterminated block comment starting at position "@ + decimal(i as nat)),
        ),
        Some(j) => if at(s, i + 2, '!') {
            Lexeme::Unwrap { from: digits_end(s, i + 3, j), to: j, next: j + 2 }
        } else {
            Lexeme::Skip(j + 2)
        },
    }
}

/// An operator made of `<`, `>`, `=` and `!`.
pub open spec fn operator_lexeme(s: Seq<char>, i: int) -> Lexeme {
    if s[i] == '=' {
        Lexeme::Emit(TokenV::Eq, i + 1)
    } else if s[i] == '<' {
        if at(s, i + 1, '=') {
            Lexeme::Emit(TokenV::Le, i + 2)
        } else if at(s, i + 1, '>') {
            Lexeme::Emit(TokenV::NotEq, i + 2)
        } else {
            Lexeme::Emit(TokenV::Lt, i + 1)
        }
    } else if s[i] == '>' {
        if at(s, i + 1, '=') {
            Lexeme::Emit(TokenV::Ge, i + 2)
        } else {
            Lexeme::Emit(TokenV::Gt, i + 1)
        }
    } else if at(s, i + 1, '=') {
        Lexeme::Emit(TokenV::NotEq, i + 2)
    } else {
        Lexeme::Fail(unexpected_char('!', i))
    }
}

/// A `'...'` literal or a backtick-quoted identifier.
pub open spec fn quoted_lexeme(s: Seq<char>, i: int) -> Lexeme {
    match quoted(s, i + 1, s[i]) {
        None => Lexeme::Fail(
            ErrorV::Parse(
                if s[i] == '\'' {
                    "unterminated string literal"@
                } else {
                    "unterminated `identifier`"@
                },
            ),
        ),
        Some((content, end)) => if s[i] == '\'' {
            Lexeme::Emit(TokenV::Str(content), end)
        } else if content.len() == 0 {
            Lexeme::Fail(ErrorV::Parse("empty `` identifier"@))
        } else {
            Lexeme::Emit(TokenV::Ident(content), end)
        },
    }
}

/// A system variable `@@x` or `@@scope.x`, or a user variable `@x`.
pub open spec fn variable_lexeme(s: Seq<char>, i: int) -> Lexeme {
    if at(s, i + 1, '@') {
        let end = word_end(s, i + 2);
        if end == i + 2 {
            Lexeme::Fail(
                ErrorV::Parse(
                    "expected an identifier after '@@' at position "@ + decimal(i as nat),
                ),
            )
        } else if at(s, end, '.') && word_end(s, end + 1) > end + 1 {
            let second = word_end(s, end + 1);
            Lexeme::Emit(TokenV::SystemVariable(s.subrange(i + 2, second)), second)
        } else {
            Lexeme::Emit(TokenV::SystemVariable(s.subrange(i + 2, end)), end)
        }
    } else {
        let end = word_end(s, i + 1);
        Lexeme::Emit(TokenV::Ident(s.subrange(i, end)), end)
    }
}

/// An integer literal, with an optional minus sign.
pub open spec fn number_lexeme(s: Seq<char>, i: int) -> Lexeme {
    let end = digits_end(
        s,
        if s[i] == '-' {
            i + 1
        } else {
            i
        },
        s.len() as int,
    );
    let text = s.subrange(i, end);
    match parsed_i64(text) {
        Some(n) => Lexeme::Emit(TokenV::Integer(n), end),
        None => Lexeme::Fail(
            ErrorV::Parse("integer literal '"@ + text + "' out of range"@),
        ),
    }
}

/// A keyword or a plain identifier.
pub open spec fn word_lexeme(s: Seq<char>, i: int) -> Lexeme {
    let end = word_end(s, i);
    let word = s.subrange(i, end);
    match keyword_of(word) {
        Some(k) => Lexeme::Emit(TokenV::Keyword(k), end),
        None => Lexeme::Emit(TokenV::Ident(word), end),
    }
}

/// The punctuation mark `c` is, if any.
pub open spec fn punctuation(c: char) -> Option<TokenV> {
    if c == ',' {
        Some(TokenV::Comma)
    } else if c == '(' {
        Some(TokenV::LParen)
    } else if c == ')' {
        Some(TokenV::RParen)
    } else if c == ';' {
        Some(TokenV::Semicolon)
    } else if c == '.' {
        Some(TokenV::Dot)
    } else if c == '*' {
        Some(TokenV::Star)
    } else if c == '?' {
        Some(TokenV::Placeholder)
    } else {
        None
    }
}

/// Whether a `-- ` comment starts at `i`: two dashes, then white space or the
/// end of the text.
pub open spec fn dash_comment(s: Seq<char>, i: int) -> bool {
    at(s, i, '-') && at(s, i + 1, '-') && (i + 2 >= s.len() || is_space(s[i + 2]))
}

/// What the lexer finds at `i`.
pub open spec fn lexeme(s: Seq<char>, i: int) -> Lexeme {
    let c = s[i];
    if is_space(c) {
        Lexeme::Skip(i + 1)
    } else if c == '/' && at(s, i + 1, '*') {
        comment_lexeme(s, i)
    } else if c == '#' || dash_comment(s, i) {
        Lexeme::Skip(line_end(s, i))
    } else if punctuation(c) is Some {
        Lexeme::Emit(punctuation(c)->0, i + 1)
    } else if c == '=' || c == '<' || c == '>' || c == '!' {
        operator_lexeme(s, i)
    } else if c == '\'' || c == '`' {
        quoted_lexeme(s, i)
    } else if c == '@' {
        variable_lexeme(s, i)
    } else if is_digit(c) || (c == '-' && i + 1 < s.len() && is_digit(s[i + 1])) {
        number_lexeme(s, i)
    } else if is_letter(c) || c == '_' {
        word_lexeme(s, i)
    } else {
        Lexeme::Fail(unexpected_char(c, i))
    }
}

proof fn lemma_word_end(s: Seq<char>, i: int)
    requires
        0 <= i <= s.len(),
    ensures
        i <= word_end(s, i) <= s.len(),
        i < s.len() && word_char(s[i]) ==> i < word_end(s, i),
    decreases s.len() - i,
{
    if i < s.len() && word_char(s[i]) {
        lemma_word_end(s, i + 1);
    }
}

proof fn lemma_digits_end(s: Seq<char>, i: int, limit: int)
    requires
        0 <= i <= limit <= s.len(),
    ensures
        i <= digits_end(s, i, limit) <= limit,
        i < limit && is_digit(s[i]) ==> i < digits_end(s, i, limit),
    decreases limit - i,
{
    if i < limit && is_digit(s[i]) {
        lemma_digits_end(s, i + 1, limit);
    }
}

proof fn lemma_line_end(s: Seq<char>, i: int)
    requires
        0 <= i <= s.len(),
    ensures
        i <= line_end(s, i) <= s.len(),
        i < s.len() && s[i] != '\n' ==> i < line_end(s, i),
    decreases s.len() - i,
{
    if i < s.len() && s[i] != '\n' {
        lemma_line_end(s, i + 1);
    }
}

proof fn lemma_comment_close(s: Seq<char>, i: int)
    requires
        0 <= i,
    ensures
        comment_close(s, i) matches Some(j) ==> i <= j && j + 1 < s.len() && s[j] == '*' && s[j + 1]
            == '/',
    decreases s.len() - i,
{
    if i + 1 < s.len() && !(s[i] == '*' && s[i + 1] == '/') {
        lemma_comment_close(s, i + 1);
    }
}

proof fn lemma_quoted(s: Seq<char>, i: int, q: char)
    requires
        0 <= i <= s.len(),
    ensures
        quoted(s, i, q) matches Some((_, end)) ==> i < end <= s.len(),
    decreases s.len() - i,
{
    if i < s.len() && !(s[i] == q && !at(s, i + 1, q)) {
        let next = if s[i] == q {
            i + 2
        } else {
            i + 1
        };
        lemma_quoted(s, next, q);
    }
}

/// The lexer always moves forward and never past the end.
pub proof fn lemma_lexeme_advances(s: Seq<char>, i: int)
    requires
        0 <= i < s.len(),
    ensures
        match lexeme(s, i) {
            Lexeme::Skip(next) => i < next <= s.len(),
            Lexeme::Emit(_, next) => i < next <= s.len(),
            Lexeme::Unwrap { from, to, next } => i < from <= to < next <= s.len(),
            Lexeme::Fail(_) => true,
        },
{
    lemma_line_end(s, i);
    lemma_word_end(s, i);
    lemma_word_end(s, i + 1);
    lemma_comment_close(s, i + 2);
    lemma_quoted(s, i + 1, s[i]);
    lemma_digits_end(s, i, s.len() as int);
    lemma_digits_end(s, i + 1, s.len() as int);
    if at(s, i + 1, '@') {
        lemma_word_end(s, i + 2);
        if at(s, word_end(s, i + 2), '.') {
            lemma_word_end(s, word_end(s, i + 2) + 1);
        }
    }
    match comment_close(s, i + 2) {
        Some(j) => {
            if at(s, i + 2, '!') {
                lemma_digits_end(s, i + 3, j);
            }
        },
        None => {},
    }
}

/// The tokens of `s` from `i` on, or the first lexical error.
pub open spec fn lex(s: Seq<char>, i: int) -> Result<Seq<TokenV>, ErrorV>
    decreases s.len(), s.len() - i,
{
    if i < 0 || i >= s.len() {
        Ok(Seq::empty())
    } else {
        proof {
            lemma_lexeme_advances(s, i);
        }
        match lexeme(s, i) {
            Lexeme::Skip(next) => lex(s, next),
            Lexeme::Emit(t, next) => prepend(seq![t], lex(s, next)),
            Lexeme::Unwrap { from, to, next } => match lex(s.subrange(from, to), 0) {
                Ok(inner) => prepend(inner, lex(s, next)),
                Err(e) => Err(e),
            },
            Lexeme::Fail(e) => Err(e),
        }
    }
}

/// `r` with `ts` in front of its tokens.
pub open spec fn prepend(
    ts: Seq<TokenV>,
    r: Result<Seq<TokenV>, ErrorV>,
) -> Result<Seq<TokenV>, ErrorV> {
    match r {
        Ok(rest) => Ok(ts + rest),
        Err(e) => Err(e),
    }
}

// ---------- scanning ----------

fn is_at(chars: &[char], i: usize, c: char) -> (r: bool)
    ensures
        r == at(chars@, i as int, c),
{
    i < chars.len() && chars[i] == c
}

fn scan_word(chars: &[char], start: usize) -> (r: usize)
    requires
        start <= chars@.len(),
    ensures
        r == word_end(chars@, start as int),
        start <= r <= chars@.len(),
{
    let mut n: usize = start;
    while n < chars.len() && (char_is_alphabetic(chars[n]) || char_is_numeric(chars[n]) || chars[n]
        == '_')
        invariant
            start <= n <= chars@.len(),
            word_end(chars@, start as int) == word_end(chars@, n as int),
        decreases chars@.len() - n,
    {
        n = n + 1;
    }
    n
}

fn scan_digits(chars: &[char], start: usize, limit: usize) -> (r: usize)
    requires
        start <= limit <= chars@.len(),
    ensures
        r == digits_end(chars@, start as int, limit as int),
        start <= r <= limit,
{
    let mut n: usize = start;
    while n < limit && '0' <= chars[n] && chars[n] <= '9'
        invariant
            start <= n <= limit <= chars@.len(),
            digits_end(chars@, start as int, limit as int) == digits_end(
                chars@,
                n as int,
                limit as int,
            ),
        decreases limit - n,
    {
        n = n + 1;
    }
    n
}

fn scan_line(chars: &[char], start: usize) -> (r: usize)
    requires
        start <= chars@.len(),
    ensures
        r == line_end(chars@, start as int),
        start <= r <= chars@.len(),
{
    let mut n: usize = start;
    while n < chars.len() && chars[n] != '\n'
        invariant
            start <= n <= chars@.len(),
            line_end(chars@, start as int) == line_end(chars@, n as int),
        decreases chars@.len() - n,
    {
        n = n + 1;
    }
    n
}

fn scan_comment_close(chars: &[char], start: usize) -> (r: Option<usize>)
    requires
        start <= chars@.len(),
    ensures
        match r {
            Some(j) => comment_close(chars@, start as int) == Some(j as int) && start <= j && j + 1
                < chars@.len(),
            None => comment_close(chars@, start as int) is None,
        },
{
    let mut j: usize = start;
    while j < chars.len() && chars.len() - j > 1
        invariant
            start <= j <= chars@.len(),
            comment_close(chars@, start as int) == comment_close(chars@, j as int),
        decreases chars@.len() - j,
    {
        if chars[j] == '*' && chars[j + 1] == '/' {
            return Some(j);
        }
        j = j + 1;
    }
    None
}

/// `s` with `content` in front of what it quotes.
pub open spec fn quoted_after(content: Seq<char>, r: Option<(Seq<char>, int)>) -> Option<
    (Seq<char>, int),
> {
    match r {
        Some((rest, end)) => Some((content + rest, end)),
        None => None,
    }
}

/// Scan a quoted text whose opening quote `q` stands just before `start`; a
/// doubled quote inside is one literal quote.
fn scan_quoted(chars: &[char], start: usize, q: char) -> (r: Option<(String, usize)>)
    requires
        start <= chars@.len(),
    ensures
        match r {
            Some((s, end)) => quoted(chars@, start as int, q) == Some((s@, end as int)) && start
                < end <= chars@.len(),
            None => quoted(chars@, start as int, q) is None,
        },
{
    let mut n: usize = start;
    let mut s = String::new();
    proof {
        lemma_quoted(chars@, start as int, q);
        let whole = quoted(chars@, start as int, q);
        assert(quoted_after(s@, whole) == whole) by {
            match whole {
                Some((rest, end)) => assert(s@ + rest =~= rest),
                None => {},
            }
        }
    }
    while n < chars.len()
        invariant
            start <= n <= chars@.len(),
            quoted(chars@, start as int, q) == quoted_after(s@, quoted(chars@, n as int, q)),
            quoted(chars@, start as int, q) matches Some((_, end)) ==> start < end <= chars@.len(),
        decreases chars@.len() - n,
    {
        let c = chars[n];
        let doubled = is_at(chars, n + 1, q);
        if c == q && !doubled {
            proof {
                assert(s@ + Seq::<char>::empty() =~= s@);
            }
            return Some((s, n + 1));
        }
        let next: usize = if c == q {
            n + 2
        } else {
            n + 1
        };
        proof {
            match quoted(chars@, next as int, q) {
                Some((rest, end)) => assert(s@ + (seq![c] + rest) =~= s@.push(c) + rest),
                None => {},
            }
        }
        s.push(c);
        n = next;
    }
    None
}

fn unexpected(c: char, i: usize) -> (r: Error)
    ensures
        r@ == unexpected_char(c, i as int),
{
    Error::Parse(
        cat4(
            "unexpected character '",
            char_text(c).as_str(),
            "' at position ",
            u64_text(i as u64).as_str(),
        ),
    )
}

/// What one step of the lexer yields.
enum Found {
    Skip(usize),
    Emit(Token, usize),
    Unwrap(usize, usize, usize),
}

/// Whether a lexer step is the lexeme at hand.
spec fn is_lexeme(r: Result<Found, Error>, l: Lexeme) -> bool {
    match r {
        Ok(Found::Skip(n)) => l == Lexeme::Skip(n as int),
        Ok(Found::Emit(t, n)) => l == Lexeme::Emit(t@, n as int),
        Ok(Found::Unwrap(a, b, n)) => l == (Lexeme::Unwrap {
            from: a as int,
            to: b as int,
            next: n as int,
        }),
        Err(e) => l == Lexeme::Fail(e@),
    }
}

fn read_comment(chars: &[char], i: usize) -> (r: Result<Found, Error>)
    requires
        at(chars@, i as int, '/'),
        at(chars@, i + 1, '*'),
    ensures
        is_lexeme(r, comment_lexeme(chars@, i as int)),
{
    let _len: usize = chars.len();
    proof {
        lemma_comment_close(chars@, i + 2);
    }
    match scan_comment_close(chars, i + 2) {
        None => Err(
            Error::Parse(
                cat2(
                    "unterminated block comment starting at position ",
                    u64_text(i as u64).as_str(),
                ),
            ),
        ),
        Some(j) => {
            if is_at(chars, i + 2, '!') {
                Ok(Found::Unwrap(scan_digits(chars, i + 3, j), j, j + 2))
            } else {
                Ok(Found::Skip(j + 2))
            }
        },
    }
}

fn read_operator(chars: &[char], i: usize) -> (r: Result<Found, Error>)
    requires
        i < chars@.len(),
        chars@[i as int] == '=' || chars@[i as int] == '<' || chars@[i as int] == '>'
            || chars@[i as int] == '!',
    ensures
        is_lexeme(r, operator_lexeme(chars@, i as int)),
{
    let c = chars[i];
    if c == '=' {
        Ok(Found::Emit(Token::Eq, i + 1))
    } else if c == '<' {
        if is_at(chars, i + 1, '=') {
            Ok(Found::Emit(Token::Le, i + 2))
        } else if is_at(chars, i + 1, '>') {
            Ok(Found::Emit(Token::NotEq, i + 2))
        } else {
            Ok(Found::Emit(Token::Lt, i + 1))
        }
    } else if c == '>' {
        if is_at(chars, i + 1, '=') {
            Ok(Found::Emit(Token::Ge, i + 2))
        } else {
            Ok(Found::Emit(Token::Gt, i + 1))
        }
    } else if is_at(chars, i + 1, '=') {
        Ok(Found::Emit(Token::NotEq, i + 2))
    } else {
        Err(unexpected('!', i))
    }
}

fn read_quoted(chars: &[char], i: usize) -> (r: Result<Found, Error>)
    requires
        i < chars@.len(),
    ensures
        is_lexeme(r, quoted_lexeme(chars@, i as int)),
{
    let q = chars[i];
    match scan_quoted(chars, i + 1, q) {
        None => Err(
            Error::Parse(
                if q == '\'' {
                    "unterminated string literal".to_string()
                } else {
                    "unterminated `identifier`".to_string()
                },
            ),
        ),
        Some((content, end)) => {
            if q == '\'' {
                Ok(Found::Emit(Token::Str(content), end))
            } else if content.as_str().is_empty() {
                Err(Error::Parse("empty `` identifier".to_string()))
            } else {
                Ok(Found::Emit(Token::Ident(content), end))
            }
        },
    }
}

fn read_variable(chars: &[char], i: usize) -> (r: Result<Found, Error>)
    requires
        i < chars@.len(),
    ensures
        is_lexeme(r, variable_lexeme(chars@, i as int)),
{
    let _len: usize = chars.len();
    if is_at(chars, i + 1, '@') {
        let end: usize = scan_word(chars, i + 2);
        if end == i + 2 {
            return Err(
                Error::Parse(
                    cat2(
                        "expected an identifier after '@@' at position ",
                        u64_text(i as u64).as_str(),
                    ),
                ),
            );
        }
        if is_at(chars, end, '.') {
            let second: usize = scan_word(chars, end + 1);
            if second > end + 1 {
                return Ok(
                    Found::Emit(Token::SystemVariable(text_of(chars, i + 2, second)), second),
                );
            }
        }
        Ok(Found::Emit(Token::SystemVariable(text_of(chars, i + 2, end)), end))
    } else {
        let end: usize = scan_word(chars, i + 1);
        Ok(Found::Emit(Token::Ident(text_of(chars, i, end)), end))
    }
}

fn read_number(chars: &[char], i: usize) -> (r: Result<Found, Error>)
    requires
        i < chars@.len(),
    ensures
        is_lexeme(r, number_lexeme(chars@, i as int)),
{
    let first: usize = if chars[i] == '-' {
        i + 1
    } else {
        i
    };
    let end: usize = scan_digits(chars, first, chars.len());
    match read_i64(chars, i, end) {
        Some(n) => Ok(Found::Emit(Token::Integer(n), end)),
        None => Err(
            Error::Parse(
                cat3("integer literal '", text_of(chars, i, end).as_str(), "' out of range"),
            ),
        ),
    }
}

fn read_word(chars: &[char], i: usize) -> (r: Result<Found, Error>)
    requires
        i < chars@.len(),
    ensures
        is_lexeme(r, word_lexeme(chars@, i as int)),
{
    let end: usize = scan_word(chars, i);
    let word = text_of(chars, i, end);
    match keyword_from_ident(word.as_str()) {
        Some(k) => Ok(Found::Emit(Token::Keyword(k), end)),
        None => Ok(Found::Emit(Token::Ident(word), end)),
    }
}

fn read_punctuation(c: char) -> (r: Option<Token>)
    ensures
        match r {
            Some(t) => punctuation(c) == Some(t@),
            None => punctuation(c) is None,
        },
{
    match c {
        ',' => Some(Token::Comma),
        '(' => Some(Token::LParen),
        ')' => Some(Token::RParen),
        ';' => Some(Token::Semicolon),
        '.' => Some(Token::Dot),
        '*' => Some(Token::Star),
        '?' => Some(Token::Placeholder),
        _ => None,
    }
}

/// Find what stands at `i`.
fn read_lexeme(chars: &[char], i: usize) -> (r: Result<Found, Error>)
    requires
        i < chars@.len(),
    ensures
        is_lexeme(r, lexeme(chars@, i as int)),
{
    let c = chars[i];
    if char_is_whitespace(c) {
        return Ok(Found::Skip(i + 1));
    }
    if c == '/' && is_at(chars, i + 1, '*') {
        return read_comment(chars, i);
    }
    if c == '#' || (c == '-' && is_at(chars, i + 1, '-') && (chars.len() - i <= 2
        || char_is_whitespace(chars[i + 2]))) {
        return Ok(Found::Skip(scan_line(chars, i)));
    }
    if let Some(t) = read_punctuation(c) {
        return Ok(Found::Emit(t, i + 1));
    }
    if c == '=' || c == '<' || c == '>' || c == '!' {
        read_operator(chars, i)
    } else if c == '\'' || c == '`' {
        read_quoted(chars, i)
    } else if c == '@' {
        read_variable(chars, i)
    } else if ('0' <= c && c <= '9') || (c == '-' && chars.len() - i > 1 && '0' <= chars[i + 1]
        && chars[i + 1] <= '9') {
        read_number(chars, i)
    } else if char_is_alphabetic(c) || c == '_' {
        read_word(chars, i)
    } else {
        Err(unexpected(c, i))
    }
}

/// Append the tokens of `chars` to `tokens`.
fn tokenize_into(chars: &[char], tokens: &mut Vec<Token>) -> (r: Result<(), Error>)
    ensures
        match r {
            Ok(()) => match lex(chars@, 0) {
                Ok(ts) => views(final(tokens)@) == views(old(tokens)@) + ts,
                Err(_) => false,
            },
            Err(e) => lex(chars@, 0) == Err::<Seq<TokenV>, ErrorV>(e@),
        },
    decreases chars@.len(),
{
    let ghost before = views(tokens@);
    let ghost mut own: Seq<TokenV> = Seq::empty();
    let mut i: usize = 0;
    proof {
        assert(prepend(own, lex(chars@, 0)) == lex(chars@, 0)) by {
            match lex(chars@, 0) {
                Ok(rest) => assert(own + rest =~= rest),
                Err(_) => {},
            }
        }
        assert(before + own =~= before);
    }
    while i < chars.len()
        invariant
            i <= chars@.len(),
            views(tokens@) == before + own,
            lex(chars@, 0) == prepend(own, lex(chars@, i as int)),
        decreases chars@.len() - i,
    {
        proof {
            lemma_lexeme_advances(chars@, i as int);
        }
        match read_lexeme(chars, i) {
            Err(e) => {
                return Err(e);
            },
            Ok(Found::Skip(next)) => {
                i = next;
            },
            Ok(Found::Emit(t, next)) => {
                proof {
                    assert((before + own).push(t@) =~= before + (own + seq![t@]));
                    match lex(chars@, next as int) {
                        Ok(rest) => assert(own + (seq![t@] + rest) =~= (own + seq![t@]) + rest),
                        Err(_) => {},
                    }
                    own = own + seq![t@];
                }
                tokens.push(t);
                i = next;
            },
            Ok(Found::Unwrap(from, to, next)) => {
                let inner = vstd::slice::slice_subrange(chars, from, to);
                match tokenize_into(inner, tokens) {
                    Err(e) => {
                        return Err(e);
                    },
                    Ok(()) => {},
                }
                proof {
                    let ts = lex(inner@, 0)->Ok_0;
                    assert((before + own) + ts =~= before + (own + ts));
                    match lex(chars@, next as int) {
                        Ok(rest) => assert(own + (ts + rest) =~= (own + ts) + rest),
                        Err(_) => {},
                    }
                    own = own + ts;
                }
                i = next;
            },
        }
    }
    proof {
        assert(own + Seq::<TokenV>::empty() =~= own);
    }
    Ok(())
}

/// Split SQL text into tokens. Comments are dropped, except that the inside of
/// an executable comment (`/*! ... */`) is tokenized like the rest.
pub fn tokenize(sql: &str) -> (r: Result<Vec<Token>, Error>)
    ensures
        match r {
            Ok(ts) => lex(sql@, 0) == Ok::<Seq<TokenV>, ErrorV>(views(ts@)),
            Err(e) => lex(sql@, 0) == Err::<Seq<TokenV>, ErrorV>(e@),
        },
{
    let chars = chars_of(sql);
    let mut tokens: Vec<Token> = Vec::new();
    match tokenize_into(chars.as_slice(), &mut tokens) {
        Ok(()) => {
            proof {
                let ts = lex(sql@, 0)->Ok_0;
                assert(Seq::<TokenV>::empty() + ts =~= ts);
            }
            Ok(tokens)
        },
        Err(e) => Err(e),
    }
}

} // verus!
