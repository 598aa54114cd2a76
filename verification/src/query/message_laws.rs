//! What error messages tell.
use vstd::prelude::*;

use crate::error::ErrorV;
use crate::query::ast::ShowStatementV;
use crate::query::eval::incorrect_integer;
use crate::query::grammar::expected;
use crate::query::lexer::{description, keyword_spelling, token_spelling, TokenV};
use crate::query::semantics::{
    misplaced_counter, no_default, not_a_column, not_in_field_list, null_column, null_key, show,
    unknown_column, unknown_type,
};
use crate::query::spelling_laws::{keyword_letters, spelling};
use crate::query::variables::{known, SystemVariablesV};
use crate::storage::model::{
    database_exists, duplicate_key, no_such_database, no_such_table, table_exists, undefined_key,
    StoreV,
};
use crate::storage::value::{incorrect_date, incorrect_decimal, out_of_range, ColumnType, ValueV};

verus! {

/// A token is shown as it is written; a name without the quotes that it may
/// need, and a literal with its quotes as they are.
pub proof fn law_tokens_are_shown_as_written(t: TokenV)
    ensures
        match t {
            TokenV::Ident(s) => token_spelling(t) == s,
            TokenV::Str(s) => token_spelling(t) == seq!['\''] + s + seq!['\''],
            _ => token_spelling(t) == spelling(t),
        },
{
    match t {
        TokenV::Keyword(k) => {
            lemma_keyword_shown(k);
        },
        TokenV::SystemVariable(_) => {
            reveal_strlit("@@");
            assert("@@"@ =~= seq!['@', '@']);
        },
        TokenV::Str(_) => {
            reveal_strlit("'");
            assert("'"@ =~= seq!['\'']);
        },
        _ => {
            lemma_marks_shown();
        },
    }
}

proof fn lemma_keyword_shown(k: crate::query::lexer::Keyword)
    ensures
        keyword_spelling(k) == keyword_letters(k),
{
    crate::query::spelling_laws::lemma_keyword_texts();
}

proof fn lemma_marks_shown()
    ensures
        ","@ == seq![','] && "("@ == seq!['('] && ")"@ == seq![')'] && ";"@ == seq![';'] && "*"@
            == seq!['*'] && "="@ == seq!['='],
        "<>"@ == seq!['<', '>'] && "<"@ == seq!['<'] && ">"@ == seq!['>'] && "<="@ == seq!['<', '=']
            && ">="@ == seq!['>', '='] && "."@ == seq!['.'] && "?"@ == seq!['?'],
{
    reveal_strlit(",");
    reveal_strlit("(");
    reveal_strlit(")");
    reveal_strlit(";");
    reveal_strlit("*");
    reveal_strlit("=");
    reveal_strlit("<>");
    reveal_strlit("<");
    reveal_strlit(">");
    reveal_strlit("<=");
    reveal_strlit(">=");
    reveal_strlit(".");
    reveal_strlit("?");
    assert(","@ =~= seq![',']);
    assert("("@ =~= seq!['(']);
    assert(")"@ =~= seq![')']);
    assert(";"@ =~= seq![';']);
    assert("*"@ =~= seq!['*']);
    assert("="@ =~= seq!['=']);
    assert("<>"@ =~= seq!['<', '>']);
    assert("<"@ =~= seq!['<']);
    assert(">"@ =~= seq!['>']);
    assert("<="@ =~= seq!['<', '=']);
    assert(">="@ =~= seq!['>', '=']);
    assert("."@ =~= seq!['.']);
    assert("?"@ =~= seq!['?']);
}

/// Whether a text tells of `name`, in single quotes.
pub open spec fn tells_of(m: Seq<char>, name: Seq<char>) -> bool {
    exists|i: int|
        {
            &&& 0 < i
            &&& i + name.len() < m.len()
            &&& #[trigger] m.subrange(i, i + name.len()) == name
            &&& m[i - 1] == '\''
            &&& m[(i + name.len()) as int] == '\''
        }
}

/// Whether an error comes from running a statement and tells of `name`.
pub open spec fn execution_tells_of(e: ErrorV, name: Seq<char>) -> bool {
    e matches ErrorV::Execution(m) && tells_of(m, name)
}

pub proof fn lemma_tells(a: Seq<char>, name: Seq<char>, b: Seq<char>)
    requires
        a.len() > 0,
        a.last() == '\'',
        b.len() > 0,
        b[0] == '\'',
    ensures
        tells_of(a + name + b, name),
{
    let m = a + name + b;
    let i = a.len() as int;
    assert(m.subrange(i, i + name.len()) =~= name);
    assert(m[i - 1] == a[i - 1]);
    assert(m[(i + name.len()) as int] == b[0]);
}

proof fn lemma_tells_more(m: Seq<char>, more: Seq<char>, name: Seq<char>)
    requires
        tells_of(m, name),
    ensures
        tells_of(m + more, name),
{
    let i = choose|i: int|
        {
            &&& 0 < i
            &&& i + name.len() < m.len()
            &&& #[trigger] m.subrange(i, i + name.len()) == name
            &&& m[i - 1] == '\''
            &&& m[(i + name.len()) as int] == '\''
        };
    let all = m + more;
    assert(all.subrange(i, i + name.len()) =~= m.subrange(i, i + name.len()));
    assert(all[i - 1] == m[i - 1]);
}

/// Errors about a table tell of the table.
pub proof fn law_errors_tell_of_the_table(name: Seq<char>)
    ensures
        execution_tells_of(no_such_table(name), name),
        execution_tells_of(table_exists(name), name),
        execution_tells_of(database_exists(name), name),
        execution_tells_of(no_such_database(name), name),
{
    reveal_strlit("Table '");
    reveal_strlit("' doesn't exist");
    reveal_strlit("' already exists");
    reveal_strlit("Can't create database '");
    reveal_strlit("'; database exists");
    reveal_strlit("Can't drop database '");
    reveal_strlit("'; database doesn't exist");
    lemma_tells("Table '"@, name, "' doesn't exist"@);
    lemma_tells("Table '"@, name, "' already exists"@);
    lemma_tells("Can't create database '"@, name, "'; database exists"@);
    lemma_tells("Can't drop database '"@, name, "'; database doesn't exist"@);
}

/// Errors about a column tell of the column.
pub proof fn law_errors_tell_of_the_column(name: Seq<char>)
    ensures
        execution_tells_of(not_a_column(name), name),
        execution_tells_of(no_default(name), name),
        execution_tells_of(null_key(name), name),
        execution_tells_of(null_column(name), name),
        execution_tells_of(not_in_field_list(name), name),
        execution_tells_of(unknown_column(name), name),
        execution_tells_of(misplaced_counter(name), name),
        execution_tells_of(undefined_key(name), name),
        execution_tells_of(out_of_range(name), name),
{
    reveal_strlit("Unknown column '");
    reveal_strlit("' in field list");
    reveal_strlit("Column '");
    reveal_strlit("' has no default value and was not given a value");
    reveal_strlit("' cannot be NULL (primary key)");
    reveal_strlit("' cannot be NULL");
    reveal_strlit("' in 'field list'");
    reveal_strlit("'");
    reveal_strlit("AUTO_INCREMENT column '");
    reveal_strlit("' must be the primary key");
    reveal_strlit("Primary key column '");
    reveal_strlit("' is not defined");
    reveal_strlit("decimal value out of range for column '");
    lemma_tells("Unknown column '"@, name, "' in field list"@);
    lemma_tells("Column '"@, name, "' has no default value and was not given a value"@);
    lemma_tells("Column '"@, name, "' cannot be NULL (primary key)"@);
    lemma_tells("Column '"@, name, "' cannot be NULL"@);
    lemma_tells("Unknown column '"@, name, "' in 'field list'"@);
    lemma_tells("Unknown column '"@, name, "'"@);
    lemma_tells("AUTO_INCREMENT column '"@, name, "' must be the primary key"@);
    lemma_tells("Primary key column '"@, name, "' is not defined"@);
    lemma_tells("decimal value out of range for column '"@, name, "'"@);
}

/// Errors about a value tell of the value and of its column, and those about a
/// primary key of the key.
pub proof fn law_errors_tell_of_the_value(s: Seq<char>, column: Seq<char>, key: ValueV)
    ensures
        execution_tells_of(incorrect_integer(s, column), s),
        execution_tells_of(incorrect_integer(s, column), column),
        execution_tells_of(incorrect_decimal(s, column), s),
        execution_tells_of(incorrect_decimal(s, column), column),
        execution_tells_of(incorrect_date(s, column), s),
        execution_tells_of(incorrect_date(s, column), column),
        execution_tells_of(unknown_type(s, column), s),
        execution_tells_of(unknown_type(s, column), column),
        execution_tells_of(duplicate_key(key), key.shown()),
{
    reveal_strlit("Incorrect integer value: '");
    reveal_strlit("Incorrect decimal value: '");
    reveal_strlit("Incorrect date value: '");
    reveal_strlit("Unknown column type '");
    reveal_strlit("' for column '");
    reveal_strlit("Duplicate entry '");
    reveal_strlit("' for key 'PRIMARY'");
    reveal_strlit("'");
    let mid = "' for column '"@;
    let end = "'"@;
    lemma_value_and_column("Incorrect integer value: '"@, s, mid, column, end);
    lemma_value_and_column("Incorrect decimal value: '"@, s, mid, column, end);
    lemma_value_and_column("Incorrect date value: '"@, s, mid, column, end);
    lemma_value_and_column("Unknown column type '"@, s, mid, column, end);
    lemma_tells("Duplicate entry '"@, key.shown(), "' for key 'PRIMARY'"@);
}

proof fn lemma_value_and_column(
    a: Seq<char>,
    s: Seq<char>,
    mid: Seq<char>,
    column: Seq<char>,
    end: Seq<char>,
)
    requires
        a.len() > 0,
        a.last() == '\'',
        mid.len() > 0,
        mid[0] == '\'',
        mid.last() == '\'',
        end.len() > 0,
        end[0] == '\'',
    ensures
        tells_of(a + s + mid + column + end, s),
        tells_of(a + s + mid + column + end, column),
{
    lemma_tells(a, s, mid);
    lemma_tells_more(a + s + mid, column, s);
    lemma_tells_more(a + s + mid + column, end, s);
    assert((a + s + mid).last() == mid.last());
    lemma_tells(a + s + mid, column, end);
}

/// A parse error tells what was wanted and what was found in its place.
pub proof fn law_parse_errors_tell_what_was_found(what: Seq<char>, t: TokenV)
    ensures
        expected(what, Some(t)) matches ErrorV::Parse(m) && tells_of(m, token_spelling(t))
            && m.subrange(9, 9int + what.len()) == what,
        expected(what, None) matches ErrorV::Parse(m) && m.subrange(9, 9int + what.len()) == what
            && m.len() == 9 + what.len() + 8 + description(None).len(),
{
    reveal_strlit("expected ");
    reveal_strlit(", found ");
    reveal_strlit("'");
    let head = "expected "@ + what + ", found "@;
    let name = token_spelling(t);
    let q = "'"@;
    lemma_tells(head + q, name, q);
    let m = head + (q + name + q);
    assert(m =~= head + q + name + q);
    assert(m.subrange(9, 9int + what.len()) =~= what);
    let n = head + description(None);
    assert(n.subrange(9, 9int + what.len()) =~= what);
}

// ---------- headings and settings ----------

/// Whether a listing has one column of texts with this heading.
pub open spec fn headed(
    r: crate::query::semantics::QueryResultV,
    i: int,
    heading: Seq<char>,
) -> bool {
    0 <= i < r.columns.len() && r.columns[i].name == heading && r.columns[i].column_type
        == ColumnType::Varchar && r.columns[i].nullable && !r.columns[i].auto_increment
}

/// Listings have the headings that MySQL gives them, and a listing of warnings
/// is empty. What is not modelled returns nothing.
pub proof fn law_listings_have_headings(s: StoreV, v: SystemVariablesV, like: Option<Seq<char>>)
    ensures
        ({
            let databases = show(s, v, ShowStatementV::Databases);
            let tables = show(s, v, ShowStatementV::Tables);
            let warnings = show(s, v, ShowStatementV::Warnings);
            let variables = show(s, v, ShowStatementV::Variables { like });
            let other = show(s, v, ShowStatementV::Other);
            &&& databases.columns.len() == 1 && headed(databases, 0, "Database"@)
            &&& tables.columns.len() == 1 && headed(tables, 0, "Tables_in_mysql_rust"@)
            &&& warnings.columns.len() == 3 && headed(warnings, 0, "Level"@) && headed(
                warnings,
                1,
                "Code"@,
            ) && headed(warnings, 2, "Message"@) && warnings.rows.len() == 0
            &&& variables.columns.len() == 2 && headed(variables, 0, "Variable_name"@) && headed(
                variables,
                1,
                "Value"@,
            )
            &&& other.columns.len() == 0 && other.rows.len() == 0 && other.affected == 0
        }),
{
}

/// Whether a variable is reported with this value.
pub open spec fn reports(v: SystemVariablesV, name: Seq<char>, value: ValueV) -> bool {
    known(v).contains((name, value))
}

/// The settings that are reported fit the server: texts are UTF-8 throughout,
/// transactions see what is committed, under both names of that setting, and
/// can write, tables are called by their names as written, and time is UTC.
pub proof fn law_settings_fit_the_server(v: SystemVariablesV)
    ensures
        reports(v, "character_set_client"@, ValueV::Varchar("utf8mb4"@)),
        reports(v, "character_set_connection"@, ValueV::Varchar("utf8mb4"@)),
        reports(v, "character_set_results"@, ValueV::Varchar("utf8mb4"@)),
        reports(v, "character_set_server"@, ValueV::Varchar("utf8mb4"@)),
        reports(v, "collation_server"@, ValueV::Varchar("utf8mb4_general_ci"@)),
        reports(v, "collation_connection"@, ValueV::Varchar("utf8mb4_general_ci"@)),
        reports(v, "transaction_isolation"@, ValueV::Varchar("READ-COMMITTED"@)),
        reports(v, "tx_isolation"@, ValueV::Varchar("READ-COMMITTED"@)),
        reports(v, "transaction_read_only"@, ValueV::Int(0)),
        reports(v, "auto_increment_increment"@, ValueV::Int(1)),
        reports(v, "lower_case_table_names"@, ValueV::Int(0)),
        reports(v, "system_time_zone"@, ValueV::Varchar("UTC"@)),
        reports(v, "time_zone"@, ValueV::Varchar("SYSTEM"@)),
        reports(v, "net_write_timeout"@, ValueV::Int(60)),
        reports(v, "net_read_timeout"@, ValueV::Int(30)),
        reports(v, "sql_mode"@, ValueV::Varchar(""@)),
        reports(v, "query_cache_size"@, ValueV::Int(0)),
        reports(v, "socket"@, ValueV::Null),
{
    let k = known(v);
    assert(k[9] == ("character_set_client"@, ValueV::Varchar("utf8mb4"@)));
    assert(k[10] == ("character_set_connection"@, ValueV::Varchar("utf8mb4"@)));
    assert(k[11] == ("character_set_results"@, ValueV::Varchar("utf8mb4"@)));
    assert(k[12] == ("character_set_server"@, ValueV::Varchar("utf8mb4"@)));
    assert(k[13] == ("collation_server"@, ValueV::Varchar("utf8mb4_general_ci"@)));
    assert(k[14] == ("collation_connection"@, ValueV::Varchar("utf8mb4_general_ci"@)));
    assert(k[25] == ("transaction_isolation"@, ValueV::Varchar("READ-COMMITTED"@)));
    assert(k[26] == ("tx_isolation"@, ValueV::Varchar("READ-COMMITTED"@)));
    assert(k[27] == ("transaction_read_only"@, ValueV::Int(0)));
    assert(k[8] == ("auto_increment_increment"@, ValueV::Int(1)));
    assert(k[17] == ("lower_case_table_names"@, ValueV::Int(0)));
    assert(k[23] == ("system_time_zone"@, ValueV::Varchar("UTC"@)));
    assert(k[24] == ("time_zone"@, ValueV::Varchar("SYSTEM"@)));
    assert(k[5] == ("net_write_timeout"@, ValueV::Int(60)));
    assert(k[6] == ("net_read_timeout"@, ValueV::Int(30)));
    assert(k[22] == ("sql_mode"@, ValueV::Varchar(""@)));
    assert(k[19] == ("query_cache_size"@, ValueV::Int(0)));
    assert(k[28] == ("socket"@, ValueV::Null));
}

} // verus!
