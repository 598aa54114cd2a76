//! The abstract syntax of the SQL subset.
use vstd::prelude::*;

use crate::seqs::{duplicate_all, duplicate_opt, opt_view, views, Duplicate};
use crate::text::{cat2, decimal, decimal_int, i64_text, u64_text};

verus! {

broadcast use crate::seqs::group_views;

/// A parsed SQL statement.
#[allow(inconsistent_fields)]
#[derive(Debug, Clone, PartialEq)]
pub enum Statement {
    CreateTable { table: String, columns: Vec<ColumnDef> },
    Insert {
        table: String,
        /// Explicit column list, if given (`INSERT INTO t (a, b) VALUES ...`).
        /// `None` means values are supplied in table-definition order.
        columns: Option<Vec<String>>,
        rows: Vec<Vec<Expr>>,
    },
    Select { projection: Vec<SelectItem>, from: Option<String>, selection: Option<Condition> },
    /// `BEGIN` or `START TRANSACTION`.
    Begin,
    Commit,
    Rollback,
    /// `SET ...`: accepted and ignored, since session settings are not
    /// modelled.
    SetOption,
    /// `USE <db>`: accepted as a no-op; the server is schemaless.
    Use,
    /// `SHOW ...`: limited introspection (see [`ShowStatement`]).
    Show(ShowStatement),
    /// `CREATE DATABASE [IF NOT EXISTS] <name> [...]`; a character-set or
    /// collation clause is read and discarded.
    CreateDatabase { name: String, if_not_exists: bool },
    /// `DROP DATABASE [IF EXISTS] <name>`.
    DropDatabase { name: String, if_exists: bool },
}

/// The recognized forms of `SHOW`. Anything else is [`ShowStatement::Other`]
/// and yields an empty result rather than an error.
#[derive(Debug, Clone, PartialEq)]
pub enum ShowStatement {
    Databases,
    Tables,
    Warnings,
    Variables { like: Option<String> },
    /// `SHOW CHARACTER SET` / `SHOW CHARSET`.
    CharacterSet,
    /// `SHOW COLLATION`.
    Collation,
    Other,
}

/// One column of a `CREATE TABLE`.
#[derive(Debug, Clone, PartialEq)]
pub struct ColumnDef {
    pub name: String,
    /// The type as written, with its size if it has one; resolved to a storage
    /// type by the executor.
    pub type_text: String,
    /// Declared `PRIMARY KEY`, inline or by a table-level constraint.
    pub is_primary_key: bool,
    /// Whether `NULL` is a legal value (`false` after `NOT NULL`).
    pub nullable: bool,
    /// Whether this column is `AUTO_INCREMENT`.
    pub auto_increment: bool,
}

/// One item of a `SELECT` list.
#[derive(Debug, Clone, PartialEq)]
pub enum SelectItem {
    Wildcard,
    /// A projected expression with an optional `AS` alias.
    Expr(Expr, Option<String>),
}

/// A literal or column reference.
#[derive(Debug, PartialEq)]
pub enum Expr {
    Integer(i64),
    String(String),
    Null,
    SystemVariable(String),
    Column(String),
    /// A function call such as `DATABASE()`.
    Function(String, Vec<Expr>),
    /// A `?` placeholder in a prepared statement, carrying its zero-based
    /// position.
    Placeholder(usize),
}

#[derive(Debug, Clone, Copy, PartialEq, Eq, Structural)]
pub enum CompareOp {
    Eq,
    NotEq,
    Lt,
    Gt,
    Le,
    Ge,
}

/// A `WHERE` predicate: a column compared with a value.
#[derive(Debug, Clone, PartialEq)]
pub struct Condition {
    pub column: String,
    pub op: CompareOp,
    pub value: Expr,
}

// ---------- mathematical content ----------

pub ghost enum ExprV {
    Integer(i64),
    String(Seq<char>),
    Null,
    SystemVariable(Seq<char>),
    Column(Seq<char>),
    Function(Seq<char>, Seq<ExprV>),
    Placeholder(int),
}

pub ghost enum SelectItemV {
    Wildcard,
    Expr(ExprV, Option<Seq<char>>),
}

pub ghost struct ConditionV {
    pub column: Seq<char>,
    pub op: CompareOp,
    pub value: ExprV,
}

pub ghost struct ColumnDefV {
    pub name: Seq<char>,
    pub type_text: Seq<char>,
    pub is_primary_key: bool,
    pub nullable: bool,
    pub auto_increment: bool,
}

pub ghost enum ShowStatementV {
    Databases,
    Tables,
    Warnings,
    Variables { like: Option<Seq<char>> },
    CharacterSet,
    Collation,
    Other,
}

#[allow(inconsistent_fields)]
pub ghost enum StatementV {
    CreateTable { table: Seq<char>, columns: Seq<ColumnDefV> },
    Insert { table: Seq<char>, columns: Option<Seq<Seq<char>>>, rows: Seq<Seq<ExprV>> },
    Select {
        projection: Seq<SelectItemV>,
        from: Option<Seq<char>>,
        selection: Option<ConditionV>,
    },
    Begin,
    Commit,
    Rollback,
    SetOption,
    Use,
    Show(ShowStatementV),
    CreateDatabase { name: Seq<char>, if_not_exists: bool },
    DropDatabase { name: Seq<char>, if_exists: bool },
}

/// The content of an expression.
pub open spec fn expr_view(e: Expr) -> ExprV
    decreases e,
{
    match e {
        Expr::Integer(n) => ExprV::Integer(n),
        Expr::String(s) => ExprV::String(s@),
        Expr::Null => ExprV::Null,
        Expr::SystemVariable(s) => ExprV::SystemVariable(s@),
        Expr::Column(s) => ExprV::Column(s@),
        Expr::Function(name, args) => ExprV::Function(
            name@,
            Seq::new(
                args@.len(),
                |i: int|
                    if 0 <= i < args@.len() {
                        expr_view(args@[i])
                    } else {
                        ExprV::Null
                    },
            ),
        ),
        Expr::Placeholder(i) => ExprV::Placeholder(i as int),
    }
}

impl View for Expr {
    type V = ExprV;

    open spec fn view(&self) -> ExprV {
        expr_view(*self)
    }
}

/// A call's content is its name and its arguments' contents.
pub proof fn lemma_function_view(name: String, args: Vec<Expr>)
    ensures
        expr_view(Expr::Function(name, args)) == ExprV::Function(name@, views(args@)),
{
    assert(expr_view(Expr::Function(name, args))->Function_1 =~= views(args@));
}

impl View for SelectItem {
    type V = SelectItemV;

    open spec fn view(&self) -> SelectItemV {
        match self {
            SelectItem::Wildcard => SelectItemV::Wildcard,
            SelectItem::Expr(e, alias) => SelectItemV::Expr(e@, opt_view(*alias)),
        }
    }
}

impl View for Condition {
    type V = ConditionV;

    open spec fn view(&self) -> ConditionV {
        ConditionV { column: self.column@, op: self.op, value: self.value@ }
    }
}

impl View for ColumnDef {
    type V = ColumnDefV;

    open spec fn view(&self) -> ColumnDefV {
        ColumnDefV {
            name: self.name@,
            type_text: self.type_text@,
            is_primary_key: self.is_primary_key,
            nullable: self.nullable,
            auto_increment: self.auto_increment,
        }
    }
}

impl View for ShowStatement {
    type V = ShowStatementV;

    open spec fn view(&self) -> ShowStatementV {
        match self {
            ShowStatement::Databases => ShowStatementV::Databases,
            ShowStatement::Tables => ShowStatementV::Tables,
            ShowStatement::Warnings => ShowStatementV::Warnings,
            ShowStatement::Variables { like } => ShowStatementV::Variables {
                like: opt_view(*like),
            },
            ShowStatement::CharacterSet => ShowStatementV::CharacterSet,
            ShowStatement::Collation => ShowStatementV::Collation,
            ShowStatement::Other => ShowStatementV::Other,
        }
    }
}

/// The rows of an `INSERT`, seen mathematically.
pub open spec fn expr_rows(rows: Seq<Vec<Expr>>) -> Seq<Seq<ExprV>> {
    Seq::new(rows.len(), |i: int| views(rows[i]@))
}

impl View for Statement {
    type V = StatementV;

    open spec fn view(&self) -> StatementV {
        match self {
            Statement::CreateTable { table, columns } => StatementV::CreateTable {
                table: table@,
                columns: views(columns@),
            },
            Statement::Insert { table, columns, rows } => StatementV::Insert {
                table: table@,
                columns: match columns {
                    Some(c) => Some(views(c@)),
                    None => None,
                },
                rows: expr_rows(rows@),
            },
            Statement::Select { projection, from, selection } => StatementV::Select {
                projection: views(projection@),
                from: opt_view(*from),
                selection: opt_view(*selection),
            },
            Statement::Begin => StatementV::Begin,
            Statement::Commit => StatementV::Commit,
            Statement::Rollback => StatementV::Rollback,
            Statement::SetOption => StatementV::SetOption,
            Statement::Use => StatementV::Use,
            Statement::Show(s) => StatementV::Show(s@),
            Statement::CreateDatabase { name, if_not_exists } => StatementV::CreateDatabase {
                name: name@,
                if_not_exists: *if_not_exists,
            },
            Statement::DropDatabase { name, if_exists } => StatementV::DropDatabase {
                name: name@,
                if_exists: *if_exists,
            },
        }
    }
}

// ---------- copying ----------

/// A copy of an expression.
pub fn copy_expr(e: &Expr) -> (r: Expr)
    ensures
        r@ == e@,
    decreases e,
{
    match e {
        Expr::Integer(n) => Expr::Integer(*n),
        Expr::String(s) => Expr::String(s.clone()),
        Expr::Null => Expr::Null,
        Expr::SystemVariable(s) => Expr::SystemVariable(s.clone()),
        Expr::Column(s) => Expr::Column(s.clone()),
        Expr::Function(name, args) => {
            let mut out: Vec<Expr> = Vec::new();
            let mut i: usize = 0;
            while i < args.len()
                invariant
                    i <= args@.len(),
                    out@.len() == i,
                    forall|k: int| 0 <= k < i ==> (#[trigger] out@[k])@ == args@[k]@,
                    decreases_to!(e => args),
                decreases args@.len() - i,
            {
                proof {
                    assert(decreases_to!(args => args@[i as int]));
                }
                out.push(copy_expr(&args[i]));
                i = i + 1;
            }
            proof {
                assert(views(out@) =~= views(args@));
                lemma_function_view(*name, *args);
                lemma_function_view(*name, out);
            }
            Expr::Function(name.clone(), out)
        },
        Expr::Placeholder(i) => Expr::Placeholder(*i),
    }
}

impl Clone for Expr {
    fn clone(&self) -> (r: Self)
        ensures
            r@ == self@,
    {
        copy_expr(self)
    }
}

impl Duplicate for Expr {
    fn duplicate(&self) -> (r: Self) {
        copy_expr(self)
    }
}

impl Duplicate for ColumnDef {
    fn duplicate(&self) -> (r: Self) {
        ColumnDef {
            name: self.name.clone(),
            type_text: self.type_text.clone(),
            is_primary_key: self.is_primary_key,
            nullable: self.nullable,
            auto_increment: self.auto_increment,
        }
    }
}

impl Duplicate for SelectItem {
    fn duplicate(&self) -> (r: Self) {
        match self {
            SelectItem::Wildcard => SelectItem::Wildcard,
            SelectItem::Expr(e, alias) => SelectItem::Expr(copy_expr(e), duplicate_opt(alias)),
        }
    }
}

impl Duplicate for Condition {
    fn duplicate(&self) -> (r: Self) {
        Condition { column: self.column.clone(), op: self.op, value: copy_expr(&self.value) }
    }
}

/// A copy of the rows of an `INSERT`.
fn copy_expr_rows(rows: &Vec<Vec<Expr>>) -> (r: Vec<Vec<Expr>>)
    ensures
        expr_rows(r@) == expr_rows(rows@),
{
    let mut out: Vec<Vec<Expr>> = Vec::new();
    let mut i: usize = 0;
    while i < rows.len()
        invariant
            i <= rows@.len(),
            out@.len() == i,
            forall|k: int| 0 <= k < i ==> views((#[trigger] out@[k])@) == views(rows@[k]@),
        decreases rows@.len() - i,
    {
        out.push(duplicate_all(&rows[i]));
        i = i + 1;
    }
    proof {
        assert(expr_rows(out@) =~= expr_rows(rows@));
    }
    out
}

impl Duplicate for ShowStatement {
    fn duplicate(&self) -> (r: Self) {
        match self {
            ShowStatement::Databases => ShowStatement::Databases,
            ShowStatement::Tables => ShowStatement::Tables,
            ShowStatement::Warnings => ShowStatement::Warnings,
            ShowStatement::Variables { like } => ShowStatement::Variables {
                like: duplicate_opt(like),
            },
            ShowStatement::CharacterSet => ShowStatement::CharacterSet,
            ShowStatement::Collation => ShowStatement::Collation,
            ShowStatement::Other => ShowStatement::Other,
        }
    }
}

impl Duplicate for Statement {
    fn duplicate(&self) -> (r: Self) {
        match self {
            Statement::CreateTable { table, columns } => Statement::CreateTable {
                table: table.clone(),
                columns: duplicate_all(columns),
            },
            Statement::Insert { table, columns, rows } => {
                let names: Option<Vec<String>> = match columns {
                    Some(c) => Some(duplicate_all(c)),
                    None => None,
                };
                Statement::Insert {
                    table: table.clone(),
                    columns: names,
                    rows: copy_expr_rows(rows),
                }
            },
            Statement::Select { projection, from, selection } => Statement::Select {
                projection: duplicate_all(projection),
                from: duplicate_opt(from),
                selection: duplicate_opt(selection),
            },
            Statement::Begin => Statement::Begin,
            Statement::Commit => Statement::Commit,
            Statement::Rollback => Statement::Rollback,
            Statement::SetOption => Statement::SetOption,
            Statement::Use => Statement::Use,
            Statement::Show(s) => Statement::Show(s.duplicate()),
            Statement::CreateDatabase { name, if_not_exists } => Statement::CreateDatabase {
                name: name.clone(),
                if_not_exists: *if_not_exists,
            },
            Statement::DropDatabase { name, if_exists } => Statement::DropDatabase {
                name: name.clone(),
                if_exists: *if_exists,
            },
        }
    }
}

impl ExprV {
    /// The display text of an expression with no table context; `None` for
    /// SQL `NULL`.
    pub open spec fn value_string(self) -> Option<Seq<char>> {
        match self {
            ExprV::Integer(n) => Some(decimal_int(n as int)),
            ExprV::String(s) => Some(s),
            ExprV::Null => None,
            ExprV::SystemVariable(name) => Some("@@"@ + name),
            ExprV::Column(name) => Some(name),
            ExprV::Function(name, args) => Some(name + "()"@),
            ExprV::Placeholder(i) => Some("?"@ + decimal(i as nat)),
        }
    }
}

impl Expr {
    /// Render as display text for a literal with no table/column context
    /// (e.g. `SELECT 1`, `SELECT NULL`). `None` means SQL `NULL`.
    pub fn to_value_string(&self) -> (r: Option<String>)
        ensures
            opt_view(r) == self@.value_string(),
    {
        match self {
            Expr::Integer(n) => Some(i64_text(*n)),
            Expr::String(s) => Some(s.clone()),
            Expr::Null => None,
            Expr::SystemVariable(name) => Some(cat2("@@", name.as_str())),
            Expr::Column(name) => Some(name.clone()),
            Expr::Function(name, _) => Some(cat2(name.as_str(), "()")),
            Expr::Placeholder(i) => Some(cat2("?", u64_text(*i as u64).as_str())),
        }
    }
}

} // verus!
