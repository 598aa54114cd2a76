//! Typed evaluation: what a literal becomes in a column, and how values
//! compare.
use vstd::prelude::*;

use crate::error::{Error, ErrorV};
use crate::query::ast::{CompareOp, Expr, ExprV};
use crate::storage::api::io_failure;
use crate::storage::value::{
    incorrect_date, incorrect_decimal, is_date, parse_date_literal, parse_decimal_literal,
    parsed_decimal, rescale_decimal, rescaled, ColumnType, Value, ValueV,
};
use crate::text::{
    cat3, cat5, chars_of, decimal_int, i64_text, parsed_i64, read_i64, same_text, text_before,
    text_less, to_lower, lower,
};

verus! {

// ---------- coercion ----------

pub open spec fn incorrect_integer(s: Seq<char>, column: Seq<char>) -> ErrorV {
    ErrorV::Execution("Incorrect integer value: '"@ + s + "' for column '"@ + column + "'"@)
}

pub open spec fn literal_required(column: Seq<char>) -> ErrorV {
    ErrorV::Execution("a literal value is required for column '"@ + column + "'"@)
}

pub open spec fn unbound_parameter() -> ErrorV {
    ErrorV::Execution("unbound '?' parameter reached the executor"@)
}

/// A number in a decimal column of the given scale.
pub open spec fn scaled_value(n: i64, from: u8, scale: u8, column: Seq<char>) -> Result<
    ValueV,
    ErrorV,
> {
    match rescaled(n, from, scale, column) {
        Ok(v) => Ok(ValueV::Decimal(v, scale)),
        Err(e) => Err(e),
    }
}

/// A text literal in a column of the given type.
pub open spec fn text_value(s: Seq<char>, t: ColumnType, column: Seq<char>) -> Result<
    ValueV,
    ErrorV,
> {
    match t {
        ColumnType::Varchar => Ok(ValueV::Varchar(s)),
        ColumnType::Int => match parsed_i64(s) {
            Some(n) => Ok(ValueV::Int(n)),
            None => Err(incorrect_integer(s, column)),
        },
        ColumnType::Decimal(scale) => match parsed_decimal(s) {
            Some((n, from)) => scaled_value(n, from, scale, column),
            None => Err(incorrect_decimal(s, column)),
        },
        ColumnType::Date => if is_date(s) {
            Ok(ValueV::Date(s))
        } else {
            Err(incorrect_date(s, column))
        },
    }
}

/// What an expression becomes in a column of the given type. Only literals
/// are allowed; a number in a text column is written out, and a text in a
/// number column is read as one.
pub open spec fn coerced(e: ExprV, t: ColumnType, column: Seq<char>) -> Result<ValueV, ErrorV> {
    match e {
        ExprV::Null => Ok(ValueV::Null),
        ExprV::Integer(n) => match t {
            ColumnType::Int => Ok(ValueV::Int(n)),
            ColumnType::Varchar => Ok(ValueV::Varchar(decimal_int(n as int))),
            ColumnType::Decimal(scale) => scaled_value(n, 0, scale, column),
            ColumnType::Date => text_value(decimal_int(n as int), t, column),
        },
        ExprV::String(s) => text_value(s, t, column),
        ExprV::Placeholder(_) => Err(unbound_parameter()),
        _ => Err(literal_required(column)),
    }
}

fn text_to_value(s: &str, column_type: ColumnType, column_name: &str) -> (r: Result<Value, Error>)
    ensures
        match r {
            Ok(v) => text_value(s@, column_type, column_name@) == Ok::<ValueV, ErrorV>(v@),
            Err(e) => text_value(s@, column_type, column_name@) == Err::<ValueV, ErrorV>(e@),
        },
        !io_failure(r),
{
    match column_type {
        ColumnType::Varchar => Ok(Value::Varchar(s.to_string())),
        ColumnType::Int => {
            let chars = chars_of(s);
            proof {
                assert(chars@.subrange(0, chars@.len() as int) =~= s@);
            }
            match read_i64(chars.as_slice(), 0, chars.len()) {
                Some(n) => Ok(Value::Int(n)),
                None => Err(
                    Error::Execution(
                        cat5("Incorrect integer value: '", s, "' for column '", column_name, "'"),
                    ),
                ),
            }
        },
        ColumnType::Decimal(scale) => {
            let (n, from) = parse_decimal_literal(s, column_name)?;
            let v: i64 = rescale_decimal(n, from, scale, column_name)?;
            Ok(Value::Decimal(v, scale))
        },
        ColumnType::Date => {
            let d = parse_date_literal(s, column_name)?;
            Ok(Value::Date(d))
        },
    }
}

/// Coerce a parsed literal into a typed storage [`Value`] for a column.
/// `NULL` is always allowed here; whether the column takes it is the caller's
/// to check.
pub fn coerce(expr: &Expr, column_type: ColumnType, column_name: &str) -> (r: Result<Value, Error>)
    ensures
        match r {
            Ok(v) => coerced(expr@, column_type, column_name@) == Ok::<ValueV, ErrorV>(v@),
            Err(e) => coerced(expr@, column_type, column_name@) == Err::<ValueV, ErrorV>(e@),
        },
        !io_failure(r),
{
    match expr {
        Expr::Null => Ok(Value::Null),
        Expr::Integer(n) => match column_type {
            ColumnType::Int => Ok(Value::Int(*n)),
            ColumnType::Varchar => Ok(Value::Varchar(i64_text(*n))),
            ColumnType::Decimal(scale) => {
                let v: i64 = rescale_decimal(*n, 0, scale, column_name)?;
                Ok(Value::Decimal(v, scale))
            },
            ColumnType::Date => text_to_value(i64_text(*n).as_str(), column_type, column_name),
        },
        Expr::String(s) => text_to_value(s.as_str(), column_type, column_name),
        Expr::Placeholder(_) => Err(
            Error::Execution("unbound '?' parameter reached the executor".to_string()),
        ),
        _ => Err(
            Error::Execution(
                cat3("a literal value is required for column '", column_name, "'"),
            ),
        ),
    }
}

// ---------- comparison ----------

/// How two texts are ordered: negative, zero or positive.
pub open spec fn text_order(a: Seq<char>, b: Seq<char>) -> int {
    if a == b {
        0
    } else if text_less(a, b) {
        -1
    } else {
        1
    }
}

/// How two numbers are ordered.
pub open spec fn number_order(a: int, b: int) -> int {
    if a == b {
        0
    } else if a < b {
        -1
    } else {
        1
    }
}

/// How two values that are not `NULL` are ordered: numbers numerically, text
/// and dates by code point, and anything mixed by the text shown for it.
pub open spec fn value_order(a: ValueV, b: ValueV) -> int {
    match (a, b) {
        (ValueV::Int(x), ValueV::Int(y)) => number_order(x as int, y as int),
        (ValueV::Varchar(x), ValueV::Varchar(y)) => text_order(x, y),
        (ValueV::Date(x), ValueV::Date(y)) => text_order(x, y),
        (ValueV::Decimal(x, s), ValueV::Decimal(y, t)) => if s == t {
            number_order(x as int, y as int)
        } else {
            text_order(a.shown(), b.shown())
        },
        _ => text_order(a.shown(), b.shown()),
    }
}

/// Whether an order satisfies a comparison.
pub open spec fn satisfies(order: int, op: CompareOp) -> bool {
    match op {
        CompareOp::Eq => order == 0,
        CompareOp::NotEq => order != 0,
        CompareOp::Lt => order < 0,
        CompareOp::Gt => order > 0,
        CompareOp::Le => order <= 0,
        CompareOp::Ge => order >= 0,
    }
}

/// Whether a comparison holds. With a `NULL` on either side none does.
pub open spec fn holds(a: ValueV, op: CompareOp, b: ValueV) -> bool {
    a != ValueV::Null && b != ValueV::Null && satisfies(value_order(a, b), op)
}

fn order_texts(a: &str, b: &str) -> (r: i8)
    ensures
        r == text_order(a@, b@),
{
    if same_text(a, b) {
        0
    } else if text_before(a, b) {
        -1
    } else {
        1
    }
}

fn order_numbers(a: i64, b: i64) -> (r: i8)
    ensures
        r == number_order(a as int, b as int),
{
    if a == b {
        0
    } else if a < b {
        -1
    } else {
        1
    }
}

fn order_shown(a: &Value, b: &Value) -> (r: i8)
    ensures
        r == text_order(a@.shown(), b@.shown()),
{
    let x = a.shown_text();
    let y = b.shown_text();
    order_texts(x.as_str(), y.as_str())
}

/// Compare two typed values. Any comparison involving `NULL` is false, even
/// `NULL = NULL`.
pub fn compare_values(actual: &Value, op: CompareOp, expected: &Value) -> (r: bool)
    ensures
        r == holds(actual@, op, expected@),
{
    let order: i8 = match (actual, expected) {
        (Value::Null, _) => {
            return false;
        },
        (_, Value::Null) => {
            return false;
        },
        (Value::Int(a), Value::Int(b)) => order_numbers(*a, *b),
        (Value::Varchar(a), Value::Varchar(b)) => order_texts(a.as_str(), b.as_str()),
        (Value::Date(a), Value::Date(b)) => order_texts(a.as_str(), b.as_str()),
        (Value::Decimal(a, s), Value::Decimal(b, t)) => {
            if *s == *t {
                order_numbers(*a, *b)
            } else {
                order_shown(actual, expected)
            }
        },
        _ => order_shown(actual, expected),
    };
    match op {
        CompareOp::Eq => order == 0,
        CompareOp::NotEq => order != 0,
        CompareOp::Lt => order < 0,
        CompareOp::Gt => order > 0,
        CompareOp::Le => order <= 0,
        CompareOp::Ge => order >= 0,
    }
}

// ---------- LIKE ----------

/// Whether `t` matches the pattern `p`: `%` stands for any run of characters,
/// `_` for one, and anything else for itself.
pub open spec fn fits_pattern(p: Seq<char>, t: Seq<char>) -> bool
    decreases p.len(),
{
    if p.len() == 0 {
        t.len() == 0
    } else if p.last() == '%' {
        exists|k: int| 0 <= k <= t.len() && fits_pattern(p.drop_last(), #[trigger] t.take(k))
    } else {
        t.len() > 0 && (p.last() == '_' || p.last() == t.last()) && fits_pattern(
            p.drop_last(),
            t.drop_last(),
        )
    }
}

/// Whether `text` matches the `LIKE` pattern, ASCII case aside.
pub open spec fn is_like(pattern: Seq<char>, text: Seq<char>) -> bool {
    fits_pattern(lower(pattern), lower(text))
}

/// Whether the first `j` characters of `t` match the first `i` of the pattern.
spec fn like_prefix(p: Seq<char>, t: Seq<char>, i: int, j: int) -> bool {
    fits_pattern(p.take(i), t.take(j))
}

/// One more character of the pattern, against the first `j` of the text.
proof fn lemma_like_step(p: Seq<char>, t: Seq<char>, i: int, j: int)
    requires
        0 <= i < p.len(),
        0 <= j <= t.len(),
    ensures
        like_prefix(p, t, i + 1, j) == (if p[i] == '%' {
            like_prefix(p, t, i, j) || j > 0 && like_prefix(p, t, i + 1, j - 1)
        } else {
            j > 0 && (p[i] == '_' || p[i] == t[j - 1]) && like_prefix(p, t, i, j - 1)
        }),
{
    let front = p.take(i);
    assert(p.take(i + 1).drop_last() =~= front);
    assert(p.take(i + 1).last() == p[i]);
    if j > 0 {
        assert(t.take(j).drop_last() =~= t.take(j - 1));
    }
    if p[i] == '%' {
        if like_prefix(p, t, i, j) {
            assert(t.take(j).take(j) =~= t.take(j));
        }
        if j > 0 && like_prefix(p, t, i + 1, j - 1) {
            let k = choose|k: int|
                0 <= k <= t.take(j - 1).len() && fits_pattern(front, #[trigger] t.take(j - 1).take(k));
            assert(t.take(j).take(k) =~= t.take(j - 1).take(k));
        }
        if like_prefix(p, t, i + 1, j) {
            let k = choose|k: int|
                0 <= k <= t.take(j).len() && fits_pattern(front, #[trigger] t.take(j).take(k));
            if k == j {
                assert(t.take(j).take(k) =~= t.take(j));
            } else {
                assert(t.take(j - 1).take(k) =~= t.take(j).take(k));
            }
        }
    }
}

/// A `LIKE` matcher: `%` matches any run of characters, `_` matches one.
/// Case-insensitive.
pub fn like_matches(pattern: &str, text: &str) -> (r: bool)
    ensures
        r == is_like(pattern@, text@),
{
    let p = chars_of(to_lower(pattern).as_str());
    let t = chars_of(to_lower(text).as_str());
    let n: usize = t.len();
    // What the pattern so far matches: for each j, the first j characters.
    let mut row: Vec<bool> = Vec::new();
    row.push(true);
    proof {
        assert(p@.take(0).len() == 0);
        assert(t@.take(0).len() == 0);
    }
    let mut j: usize = 0;
    while j < n
        invariant
            j <= n,
            n == t@.len(),
            row@.len() == j + 1,
            forall|k: int| 0 <= k <= j ==> #[trigger] row@[k] == like_prefix(p@, t@, 0, k),
        decreases n - j,
    {
        proof {
            assert(p@.take(0).len() == 0);
            assert(t@.take(j + 1).len() == j + 1);
        }
        row.push(false);
        j = j + 1;
    }
    let mut i: usize = 0;
    while i < p.len()
        invariant
            i <= p@.len(),
            n == t@.len(),
            row@.len() == n + 1,
            forall|k: int| 0 <= k <= n ==> #[trigger] row@[k] == like_prefix(p@, t@, i as int, k),
        decreases p@.len() - i,
    {
        let c = p[i];
        let mut next: Vec<bool> = Vec::new();
        proof {
            lemma_like_step(p@, t@, i as int, 0);
            assert(row@[0] == like_prefix(p@, t@, i as int, 0));
        }
        next.push(c == '%' && row[0]);
        let mut j: usize = 0;
        while j < n
            invariant
                j <= n,
                i < p@.len(),
                c == p@[i as int],
                n == t@.len(),
                row@.len() == n + 1,
                next@.len() == j + 1,
                forall|k: int|
                    0 <= k <= n ==> #[trigger] row@[k] == like_prefix(p@, t@, i as int, k),
                forall|k: int| 0 <= k <= j ==> #[trigger] next@[k] == like_prefix(p@, t@, i + 1, k),
            decreases n - j,
        {
            let m: bool = if c == '%' {
                row[j + 1] || next[j]
            } else if c == '_' {
                row[j]
            } else {
                row[j] && c == t[j]
            };
            proof {
                lemma_like_step(p@, t@, i as int, j + 1);
                assert(row@[j as int] == like_prefix(p@, t@, i as int, j as int));
                assert(row@[j + 1] == like_prefix(p@, t@, i as int, j + 1));
                assert(next@[j as int] == like_prefix(p@, t@, i + 1, j as int));
            }
            next.push(m);
            j = j + 1;
        }
        row = next;
        i = i + 1;
    }
    proof {
        assert(p@.take(p@.len() as int) =~= p@);
        assert(t@.take(n as int) =~= t@);
    }
    row[n]
}

} // verus!
