//! Typed values and schema definitions.
//!
//! `BOOLEAN` is an alias for `INT`, `DECIMAL` is exact fixed point, and `DATE`
//! is canonical `YYYY-MM-DD` text.
use vstd::prelude::*;
use vstd::arithmetic::power::pow;

use crate::error::{Error, ErrorV};
use crate::seqs::{duplicate_all, duplicate_opt, opt_view, views, Duplicate};
use crate::text::{
    all_digits, cat2, cat3, cat5, chars_of, decimal, decimal_int, digits_value, find_char, i64_text,
    index_from, is_digit, magnitude, read_digits, same_text, text_of, to_upper, trim, trim_bounds,
    u64_text, upper,
};

verus! {

/// A typed, storage-level value. `Null` is a distinct value from any other
/// variant, matching SQL's `NULL`.
#[derive(Debug, Clone, PartialEq, Eq, Hash)]
pub enum Value {
    Int(i64),
    Varchar(String),
    /// An exact fixed-point number: `unscaled / 10^scale` (e.g. `(12345, 2)`
    /// is `123.45`). Values are normalized to their column's scale before
    /// they are stored.
    Decimal(i64, u8),
    /// A calendar date as canonical, zero-padded `YYYY-MM-DD` text, whose
    /// text order is chronological order.
    Date(String),
    Null,
}

/// The content of a [`Value`].
pub ghost enum ValueV {
    Int(i64),
    Varchar(Seq<char>),
    Decimal(i64, u8),
    Date(Seq<char>),
    Null,
}

impl View for Value {
    type V = ValueV;

    open spec fn view(&self) -> ValueV {
        match self {
            Value::Int(n) => ValueV::Int(*n),
            Value::Varchar(s) => ValueV::Varchar(s@),
            Value::Decimal(n, scale) => ValueV::Decimal(*n, *scale),
            Value::Date(s) => ValueV::Date(s@),
            Value::Null => ValueV::Null,
        }
    }
}

impl Duplicate for Value {
    fn duplicate(&self) -> (r: Self) {
        match self {
            Value::Int(n) => Value::Int(*n),
            Value::Varchar(s) => Value::Varchar(s.clone()),
            Value::Decimal(n, scale) => Value::Decimal(*n, *scale),
            Value::Date(s) => Value::Date(s.clone()),
            Value::Null => Value::Null,
        }
    }
}

/// Whether two values are the same.
pub fn same_value(a: &Value, b: &Value) -> (r: bool)
    ensures
        r == (a@ == b@),
{
    match (a, b) {
        (Value::Int(x), Value::Int(y)) => *x == *y,
        (Value::Varchar(x), Value::Varchar(y)) => same_text(x.as_str(), y.as_str()),
        (Value::Decimal(x, s), Value::Decimal(y, t)) => *x == *y && *s == *t,
        (Value::Date(x), Value::Date(y)) => same_text(x.as_str(), y.as_str()),
        (Value::Null, Value::Null) => true,
        _ => false,
    }
}

impl ValueV {
    /// The text shown for a value; `None` for SQL `NULL`.
    pub open spec fn display(self) -> Option<Seq<char>> {
        match self {
            ValueV::Int(n) => Some(decimal_int(n as int)),
            ValueV::Varchar(s) => Some(s),
            ValueV::Decimal(n, scale) => Some(decimal_text(n as int, scale as nat)),
            ValueV::Date(s) => Some(s),
            ValueV::Null => None,
        }
    }

    /// The text shown for a value, empty for SQL `NULL`.
    pub open spec fn shown(self) -> Seq<char> {
        match self.display() {
            Some(s) => s,
            None => Seq::empty(),
        }
    }
}

impl Value {
    /// Render for the text protocol: `None` means SQL `NULL`.
    pub fn to_display_string(&self) -> (r: Option<String>)
        ensures
            opt_view(r) == self@.display(),
    {
        match self {
            Value::Int(n) => Some(i64_text(*n)),
            Value::Varchar(s) => Some(s.clone()),
            Value::Decimal(unscaled, scale) => Some(format_decimal(*unscaled, *scale)),
            Value::Date(s) => Some(s.clone()),
            Value::Null => None,
        }
    }

    /// The text shown for the value, empty for SQL `NULL`.
    pub fn shown_text(&self) -> (r: String)
        ensures
            r@ == self@.shown(),
    {
        match self.to_display_string() {
            Some(s) => s,
            None => String::new(),
        }
    }
}

// ---------- decimals ----------

/// `n` zeros.
pub open spec fn zeros(n: int) -> Seq<char> {
    Seq::new(
        if n < 0 {
            0
        } else {
            n as nat
        },
        |i: int| '0',
    )
}

/// `digits` with zeros in front, at least `width` characters in all.
pub open spec fn padded(digits: Seq<char>, width: int) -> Seq<char> {
    zeros(width - digits.len()) + digits
}

/// The numeral of `unscaled / 10^scale`: a sign if negative, at least one
/// digit, and (unless the scale is 0) a point and exactly `scale` digits.
pub open spec fn decimal_text(unscaled: int, scale: nat) -> Seq<char> {
    if scale == 0 {
        decimal_int(unscaled)
    } else {
        let digits = padded(
            decimal(
                if unscaled < 0 {
                    (-unscaled) as nat
                } else {
                    unscaled as nat
                },
            ),
            (scale + 1) as int,
        );
        let point = digits.len() - scale;
        let sign = if unscaled < 0 {
            "-"@
        } else {
            ""@
        };
        sign + digits.subrange(0, point) + "."@ + digits.subrange(point, digits.len() as int)
    }
}

/// Render a fixed-point `(unscaled, scale)` pair as decimal text, e.g.
/// `(12345, 2)` -> `"123.45"`, `(5, 2)` -> `"0.05"`, `(100, 0)` -> `"100"`.
pub fn format_decimal(unscaled: i64, scale: u8) -> (r: String)
    ensures
        r@ == decimal_text(unscaled as int, scale as nat),
{
    if scale == 0 {
        return i64_text(unscaled);
    }
    let width: usize = scale as usize;
    let digits = chars_of(u64_text(magnitude(unscaled)).as_str());
    let ghost plain = digits@;
    let mut full: Vec<char> = Vec::new();
    let mut missing: usize = if digits.len() <= width {
        width + 1 - digits.len()
    } else {
        0
    };
    let ghost fill = missing as int;
    while missing > 0
        invariant
            0 <= missing <= fill,
            full@ == zeros(fill - missing),
        decreases missing,
    {
        full.push('0');
        proof {
            assert(full@ =~= zeros(fill - (missing - 1)));
        }
        missing = missing - 1;
    }
    let mut i: usize = 0;
    while i < digits.len()
        invariant
            i <= digits@.len(),
            full@ == zeros(fill) + digits@.take(i as int),
        decreases digits@.len() - i,
    {
        full.push(digits[i]);
        proof {
            assert(full@ =~= zeros(fill) + digits@.take(i + 1));
        }
        i = i + 1;
    }
    proof {
        assert(digits@.take(digits@.len() as int) =~= digits@);
        assert(full@ =~= padded(plain, width + 1));
    }
    let point: usize = full.len() - width;
    let int_part = text_of(full.as_slice(), 0, point);
    let frac_part = text_of(full.as_slice(), point, full.len());
    let sign = if unscaled < 0 {
        "-"
    } else {
        ""
    };
    let head = cat2(sign, int_part.as_str());
    cat3(head.as_str(), ".", frac_part.as_str())
}

/// The error for a decimal that its column cannot hold.
pub open spec fn out_of_range(column: Seq<char>) -> ErrorV {
    ErrorV::Execution("decimal value out of range for column '"@ + column + "'"@)
}

/// `unscaled / 10^d`, rounded half away from zero.
pub open spec fn rounded(unscaled: int, d: nat) -> int {
    let size = if unscaled < 0 {
        -unscaled
    } else {
        unscaled
    };
    let shrunk = (size + pow(10, d) / 2) / pow(10, d);
    if unscaled < 0 {
        -shrunk
    } else {
        shrunk
    }
}

/// A fixed-point value taken from one scale to another. A power of ten, or a
/// result, that does not fit is out of range.
pub open spec fn rescaled(unscaled: i64, from_scale: u8, to_scale: u8, column: Seq<char>) -> Result<
    i64,
    ErrorV,
> {
    if to_scale >= from_scale {
        let factor = pow(10, (to_scale - from_scale) as nat);
        if factor <= i64::MAX && i64::MIN <= unscaled * factor <= i64::MAX {
            Ok((unscaled * factor) as i64)
        } else {
            Err(out_of_range(column))
        }
    } else {
        let d = (from_scale - to_scale) as nat;
        if pow(10, d) <= u64::MAX {
            Ok(rounded(unscaled as int, d) as i64)
        } else {
            Err(out_of_range(column))
        }
    }
}

pub proof fn lemma_pow10(n: nat)
    ensures
        pow(10, n) >= 1,
        pow(10, n + 1) == 10 * pow(10, n),
    decreases n,
{
    reveal(pow);
    if n > 0 {
        lemma_pow10((n - 1) as nat);
    }
}

proof fn lemma_pow10_monotone(a: nat, b: nat)
    requires
        a <= b,
    ensures
        pow(10, a) <= pow(10, b),
    decreases b,
{
    if a < b {
        lemma_pow10_monotone(a, (b - 1) as nat);
        lemma_pow10((b - 1) as nat);
    }
}

/// `10^n`, if it fits.
fn power_of_ten(n: u8) -> (r: Option<u64>)
    ensures
        match r {
            Some(v) => v == pow(10, n as nat),
            None => pow(10, n as nat) > u64::MAX,
        },
{
    let mut value: u64 = 1;
    let mut i: u8 = 0;
    proof {
        reveal(pow);
        assert(pow(10, 0) == 1);
    }
    while i < n
        invariant
            i <= n,
            value == pow(10, i as nat),
        decreases n - i,
    {
        proof {
            lemma_pow10(i as nat);
        }
        if value > u64::MAX / 10 {
            proof {
                lemma_pow10_monotone((i + 1) as nat, n as nat);
            }
            return None;
        }
        value = value * 10;
        i = i + 1;
    }
    Some(value)
}

/// Convert a fixed-point value from `from_scale` to `to_scale`: widening
/// multiplies, narrowing rounds half away from zero.
pub fn rescale_decimal(unscaled: i64, from_scale: u8, to_scale: u8, column_name: &str) -> (r: Result<
    i64,
    Error,
>)
    ensures
        match r {
            Ok(v) => rescaled(unscaled, from_scale, to_scale, column_name@) == Ok::<i64, ErrorV>(v),
            Err(e) => rescaled(unscaled, from_scale, to_scale, column_name@) == Err::<i64, ErrorV>(
                e@,
            ),
        },
{
    let out = Error::Execution(
        cat3("decimal value out of range for column '", column_name, "'"),
    );
    if to_scale >= from_scale {
        match power_of_ten(to_scale - from_scale) {
            Some(factor) => {
                if factor > 0x7fff_ffff_ffff_ffff {
                    return Err(out);
                }
                match unscaled.checked_mul(factor as i64) {
                    Some(v) => Ok(v),
                    None => Err(out),
                }
            },
            None => Err(out),
        }
    } else {
        let d: u8 = from_scale - to_scale;
        match power_of_ten(d) {
            Some(divisor) => {
                let size: u64 = magnitude(unscaled);
                proof {
                    lemma_pow10_monotone(1, d as nat);
                    reveal(pow);
                    assert(pow(10, 0) == 1);
                    assert(pow(10, 1) == 10 * pow(10, 0));
                    assert(divisor >= 10);
                }
                let shrunk: u64 = (size + divisor / 2) / divisor;
                proof {
                    let s = size + divisor / 2;
                    assert(s / divisor as int <= s / 10) by (nonlinear_arith)
                        requires
                            divisor >= 10,
                            s >= 0,
                    ;
                    assert(size <= 0x8000_0000_0000_0000);
                    assert(shrunk <= 0x7fff_ffff_ffff_ffff);
                }
                if unscaled < 0 {
                    Ok(-(shrunk as i64))
                } else {
                    Ok(shrunk as i64)
                }
            },
            None => Err(out),
        }
    }
}

/// The error for text that is no decimal.
pub open spec fn incorrect_decimal(s: Seq<char>, column: Seq<char>) -> ErrorV {
    ErrorV::Execution("Incorrect decimal value: '"@ + s + "' for column '"@ + column + "'"@)
}

/// What a decimal numeral denotes, at the scale as written: an optional minus
/// sign, digits, and optionally a point and at most 255 more digits, with at
/// least one digit in all and a magnitude that fits in an `i64`.
pub open spec fn parsed_decimal(s: Seq<char>) -> Option<(i64, u8)> {
    let negative = s.len() > 0 && s[0] == '-';
    let rest = if negative {
        s.drop_first()
    } else {
        s
    };
    let point = index_from(rest, '.', 0);
    let int_part = match point {
        Some(i) => rest.subrange(0, i),
        None => rest,
    };
    let frac_part = match point {
        Some(i) => rest.subrange(i + 1, rest.len() as int),
        None => Seq::empty(),
    };
    let value = digits_value(int_part + frac_part);
    if int_part.len() + frac_part.len() > 0 && all_digits(int_part) && all_digits(frac_part)
        && frac_part.len() <= 255 && value <= i64::MAX {
        Some(
            (
                if negative {
                    (-(value as int)) as i64
                } else {
                    value as i64
                },
                frac_part.len() as u8,
            ),
        )
    } else {
        None
    }
}

/// The place of a character, if any, is where it stands.
pub proof fn lemma_index_from(s: Seq<char>, c: char, i: int)
    requires
        0 <= i,
    ensures
        match index_from(s, c, i) {
            Some(k) => i <= k < s.len() && s[k] == c && forall|j: int| i <= j < k ==> s[j] != c,
            None => forall|j: int| i <= j < s.len() ==> s[j] != c,
        },
    decreases s.len() - i,
{
    if i < s.len() && s[i] != c {
        lemma_index_from(s, c, i + 1);
    }
}

/// Parse a numeric string like `"123.45"`, `"-5"`, or `".5"` into
/// `(unscaled, scale)` at the scale as written.
pub fn parse_decimal_literal(s: &str, column_name: &str) -> (r: Result<(i64, u8), Error>)
    ensures
        match r {
            Ok(v) => parsed_decimal(s@) == Some(v),
            Err(e) => parsed_decimal(s@) is None && e@ == incorrect_decimal(s@, column_name@),
        },
{
    let invalid = Error::Execution(
        cat5("Incorrect decimal value: '", s, "' for column '", column_name, "'"),
    );
    let chars = chars_of(s);
    let len: usize = chars.len();
    let negative: bool = len > 0 && chars[0] == '-';
    let from: usize = if negative {
        1
    } else {
        0
    };
    let rest = vstd::slice::slice_subrange(chars.as_slice(), from, len);
    let n: usize = rest.len();
    proof {
        assert(rest@ =~= if negative {
            s@.drop_first()
        } else {
            s@
        });
        assert(rest@.take(n as int) =~= rest@);
    }
    let (int_end, frac_start): (usize, usize) = match find_char(rest, '.', 0, n) {
        Some(i) => (i, i + 1),
        None => (n, n),
    };
    let ghost int_part = rest@.subrange(0, int_end as int);
    let ghost frac_part = rest@.subrange(frac_start as int, n as int);
    let mut digits: Vec<char> = vstd::slice::slice_to_vec(
        vstd::slice::slice_subrange(rest, 0, int_end),
    );
    digits.extend_from_slice(vstd::slice::slice_subrange(rest, frac_start, n));
    proof {
        assert(index_from(rest@, '.', 0) is None ==> int_part =~= rest@ && frac_part
            =~= Seq::empty());
        assert(digits@ =~= int_part + frac_part);
        assert(digits@.subrange(0, digits@.len() as int) =~= digits@);
        lemma_all_digits_concat(int_part, frac_part);
    }
    let frac_len: usize = n - frac_start;
    if digits.len() == 0 || frac_len > 255 {
        return Err(invalid);
    }
    match read_digits(digits.as_slice(), 0, digits.len()) {
        Some(v) => {
            if v > 0x7fff_ffff_ffff_ffff {
                return Err(invalid);
            }
            Ok(
                (
                    if negative {
                        -(v as i64)
                    } else {
                        v as i64
                    },
                    frac_len as u8,
                ),
            )
        },
        None => Err(invalid),
    }
}

proof fn lemma_all_digits_concat(a: Seq<char>, b: Seq<char>)
    ensures
        all_digits(a + b) == (all_digits(a) && all_digits(b)),
{
    let ab = a + b;
    if all_digits(ab) {
        assert forall|i: int| 0 <= i < a.len() implies is_digit(#[trigger] a[i]) by {
            assert(is_digit(ab[i]));
        }
        assert forall|i: int| 0 <= i < b.len() implies is_digit(#[trigger] b[i]) by {
            assert(is_digit(ab[a.len() + i]));
        }
    }
}

// ---------- dates ----------

/// The error for text that is no date.
pub open spec fn incorrect_date(s: Seq<char>, column: Seq<char>) -> ErrorV {
    ErrorV::Execution("Incorrect date value: '"@ + s + "' for column '"@ + column + "'"@)
}

/// Whether `s` is a `YYYY-MM-DD` date: exactly that shape, month 01-12, day
/// 01-31. The calendar beyond that is not consulted.
pub open spec fn is_date(s: Seq<char>) -> bool {
    &&& s.len() == 10
    &&& s[4] == '-'
    &&& s[7] == '-'
    &&& all_digits(s.subrange(0, 4))
    &&& all_digits(s.subrange(5, 7))
    &&& all_digits(s.subrange(8, 10))
    &&& 1 <= digits_value(s.subrange(5, 7)) <= 12
    &&& 1 <= digits_value(s.subrange(8, 10)) <= 31
}

/// Validate a `'YYYY-MM-DD'` date literal.
pub fn parse_date_literal(s: &str, column_name: &str) -> (r: Result<String, Error>)
    ensures
        match r {
            Ok(d) => is_date(s@) && d@ == s@,
            Err(e) => !is_date(s@) && e@ == incorrect_date(s@, column_name@),
        },
{
    let invalid = Error::Execution(
        cat5("Incorrect date value: '", s, "' for column '", column_name, "'"),
    );
    let chars = chars_of(s);
    if chars.len() != 10 || chars[4] != '-' || chars[7] != '-' {
        return Err(invalid);
    }
    let year = read_digits(chars.as_slice(), 0, 4);
    let month = read_digits(chars.as_slice(), 5, 7);
    let day = read_digits(chars.as_slice(), 8, 10);
    proof {
        if all_digits(s@.subrange(0, 4)) {
            lemma_short_value(s@.subrange(0, 4));
        }
    }
    match (year, month, day) {
        (Some(_), Some(m), Some(d)) => {
            if 1 <= m && m <= 12 && 1 <= d && d <= 31 {
                Ok(s.to_string())
            } else {
                Err(invalid)
            }
        },
        _ => Err(invalid),
    }
}

proof fn lemma_short_value(s: Seq<char>)
    requires
        all_digits(s),
        s.len() <= 4,
    ensures
        digits_value(s) < 10000,
{
    reveal_with_fuel(digits_value, 5);
    assert forall|i: int| 0 <= i < s.len() implies is_digit(#[trigger] s[i]) by {}
    if s.len() > 0 {
        let a = s.drop_last();
        assert(is_digit(s[s.len() - 1]));
        if a.len() > 0 {
            let b = a.drop_last();
            assert(is_digit(s[a.len() - 1]));
            if b.len() > 0 {
                let c = b.drop_last();
                assert(is_digit(s[b.len() - 1]));
                if c.len() > 0 {
                    assert(is_digit(s[c.len() - 1]));
                }
            }
        }
    }
}

// ---------- types and schemas ----------

/// A column's declared type.
#[derive(Debug, Clone, Copy, PartialEq, Eq, Structural)]
pub enum ColumnType {
    Int,
    Varchar,
    /// Exact fixed point, carrying the declared scale (digits after the
    /// point): `DECIMAL` or `DECIMAL(M)` is scale 0, `DECIMAL(M, D)` scale
    /// `D`.
    Decimal(u8),
    Date,
}

/// What an unsigned numeral denotes: an optional `+`, then one or more digits,
/// at most 255.
pub open spec fn parsed_u8(s: Seq<char>) -> Option<u8> {
    let digits = if s.len() > 0 && s[0] == '+' {
        s.drop_first()
    } else {
        s
    };
    if digits.len() > 0 && all_digits(digits) && digits_value(digits) <= 255 {
        Some(digits_value(digits) as u8)
    } else {
        None
    }
}

/// The second of the comma-separated pieces of `s`, if there is one.
pub open spec fn second_piece(s: Seq<char>) -> Option<Seq<char>> {
    match index_from(s, ',', 0) {
        None => None,
        Some(i) => Some(
            s.subrange(
                i + 1,
                match index_from(s, ',', i + 1) {
                    Some(j) => j,
                    None => s.len() as int,
                },
            ),
        ),
    }
}

/// The scale in a `DECIMAL(M, D)`; 0 for any other form.
pub open spec fn scale_of(type_text: Seq<char>) -> u8 {
    match index_from(type_text, '(', 0) {
        None => 0,
        Some(i) => {
            let rest = type_text.subrange(i + 1, type_text.len() as int);
            if rest.len() > 0 && rest.last() == ')' {
                match second_piece(rest.drop_last()) {
                    None => 0,
                    Some(scale) => match parsed_u8(trim(scale)) {
                        Some(n) => n,
                        None => 0,
                    },
                }
            } else {
                0
            }
        },
    }
}

/// The part of a type that names it, before any `(`.
pub open spec fn base_name(type_text: Seq<char>) -> Seq<char> {
    trim(
        match index_from(type_text, '(', 0) {
            Some(i) => type_text.subrange(0, i),
            None => type_text,
        },
    )
}

/// The type a name written in `CREATE TABLE` stands for.
pub open spec fn type_named(name: Seq<char>) -> Option<ColumnType> {
    let trimmed = trim(name);
    let base = upper(base_name(trimmed));
    if base == "INT"@ || base == "INTEGER"@ || base == "BIGINT"@ || base == "SMALLINT"@ || base
        == "TINYINT"@ || base == "MEDIUMINT"@ || base == "BOOLEAN"@ || base == "BOOL"@ {
        Some(ColumnType::Int)
    } else if base == "VARCHAR"@ || base == "CHAR"@ || base == "TEXT"@ || base == "TINYTEXT"@
        || base == "MEDIUMTEXT"@ || base == "LONGTEXT"@ || base == "BLOB"@ || base == "TINYBLOB"@
        || base == "MEDIUMBLOB"@ || base == "LONGBLOB"@ {
        Some(ColumnType::Varchar)
    } else if base == "DATE"@ {
        Some(ColumnType::Date)
    } else if base == "DECIMAL"@ || base == "NUMERIC"@ || base == "DEC"@ {
        Some(ColumnType::Decimal(scale_of(trimmed)))
    } else {
        None
    }
}

fn read_u8(chars: &[char], from: usize, to: usize) -> (r: Option<u8>)
    requires
        from <= to <= chars@.len(),
    ensures
        r == parsed_u8(chars@.subrange(from as int, to as int)),
{
    let ghost all = chars@.subrange(from as int, to as int);
    let mut start: usize = from;
    if from < to && chars[from] == '+' {
        start = from + 1;
    }
    proof {
        if from < to {
            assert(all[0] == chars@[from as int]);
            assert(all.drop_first() =~= chars@.subrange(from + 1, to as int));
        }
    }
    if start == to {
        return None;
    }
    match read_digits(chars, start, to) {
        Some(v) => if v <= 255 {
            Some(v as u8)
        } else {
            None
        },
        None => None,
    }
}

/// Parse the scale (second, comma-separated number) out of a `DECIMAL(M, D)`
/// suffix; any other form means scale 0.
fn decimal_scale(type_text: &[char]) -> (r: u8)
    ensures
        r == scale_of(type_text@),
{
    let len: usize = type_text.len();
    proof {
        assert(type_text@.take(len as int) =~= type_text@);
        lemma_index_from(type_text@, '(', 0);
    }
    let open: usize = match find_char(type_text, '(', 0, len) {
        Some(i) => i,
        None => {
            return 0;
        },
    };
    let ghost rest = type_text@.subrange(open + 1, len as int);
    if open + 1 == len || type_text[len - 1] != ')' {
        proof {
            if open + 1 < len {
                assert(rest.last() == type_text@[len - 1]);
            }
        }
        return 0;
    }
    let inner = vstd::slice::slice_subrange(type_text, open + 1, len - 1);
    let n: usize = inner.len();
    proof {
        assert(rest.last() == type_text@[len - 1]);
        assert(inner@ =~= rest.drop_last());
        assert(inner@.take(n as int) =~= inner@);
        lemma_index_from(inner@, ',', 0);
    }
    let first: usize = match find_char(inner, ',', 0, n) {
        Some(i) => i,
        None => {
            return 0;
        },
    };
    let second: usize = match find_char(inner, ',', first + 1, n) {
        Some(j) => j,
        None => n,
    };
    let (a, b) = trim_bounds(inner, first + 1, second);
    match read_u8(inner, a, b) {
        Some(v) => v,
        None => 0,
    }
}

impl ColumnType {
    /// Recognize a type name as written in `CREATE TABLE` (case-insensitive),
    /// e.g. `"VARCHAR(255)"` or `"DECIMAL(10,2)"`. Many type names share one
    /// representation: every integer width (including `BOOLEAN` and `BOOL`)
    /// stores as `Int`, every string, text or blob kind as `Varchar`, so they
    /// are accepted as synonyms.
    pub fn from_name(name: &str) -> (r: Option<Self>)
        ensures
            r == type_named(name@),
    {
        let all = chars_of(name);
        proof {
            assert(all@.subrange(0, all@.len() as int) =~= name@);
        }
        let (from, to) = trim_bounds(all.as_slice(), 0, all.len());
        let trimmed = vstd::slice::slice_subrange(all.as_slice(), from, to);
        let len: usize = trimmed.len();
        proof {
            assert(trimmed@.take(len as int) =~= trimmed@);
            assert(trimmed@.subrange(0, len as int) =~= trimmed@);
        }
        let end: usize = match find_char(trimmed, '(', 0, len) {
            Some(i) => i,
            None => len,
        };
        let (a, b) = trim_bounds(trimmed, 0, end);
        let base = to_upper(text_of(trimmed, a, b).as_str());
        let base = base.as_str();
        if same_text(base, "INT") || same_text(base, "INTEGER") || same_text(base, "BIGINT")
            || same_text(base, "SMALLINT") || same_text(base, "TINYINT") || same_text(
            base,
            "MEDIUMINT",
        ) || same_text(base, "BOOLEAN") || same_text(base, "BOOL") {
            Some(ColumnType::Int)
        } else if same_text(base, "VARCHAR") || same_text(base, "CHAR") || same_text(base, "TEXT")
            || same_text(base, "TINYTEXT") || same_text(base, "MEDIUMTEXT") || same_text(
            base,
            "LONGTEXT",
        ) || same_text(base, "BLOB") || same_text(base, "TINYBLOB") || same_text(
            base,
            "MEDIUMBLOB",
        ) || same_text(base, "LONGBLOB") {
            Some(ColumnType::Varchar)
        } else if same_text(base, "DATE") {
            Some(ColumnType::Date)
        } else if same_text(base, "DECIMAL") || same_text(base, "NUMERIC") || same_text(
            base,
            "DEC",
        ) {
            Some(ColumnType::Decimal(decimal_scale(trimmed)))
        } else {
            None
        }
    }
}

/// A single column's name and type.
#[derive(Debug, Clone, PartialEq)]
pub struct ColumnSchema {
    pub name: String,
    pub column_type: ColumnType,
    /// Whether `NULL` is a legal value. A primary-key column is always
    /// non-nullable.
    pub nullable: bool,
    /// Whether this column takes the next sequential integer when its value
    /// is `NULL`.
    pub auto_increment: bool,
}

/// The content of a [`ColumnSchema`].
pub ghost struct ColumnSchemaV {
    pub name: Seq<char>,
    pub column_type: ColumnType,
    pub nullable: bool,
    pub auto_increment: bool,
}

impl View for ColumnSchema {
    type V = ColumnSchemaV;

    open spec fn view(&self) -> ColumnSchemaV {
        ColumnSchemaV {
            name: self.name@,
            column_type: self.column_type,
            nullable: self.nullable,
            auto_increment: self.auto_increment,
        }
    }
}

impl Duplicate for ColumnSchema {
    fn duplicate(&self) -> (r: Self) {
        ColumnSchema {
            name: self.name.clone(),
            column_type: self.column_type,
            nullable: self.nullable,
            auto_increment: self.auto_increment,
        }
    }
}

/// A table's full schema.
#[derive(Debug, Clone)]
pub struct TableSchema {
    pub columns: Vec<ColumnSchema>,
    /// The column serving as the primary key, if any.
    pub primary_key: Option<String>,
}

/// The content of a [`TableSchema`].
pub ghost struct TableSchemaV {
    pub columns: Seq<ColumnSchemaV>,
    pub primary_key: Option<Seq<char>>,
}

impl View for TableSchema {
    type V = TableSchemaV;

    open spec fn view(&self) -> TableSchemaV {
        TableSchemaV { columns: views(self.columns@), primary_key: opt_view(self.primary_key) }
    }
}

impl Duplicate for TableSchema {
    fn duplicate(&self) -> (r: Self) {
        TableSchema {
            columns: duplicate_all(&self.columns),
            primary_key: duplicate_opt(&self.primary_key),
        }
    }
}

} // verus!
