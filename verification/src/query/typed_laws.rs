//! What comparisons mean, and what literals become in a column.
use vstd::arithmetic::power::pow;
use vstd::prelude::*;

use crate::query::ast::{CompareOp, ExprV};
use crate::query::eval::{coerced, fits_pattern, holds, is_like, text_order};
use crate::query::order::{lemma_text_less_irreflexive, lemma_text_less_total};
use crate::storage::value::{
    is_date, lemma_pow10, parsed_decimal, rescaled, ColumnType, ValueV,
};
use crate::text::{
    law_numerals_read_back, lemma_decimal_round_trip, lower, lower_char, parsed_i64, text_less,
};

verus! {

// ---------- the order of texts ----------

/// Whether `a` and `b` agree in front of place `k`, and there `a` has ended or
/// has the lesser character.
pub open spec fn parts_at(a: Seq<char>, b: Seq<char>, k: int) -> bool {
    &&& 0 <= k <= a.len()
    &&& k < b.len()
    &&& forall|i: int| 0 <= i < k ==> #[trigger] a[i] == b[i]
    &&& k == a.len() || a[k] < b[k]
}

/// Whether `a` comes before `b` in a dictionary of code points.
pub open spec fn precedes(a: Seq<char>, b: Seq<char>) -> bool {
    exists|k: int| parts_at(a, b, k)
}

/// Texts are ordered as in a dictionary: by the first place where they differ.
pub proof fn law_texts_are_ordered_as_in_a_dictionary(a: Seq<char>, b: Seq<char>)
    ensures
        text_less(a, b) <==> precedes(a, b),
    decreases a.len(),
{
    if a.len() > 0 && b.len() > 0 && a[0] == b[0] {
        let x = a.drop_first();
        let y = b.drop_first();
        law_texts_are_ordered_as_in_a_dictionary(x, y);
        if precedes(x, y) {
            let k = choose|k: int| parts_at(x, y, k);
            assert forall|i: int| 0 <= i < k + 1 implies #[trigger] a[i] == b[i] by {
                if i > 0 {
                    assert(x[i - 1] == y[i - 1]);
                }
            }
            assert(parts_at(a, b, k + 1));
        }
        if precedes(a, b) {
            let k = choose|k: int| parts_at(a, b, k);
            assert(k > 0);
            assert forall|i: int| 0 <= i < k - 1 implies #[trigger] x[i] == y[i] by {
                assert(a[i + 1] == b[i + 1]);
            }
            assert(parts_at(x, y, k - 1));
        }
    } else if a.len() > 0 && b.len() > 0 {
        if a[0] < b[0] {
            assert(parts_at(a, b, 0));
        }
        if precedes(a, b) {
            let k = choose|k: int| parts_at(a, b, k);
            if k > 0 {
                assert(a[0] == b[0]);
            }
        }
    } else if a.len() == 0 && b.len() > 0 {
        assert(parts_at(a, b, 0));
    }
}

// ---------- comparisons ----------

/// Two numbers compare as numbers do, by each operator.
pub proof fn law_numbers_compare_as_numbers(a: i64, b: i64)
    ensures
        holds(ValueV::Int(a), CompareOp::Eq, ValueV::Int(b)) <==> a == b,
        holds(ValueV::Int(a), CompareOp::NotEq, ValueV::Int(b)) <==> a != b,
        holds(ValueV::Int(a), CompareOp::Lt, ValueV::Int(b)) <==> a < b,
        holds(ValueV::Int(a), CompareOp::Gt, ValueV::Int(b)) <==> a > b,
        holds(ValueV::Int(a), CompareOp::Le, ValueV::Int(b)) <==> a <= b,
        holds(ValueV::Int(a), CompareOp::Ge, ValueV::Int(b)) <==> a >= b,
{
}

/// So do two fixed-point numbers of one scale.
pub proof fn law_decimals_compare_as_numbers(a: i64, b: i64, scale: u8)
    ensures
        holds(ValueV::Decimal(a, scale), CompareOp::Eq, ValueV::Decimal(b, scale)) <==> a == b,
        holds(ValueV::Decimal(a, scale), CompareOp::NotEq, ValueV::Decimal(b, scale)) <==> a != b,
        holds(ValueV::Decimal(a, scale), CompareOp::Lt, ValueV::Decimal(b, scale)) <==> a < b,
        holds(ValueV::Decimal(a, scale), CompareOp::Gt, ValueV::Decimal(b, scale)) <==> a > b,
        holds(ValueV::Decimal(a, scale), CompareOp::Le, ValueV::Decimal(b, scale)) <==> a <= b,
        holds(ValueV::Decimal(a, scale), CompareOp::Ge, ValueV::Decimal(b, scale)) <==> a >= b,
{
}

/// Whether a comparison of two texts holds: equality is that of every
/// character, and the order is that of a dictionary.
pub open spec fn texts_compare(a: Seq<char>, op: CompareOp, b: Seq<char>) -> bool {
    match op {
        CompareOp::Eq => a == b,
        CompareOp::NotEq => a != b,
        CompareOp::Lt => precedes(a, b),
        CompareOp::Gt => precedes(b, a),
        CompareOp::Le => a == b || precedes(a, b),
        CompareOp::Ge => a == b || precedes(b, a),
    }
}

proof fn lemma_text_order(a: Seq<char>, b: Seq<char>)
    ensures
        text_order(a, b) == 0 <==> a == b,
        text_order(a, b) < 0 <==> precedes(a, b),
        text_order(a, b) > 0 <==> precedes(b, a),
{
    law_texts_are_ordered_as_in_a_dictionary(a, b);
    law_texts_are_ordered_as_in_a_dictionary(b, a);
    lemma_text_less_total(a, b);
    lemma_text_less_irreflexive(a);
    if text_less(a, b) && text_less(b, a) {
        crate::query::order::lemma_text_less_transitive(a, b, a);
    }
}

/// Texts, and dates, compare as in a dictionary; values of different kinds
/// compare by the texts that are shown for them.
pub proof fn law_texts_compare_as_in_a_dictionary(
    a: Seq<char>,
    op: CompareOp,
    b: Seq<char>,
    n: i64,
)
    ensures
        holds(ValueV::Varchar(a), op, ValueV::Varchar(b)) <==> texts_compare(a, op, b),
        holds(ValueV::Date(a), op, ValueV::Date(b)) <==> texts_compare(a, op, b),
        holds(ValueV::Date(a), op, ValueV::Varchar(b)) <==> texts_compare(a, op, b),
        holds(ValueV::Varchar(a), op, ValueV::Date(b)) <==> texts_compare(a, op, b),
        holds(ValueV::Int(n), op, ValueV::Varchar(b)) <==> texts_compare(
            ValueV::Int(n).shown(),
            op,
            b,
        ),
        holds(ValueV::Varchar(a), op, ValueV::Int(n)) <==> texts_compare(
            a,
            op,
            ValueV::Int(n).shown(),
        ),
        ValueV::Varchar(a).shown() == a,
        ValueV::Date(a).shown() == a,
        parsed_i64(ValueV::Int(n).shown()) == Some(n),
{
    lemma_text_order(a, b);
    lemma_text_order(ValueV::Int(n).shown(), b);
    lemma_text_order(a, ValueV::Int(n).shown());
    law_numerals_read_back(n);
}

/// Values of different kinds, and fixed-point numbers of different scales,
/// compare by the texts that are shown for them.
pub proof fn law_mixed_values_compare_as_shown(a: ValueV, op: CompareOp, b: ValueV)
    requires
        a != ValueV::Null,
        b != ValueV::Null,
        !(a is Int && b is Int),
        !(a matches ValueV::Decimal(_, s) && b matches ValueV::Decimal(_, t) && s == t),
    ensures
        holds(a, op, b) <==> texts_compare(a.shown(), op, b.shown()),
{
    lemma_text_order(a.shown(), b.shown());
}

/// The comparisons of any two values that are not `NULL` fit together: of
/// less, equal and greater exactly one holds, the other three are made of
/// those, and turning a comparison round turns the operator round.
pub proof fn law_comparisons_fit_together(a: ValueV, b: ValueV)
    requires
        a != ValueV::Null,
        b != ValueV::Null,
    ensures
        holds(a, CompareOp::Lt, b) || holds(a, CompareOp::Eq, b) || holds(a, CompareOp::Gt, b),
        !(holds(a, CompareOp::Lt, b) && holds(a, CompareOp::Eq, b)),
        !(holds(a, CompareOp::Gt, b) && holds(a, CompareOp::Eq, b)),
        !(holds(a, CompareOp::Lt, b) && holds(a, CompareOp::Gt, b)),
        holds(a, CompareOp::Le, b) <==> holds(a, CompareOp::Lt, b) || holds(a, CompareOp::Eq, b),
        holds(a, CompareOp::Ge, b) <==> holds(a, CompareOp::Gt, b) || holds(a, CompareOp::Eq, b),
        holds(a, CompareOp::Le, b) <==> !holds(a, CompareOp::Gt, b),
        holds(a, CompareOp::Ge, b) <==> !holds(a, CompareOp::Lt, b),
        holds(a, CompareOp::NotEq, b) <==> !holds(a, CompareOp::Eq, b),
        holds(a, CompareOp::Lt, b) <==> holds(b, CompareOp::Gt, a),
        holds(a, CompareOp::Le, b) <==> holds(b, CompareOp::Ge, a),
        holds(a, CompareOp::Eq, b) <==> holds(b, CompareOp::Eq, a),
        holds(a, CompareOp::Eq, a),
{
    lemma_text_order(a.shown(), b.shown());
    lemma_text_order(b.shown(), a.shown());
    lemma_text_order(a.shown(), a.shown());
}

// ---------- LIKE ----------

/// A pattern of plain characters fits that text alone, whatever the case.
pub proof fn law_plain_patterns_fit_themselves(p: Seq<char>, t: Seq<char>)
    requires
        forall|i: int| 0 <= i < p.len() ==> #[trigger] p[i] != '%' && p[i] != '_',
    ensures
        is_like(p, t) <==> p.len() == t.len() && forall|i: int|
            0 <= i < p.len() ==> lower_char(#[trigger] p[i]) == lower_char(t[i]),
{
    let a = lower(p);
    let b = lower(t);
    assert forall|i: int| 0 <= i < a.len() implies #[trigger] a[i] != '%' && a[i] != '_' by {
        assert(p[i] != '%' && p[i] != '_');
    }
    lemma_plain_fits(a, b);
    if a == b {
        assert(p.len() == t.len());
        assert forall|i: int| 0 <= i < p.len() implies lower_char(#[trigger] p[i]) == lower_char(
            t[i],
        ) by {
            assert(a[i] == b[i]);
        }
    }
    if p.len() == t.len() && forall|i: int|
        0 <= i < p.len() ==> lower_char(#[trigger] p[i]) == lower_char(t[i]) {
        assert(a =~= b);
    }
}

proof fn lemma_plain_fits(p: Seq<char>, t: Seq<char>)
    requires
        forall|i: int| 0 <= i < p.len() ==> #[trigger] p[i] != '%' && p[i] != '_',
    ensures
        fits_pattern(p, t) <==> p == t,
    decreases p.len(),
{
    if p.len() > 0 {
        assert(p[p.len() - 1] != '%');
        if t.len() > 0 {
            lemma_plain_fits(p.drop_last(), t.drop_last());
            if p.drop_last() == t.drop_last() && p.last() == t.last() {
                assert(p =~= p.drop_last().push(p.last()));
                assert(t =~= t.drop_last().push(t.last()));
            }
        }
    } else if t.len() == 0 {
        assert(p =~= t);
    }
}

/// Any other character at the end of a pattern fits that character at the end
/// of a text, whatever its case, and no other.
pub proof fn law_other_characters_fit_themselves(p: Seq<char>, t: Seq<char>, c: char, d: char)
    requires
        c != '%' && c != '_',
    ensures
        is_like(p.push(c), t.push(d)) <==> is_like(p, t) && lower_char(c) == lower_char(d),
        is_like(Seq::empty(), t) <==> t == Seq::<char>::empty(),
{
    assert(lower(p.push(c)) =~= lower(p).push(lower_char(c)));
    assert(lower(t.push(d)) =~= lower(t).push(lower_char(d)));
    assert(lower(p).push(lower_char(c)).drop_last() =~= lower(p));
    assert(lower(t).push(lower_char(d)).drop_last() =~= lower(t));
    assert(t.len() == 0 ==> t =~= Seq::<char>::empty());
}

/// `%` at the end of a pattern fits whatever follows, `_` any one character,
/// and `%` alone every text.
pub proof fn law_wildcards_fit(p: Seq<char>, t: Seq<char>, more: Seq<char>, c: char)
    ensures
        is_like(p, t) ==> is_like(p.push('%'), t + more),
        is_like(p, t) <==> is_like(p.push('_'), t.push(c)),
        !is_like(p.push('_'), Seq::empty()),
        c != '%' && c != '_' ==> !is_like(p.push(c), Seq::empty()),
        is_like(seq!['%'], t),
        is_like(p.push('%'), t) ==> exists|k: int|
            0 <= k <= t.len() && is_like(p, #[trigger] t.take(k)),
{
    let a = lower(p);
    let b = lower(t);
    assert(lower(p.push('%')) =~= a.push('%'));
    assert(lower(p.push('_')) =~= a.push('_'));
    assert(lower(p.push(c)) =~= a.push(lower_char(c)));
    assert(lower(Seq::<char>::empty()) =~= Seq::<char>::empty());
    assert(a.push('%').drop_last() =~= a);
    assert(a.push('_').drop_last() =~= a);
    assert(lower(t + more) =~= b + lower(more));
    assert((b + lower(more)).take(b.len() as int) =~= b);
    assert(lower(t.push(c)) =~= b.push(lower_char(c)));
    assert(b.push(lower_char(c)).drop_last() =~= b);
    let one = lower(seq!['%']);
    assert(one =~= seq!['%']);
    assert(one.drop_last() =~= Seq::empty());
    assert(b.take(0) =~= Seq::empty());
    assert(fits_pattern(one.drop_last(), b.take(0)));
    if is_like(p.push('%'), t) {
        let k = choose|k: int| 0 <= k <= b.len() && fits_pattern(a, #[trigger] b.take(k));
        assert(lower(t.take(k)) =~= b.take(k));
        assert(is_like(p, t.take(k)));
    }
}

// ---------- literals in columns ----------

/// Whether a number taken from one scale to another is still the nearest there
/// is: exact where digits are only added, and otherwise off by no more than
/// half a unit, with halves going away from zero.
pub open spec fn nearest(n: int, from: nat, m: int, to: nat) -> bool {
    if from <= to {
        m == n * pow(10, (to - from) as nat)
    } else {
        let unit = pow(10, (from - to) as nat);
        let off = m * unit - n;
        &&& -unit <= 2 * off <= unit
        &&& n >= 0 && 2 * off == -unit ==> false
        &&& n < 0 && 2 * off == unit ==> false
    }
}

/// A number that is taken to another scale is as near to itself as that scale
/// allows.
pub proof fn law_rescaling_is_to_the_nearest(n: i64, from: u8, to: u8, column: Seq<char>)
    ensures
        rescaled(n, from, to, column) matches Ok(m) ==> nearest(
            n as int,
            from as nat,
            m as int,
            to as nat,
        ),
        from <= to ==> (rescaled(n, from, to, column) is Ok <==> pow(10, (to - from) as nat)
            <= i64::MAX && i64::MIN <= n * pow(10, (to - from) as nat) <= i64::MAX),
        to < from ==> (rescaled(n, from, to, column) is Ok <==> pow(10, (from - to) as nat)
            <= u64::MAX),
{
    if to < from {
        let d = (from - to) as nat;
        let unit = pow(10, d);
        lemma_pow10(d);
        vstd::arithmetic::power::lemma_pow0(10);
        lemma_unit_is_even(d);
        let size: int = if n < 0 {
            -(n as int)
        } else {
            n as int
        };
        let half = unit / 2;
        let shrunk = (size + half) / unit;
        assert(2 * half == unit);
        assert(shrunk * unit <= size + half && size + half < shrunk * unit + unit) by (nonlinear_arith)
            requires
                unit >= 1,
                size >= 0,
                half >= 0,
                shrunk == (size + half) / unit,
        ;
        assert(0 <= shrunk <= size + half) by (nonlinear_arith)
            requires
                unit >= 1,
                size >= 0,
                half >= 0,
                shrunk == (size + half) / unit,
        ;
        assert(shrunk <= size) by (nonlinear_arith)
            requires
                shrunk * unit <= size + half,
                2 * half == unit,
                unit >= 2,
                size >= 0,
                shrunk >= 0,
        ;
        if n < 0 {
            assert((-shrunk) * unit == -(shrunk * unit)) by (nonlinear_arith);
        }
    }
}

proof fn lemma_unit_is_even(d: nat)
    requires
        d > 0,
    ensures
        pow(10, d) % 2 == 0,
        pow(10, d) >= 2,
{
    let rest = pow(10, (d - 1) as nat);
    vstd::arithmetic::power::lemma_pow1(10);
    vstd::arithmetic::power::lemma_pow_adds(10, 1, (d - 1) as nat);
    vstd::arithmetic::power::lemma_pow_positive(10, (d - 1) as nat);
    assert(pow(10, d) == 10 * rest);
}

/// Whether `v` is what a literal stands for in a column of type `t`.
pub open spec fn stands_for(e: ExprV, t: ColumnType, v: ValueV) -> bool {
    match (e, t) {
        (ExprV::Null, _) => v == ValueV::Null,
        (ExprV::Integer(n), ColumnType::Int) => v == ValueV::Int(n),
        (ExprV::String(s), ColumnType::Varchar) => v == ValueV::Varchar(s),
        (ExprV::Integer(n), ColumnType::Varchar) => v matches ValueV::Varchar(s) && parsed_i64(s)
            == Some(n) && s[0] != '+',
        (ExprV::String(s), ColumnType::Int) => parsed_i64(s) matches Some(n) && v == ValueV::Int(n),
        (ExprV::Integer(n), ColumnType::Decimal(scale)) => v matches ValueV::Decimal(m, d) && d
            == scale && nearest(n as int, 0, m as int, scale as nat),
        (ExprV::String(s), ColumnType::Decimal(scale)) => v matches ValueV::Decimal(m, d) && d
            == scale && (parsed_decimal(s) matches Some((n, from)) && nearest(
            n as int,
            from as nat,
            m as int,
            scale as nat,
        )),
        (ExprV::String(s), ColumnType::Date) => v == ValueV::Date(s) && is_date(s),
        _ => false,
    }
}

/// Whether a literal fits a column of type `t`.
pub open spec fn fits_column(e: ExprV, t: ColumnType) -> bool {
    match (e, t) {
        (ExprV::Null, _) => true,
        (ExprV::Integer(n), ColumnType::Int) => true,
        (ExprV::Integer(n), ColumnType::Varchar) => true,
        (ExprV::String(s), ColumnType::Varchar) => true,
        (ExprV::String(s), ColumnType::Int) => parsed_i64(s) is Some,
        (ExprV::String(s), ColumnType::Date) => is_date(s),
        (ExprV::Integer(n), ColumnType::Decimal(scale)) => fits_scale(n, 0, scale),
        (ExprV::String(s), ColumnType::Decimal(scale)) => parsed_decimal(s) matches Some((n, from))
            && fits_scale(n, from, scale),
        _ => false,
    }
}

/// Whether a number can be taken from one scale to another: where digits are
/// added the result has to fit, and where they are dropped there must not be
/// too many.
pub open spec fn fits_scale(n: i64, from: u8, to: u8) -> bool {
    if from <= to {
        pow(10, (to - from) as nat) <= i64::MAX && i64::MIN <= n * pow(10, (to - from) as nat)
            <= i64::MAX
    } else {
        pow(10, (from - to) as nat) <= u64::MAX
    }
}

/// A literal is kept in a column as what it stands for, or refused; it is
/// refused exactly where it does not fit.
pub proof fn law_literals_keep_their_value(e: ExprV, t: ColumnType, column: Seq<char>)
    ensures
        coerced(e, t, column) matches Ok(v) ==> stands_for(e, t, v),
        fits_column(e, t) <==> coerced(e, t, column) is Ok,
        !(e is Null || e is Integer || e is String) ==> coerced(e, t, column) is Err,
{
    match e {
        ExprV::Integer(n) => {
            law_numerals_read_back(n);
            match t {
                ColumnType::Varchar => {
                    lemma_decimal_round_trip(
                        if n < 0 {
                            -(n as int)
                        } else {
                            n as int
                        } as nat,
                    );
                    assert(crate::text::is_digit(
                        crate::text::decimal(
                            if n < 0 {
                                -(n as int)
                            } else {
                                n as int
                            } as nat,
                        )[0],
                    ));
                },
                ColumnType::Decimal(scale) => law_rescaling_is_to_the_nearest(n, 0, scale, column),
                ColumnType::Date => {
                    lemma_numerals_are_no_dates(n);
                },
                _ => {},
            }
        },
        ExprV::String(s) => match t {
            ColumnType::Decimal(scale) => match parsed_decimal(s) {
                Some((n, from)) => law_rescaling_is_to_the_nearest(n, from, scale, column),
                None => {},
            },
            _ => {},
        },
        _ => {},
    }
}

proof fn lemma_numerals_are_no_dates(n: i64)
    ensures
        !is_date(crate::text::decimal_int(n as int)),
{
    let s = crate::text::decimal_int(n as int);
    let m = if n < 0 {
        (-(n as int)) as nat
    } else {
        n as nat
    };
    lemma_decimal_round_trip(m);
    if s.len() == 10 {
        if n < 0 {
            assert(s[4] == crate::text::decimal(m)[3]);
            assert(crate::text::is_digit(crate::text::decimal(m)[3]));
        } else {
            assert(crate::text::is_digit(crate::text::decimal(m)[4]));
        }
    }
}

} // verus!
