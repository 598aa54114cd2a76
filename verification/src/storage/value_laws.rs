//! What holds of every value.
use vstd::prelude::*;
use vstd::arithmetic::power::pow;

use crate::error::ErrorV;
use crate::storage::value::{
    decimal_text, lemma_index_from, lemma_pow10, padded, parsed_decimal, rescaled, type_named, zeros,
    ColumnType,
};
use crate::text::{
    all_digits, decimal, digits_value, index_from, is_digit, is_space, lemma_decimal_round_trip,
    trim, upper, upper_char,
};

verus! {

pub proof fn lemma_leading_zeros(n: int, digits: Seq<char>)
    requires
        all_digits(digits),
    ensures
        all_digits(zeros(n) + digits),
        digits_value(zeros(n) + digits) == digits_value(digits),
    decreases digits.len(),
{
    let all = zeros(n) + digits;
    assert forall|i: int| 0 <= i < all.len() implies is_digit(#[trigger] all[i]) by {
        if i >= zeros(n).len() {
            assert(all[i] == digits[i - zeros(n).len()]);
        }
    }
    if digits.len() == 0 {
        assert(all =~= zeros(n));
        lemma_zeros(zeros(n));
    } else {
        assert forall|i: int| 0 <= i < digits.drop_last().len() implies is_digit(
            #[trigger] digits.drop_last()[i],
        ) by {
            assert(is_digit(digits[i]));
        }
        lemma_leading_zeros(n, digits.drop_last());
        assert(all.drop_last() =~= zeros(n) + digits.drop_last());
        assert(all.last() == digits.last());
    }
}

proof fn lemma_zeros(s: Seq<char>)
    requires
        forall|i: int| 0 <= i < s.len() ==> s[i] == '0',
    ensures
        digits_value(s) == 0,
    decreases s.len(),
{
    if s.len() > 0 {
        lemma_zeros(s.drop_last());
    }
}

/// A fixed-point number reads back from its own text, at the same scale. The
/// least `i64` has no numeral that reads back.
pub proof fn law_decimal_text_reads_back(n: i64, scale: u8)
    requires
        n > i64::MIN,
    ensures
        parsed_decimal(decimal_text(n as int, scale as nat)) == Some((n, scale)),
{
    reveal_strlit("-");
    reveal_strlit(".");
    reveal_strlit("");
    let m: nat = if n < 0 {
        (-n) as nat
    } else {
        n as nat
    };
    lemma_decimal_round_trip(m);
    let text = decimal_text(n as int, scale as nat);
    if scale == 0 {
        let rest = decimal(m);
        if n < 0 {
            assert(text.drop_first() =~= rest);
        } else {
            assert(is_digit(rest[0]));
        }
        lemma_index_from(rest, '.', 0);
        match index_from(rest, '.', 0) {
            Some(k) => assert(is_digit(rest[k])),
            None => {},
        }
        assert(rest + Seq::<char>::empty() =~= rest);
    } else {
        let digits = padded(decimal(m), scale + 1);
        lemma_leading_zeros(scale + 1 - decimal(m).len(), decimal(m));
        let point = digits.len() - scale;
        let whole = digits.subrange(0, point);
        let part = digits.subrange(point, digits.len() as int);
        let rest = whole + seq!['.'] + part;
        assert("."@ =~= seq!['.']);
        if n < 0 {
            assert(text =~= seq!['-'] + rest);
            assert(text.drop_first() =~= rest);
        } else {
            assert(text =~= rest);
            assert(is_digit(digits[0]));
            assert(text[0] == digits[0]);
        }
        assert(rest[point] == '.');
        lemma_index_from(rest, '.', 0);
        match index_from(rest, '.', 0) {
            Some(k) => {
                if k < point {
                    assert(rest[k] == digits[k]);
                    assert(is_digit(digits[k]));
                }
            },
            None => {},
        }
        assert(index_from(rest, '.', 0) == Some(point));
        assert(rest.subrange(0, point) =~= whole);
        assert(rest.subrange(point + 1, rest.len() as int) =~= part);
        assert(whole + part =~= digits);
        assert(all_digits(whole)) by {
            assert forall|i: int| 0 <= i < whole.len() implies is_digit(#[trigger] whole[i]) by {
                assert(is_digit(digits[i]));
            }
        }
        assert(all_digits(part)) by {
            assert forall|i: int| 0 <= i < part.len() implies is_digit(#[trigger] part[i]) by {
                assert(is_digit(digits[point + i]));
            }
        }
    }
}

/// Taking a number to a larger scale and back loses nothing.
pub proof fn law_rescaling_up_and_down_loses_nothing(
    n: i64,
    from: u8,
    to: u8,
    column: Seq<char>,
)
    requires
        from <= to,
    ensures
        rescaled(n, from, to, column) matches Ok(m) ==> rescaled(m, to, from, column) == Ok::<
            i64,
            ErrorV,
        >(n),
{
    let d = (to - from) as nat;
    let factor = pow(10, d);
    lemma_pow10(d);
    if from == to {
        lemma_pow10(0);
        vstd::arithmetic::power::lemma_pow0(10);
        assert(n * 1 == n);
    }
    match rescaled(n, from, to, column) {
        Ok(m) => {
            assert(m == n * factor);
            let size = if n < 0 {
                -n
            } else {
                n as int
            };
            let big = if m < 0 {
                -m
            } else {
                m as int
            };
            assert(big == size * factor && (m < 0 <==> n < 0)) by (nonlinear_arith)
                requires
                    m == n * factor,
                    factor >= 1,
                    size == (if n < 0 {
                        -n
                    } else {
                        n as int
                    }),
                    big == (if m < 0 {
                        -m
                    } else {
                        m as int
                    }),
            ;
            assert((size * factor + factor / 2) / factor == size) by (nonlinear_arith)
                requires
                    factor >= 1,
                    size >= 0,
            ;
            assert(factor <= u64::MAX);
        },
        Err(_) => {},
    }
}

// ---------- declared types ----------

/// Whether a name is one of those of the fixed-point type, in any case.
pub open spec fn names_decimal(base: Seq<char>) -> bool {
    upper(base) == "DECIMAL"@ || upper(base) == "NUMERIC"@ || upper(base) == "DEC"@
}

proof fn lemma_decimal_name(base: Seq<char>)
    requires
        names_decimal(base),
    ensures
        base.len() > 0,
        forall|i: int|
            0 <= i < base.len() ==> !is_space(#[trigger] base[i]) && base[i] != '(' && base[i]
                != ')' && base[i] != ',',
{
    reveal_strlit("DECIMAL");
    reveal_strlit("NUMERIC");
    reveal_strlit("DEC");
    let w = upper(base);
    assert(w.len() == base.len());
    assert forall|i: int| 0 <= i < base.len() implies !is_space(#[trigger] base[i]) && base[i] != '('
        && base[i] != ')' && base[i] != ',' by {
        assert(w[i] == upper_char(base[i]));
        assert('A' <= w[i] <= 'Z');
    }
}

pub proof fn lemma_index_at(s: Seq<char>, c: char, i: int, at: int)
    requires
        0 <= i <= at < s.len(),
        s[at] == c,
        forall|k: int| i <= k < at ==> #[trigger] s[k] != c,
    ensures
        index_from(s, c, i) == Some(at),
    decreases at - i,
{
    if i < at {
        lemma_index_at(s, c, i + 1, at);
    }
}

pub proof fn lemma_index_none(s: Seq<char>, c: char, i: int)
    requires
        0 <= i,
        forall|k: int| i <= k < s.len() ==> #[trigger] s[k] != c,
    ensures
        index_from(s, c, i) is None,
    decreases s.len() - i,
{
    if i < s.len() {
        lemma_index_none(s, c, i + 1);
    }
}

pub proof fn lemma_nothing_to_trim(s: Seq<char>)
    requires
        s.len() > 0,
        !is_space(s[0]),
        !is_space(s.last()),
    ensures
        trim(s) == s,
{
    assert(s.subrange(0, s.len() as int) =~= s);
}

pub proof fn lemma_digits_are_plain(n: nat)
    ensures
        decimal(n).len() > 0,
        forall|i: int|
            0 <= i < decimal(n).len() ==> !is_space(#[trigger] decimal(n)[i]) && decimal(n)[i] != '('
                && decimal(n)[i] != ')' && decimal(n)[i] != ',' && decimal(n)[i] != '+',
{
    lemma_decimal_round_trip(n);
    assert forall|i: int| 0 <= i < decimal(n).len() implies !is_space(#[trigger] decimal(n)[i])
        && decimal(n)[i] != '(' && decimal(n)[i] != ')' && decimal(n)[i] != ',' && decimal(n)[i]
        != '+' by {
        assert(is_digit(decimal(n)[i]));
    }
}

/// `DECIMAL(M,D)` declares the scale `D`; `DECIMAL(M)` and `DECIMAL` alone
/// declare the scale 0.
pub proof fn law_declared_scale_is_kept(base: Seq<char>, m: nat, d: u8)
    requires
        names_decimal(base),
    ensures
        type_named(base + "("@ + decimal(m) + ","@ + decimal(d as nat) + ")"@) == Some(
            ColumnType::Decimal(d),
        ),
        type_named(base + "("@ + decimal(m) + ")"@) == Some(ColumnType::Decimal(0)),
        type_named(base) == Some(ColumnType::Decimal(0)),
{
    reveal_strlit("(");
    reveal_strlit(",");
    reveal_strlit(")");
    reveal_strlit("DECIMAL");
    reveal_strlit("NUMERIC");
    reveal_strlit("DEC");
    lemma_decimal_name(base);
    lemma_digits_are_plain(m);
    lemma_digits_are_plain(d as nat);
    lemma_decimal_round_trip(d as nat);
    lemma_nothing_to_trim(base);
    lemma_others_differ(base);
    let first = decimal(m);
    let second = decimal(d as nat);

    let long = base + "("@ + first + ","@ + second + ")"@;
    lemma_nothing_to_trim(long);
    lemma_index_at(long, '(', 0, base.len() as int);
    assert(long.subrange(0, base.len() as int) =~= base);
    let rest = long.subrange(base.len() + 1int, long.len() as int);
    let inner = first + ","@ + second;
    assert(rest.last() == ')');
    assert(rest.drop_last() =~= inner);
    lemma_index_at(inner, ',', 0, first.len() as int);
    lemma_index_none(inner, ',', first.len() + 1int);
    assert(inner.subrange(first.len() + 1int, inner.len() as int) =~= second);
    lemma_nothing_to_trim(second);
    assert(second[0] != '+');

    let short = base + "("@ + first + ")"@;
    lemma_nothing_to_trim(short);
    lemma_index_at(short, '(', 0, base.len() as int);
    assert(short.subrange(0, base.len() as int) =~= base);
    let rest = short.subrange(base.len() + 1int, short.len() as int);
    assert(rest.last() == ')');
    assert(rest.drop_last() =~= first);
    lemma_index_none(first, ',', 0);

    lemma_index_none(base, '(', 0);
}

proof fn lemma_others_differ(base: Seq<char>)
    requires
        names_decimal(base),
    ensures
        upper(base) != "INT"@ && upper(base) != "INTEGER"@ && upper(base) != "BIGINT"@ && upper(base)
            != "SMALLINT"@ && upper(base) != "TINYINT"@ && upper(base) != "MEDIUMINT"@ && upper(base)
            != "BOOLEAN"@ && upper(base) != "BOOL"@,
        upper(base) != "VARCHAR"@ && upper(base) != "CHAR"@ && upper(base) != "TEXT"@ && upper(base)
            != "TINYTEXT"@ && upper(base) != "MEDIUMTEXT"@ && upper(base) != "LONGTEXT"@,
        upper(base) != "BLOB"@ && upper(base) != "TINYBLOB"@ && upper(base) != "MEDIUMBLOB"@
            && upper(base) != "LONGBLOB"@,
        upper(base) != "DATE"@,
{
    reveal_strlit("DECIMAL");
    reveal_strlit("NUMERIC");
    reveal_strlit("DEC");
    reveal_strlit("INT");
    reveal_strlit("INTEGER");
    reveal_strlit("BIGINT");
    reveal_strlit("SMALLINT");
    reveal_strlit("TINYINT");
    reveal_strlit("MEDIUMINT");
    reveal_strlit("BOOLEAN");
    reveal_strlit("BOOL");
    reveal_strlit("VARCHAR");
    reveal_strlit("CHAR");
    reveal_strlit("TEXT");
    reveal_strlit("TINYTEXT");
    reveal_strlit("MEDIUMTEXT");
    reveal_strlit("LONGTEXT");
    reveal_strlit("BLOB");
    reveal_strlit("TINYBLOB");
    reveal_strlit("MEDIUMBLOB");
    reveal_strlit("LONGBLOB");
    reveal_strlit("DATE");
    let w = upper(base);
    assert(w[0] == 'D' || w[0] == 'N');
    assert("INT"@[0] == 'I' && "INTEGER"@[0] == 'I' && "BIGINT"@[0] == 'B' && "SMALLINT"@[0] == 'S');
    assert("TINYINT"@[0] == 'T' && "MEDIUMINT"@[0] == 'M' && "BOOLEAN"@[0] == 'B' && "BOOL"@[0]
        == 'B');
    assert("VARCHAR"@[0] == 'V' && "CHAR"@[0] == 'C' && "TEXT"@[0] == 'T' && "TINYTEXT"@[0] == 'T');
    assert("MEDIUMTEXT"@[0] == 'M' && "LONGTEXT"@[0] == 'L');
    assert("BLOB"@[0] == 'B' && "TINYBLOB"@[0] == 'T' && "MEDIUMBLOB"@[0] == 'M' && "LONGBLOB"@[0]
        == 'L');
    assert("DATE"@.len() == 4 && w.len() != 4);
}

} // verus!
