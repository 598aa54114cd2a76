//! What fixed-point numbers, dates and types are written as.
use vstd::prelude::*;

use crate::numerals::{
    all_figures, figure, is_numeral_of, law_numbers_are_written_as_their_numerals,
    lemma_digits_are_figures, worth,
};
use crate::storage::value::{
    base_name, decimal_text, is_date, padded, parsed_decimal, type_named, ColumnType, ValueV,
};
use crate::storage::value_laws::{
    lemma_index_at, lemma_index_none, lemma_leading_zeros, lemma_nothing_to_trim,
};
use crate::text::{decimal, index_from, is_space, lemma_decimal_round_trip, trim, upper};

verus! {

// ---------- fixed-point numbers ----------

/// Whether a text is the numeral of `n / 10^scale`: a `-` if it is negative,
/// figures that make its magnitude in units of the last place, and, unless the
/// scale is 0, a point in front of the last `scale` of them and behind at least
/// one.
pub open spec fn is_decimal_numeral_of(t: Seq<char>, n: int, scale: nat) -> bool {
    let sign = if n < 0 {
        1int
    } else {
        0int
    };
    let point = t.len() - scale - 1;
    if scale == 0 {
        is_numeral_of(t, n)
    } else {
        &&& n < 0 ==> t.len() > 0 && t[0] == '-'
        &&& point > sign
        &&& t[point] == '.'
        &&& forall|i: int|
            sign <= i < t.len() && i != point ==> figure(#[trigger] t[i]) >= 0
        &&& worth(t) == (if n < 0 {
            -n
        } else {
            n
        })
        // No zero more than there has to be.
        &&& point > sign + 1 ==> t[sign] != '0'
    }
}

proof fn lemma_worth_concat_mark(a: Seq<char>, c: char, b: Seq<char>)
    requires
        figure(c) < 0,
    ensures
        worth(a + seq![c] + b) == worth(a + b),
    decreases b.len(),
{
    if b.len() == 0 {
        assert((a + seq![c] + b).drop_last() =~= a);
        assert((a + seq![c] + b).last() == c);
        assert(a + b =~= a);
    } else {
        lemma_worth_concat_mark(a, c, b.drop_last());
        assert((a + seq![c] + b).drop_last() =~= a + seq![c] + b.drop_last());
        assert((a + b).drop_last() =~= a + b.drop_last());
        assert((a + seq![c] + b).last() == b.last());
        assert((a + b).last() == b.last());
    }
}

proof fn lemma_worth_front_mark(c: char, b: Seq<char>)
    requires
        figure(c) < 0,
    ensures
        worth(seq![c] + b) == worth(b),
{
    let none = Seq::<char>::empty();
    lemma_worth_concat_mark(none, c, b);
    assert(none + seq![c] + b =~= seq![c] + b);
    assert(none + b =~= b);
}

proof fn lemma_no_leading_zero(n: nat)
    ensures
        decimal(n).len() > 1 ==> decimal(n)[0] != '0',
        n > 0 ==> decimal(n)[0] != '0',
        decimal(n).len() > 0,
    decreases n,
{
    if n >= 10 {
        lemma_no_leading_zero(n / 10);
        assert(decimal(n)[0] == decimal(n / 10)[0]);
    }
}

/// A fixed-point number is shown as the numeral that denotes it, with exactly
/// as many figures behind the point as its scale says.
#[verifier::rlimit(40)]
pub proof fn law_decimals_are_shown_exactly(n: i64, scale: u8)
    ensures
        ValueV::Decimal(n, scale).display() matches Some(t) && is_decimal_numeral_of(
            t,
            n as int,
            scale as nat,
        ),
{
    let t = decimal_text(n as int, scale as nat);
    if scale == 0 {
        law_numbers_are_written_as_their_numerals(n as int);
    } else {
        reveal_strlit("-");
        reveal_strlit("");
        reveal_strlit(".");
        let size = if n < 0 {
            (-(n as int)) as nat
        } else {
            n as nat
        };
        let plain = decimal(size);
        let digits = padded(plain, (scale + 1) as int);
        let at = digits.len() - scale;
        let a = digits.subrange(0, at);
        let b = digits.subrange(at, digits.len() as int);
        lemma_decimal_round_trip(size);
        lemma_leading_zeros((scale + 1) - plain.len(), plain);
        lemma_digits_are_figures(digits);
        lemma_no_leading_zero(size);
        assert(a + b =~= digits);
        lemma_worth_concat_mark(a, '.', b);
        assert("."@ =~= seq!['.']);
        let body = a + seq!['.'] + b;
        if n < 0 {
            assert("-"@ =~= seq!['-']);
            lemma_worth_front_mark('-', body);
            assert(t =~= seq!['-'] + body);
        } else {
            assert(t =~= body);
        }
        let sign = if n < 0 {
            1int
        } else {
            0int
        };
        let point = t.len() - scale - 1;
        assert forall|i: int| sign <= i < t.len() && i != point implies figure(#[trigger] t[i])
            >= 0 by {
            assert(body[i - sign] == t[i]);
            if i < point {
                assert(t[i] == digits[i - sign]);
            } else {
                assert(t[i] == digits[i - sign - 1]);
            }
        }
        if point > sign + 1 {
            assert(digits.len() > scale + 1);
            assert(plain.len() > scale + 1);
            assert(digits =~= plain);
            assert(t[sign] == digits[0]);
        }
    }
}

/// A numeral as it may be written for a fixed-point number.
pub open spec fn written_decimal(
    negative: bool,
    whole: Seq<char>,
    pointed: bool,
    part: Seq<char>,
) -> Seq<char> {
    (if negative {
        seq!['-']
    } else {
        Seq::empty()
    }) + whole + (if pointed {
        seq!['.'] + part
    } else {
        Seq::empty()
    })
}

/// A numeral with a point is read as the number that its figures make, at the
/// scale that it is written at, if it has a figure at all, not too many behind
/// the point, and fits.
pub proof fn law_decimals_are_read_exactly(
    negative: bool,
    whole: Seq<char>,
    pointed: bool,
    part: Seq<char>,
)
    requires
        all_figures(whole),
        all_figures(part),
        !pointed ==> part.len() == 0,
    ensures
        match parsed_decimal(written_decimal(negative, whole, pointed, part)) {
            Some((n, scale)) => {
                &&& scale == part.len()
                &&& n == (if negative {
                    -worth(whole + part)
                } else {
                    worth(whole + part)
                })
            },
            None => whole.len() + part.len() == 0 || part.len() > 255 || worth(whole + part)
                > i64::MAX,
        },
{
    let s = written_decimal(negative, whole, pointed, part);
    let rest = whole + (if pointed {
        seq!['.'] + part
    } else {
        Seq::empty()
    });
    if negative {
        assert(s.drop_first() =~= rest);
    } else {
        assert(s =~= rest);
        if s.len() > 0 && s[0] == '-' {
            if whole.len() > 0 {
                assert(figure(whole[0]) >= 0);
            }
        }
    }
    lemma_digits_are_figures(whole);
    lemma_digits_are_figures(part);
    lemma_digits_are_figures(whole + part);
    assert(all_figures(whole + part)) by {
        let all = whole + part;
        assert forall|i: int| 0 <= i < all.len() implies figure(#[trigger] all[i]) >= 0 by {
            if i < whole.len() {
                assert(all[i] == whole[i]);
            } else {
                assert(all[i] == part[i - whole.len()]);
            }
        }
    }
    assert forall|k: int| 0 <= k < whole.len() implies #[trigger] rest[k] != '.' by {
        assert(rest[k] == whole[k]);
        assert(figure(whole[k]) >= 0);
    }
    if pointed {
        assert(rest[whole.len() as int] == '.');
        lemma_index_at(rest, '.', 0, whole.len() as int);
        assert(rest.subrange(0, whole.len() as int) =~= whole);
        assert(rest.subrange(whole.len() + 1int, rest.len() as int) =~= part);
    } else {
        assert(rest =~= whole);
        lemma_index_none(rest, '.', 0);
        assert(part =~= Seq::empty());
        assert(whole + part =~= whole);
    }
}

/// Nothing else is read as a fixed-point number.
pub proof fn law_only_decimals_are_read(s: Seq<char>)
    ensures
        parsed_decimal(s) is Some ==> exists|negative: bool, whole: Seq<char>, pointed: bool, part: Seq<
            char,
        >|
            {
                &&& s == #[trigger] written_decimal(negative, whole, pointed, part)
                &&& all_figures(whole)
                &&& all_figures(part)
                &&& !pointed ==> part.len() == 0
            },
{
    if parsed_decimal(s) is Some {
        let negative = s.len() > 0 && s[0] == '-';
        let rest = if negative {
            s.drop_first()
        } else {
            s
        };
        let point = index_from(rest, '.', 0);
        crate::storage::value::lemma_index_from(rest, '.', 0);
        let whole = match point {
            Some(i) => rest.subrange(0, i),
            None => rest,
        };
        let part = match point {
            Some(i) => rest.subrange(i + 1, rest.len() as int),
            None => Seq::empty(),
        };
        lemma_digits_are_figures(whole);
        lemma_digits_are_figures(part);
        assert(s =~= written_decimal(negative, whole, point is Some, part));
    }
}

// ---------- dates ----------

/// A date is four figures, a `-`, two figures from 01 to 12, a `-` and two
/// figures from 01 to 31.
pub proof fn law_dates_are_years_months_and_days(s: Seq<char>)
    ensures
        is_date(s) <==> {
            &&& s.len() == 10
            &&& figure(s[0]) >= 0 && figure(s[1]) >= 0 && figure(s[2]) >= 0 && figure(s[3]) >= 0
            &&& s[4] == '-'
            &&& figure(s[5]) >= 0 && figure(s[6]) >= 0
            &&& 1 <= 10 * figure(s[5]) + figure(s[6]) <= 12
            &&& s[7] == '-'
            &&& figure(s[8]) >= 0 && figure(s[9]) >= 0
            &&& 1 <= 10 * figure(s[8]) + figure(s[9]) <= 31
        },
{
    if s.len() == 10 {
        let y = s.subrange(0, 4);
        let m = s.subrange(5, 7);
        let d = s.subrange(8, 10);
        lemma_digits_are_figures(y);
        lemma_digits_are_figures(m);
        lemma_digits_are_figures(d);
        lemma_two_figures(m);
        lemma_two_figures(d);
        if all_figures(y) {
            assert(figure(y[0]) >= 0 && figure(y[1]) >= 0 && figure(y[2]) >= 0 && figure(y[3]) >= 0);
        }
        if all_figures(m) {
            assert(figure(m[0]) >= 0 && figure(m[1]) >= 0);
        }
        if all_figures(d) {
            assert(figure(d[0]) >= 0 && figure(d[1]) >= 0);
        }
    }
}

proof fn lemma_two_figures(t: Seq<char>)
    requires
        t.len() == 2,
    ensures
        all_figures(t) ==> worth(t) == 10 * figure(t[0]) + figure(t[1]),
{
    if all_figures(t) {
        assert(figure(t[0]) >= 0 && figure(t[1]) >= 0);
        let one = t.drop_last();
        assert(one.drop_last() =~= Seq::empty());
        assert(worth(one.drop_last()) == 0);
        assert(worth(one) == figure(t[0]));
    }
}

// ---------- types ----------

/// Whether a word in upper case names a type of whole numbers.
pub open spec fn names_int(w: Seq<char>) -> bool {
    ||| w == seq!['I', 'N', 'T']
    ||| w == seq!['I', 'N', 'T', 'E', 'G', 'E', 'R']
    ||| w == seq!['B', 'I', 'G', 'I', 'N', 'T']
    ||| w == seq!['S', 'M', 'A', 'L', 'L', 'I', 'N', 'T']
    ||| w == seq!['T', 'I', 'N', 'Y', 'I', 'N', 'T']
    ||| w == seq!['M', 'E', 'D', 'I', 'U', 'M', 'I', 'N', 'T']
    ||| w == seq!['B', 'O', 'O', 'L', 'E', 'A', 'N']
    ||| w == seq!['B', 'O', 'O', 'L']
}

/// Whether a word in upper case names a type of texts.
pub open spec fn names_text(w: Seq<char>) -> bool {
    ||| w == seq!['V', 'A', 'R', 'C', 'H', 'A', 'R']
    ||| w == seq!['C', 'H', 'A', 'R']
    ||| w == seq!['T', 'E', 'X', 'T']
    ||| w == seq!['T', 'I', 'N', 'Y', 'T', 'E', 'X', 'T']
    ||| w == seq!['M', 'E', 'D', 'I', 'U', 'M', 'T', 'E', 'X', 'T']
    ||| w == seq!['L', 'O', 'N', 'G', 'T', 'E', 'X', 'T']
    ||| w == seq!['B', 'L', 'O', 'B']
    ||| w == seq!['T', 'I', 'N', 'Y', 'B', 'L', 'O', 'B']
    ||| w == seq!['M', 'E', 'D', 'I', 'U', 'M', 'B', 'L', 'O', 'B']
    ||| w == seq!['L', 'O', 'N', 'G', 'B', 'L', 'O', 'B']
}

/// Whether a word in upper case names a type of fixed-point numbers.
pub open spec fn names_fixed_point(w: Seq<char>) -> bool {
    ||| w == seq!['D', 'E', 'C', 'I', 'M', 'A', 'L']
    ||| w == seq!['N', 'U', 'M', 'E', 'R', 'I', 'C']
    ||| w == seq!['D', 'E', 'C']
}

/// Whether a word can be the name of a type: no blanks and no parentheses.
pub open spec fn is_plain_word(w: Seq<char>) -> bool {
    w.len() > 0 && forall|i: int|
        0 <= i < w.len() ==> !is_space(#[trigger] w[i]) && w[i] != '('
}

proof fn lemma_type_words()
    ensures
        "INT"@ == seq!['I', 'N', 'T'],
        "INTEGER"@ == seq!['I', 'N', 'T', 'E', 'G', 'E', 'R'],
        "BIGINT"@ == seq!['B', 'I', 'G', 'I', 'N', 'T'],
        "SMALLINT"@ == seq!['S', 'M', 'A', 'L', 'L', 'I', 'N', 'T'],
        "TINYINT"@ == seq!['T', 'I', 'N', 'Y', 'I', 'N', 'T'],
        "MEDIUMINT"@ == seq!['M', 'E', 'D', 'I', 'U', 'M', 'I', 'N', 'T'],
        "BOOLEAN"@ == seq!['B', 'O', 'O', 'L', 'E', 'A', 'N'],
        "BOOL"@ == seq!['B', 'O', 'O', 'L'],
        "VARCHAR"@ == seq!['V', 'A', 'R', 'C', 'H', 'A', 'R'],
        "CHAR"@ == seq!['C', 'H', 'A', 'R'],
        "TEXT"@ == seq!['T', 'E', 'X', 'T'],
        "TINYTEXT"@ == seq!['T', 'I', 'N', 'Y', 'T', 'E', 'X', 'T'],
        "MEDIUMTEXT"@ == seq!['M', 'E', 'D', 'I', 'U', 'M', 'T', 'E', 'X', 'T'],
        "LONGTEXT"@ == seq!['L', 'O', 'N', 'G', 'T', 'E', 'X', 'T'],
        "BLOB"@ == seq!['B', 'L', 'O', 'B'],
        "TINYBLOB"@ == seq!['T', 'I', 'N', 'Y', 'B', 'L', 'O', 'B'],
        "MEDIUMBLOB"@ == seq!['M', 'E', 'D', 'I', 'U', 'M', 'B', 'L', 'O', 'B'],
        "LONGBLOB"@ == seq!['L', 'O', 'N', 'G', 'B', 'L', 'O', 'B'],
        "DATE"@ == seq!['D', 'A', 'T', 'E'],
        "DECIMAL"@ == seq!['D', 'E', 'C', 'I', 'M', 'A', 'L'],
        "NUMERIC"@ == seq!['N', 'U', 'M', 'E', 'R', 'I', 'C'],
        "DEC"@ == seq!['D', 'E', 'C'],
{
    reveal_strlit("INT");
    reveal_strlit("INTEGER");
    reveal_strlit("BIGINT");
    reveal_strlit("SMALLINT");
    reveal_strlit("TINYINT");
    reveal_strlit("MEDIUMINT");
    reveal_strlit("BOOLEAN");
    reveal_strlit("BOOL");
    reveal_strlit("VARCHAR");
    reveal_strlit("CHAR");
    reveal_strlit("TEXT");
    reveal_strlit("TINYTEXT");
    reveal_strlit("MEDIUMTEXT");
    reveal_strlit("LONGTEXT");
    reveal_strlit("BLOB");
    reveal_strlit("TINYBLOB");
    reveal_strlit("MEDIUMBLOB");
    reveal_strlit("LONGBLOB");
    reveal_strlit("DATE");
    reveal_strlit("DECIMAL");
    reveal_strlit("NUMERIC");
    reveal_strlit("DEC");
    assert("INT"@ =~= seq!['I', 'N', 'T']);
    assert("INTEGER"@ =~= seq!['I', 'N', 'T', 'E', 'G', 'E', 'R']);
    assert("BIGINT"@ =~= seq!['B', 'I', 'G', 'I', 'N', 'T']);
    assert("SMALLINT"@ =~= seq!['S', 'M', 'A', 'L', 'L', 'I', 'N', 'T']);
    assert("TINYINT"@ =~= seq!['T', 'I', 'N', 'Y', 'I', 'N', 'T']);
    assert("MEDIUMINT"@ =~= seq!['M', 'E', 'D', 'I', 'U', 'M', 'I', 'N', 'T']);
    assert("BOOLEAN"@ =~= seq!['B', 'O', 'O', 'L', 'E', 'A', 'N']);
    assert("BOOL"@ =~= seq!['B', 'O', 'O', 'L']);
    assert("VARCHAR"@ =~= seq!['V', 'A', 'R', 'C', 'H', 'A', 'R']);
    assert("CHAR"@ =~= seq!['C', 'H', 'A', 'R']);
    assert("TEXT"@ =~= seq!['T', 'E', 'X', 'T']);
    assert("TINYTEXT"@ =~= seq!['T', 'I', 'N', 'Y', 'T', 'E', 'X', 'T']);
    assert("MEDIUMTEXT"@ =~= seq!['M', 'E', 'D', 'I', 'U', 'M', 'T', 'E', 'X', 'T']);
    assert("LONGTEXT"@ =~= seq!['L', 'O', 'N', 'G', 'T', 'E', 'X', 'T']);
    assert("BLOB"@ =~= seq!['B', 'L', 'O', 'B']);
    assert("TINYBLOB"@ =~= seq!['T', 'I', 'N', 'Y', 'B', 'L', 'O', 'B']);
    assert("MEDIUMBLOB"@ =~= seq!['M', 'E', 'D', 'I', 'U', 'M', 'B', 'L', 'O', 'B']);
    assert("LONGBLOB"@ =~= seq!['L', 'O', 'N', 'G', 'B', 'L', 'O', 'B']);
    assert("DATE"@ =~= seq!['D', 'A', 'T', 'E']);
    assert("DECIMAL"@ =~= seq!['D', 'E', 'C', 'I', 'M', 'A', 'L']);
    assert("NUMERIC"@ =~= seq!['N', 'U', 'M', 'E', 'R', 'I', 'C']);
    assert("DEC"@ =~= seq!['D', 'E', 'C']);
}

/// The name of a type decides what its columns hold, whatever its case and
/// whatever sizes stand in parentheses behind it.
#[verifier::rlimit(40)]
pub proof fn law_names_decide_types(word: Seq<char>, sizes: Seq<char>)
    requires
        is_plain_word(word),
        sizes == Seq::<char>::empty() || (sizes.len() >= 2 && sizes[0] == '(' && sizes.last()
            == ')'),
    ensures
        ({
            let t = type_named(word + sizes);
            let w = upper(word);
            &&& names_int(w) ==> t == Some(ColumnType::Int)
            &&& names_text(w) ==> t == Some(ColumnType::Varchar)
            &&& w == seq!['D', 'A', 'T', 'E'] ==> t == Some(ColumnType::Date)
            &&& names_fixed_point(w) ==> (t matches Some(ColumnType::Decimal(_)))
            &&& t is Some ==> names_int(w) || names_text(w) || names_fixed_point(w) || w == seq![
                'D',
                'A',
                'T',
                'E',
            ]
        }),
{
    let s = word + sizes;
    let w = upper(word);
    lemma_type_words();
    assert(s[0] == word[0]);
    if sizes.len() == 0 {
        assert(s =~= word);
        assert(s.last() == word[word.len() - 1]);
        lemma_nothing_to_trim(s);
        lemma_index_none(s, '(', 0);
    } else {
        assert(s.last() == sizes.last());
        assert(!is_space(')'));
        lemma_nothing_to_trim(s);
        assert forall|k: int| 0 <= k < word.len() implies #[trigger] s[k] != '(' by {
            assert(s[k] == word[k]);
        }
        lemma_index_at(s, '(', 0, word.len() as int);
        assert(s.subrange(0, word.len() as int) =~= word);
    }
    assert(word.last() == word[word.len() - 1]);
    lemma_nothing_to_trim(word);
    assert(base_name(trim(s)) == word);
    lemma_words_apart(w);
}

#[verifier::rlimit(40)]
proof fn lemma_words_apart(w: Seq<char>)
    ensures
        names_text(w) ==> !names_int(w),
        w == seq!['D', 'A', 'T', 'E'] ==> !names_int(w) && !names_text(w),
        names_fixed_point(w) ==> !names_int(w) && !names_text(w) && w != seq!['D', 'A', 'T', 'E'],
{
    if names_int(w) {
        assert(w.len() > 2);
        assert(w[w.len() - 1] == 'T' || w[w.len() - 1] == 'R' || w[w.len() - 1] == 'N' || w[w.len()
            - 1] == 'L');
        assert(w[0] == 'I' || w[0] == 'B' || w[0] == 'S' || w[0] == 'T' || w[0] == 'M');
        assert(w[w.len() - 2] == 'N' || w[w.len() - 2] == 'E' || w[w.len() - 2] == 'A' || w[w.len()
            - 2] == 'O');
        if w[w.len() - 1] == 'T' {
            assert(w[w.len() - 2] == 'N');
        }
        if w[w.len() - 1] == 'R' {
            assert(w[0] == 'I');
        }
    }
    if names_text(w) {
        assert(w.len() > 3);
        assert(w[w.len() - 1] == 'R' || w[w.len() - 1] == 'T' || w[w.len() - 1] == 'B');
        assert(w[0] == 'V' || w[0] == 'C' || w[0] == 'T' || w[0] == 'M' || w[0] == 'L' || w[0]
            == 'B');
        if w[w.len() - 1] == 'T' {
            assert(w[w.len() - 2] == 'X');
        }
    }
    if names_fixed_point(w) {
        assert(w[0] == 'D' || w[0] == 'N');
        assert(w.len() == 7 || w.len() == 3);
    }
}

} // verus!
