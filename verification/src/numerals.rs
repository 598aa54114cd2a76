//! What numerals denote.
use vstd::prelude::*;

use crate::text::{
    all_digits, decimal, decimal_int, digits_value, is_digit, lower, lower_char, parsed_i64, upper,
    upper_char,
};

verus! {

/// The worth of a figure.
pub open spec fn figure(c: char) -> int {
    match c {
        '0' => 0,
        '1' => 1,
        '2' => 2,
        '3' => 3,
        '4' => 4,
        '5' => 5,
        '6' => 6,
        '7' => 7,
        '8' => 8,
        '9' => 9,
        _ => -1,
    }
}

/// Whether figures alone denote `n`, with no needless zero in front.
pub open spec fn denotes(t: Seq<char>, n: int) -> bool
    decreases t.len(),
{
    if t.len() == 0 {
        false
    } else if t.len() == 1 {
        figure(t[0]) >= 0 && n == figure(t[0])
    } else {
        let tens = (n - figure(t.last())) / 10;
        &&& figure(t.last()) >= 0
        &&& tens > 0
        &&& n == 10 * tens + figure(t.last())
        &&& denotes(t.drop_last(), tens)
    }
}

/// Whether a numeral, with a `-` in front of a negative number, denotes `n`.
pub open spec fn is_numeral_of(t: Seq<char>, n: int) -> bool {
    if n < 0 {
        t.len() > 1 && t[0] == '-' && denotes(t.drop_first(), -n)
    } else {
        denotes(t, n)
    }
}

proof fn lemma_figures(n: nat)
    ensures
        denotes(decimal(n), n as int),
        decimal(n).len() > 0,
    decreases n,
{
    if n >= 10 {
        lemma_figures(n / 10);
        assert(decimal(n).drop_last() =~= decimal(n / 10));
        assert(figure(decimal(n).last()) == n % 10);
    } else {
        assert(figure(decimal(n)[0]) == n);
    }
}

/// Every number is written as the numeral that denotes it.
pub proof fn law_numbers_are_written_as_their_numerals(n: int)
    ensures
        is_numeral_of(decimal_int(n), n),
{
    if n < 0 {
        lemma_figures((-n) as nat);
        assert(decimal_int(n).drop_first() =~= decimal((-n) as nat));
    } else {
        lemma_figures(n as nat);
    }
}

/// The number that the figures of a text make, whatever stands between them.
pub open spec fn worth(t: Seq<char>) -> int
    decreases t.len(),
{
    if t.len() == 0 {
        0
    } else if figure(t.last()) >= 0 {
        10 * worth(t.drop_last()) + figure(t.last())
    } else {
        worth(t.drop_last())
    }
}

/// Whether a text is made of figures alone.
pub open spec fn all_figures(t: Seq<char>) -> bool {
    forall|i: int| 0 <= i < t.len() ==> figure(#[trigger] t[i]) >= 0
}

/// Digits are figures, and make the same number.
pub proof fn lemma_digits_are_figures(t: Seq<char>)
    ensures
        all_figures(t) <==> all_digits(t),
        all_digits(t) ==> worth(t) == digits_value(t),
    decreases t.len(),
{
    if t.len() > 0 {
        lemma_digits_are_figures(t.drop_last());
        if all_digits(t) {
            assert(is_digit(t[t.len() - 1]));
            assert forall|i: int| 0 <= i < t.len() implies figure(#[trigger] t[i]) >= 0 by {
                assert(is_digit(t[i]));
            }
            assert(all_digits(t.drop_last())) by {
                assert forall|i: int| 0 <= i < t.len() - 1 implies is_digit(
                    #[trigger] t.drop_last()[i],
                ) by {
                    assert(is_digit(t[i]));
                }
            }
        }
        if all_figures(t) {
            assert forall|i: int| 0 <= i < t.len() implies is_digit(#[trigger] t[i]) by {
                assert(figure(t[i]) >= 0);
            }
        }
    }
}

/// Whether a text is a numeral as it may be written: figures, with or without
/// a sign in front.
pub open spec fn is_signed_numeral(t: Seq<char>) -> bool {
    if t.len() > 0 && (t[0] == '-' || t[0] == '+') {
        t.len() > 1 && all_figures(t.drop_first())
    } else {
        t.len() > 0 && all_figures(t)
    }
}

/// The number that it denotes.
pub open spec fn signed_worth(t: Seq<char>) -> int {
    if t[0] == '-' {
        -worth(t.drop_first())
    } else if t[0] == '+' {
        worth(t.drop_first())
    } else {
        worth(t)
    }
}

/// Every numeral within range is read as the number that it denotes, and
/// nothing else is read as a number.
pub proof fn law_numerals_are_read_as_what_they_denote(t: Seq<char>)
    ensures
        match parsed_i64(t) {
            Some(n) => is_signed_numeral(t) && signed_worth(t) == n,
            None => !is_signed_numeral(t) || !(i64::MIN <= signed_worth(t) <= i64::MAX),
        },
{
    lemma_digits_are_figures(t);
    if t.len() > 0 {
        lemma_digits_are_figures(t.drop_first());
        if t[0] == '-' || t[0] == '+' {
            assert(figure(t[0]) < 0);
        }
    }
}

/// Changing the case of a text changes its unaccented letters alone, each to
/// the same letter.
pub proof fn law_case_changes_letters_alone(s: Seq<char>, i: int)
    requires
        0 <= i < s.len(),
    ensures
        upper(s).len() == s.len(),
        lower(s).len() == s.len(),
        'a' <= s[i] <= 'z' ==> upper(s)[i] as int == s[i] as int - 'a' as int + 'A' as int,
        'A' <= s[i] <= 'Z' ==> lower(s)[i] as int == s[i] as int - 'A' as int + 'a' as int,
        !('a' <= s[i] <= 'z') ==> upper(s)[i] == s[i],
        !('A' <= s[i] <= 'Z') ==> lower(s)[i] == s[i],
        upper(lower(s)) == upper(s),
        lower(upper(s)) == lower(s),
{
    assert forall|k: int| 0 <= k < s.len() implies upper_char(lower_char(#[trigger] s[k]))
        == upper_char(s[k]) && lower_char(upper_char(s[k])) == lower_char(s[k]) by {}
    assert(upper(lower(s)) =~= upper(s));
    assert(lower(upper(s)) =~= lower(s));
}

} // verus!
