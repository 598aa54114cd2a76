//! What holds of pieces of text.
use vstd::prelude::*;

use crate::protocol::prepared::hex_byte;
use crate::text::{index_from, is_space, trim, trim_from, trim_to};

verus! {

proof fn lemma_trim_from(s: Seq<char>, i: int, j: int)
    requires
        0 <= i <= j <= s.len(),
    ensures
        i <= trim_from(s, i, j) <= j,
        forall|k: int| i <= k < trim_from(s, i, j) ==> is_space(#[trigger] s[k]),
        trim_from(s, i, j) < j ==> !is_space(s[trim_from(s, i, j)]),
    decreases j - i,
{
    if i < j && is_space(s[i]) {
        lemma_trim_from(s, i + 1, j);
    }
}

proof fn lemma_trim_to(s: Seq<char>, i: int, j: int)
    requires
        0 <= i <= j <= s.len(),
    ensures
        i <= trim_to(s, i, j) <= j,
        forall|k: int| trim_to(s, i, j) <= k < j ==> is_space(#[trigger] s[k]),
        i < trim_to(s, i, j) ==> !is_space(s[trim_to(s, i, j) - 1]),
    decreases j - i,
{
    if i < j && is_space(s[j - 1]) {
        lemma_trim_to(s, i, j - 1);
    }
}

/// Trimming takes white space off both ends, all of it and nothing else.
pub proof fn law_trimming_takes_white_space_off_the_ends(s: Seq<char>)
    ensures
        exists|i: int, j: int|
            {
                &&& 0 <= i <= j <= s.len()
                &&& #[trigger] s.subrange(i, j) == trim(s)
                &&& forall|k: int| 0 <= k < i || j <= k < s.len() ==> is_space(#[trigger] s[k])
            },
        trim(s).len() > 0 ==> !is_space(trim(s)[0]) && !is_space(trim(s).last()),
{
    let i = trim_from(s, 0, s.len() as int);
    lemma_trim_from(s, 0, s.len() as int);
    let j = trim_to(s, i, s.len() as int);
    lemma_trim_to(s, i, s.len() as int);
    assert(s.subrange(i, j) == trim(s));
}

/// A character is found at the first place where it stands, and nowhere only if
/// it stands nowhere.
pub proof fn law_characters_are_found_where_they_stand(s: Seq<char>, c: char, i: int)
    requires
        0 <= i,
    ensures
        match index_from(s, c, i) {
            Some(k) => i <= k < s.len() && s[k] == c && forall|j: int|
                i <= j < k ==> #[trigger] s[j] != c,
            None => forall|j: int| i <= j < s.len() ==> #[trigger] s[j] != c,
        },
    decreases s.len() - i,
{
    if i < s.len() && s[i] != c {
        law_characters_are_found_where_they_stand(s, c, i + 1);
    }
}

/// The worth of a hexadecimal figure.
pub open spec fn hex_figure(c: char) -> int {
    match c {
        '0' => 0,
        '1' => 1,
        '2' => 2,
        '3' => 3,
        '4' => 4,
        '5' => 5,
        '6' => 6,
        '7' => 7,
        '8' => 8,
        '9' => 9,
        'a' => 10,
        'b' => 11,
        'c' => 12,
        'd' => 13,
        'e' => 14,
        'f' => 15,
        _ => -1,
    }
}

/// A byte is written as the hexadecimal figures that make it, with no needless
/// zero in front.
pub proof fn law_bytes_are_written_in_hexadecimal(n: u8)
    ensures
        ({
            let t = hex_byte(n);
            &&& t.len() == 1 ==> hex_figure(t[0]) == n
            &&& t.len() == 2 ==> hex_figure(t[0]) > 0 && hex_figure(t[1]) >= 0 && 16 * hex_figure(
                t[0],
            ) + hex_figure(t[1]) == n
            &&& t.len() == 1 || t.len() == 2
        }),
{
}

} // verus!
