//! Text as sequences of characters: building, comparing, case folding,
//! decimal numerals, and the character classes the lexer relies on.
use vstd::prelude::*;
use vstd::utf8::{encode_utf8, decode_utf8, encode_utf8_decode_utf8};

verus! {

// ---------- characters ----------

/// Whether `c` is an ASCII character.
pub open spec fn is_ascii_char(c: char) -> bool {
    (c as u32) < 128
}

/// Whether `c` is one of `0`-`9`.
pub open spec fn is_digit(c: char) -> bool {
    '0' <= c <= '9'
}

/// Whether `c` is an unaccented Latin letter.
pub open spec fn is_ascii_letter(c: char) -> bool {
    'a' <= c <= 'z' || 'A' <= c <= 'Z'
}

/// Whether `c` is ASCII white space: tab, line feed, vertical tab, form feed,
/// carriage return or space.
pub open spec fn is_ascii_space(c: char) -> bool {
    '\t' <= c <= '\r' || c == ' '
}

/// Unicode's `White_Space` property, for characters beyond ASCII.
pub open spec fn unicode_white_space(c: char) -> bool {
    ||| c == '\u{85}'
    ||| c == '\u{a0}'
    ||| c == '\u{1680}'
    ||| '\u{2000}' <= c <= '\u{200a}'
    ||| c == '\u{2028}'
    ||| c == '\u{2029}'
    ||| c == '\u{202f}'
    ||| c == '\u{205f}'
    ||| c == '\u{3000}'
}

/// Unicode's `Alphabetic` property, for characters beyond ASCII.
pub uninterp spec fn unicode_alphabetic(c: char) -> bool;

/// Unicode's numeric categories (`Nd`, `Nl`, `No`), for characters beyond
/// ASCII.
pub uninterp spec fn unicode_numeric(c: char) -> bool;

/// White space as the lexer and trimming see it.
pub open spec fn is_space(c: char) -> bool {
    if is_ascii_char(c) {
        is_ascii_space(c)
    } else {
        unicode_white_space(c)
    }
}

/// Letters as the lexer sees them.
pub open spec fn is_letter(c: char) -> bool {
    if is_ascii_char(c) {
        is_ascii_letter(c)
    } else {
        unicode_alphabetic(c)
    }
}

/// Characters that may continue a word, apart from the underscore.
pub open spec fn is_word_char(c: char) -> bool {
    if is_ascii_char(c) {
        is_ascii_letter(c) || is_digit(c)
    } else {
        unicode_alphabetic(c) || unicode_numeric(c)
    }
}

/// Calls `char::is_whitespace`. Claims that it is true of the characters with
/// Unicode's `White_Space` property alone: on ASCII, tab, line feed, vertical
/// tab, form feed, carriage return and space; elsewhere, those that
/// [`unicode_white_space`] lists.
#[verifier::external_body]
pub(crate) fn char_is_whitespace(c: char) -> (r: bool)
    ensures
        r == (if is_ascii_char(c) {
            is_ascii_space(c)
        } else {
            unicode_white_space(c)
        }),
{
    c.is_whitespace()
}

/// Calls `char::is_alphabetic`. Claims that on ASCII it is true of the letters
/// alone, and that elsewhere it is a fixed property of the character.
#[verifier::external_body]
pub(crate) fn char_is_alphabetic(c: char) -> (r: bool)
    ensures
        r == (if is_ascii_char(c) {
            is_ascii_letter(c)
        } else {
            unicode_alphabetic(c)
        }),
{
    c.is_alphabetic()
}

/// Calls `char::is_numeric`. Claims that on ASCII it is true of the digits
/// alone, and that elsewhere it is a fixed property of the character.
#[verifier::external_body]
pub(crate) fn char_is_numeric(c: char) -> (r: bool)
    ensures
        r == (if is_ascii_char(c) {
            is_digit(c)
        } else {
            unicode_numeric(c)
        }),
{
    c.is_numeric()
}

// ---------- strings and character sequences ----------

/// Specifies `String::push`: the character is appended.
pub assume_specification[ std::string::String::push ](s: &mut std::string::String, c: char)
    ensures
        final(s)@ == old(s)@.push(c),
;

/// Calls `String::from_utf8`. Claims that it succeeds exactly on valid UTF-8
/// and yields the text those bytes encode.
#[verifier::external_body]
pub(crate) fn string_from_utf8(bytes: Vec<u8>) -> (r: Option<String>)
    ensures
        match r {
            Some(s) => vstd::utf8::valid_utf8(bytes@) && s@ == decode_utf8(bytes@),
            None => !vstd::utf8::valid_utf8(bytes@),
        },
{
    String::from_utf8(bytes).ok()
}

/// The characters of `s`, in order.
pub fn chars_of(s: &str) -> (r: Vec<char>)
    ensures
        r@ == s@,
{
    let mut v: Vec<char> = Vec::new();
    for c in it: s.chars()
        invariant
            v@ == s@.take(it.index()),
            it.seq() == s@,
    {
        v.push(c);
    }
    v
}

/// The text spelled by `chars[from..to]`.
pub fn text_of(chars: &[char], from: usize, to: usize) -> (r: String)
    requires
        from <= to <= chars@.len(),
    ensures
        r@ == chars@.subrange(from as int, to as int),
{
    let mut s = String::new();
    let mut i: usize = from;
    while i < to
        invariant
            from <= i <= to <= chars@.len(),
            s@ == chars@.subrange(from as int, i as int),
        decreases to - i,
    {
        s.push(chars[i]);
        proof {
            assert(chars@.subrange(from as int, i as int).push(chars@[i as int])
                =~= chars@.subrange(from as int, i + 1));
        }
        i = i + 1;
    }
    s
}

/// `a` followed by `b`.
pub fn cat2(a: &str, b: &str) -> (r: String)
    ensures
        r@ == a@ + b@,
{
    let mut s = a.to_string();
    s.append(b);
    s
}

/// Three pieces in a row.
pub fn cat3(a: &str, b: &str, c: &str) -> (r: String)
    ensures
        r@ == a@ + b@ + c@,
{
    let mut s = cat2(a, b);
    s.append(c);
    s
}

/// Four pieces in a row.
pub fn cat4(a: &str, b: &str, c: &str, d: &str) -> (r: String)
    ensures
        r@ == a@ + b@ + c@ + d@,
{
    let mut s = cat3(a, b, c);
    s.append(d);
    s
}

/// Five pieces in a row.
pub fn cat5(a: &str, b: &str, c: &str, d: &str, e: &str) -> (r: String)
    ensures
        r@ == a@ + b@ + c@ + d@ + e@,
{
    let mut s = cat4(a, b, c, d);
    s.append(e);
    s
}

/// A one-character string.
pub fn char_text(c: char) -> (r: String)
    ensures
        r@ == seq![c],
{
    let mut s = String::new();
    s.push(c);
    proof {
        assert(s@ =~= seq![c]);
    }
    s
}

/// Whether two texts are the same.
pub fn same_text(a: &str, b: &str) -> (r: bool)
    ensures
        r == (a@ == b@),
{
    let x = a.as_bytes();
    let y = b.as_bytes();
    proof {
        encode_utf8_decode_utf8(a@);
        encode_utf8_decode_utf8(b@);
    }
    if x.len() != y.len() {
        return false;
    }
    let mut i: usize = 0;
    while i < x.len()
        invariant
            x@.len() == y@.len(),
            i <= x@.len(),
            x@ == encode_utf8(a@),
            y@ == encode_utf8(b@),
            decode_utf8(x@) == a@,
            decode_utf8(y@) == b@,
            forall|k: int| 0 <= k < i ==> x@[k] == y@[k],
        decreases x@.len() - i,
    {
        if x[i] != y[i] {
            return false;
        }
        i = i + 1;
    }
    proof {
        assert(x@ =~= y@);
    }
    true
}

/// Lexicographic order on texts, by code point.
pub open spec fn text_less(a: Seq<char>, b: Seq<char>) -> bool
    decreases a.len(),
{
    if b.len() == 0 {
        false
    } else if a.len() == 0 {
        true
    } else if a[0] == b[0] {
        text_less(a.drop_first(), b.drop_first())
    } else {
        a[0] < b[0]
    }
}

/// Whether `a` comes strictly before `b`, by code point.
pub fn text_before(a: &str, b: &str) -> (r: bool)
    ensures
        r == text_less(a@, b@),
{
    let x = chars_of(a);
    let y = chars_of(b);
    let mut i: usize = 0;
    proof {
        assert(x@.subrange(0, x@.len() as int) =~= x@);
        assert(y@.subrange(0, y@.len() as int) =~= y@);
    }
    while i < x.len() && i < y.len() && x[i] == y[i]
        invariant
            i <= x@.len(),
            i <= y@.len(),
            x@ == a@,
            y@ == b@,
            text_less(a@, b@) == text_less(
                x@.subrange(i as int, x@.len() as int),
                y@.subrange(i as int, y@.len() as int),
            ),
        decreases x@.len() - i,
    {
        proof {
            assert(x@.subrange(i as int, x@.len() as int).drop_first()
                =~= x@.subrange(i + 1, x@.len() as int));
            assert(y@.subrange(i as int, y@.len() as int).drop_first()
                =~= y@.subrange(i + 1, y@.len() as int));
        }
        i = i + 1;
    }
    if i == y.len() {
        false
    } else if i == x.len() {
        true
    } else {
        x[i] < y[i]
    }
}

// ---------- ASCII case ----------

/// The upper-case form of an ASCII letter; any other character is unchanged.
pub open spec fn upper_char(c: char) -> char {
    if 'a' <= c <= 'z' {
        ((c as u32) - 32) as char
    } else {
        c
    }
}

/// The lower-case form of an ASCII letter; any other character is unchanged.
pub open spec fn lower_char(c: char) -> char {
    if 'A' <= c <= 'Z' {
        ((c as u32) + 32) as char
    } else {
        c
    }
}

/// Every ASCII letter of `s` in upper case.
pub open spec fn upper(s: Seq<char>) -> Seq<char> {
    Seq::new(s.len(), |i: int| upper_char(s[i]))
}

/// Every ASCII letter of `s` in lower case.
pub open spec fn lower(s: Seq<char>) -> Seq<char> {
    Seq::new(s.len(), |i: int| lower_char(s[i]))
}

fn upper_one(c: char) -> (r: char)
    ensures
        r == upper_char(c),
{
    if 'a' <= c && c <= 'z' {
        ((c as u8) - 32) as char
    } else {
        c
    }
}

fn lower_one(c: char) -> (r: char)
    ensures
        r == lower_char(c),
{
    if 'A' <= c && c <= 'Z' {
        ((c as u8) + 32) as char
    } else {
        c
    }
}

/// `s` with its ASCII letters in upper case.
pub fn to_upper(s: &str) -> (r: String)
    ensures
        r@ == upper(s@),
{
    let mut out = String::new();
    for c in it: s.chars()
        invariant
            it.seq() == s@,
            out@ == upper(s@.take(it.index())),
    {
        out.push(upper_one(c));
        proof {
            assert(upper(s@.take(it.index() + 1)) =~= upper(s@.take(it.index())).push(upper_char(c)));
        }
    }
    proof {
        assert(s@.take(s@.len() as int) =~= s@);
    }
    out
}

/// `s` with its ASCII letters in lower case.
pub fn to_lower(s: &str) -> (r: String)
    ensures
        r@ == lower(s@),
{
    let mut out = String::new();
    for c in it: s.chars()
        invariant
            it.seq() == s@,
            out@ == lower(s@.take(it.index())),
    {
        out.push(lower_one(c));
        proof {
            assert(lower(s@.take(it.index() + 1)) =~= lower(s@.take(it.index())).push(lower_char(c)));
        }
    }
    proof {
        assert(s@.take(s@.len() as int) =~= s@);
    }
    out
}

// ---------- decimal numerals ----------

/// The character for a decimal digit.
pub open spec fn digit_char(d: nat) -> char {
    (48 + d) as char
}

/// The decimal numeral of `n`, without leading zeros.
pub open spec fn decimal(n: nat) -> Seq<char>
    decreases n,
{
    if n < 10 {
        seq![digit_char(n)]
    } else {
        decimal(n / 10).push(digit_char(n % 10))
    }
}

/// The decimal numeral of `n`, with a leading minus sign when negative.
pub open spec fn decimal_int(n: int) -> Seq<char> {
    if n < 0 {
        seq!['-'] + decimal((-n) as nat)
    } else {
        decimal(n as nat)
    }
}

fn digit_of(d: u8) -> (r: char)
    requires
        d < 10,
    ensures
        r == digit_char(d as nat),
{
    (48 + d) as char
}

/// The decimal numeral of `n`.
pub fn u128_text(n: u128) -> (r: String)
    ensures
        r@ == decimal(n as nat),
    decreases n,
{
    if n < 10 {
        char_text(digit_of(n as u8))
    } else {
        let mut s = u128_text(n / 10);
        s.push(digit_of((n % 10) as u8));
        s
    }
}

/// The decimal numeral of `n`.
pub fn u64_text(n: u64) -> (r: String)
    ensures
        r@ == decimal(n as nat),
{
    u128_text(n as u128)
}

/// The decimal numeral of `n`, signed.
pub fn i64_text(n: i64) -> (r: String)
    ensures
        r@ == decimal_int(n as int),
{
    if n < 0 {
        let m = u64_text(magnitude(n));
        let mut s = char_text('-');
        s.append(m.as_str());
        s
    } else {
        u64_text(n as u64)
    }
}

/// The absolute value of `n`.
pub fn magnitude(n: i64) -> (r: u64)
    ensures
        r == (if n < 0 {
            -(n as int)
        } else {
            n as int
        }),
{
    if n >= 0 {
        n as u64
    } else if n == i64::MIN {
        0x8000_0000_0000_0000
    } else {
        (-n) as u64
    }
}

/// Whether every character is a decimal digit.
pub open spec fn all_digits(s: Seq<char>) -> bool {
    forall|i: int| 0 <= i < s.len() ==> is_digit(#[trigger] s[i])
}

/// The number a run of digits denotes.
pub open spec fn digits_value(s: Seq<char>) -> nat
    decreases s.len(),
{
    if s.len() == 0 {
        0
    } else {
        digits_value(s.drop_last()) * 10 + ((s.last() as u32) - 48) as nat
    }
}

/// The number a signed numeral denotes: an optional `+` or `-`, then one or
/// more digits, within the range of `i64`.
pub open spec fn parsed_i64(s: Seq<char>) -> Option<i64> {
    let signed = s.len() > 0 && (s[0] == '+' || s[0] == '-');
    let digits = if signed {
        s.drop_first()
    } else {
        s
    };
    let value = if signed && s[0] == '-' {
        -(digits_value(digits) as int)
    } else {
        digits_value(digits) as int
    };
    if digits.len() > 0 && all_digits(digits) && i64::MIN <= value <= i64::MAX {
        Some(value as i64)
    } else {
        None
    }
}

/// A longer run of digits never denotes a smaller number.
pub proof fn lemma_digits_value_prefix(s: Seq<char>, n: int)
    requires
        0 <= n <= s.len(),
        all_digits(s),
    ensures
        digits_value(s.take(n)) <= digits_value(s),
    decreases s.len(),
{
    if n < s.len() {
        lemma_digits_value_prefix(s.drop_last(), n);
        assert(s.drop_last().take(n) =~= s.take(n));
        assert(is_digit(s[s.len() - 1]));
    } else {
        assert(s.take(n) =~= s);
    }
}

/// Read the digits `chars[from..to]` as a number of at most 2^63; `None` when
/// some character is no digit or the number is larger.
pub fn read_digits(chars: &[char], from: usize, to: usize) -> (r: Option<u64>)
    requires
        from <= to <= chars@.len(),
    ensures
        match r {
            Some(v) => {
                &&& all_digits(chars@.subrange(from as int, to as int))
                &&& v == digits_value(chars@.subrange(from as int, to as int))
                &&& v <= 0x8000_0000_0000_0000
            },
            None => !(all_digits(chars@.subrange(from as int, to as int)) && digits_value(
                chars@.subrange(from as int, to as int),
            ) <= 0x8000_0000_0000_0000),
        },
{
    let ghost all = chars@.subrange(from as int, to as int);
    let mut value: u64 = 0;
    let mut i: usize = from;
    proof {
        assert(all.take(0) =~= Seq::<char>::empty());
    }
    while i < to
        invariant
            from <= i <= to <= chars@.len(),
            all == chars@.subrange(from as int, to as int),
            forall|k: int| 0 <= k < i - from ==> is_digit(#[trigger] all[k]),
            value == digits_value(all.take(i - from)),
            value <= 0x8000_0000_0000_0000,
        decreases to - i,
    {
        let c = chars[i];
        proof {
            assert(c == all[i - from]);
        }
        if !('0' <= c && c <= '9') {
            return None;
        }
        let d: u64 = (c as u8 - 48) as u64;
        proof {
            assert(all.take(i + 1 - from).drop_last() =~= all.take(i - from));
            assert(digits_value(all.take(i + 1 - from)) == value * 10 + d);
        }
        if value > 922337203685477580 || value * 10 + d > 0x8000_0000_0000_0000 {
            proof {
                if all_digits(all) {
                    lemma_digits_value_prefix(all, i + 1 - from);
                }
            }
            return None;
        }
        value = value * 10 + d;
        i = i + 1;
    }
    proof {
        assert(all.take(to - from) =~= all);
    }
    Some(value)
}

/// Read `chars[from..to]` as a signed numeral.
pub fn read_i64(chars: &[char], from: usize, to: usize) -> (r: Option<i64>)
    requires
        from <= to <= chars@.len(),
    ensures
        r == parsed_i64(chars@.subrange(from as int, to as int)),
{
    let ghost all = chars@.subrange(from as int, to as int);
    if from == to {
        return None;
    }
    let first = chars[from];
    proof {
        assert(first == all[0]);
        assert(all.drop_first() =~= chars@.subrange(from + 1, to as int));
    }
    if first == '-' || first == '+' {
        if from + 1 == to {
            return None;
        }
        match read_digits(chars, from + 1, to) {
            None => None,
            Some(v) => {
                if first == '-' {
                    if v == 0x8000_0000_0000_0000 {
                        Some(i64::MIN)
                    } else {
                        Some(-(v as i64))
                    }
                } else if v < 0x8000_0000_0000_0000 {
                    Some(v as i64)
                } else {
                    None
                }
            },
        }
    } else {
        match read_digits(chars, from, to) {
            None => None,
            Some(v) => if v < 0x8000_0000_0000_0000 {
                Some(v as i64)
            } else {
                None
            },
        }
    }
}

/// Writing a number down and reading it back gives the number.
pub proof fn lemma_decimal_round_trip(n: nat)
    ensures
        decimal(n).len() > 0,
        all_digits(decimal(n)),
        digits_value(decimal(n)) == n,
    decreases n,
{
    if n < 10 {
        let s = decimal(n);
        assert(s.drop_last() =~= Seq::<char>::empty());
        assert(digits_value(s.drop_last()) == 0);
    } else {
        lemma_decimal_round_trip(n / 10);
        let s = decimal(n);
        assert(s.drop_last() =~= decimal(n / 10));
    }
}

/// Every `i64` is recovered from its own numeral.
pub proof fn law_numerals_read_back(n: i64)
    ensures
        parsed_i64(decimal_int(n as int)) == Some(n),
{
    let m: nat = if n < 0 {
        (-(n as int)) as nat
    } else {
        n as nat
    };
    lemma_decimal_round_trip(m);
    let s = decimal_int(n as int);
    if n < 0 {
        assert(s.drop_first() =~= decimal(m));
    } else {
        assert(is_digit(decimal(m)[0]));
    }
}

// ---------- pieces of text ----------

/// Where the first `c` at or after `i` stands.
pub open spec fn index_from(s: Seq<char>, c: char, i: int) -> Option<int>
    decreases s.len() - i,
{
    if i < 0 || i >= s.len() {
        None
    } else if s[i] == c {
        Some(i)
    } else {
        index_from(s, c, i + 1)
    }
}

/// Where the first `c` stands in `chars[from..to]`.
pub fn find_char(chars: &[char], c: char, from: usize, to: usize) -> (r: Option<usize>)
    requires
        from <= to <= chars@.len(),
    ensures
        match r {
            Some(i) => from <= i < to && index_from(chars@.take(to as int), c, from as int) == Some(
                i as int,
            ),
            None => index_from(chars@.take(to as int), c, from as int) is None,
        },
{
    let ghost part = chars@.take(to as int);
    let mut i: usize = from;
    while i < to
        invariant
            from <= i <= to <= chars@.len(),
            part == chars@.take(to as int),
            index_from(part, c, from as int) == index_from(part, c, i as int),
        decreases to - i,
    {
        if chars[i] == c {
            return Some(i);
        }
        i = i + 1;
    }
    None
}

/// Where the white space that `s[i..j]` begins with ends.
pub open spec fn trim_from(s: Seq<char>, i: int, j: int) -> int
    decreases j - i,
{
    if 0 <= i < j && is_space(s[i]) {
        trim_from(s, i + 1, j)
    } else {
        i
    }
}

/// Where the white space that `s[i..j]` ends with begins.
pub open spec fn trim_to(s: Seq<char>, i: int, j: int) -> int
    decreases j - i,
{
    if i < j && is_space(s[j - 1]) {
        trim_to(s, i, j - 1)
    } else {
        j
    }
}

/// `s` without the white space at its ends.
pub open spec fn trim(s: Seq<char>) -> Seq<char> {
    let i = trim_from(s, 0, s.len() as int);
    s.subrange(i, trim_to(s, i, s.len() as int))
}

/// The bounds of `chars[from..to]` without the white space at its ends.
pub fn trim_bounds(chars: &[char], from: usize, to: usize) -> (r: (usize, usize))
    requires
        from <= to <= chars@.len(),
    ensures
        from <= r.0 <= r.1 <= to,
        chars@.subrange(r.0 as int, r.1 as int) == trim(chars@.subrange(from as int, to as int)),
{
    let ghost part = chars@.subrange(from as int, to as int);
    let mut i: usize = from;
    while i < to && char_is_whitespace(chars[i])
        invariant
            from <= i <= to <= chars@.len(),
            part == chars@.subrange(from as int, to as int),
            trim_from(part, 0, part.len() as int) == trim_from(part, i - from, part.len() as int),
        decreases to - i,
    {
        proof {
            assert(part[i - from] == chars@[i as int]);
        }
        i = i + 1;
    }
    proof {
        if i < to {
            assert(part[i - from] == chars@[i as int]);
        }
    }
    let mut j: usize = to;
    while i < j && char_is_whitespace(chars[j - 1])
        invariant
            from <= i <= j <= to <= chars@.len(),
            part == chars@.subrange(from as int, to as int),
            trim_to(part, i - from, part.len() as int) == trim_to(part, i - from, j - from),
        decreases j,
    {
        proof {
            assert(part[j - from - 1] == chars@[j - 1]);
        }
        j = j - 1;
    }
    proof {
        if i < j {
            assert(part[j - from - 1] == chars@[j - 1]);
        }
        assert(chars@.subrange(i as int, j as int) =~= part.subrange(i - from, j - from));
    }
    (i, j)
}

} // verus!
