//! What a client writes as a parameter is what a statement is run with.
use vstd::prelude::*;

use crate::bytes::le_value;
use crate::error::ErrorV;
use crate::protocol::lenenc::dec_int;
use crate::protocol::prepared::{dec_param, dec_params, dec_string, dec_values};
use crate::protocol::reading::{count_at, i64_at, text_at, u16_at, u24_at, u32_at, u64_at};
use crate::protocol::resultset::CellV;
use crate::protocol::wire_laws::{bit_at, lemma_masks_are_bits};

verus! {

/// A byte at `i` in two's complement.
pub open spec fn i8_at(b: Seq<u8>, i: int) -> int {
    if b[i] >= 0x80 {
        b[i] - 0x100
    } else {
        b[i] as int
    }
}

/// Two bytes at `i` in two's complement.
pub open spec fn i16_at(b: Seq<u8>, i: int) -> int {
    if b[i + 1] >= 0x80 {
        u16_at(b, i) - 0x1_0000
    } else {
        u16_at(b, i)
    }
}

/// Four bytes at `i` in two's complement.
pub open spec fn i32_at(b: Seq<u8>, i: int) -> int {
    if b[i + 3] >= 0x80 {
        u32_at(b, i) - 0x1_0000_0000
    } else {
        u32_at(b, i)
    }
}

/// A parameter of type `t` at `i`, and the place behind it: a number of one,
/// two, four or eight bytes, a length-encoded text, or nothing.
pub open spec fn parameter_at(b: Seq<u8>, i: int, t: u8) -> Option<(CellV, int)> {
    if t == 1 && i + 1 <= b.len() {
        Some((CellV::Int(i8_at(b, i) as i64), i + 1))
    } else if t == 2 && i + 2 <= b.len() {
        Some((CellV::Int(i16_at(b, i) as i64), i + 2))
    } else if t == 3 && i + 4 <= b.len() {
        Some((CellV::Int(i32_at(b, i) as i64), i + 4))
    } else if t == 8 && i + 8 <= b.len() {
        Some((CellV::Int(i64_at(b, i) as i64), i + 8))
    } else if t == 6 {
        Some((CellV::Null, i))
    } else if t == 15 || t == 252 || t == 253 || t == 254 {
        match text_at(b, i) {
            Some((s, j)) => Some((CellV::Text(s), j)),
            None => None,
        }
    } else {
        None
    }
}

/// The values of the first `k` of `n` parameters, and the place behind them.
/// Behind a header of ten bytes stand a bitmap of the `NULL`s, a byte, two
/// bytes for each type, and the values of those that are not `NULL`.
pub open spec fn parameters_of(b: Seq<u8>, n: int, k: int) -> Option<(Seq<CellV>, int)>
    decreases k,
{
    let types = 11 + (n + 7) / 8;
    if k <= 0 {
        Some((Seq::empty(), types + 2 * n))
    } else {
        match parameters_of(b, n, k - 1) {
            None => None,
            Some((front, i)) => if bit_at(b, 10, k - 1) {
                Some((front.push(CellV::Null), i))
            } else {
                match parameter_at(b, i, b[types + 2 * (k - 1)]) {
                    Some((v, j)) => Some((front.push(v), j)),
                    None => None,
                }
            },
        }
    }
}

proof fn lemma_value_of_two(s: Seq<u8>)
    requires
        s.len() >= 2,
    ensures
        le_value(s) == s[0] + 0x100 * s[1] + 0x1_0000 * le_value(s.subrange(2, s.len() as int)),
{
    let a = s.drop_first();
    let c = a.drop_first();
    assert(le_value(s) == s[0] + 256 * le_value(a));
    assert(le_value(a) == a[0] + 256 * le_value(c));
    assert(c =~= s.subrange(2, s.len() as int));
}

/// Numbers of fixed width are those that their bytes make.
pub proof fn lemma_fixed_value(b: Seq<u8>, i: int, width: int)
    requires
        0 <= i,
        i + width <= b.len(),
    ensures
        ({
            let n = le_value(b.subrange(i, i + width));
            &&& width == 1 ==> n == b[i]
            &&& width == 2 ==> n == u16_at(b, i)
            &&& width == 3 ==> n == u24_at(b, i)
            &&& width == 4 ==> n == u32_at(b, i)
            &&& width == 8 ==> n == u64_at(b, i)
        }),
{
    let s = b.subrange(i, i + width);
    let none = Seq::<u8>::empty();
    assert(le_value(none) == 0);
    if width == 1 {
        assert(s.drop_first() =~= none);
    } else if width == 2 {
        lemma_value_of_two(s);
        assert(s.subrange(2, 2) =~= none);
    } else if width == 3 {
        lemma_value_of_two(s);
        assert(s.subrange(2, 3).drop_first() =~= none);
    } else if width == 4 {
        lemma_value_of_two(s);
        lemma_value_of_two(s.subrange(2, 4));
        assert(s.subrange(2, 4).subrange(2, 2) =~= none);
    } else if width == 8 {
        let t = s.subrange(2, 8);
        let u = t.subrange(2, 6);
        let v = u.subrange(2, 4);
        lemma_value_of_two(s);
        lemma_value_of_two(t);
        lemma_value_of_two(u);
        lemma_value_of_two(v);
        assert(v.subrange(2, 2) =~= none);
    }
}

proof fn lemma_counts_agree(b: Seq<u8>, i: int)
    requires
        0 <= i <= b.len(),
    ensures
        match count_at(b, i) {
            Some((n, j)) => n >= 0 && j > i && dec_int(b.subrange(i, b.len() as int)) == Ok::<
                (nat, int),
                ErrorV,
            >((n as nat, j - i)),
            None => dec_int(b.subrange(i, b.len() as int)) is Err,
        },
{
    let s = b.subrange(i, b.len() as int);
    if i < b.len() {
        assert(s[0] == b[i]);
    }
    if count_at(b, i) is None {
    } else if b[i] == 252 {
        assert(s.subrange(1, 3) =~= b.subrange(i + 1, i + 3));
        lemma_fixed_value(b, i + 1, 2);
    } else if b[i] == 253 {
        assert(s.subrange(1, 4) =~= b.subrange(i + 1, i + 4));
        lemma_fixed_value(b, i + 1, 3);
    } else if b[i] == 254 {
        assert(s.subrange(1, 9) =~= b.subrange(i + 1, i + 9));
        lemma_fixed_value(b, i + 1, 8);
    }
}

proof fn lemma_texts_agree(b: Seq<u8>, i: int)
    requires
        0 <= i <= b.len() <= usize::MAX,
    ensures
        match text_at(b, i) {
            Some((t, j)) => dec_string(b.subrange(i, b.len() as int)) == Ok::<(CellV, int), ErrorV>(
                (CellV::Text(t), j - i),
            ),
            None => dec_string(b.subrange(i, b.len() as int)) is Err,
        },
{
    let s = b.subrange(i, b.len() as int);
    lemma_counts_agree(b, i);
    match count_at(b, i) {
        Some((n, j)) => {
            if j + n <= b.len() {
                assert(s.subrange(j - i, j - i + n) =~= b.subrange(j, j + n));
            }
        },
        None => {},
    }
}

/// A parameter is read by its type, whichever of the supported ones it is. It
/// is refused if its type is another, if its bytes are cut short, or if they
/// are no text.
pub proof fn law_parameters_are_read_by_their_type(b: Seq<u8>, i: int, t: u8)
    requires
        0 <= i <= b.len() <= usize::MAX,
    ensures
        match parameter_at(b, i, t) {
            Some((v, j)) => i <= j <= b.len() && dec_param(b.subrange(i, b.len() as int), t)
                == Ok::<(CellV, int), ErrorV>((v, j - i)),
            None => dec_param(b.subrange(i, b.len() as int), t) is Err,
        },
{
    let s = b.subrange(i, b.len() as int);
    match parameter_at(b, i, t) {
        Some((v, j)) => {
            if t == 1 {
                assert(s.subrange(0, 1) =~= b.subrange(i, i + 1));
                lemma_fixed_value(b, i, 1);
            } else if t == 2 {
                assert(s.subrange(0, 2) =~= b.subrange(i, i + 2));
                lemma_fixed_value(b, i, 2);
            } else if t == 3 {
                assert(s.subrange(0, 4) =~= b.subrange(i, i + 4));
                lemma_fixed_value(b, i, 4);
            } else if t == 8 {
                assert(s.subrange(0, 8) =~= b.subrange(i, i + 8));
                lemma_fixed_value(b, i, 8);
            } else if t != 6 {
                lemma_texts_agree(b, i);
                lemma_counts_agree(b, i);
            }
        },
        None => {
            if t == 15 || t == 252 || t == 253 || t == 254 {
                lemma_texts_agree(b, i);
            }
        },
    }
}

proof fn lemma_parameters(b: Seq<u8>, n: int, k: int)
    requires
        0 <= k <= n,
        b.len() <= usize::MAX,
        11 + (n + 7) / 8 + 2 * n <= b.len(),
    ensures
        match parameters_of(b, n, k) {
            Some((cells, i)) => {
                &&& dec_values(b, n, k) == Ok::<(Seq<CellV>, int), ErrorV>((cells, i))
                &&& cells.len() == k
                &&& 0 <= i <= b.len()
            },
            None => dec_values(b, n, k) is Err,
        },
    decreases k,
{
    if k > 0 {
        lemma_parameters(b, n, k - 1);
        match parameters_of(b, n, k - 1) {
            Some((front, i)) => {
                let types = 11 + (n + 7) / 8;
                lemma_masks_are_bits(b, 10, k - 1);
                law_parameters_are_read_by_their_type(b, i, b[types + 2 * (k - 1)]);
            },
            None => {},
        }
    }
}

/// The parameters of a `COM_STMT_EXECUTE` are read as they were written: `NULL`
/// where the bitmap says so, and otherwise the values in order, each by its
/// type.
pub proof fn law_parameters_are_those_written(b: Seq<u8>, n: int)
    requires
        0 < n,
        b.len() <= usize::MAX,
        11 + (n + 7) / 8 + 2 * n <= b.len(),
        b[10 + (n + 7) / 8] == 1,
    ensures
        match parameters_of(b, n, n) {
            Some((cells, _)) => cells.len() == n && dec_params(b, n) == Ok::<Seq<CellV>, ErrorV>(
                cells,
            ),
            None => dec_params(b, n) is Err,
        },
{
    lemma_parameters(b, n, n);
}

} // verus!
