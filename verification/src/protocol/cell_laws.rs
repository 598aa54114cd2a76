//! Values cross the wire unharmed.
use vstd::prelude::*;
use vstd::utf8::{encode_utf8, encode_utf8_decode_utf8, encode_utf8_valid_utf8};

use crate::bytes::{le, lemma_le_round_trip, lemma_pow256, unsigned64};
use crate::error::ErrorV;
use crate::protocol::lenenc::{enc_int, law_integers_read_back};
use crate::protocol::prepared::{
    dec_param, dec_params, dec_values, marked_null, param_bitmap_len, MYSQL_TYPE_LONGLONG,
    MYSQL_TYPE_VAR_STRING,
};
use crate::protocol::resultset::{binary_cell, binary_cells, CellV};

verus! {

/// The parameter type that a value goes by.
pub open spec fn wire_type(c: CellV) -> u8 {
    match c {
        CellV::Int(_) => MYSQL_TYPE_LONGLONG,
        _ => MYSQL_TYPE_VAR_STRING,
    }
}

/// A value in the binary form that results are sent in is understood when it
/// comes back as a parameter.
pub proof fn law_binary_values_read_back(c: CellV, rest: Seq<u8>)
    requires
        !(c is Null),
        (binary_cell(c) + rest).len() <= usize::MAX,
    ensures
        dec_param(binary_cell(c) + rest, wire_type(c)) == Ok::<(CellV, int), ErrorV>(
            (c, binary_cell(c).len() as int),
        ),
{
    let all = binary_cell(c) + rest;
    match c {
        CellV::Int(n) => {
            lemma_pow256();
            lemma_le_round_trip(unsigned64(n as int), 8);
            assert(all.subrange(0, 8) =~= le(unsigned64(n as int), 8));
        },
        CellV::Text(s) => {
            let text = encode_utf8(s);
            encode_utf8_valid_utf8(s);
            encode_utf8_decode_utf8(s);
            assert(all =~= enc_int(text.len()) + (text + rest));
            law_integers_read_back(text.len() as u64, text + rest);
            let used = enc_int(text.len()).len() as int;
            assert(all.subrange(used, used + text.len()) =~= text);
        },
        CellV::Null => {},
    }
}

proof fn lemma_cells_prefix(cells: Seq<CellV>, k: int)
    requires
        0 <= k < cells.len(),
    ensures
        binary_cells(cells.take(k + 1)) == binary_cells(cells.take(k)) + binary_cell(cells[k]),
        binary_cells(cells.take(k + 1)).len() <= binary_cells(cells).len(),
        binary_cells(cells).take(binary_cells(cells.take(k + 1)).len() as int) == binary_cells(
            cells.take(k + 1),
        ),
    decreases cells.len() - k,
{
    assert(cells.take(k + 1).drop_last() =~= cells.take(k));
    if k + 1 < cells.len() {
        lemma_cells_prefix(cells, k + 1);
        let whole = binary_cells(cells);
        let long = binary_cells(cells.take(k + 2));
        let short = binary_cells(cells.take(k + 1));
        assert(whole.take(short.len() as int) =~= long.take(short.len() as int));
        assert(long.take(short.len() as int) =~= short);
    } else {
        assert(cells.take(k + 1) =~= cells);
        assert(binary_cells(cells).take(binary_cells(cells).len() as int) =~= binary_cells(cells));
    }
}

/// Whether a `COM_STMT_EXECUTE` payload carries some values: the bitmap marks
/// the `NULL`s, freshly bound types follow, and then the other values.
pub open spec fn carries(payload: Seq<u8>, cells: Seq<CellV>) -> bool {
    let n = cells.len() as int;
    let flag = 10 + param_bitmap_len(n);
    let values = flag + 1 + 2 * n;
    &&& payload.len() <= usize::MAX
    &&& payload.len() == values + binary_cells(cells).len()
    &&& payload[flag] == 1
    &&& forall|i: int|
        0 <= i < n ==> {
            &&& #[trigger] marked_null(payload, 10, i) == (cells[i] is Null)
            &&& !(cells[i] is Null) ==> payload[flag + 1 + 2 * i] == wire_type(cells[i])
        }
    &&& payload.subrange(values, payload.len() as int) == binary_cells(cells)
}

proof fn lemma_values_read_back(payload: Seq<u8>, cells: Seq<CellV>, k: int)
    requires
        carries(payload, cells),
        0 <= k <= cells.len(),
    ensures
        ({
            let n = cells.len() as int;
            let values = 10 + param_bitmap_len(n) + 1 + 2 * n;
            dec_values(payload, n, k) == Ok::<(Seq<CellV>, int), ErrorV>(
                (cells.take(k), values + binary_cells(cells.take(k)).len()),
            )
        }),
    decreases k,
{
    let n = cells.len() as int;
    let values = 10 + param_bitmap_len(n) + 1 + 2 * n;
    if k > 0 {
        lemma_values_read_back(payload, cells, k - 1);
        lemma_cells_prefix(cells, k - 1);
        let c = cells[k - 1];
        let front = binary_cells(cells.take(k - 1));
        let pos = values + front.len();
        assert(cells.take(k - 1).push(c) =~= cells.take(k));
        assert(marked_null(payload, 10, k - 1) == (c is Null));
        if !(c is Null) {
            let tail = payload.subrange(pos, payload.len() as int);
            let all = binary_cells(cells);
            let rest = all.subrange((front.len() + binary_cell(c).len()) as int, all.len() as int);
            assert(tail =~= all.subrange(front.len() as int, all.len() as int)) by {
                assert(payload.subrange(values, payload.len() as int) == all);
                assert forall|i: int| 0 <= i < tail.len() implies tail[i] == all[front.len()
                    + i] by {
                    assert(payload.subrange(values, payload.len() as int)[front.len() + i]
                        == payload[pos + i]);
                }
            }
            let both = front + binary_cell(c);
            assert(all.take(both.len() as int) == both);
            assert(tail =~= binary_cell(c) + rest) by {
                assert forall|i: int| 0 <= i < binary_cell(c).len() implies tail[i]
                    == binary_cell(c)[i] by {
                    assert(all.take(both.len() as int)[front.len() + i] == all[front.len() + i]);
                    assert(both[front.len() + i] == binary_cell(c)[i]);
                }
            }
            law_binary_values_read_back(c, rest);
        } else {
            assert(binary_cell(c).len() == 0);
        }
    } else {
        assert(cells.take(0) =~= Seq::empty());
    }
}

/// The values that a client sends with a prepared statement are the ones that
/// it is run with.
pub proof fn law_parameters_read_back(payload: Seq<u8>, cells: Seq<CellV>)
    requires
        carries(payload, cells),
    ensures
        dec_params(payload, cells.len() as int) == Ok::<Seq<CellV>, ErrorV>(cells),
{
    lemma_values_read_back(payload, cells, cells.len() as int);
    assert(cells.take(cells.len() as int) =~= cells);
    if cells.len() == 0 {
        assert(cells =~= Seq::empty());
    }
}

} // verus!
