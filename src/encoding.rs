//! The byte layout of a stored segment, and its round trip.
//!
//! A segment holds one chunk:
//!
//! ```text
//! columns: u64 LE | rows: u64 LE | column*
//! column:  kind tag: u8 | slot{rows}
//! slot:    0 (null) | 1 payload
//! payload: bool: one byte 0 or 1; i32: 4 bytes LE; f64 bits: 8 bytes LE;
//!          text: byte length u64 LE, then the UTF-8 bytes
//! ```
use vstd::bytes::*;
use vstd::prelude::*;
use vstd::slice::*;
use vstd::string::*;
use vstd::utf8::*;

use crate::array::{accepts, ArrayBuilderImpl, ArrayImpl, ArrayKind};
use crate::data_chunk::{chunk_wf, column_view, rows, ColumnView, DataChunk};
use crate::types::{DataType, DataTypeKind, DataValue, Datum};

verus! {

pub open spec fn kind_tag(k: ArrayKind) -> u8 {
    match k {
        ArrayKind::Bool => 0,
        ArrayKind::Int32 => 1,
        ArrayKind::Float64 => 2,
        ArrayKind::Utf8 => 3,
    }
}

pub open spec fn tag_kind(t: u8) -> Option<ArrayKind> {
    if t == 0 {
        Some(ArrayKind::Bool)
    } else if t == 1 {
        Some(ArrayKind::Int32)
    } else if t == 2 {
        Some(ArrayKind::Float64)
    } else if t == 3 {
        Some(ArrayKind::Utf8)
    } else {
        None
    }
}

pub open spec fn datum_bytes(d: Datum) -> Seq<u8> {
    match d {
        Datum::Null => seq![0u8],
        Datum::Bool(b) => seq![1u8, if b { 1u8 } else { 0u8 }],
        Datum::Int32(v) => seq![1u8] + spec_u32_to_le_bytes(v as u32),
        Datum::Float64(v) => seq![1u8] + spec_u64_to_le_bytes(v),
        Datum::Text(s) => seq![1u8] + spec_u64_to_le_bytes(encode_utf8(s).len() as u64)
            + encode_utf8(s),
    }
}

pub open spec fn datums_bytes(ds: Seq<Datum>) -> Seq<u8>
    decreases ds.len(),
{
    if ds.len() == 0 {
        Seq::empty()
    } else {
        datums_bytes(ds.drop_last()) + datum_bytes(ds.last())
    }
}

pub open spec fn column_bytes(c: ColumnView) -> Seq<u8> {
    seq![kind_tag(c.0)] + datums_bytes(c.1)
}

pub open spec fn columns_bytes(cs: Seq<ColumnView>) -> Seq<u8>
    decreases cs.len(),
{
    if cs.len() == 0 {
        Seq::empty()
    } else {
        columns_bytes(cs.drop_last()) + column_bytes(cs.last())
    }
}

/// The bytes that store the chunk `v`.
pub open spec fn chunk_bytes(v: Seq<ColumnView>) -> Seq<u8> {
    spec_u64_to_le_bytes(v.len() as u64) + spec_u64_to_le_bytes(rows(v) as u64) + columns_bytes(v)
}

/// Every value of the column is of the column's kind, or null.
pub open spec fn column_typed(c: ColumnView) -> bool {
    forall|i: int| 0 <= i < c.1.len() ==> accepts(c.0, #[trigger] c.1[i])
}

/// Every length written into the layout fits its 64-bit field.
pub open spec fn datum_fits(d: Datum) -> bool {
    match d {
        Datum::Text(s) => encode_utf8(s).len() <= u64::MAX,
        _ => true,
    }
}

pub open spec fn chunk_fits(v: Seq<ColumnView>) -> bool {
    &&& v.len() <= u64::MAX
    &&& rows(v) <= u64::MAX
    &&& forall|j: int, i: int|
        0 <= j < v.len() && 0 <= i < v[j].1.len() ==> datum_fits(#[trigger] v[j].1[i])
}

/// A chunk that can be written: well formed, typed, and within the layout's
/// limits.
pub open spec fn storable(v: Seq<ColumnView>) -> bool {
    &&& chunk_wf(v)
    &&& forall|j: int| 0 <= j < v.len() ==> column_typed(#[trigger] v[j])
    &&& chunk_fits(v)
}

pub open spec fn read_u32(b: Seq<u8>, pos: int) -> Option<u32> {
    if 0 <= pos && pos + 4 <= b.len() {
        Some(spec_u32_from_le_bytes(b.subrange(pos, pos + 4)))
    } else {
        None
    }
}

pub open spec fn read_u64(b: Seq<u8>, pos: int) -> Option<u64> {
    if 0 <= pos && pos + 8 <= b.len() {
        Some(spec_u64_from_le_bytes(b.subrange(pos, pos + 8)))
    } else {
        None
    }
}

/// The slot of a column of kind `kind` stored at `pos`, and where it ends.
pub open spec fn parse_datum(kind: ArrayKind, b: Seq<u8>, pos: int) -> Option<(Datum, int)> {
    if !(0 <= pos < b.len()) {
        None
    } else if b[pos] == 0 {
        Some((Datum::Null, pos + 1))
    } else if b[pos] != 1 {
        None
    } else {
        match kind {
            ArrayKind::Bool => if pos + 1 < b.len() && b[pos + 1] == 0 {
                Some((Datum::Bool(false), pos + 2))
            } else if pos + 1 < b.len() && b[pos + 1] == 1 {
                Some((Datum::Bool(true), pos + 2))
            } else {
                None
            },
            ArrayKind::Int32 => match read_u32(b, pos + 1) {
                Some(x) => Some((Datum::Int32(x as i32), pos + 5)),
                None => None,
            },
            ArrayKind::Float64 => match read_u64(b, pos + 1) {
                Some(x) => Some((Datum::Float64(x), pos + 9)),
                None => None,
            },
            ArrayKind::Utf8 => match read_u64(b, pos + 1) {
                Some(n) => if pos + 9 + n <= b.len() && valid_utf8(
                    b.subrange(pos + 9, pos + 9 + n),
                ) {
                    Some((Datum::Text(decode_utf8(b.subrange(pos + 9, pos + 9 + n))), pos + 9 + n))
                } else {
                    None
                },
                None => None,
            },
        }
    }
}

/// `n` consecutive slots of kind `kind` from `pos`, and where they end.
pub open spec fn parse_datums(kind: ArrayKind, b: Seq<u8>, pos: int, n: nat) -> Option<
    (Seq<Datum>, int),
>
    decreases n,
{
    if n == 0 {
        Some((Seq::empty(), pos))
    } else {
        match parse_datums(kind, b, pos, (n - 1) as nat) {
            Some((ds, p)) => match parse_datum(kind, b, p) {
                Some((d, q)) => Some((ds.push(d), q)),
                None => None,
            },
            None => None,
        }
    }
}

pub open spec fn parse_column(b: Seq<u8>, pos: int, nrows: nat) -> Option<(ColumnView, int)> {
    if 0 <= pos < b.len() {
        match tag_kind(b[pos]) {
            Some(k) => match parse_datums(k, b, pos + 1, nrows) {
                Some((ds, p)) => Some(((k, ds), p)),
                None => None,
            },
            None => None,
        }
    } else {
        None
    }
}

pub open spec fn parse_columns(b: Seq<u8>, pos: int, ncols: nat, nrows: nat) -> Option<
    (Seq<ColumnView>, int),
>
    decreases ncols,
{
    if ncols == 0 {
        Some((Seq::empty(), pos))
    } else {
        match parse_columns(b, pos, (ncols - 1) as nat, nrows) {
            Some((cs, p)) => match parse_column(b, p, nrows) {
                Some((c, q)) => Some((cs.push(c), q)),
                None => None,
            },
            None => None,
        }
    }
}

/// The chunk that the bytes `b` store, if they are a whole stored chunk.
pub open spec fn parse_chunk(b: Seq<u8>) -> Option<Seq<ColumnView>> {
    match (read_u64(b, 0), read_u64(b, 8)) {
        (Some(ncols), Some(nrows)) => if ncols > 0 {
            match parse_columns(b, 16, ncols as nat, nrows as nat) {
                Some((cs, p)) => if p == b.len() {
                    Some(cs)
                } else {
                    None
                },
                None => None,
            }
        } else {
            None
        },
        _ => None,
    }
}

proof fn lemma_middle(pre: Seq<u8>, x: Seq<u8>, rest: Seq<u8>)
    ensures
        (pre + x + rest).subrange(pre.len() as int, (pre.len() + x.len()) as int) == x,
        forall|i: int| 0 <= i < x.len() ==> (pre + x + rest)[pre.len() + i] == #[trigger] x[i],
{
    assert((pre + x + rest).subrange(pre.len() as int, (pre.len() + x.len()) as int) =~= x);
}

proof fn lemma_i32_bits(v: i32)
    ensures
        ((v as u32) as i32) == v,
{
    assert(((v as u32) as i32) == v) by (bit_vector);
}

proof fn lemma_parse_datum(kind: ArrayKind, pre: Seq<u8>, d: Datum, rest: Seq<u8>)
    requires
        accepts(kind, d),
        datum_fits(d),
    ensures
        parse_datum(kind, pre + datum_bytes(d) + rest, pre.len() as int) == Some(
            (d, (pre.len() + datum_bytes(d).len()) as int),
        ),
{
    let e = datum_bytes(d);
    let b = pre + e + rest;
    let p = pre.len() as int;
    lemma_middle(pre, e, rest);
    lemma_auto_spec_u32_to_from_le_bytes();
    lemma_auto_spec_u64_to_from_le_bytes();
    assert(b[p] == e[0]);
    match d {
        Datum::Null => {},
        Datum::Bool(x) => {
            assert(b[p + 1] == e[1]);
        },
        Datum::Int32(v) => {
            let w = spec_u32_to_le_bytes(v as u32);
            assert(b.subrange(p + 1, p + 5) =~= w) by {
                assert forall|i: int| 0 <= i < 4 implies b[p + 1 + i] == w[i] by {
                    assert(e[1 + i] == w[i]);
                }
            }
            lemma_i32_bits(v);
        },
        Datum::Float64(v) => {
            let w = spec_u64_to_le_bytes(v);
            assert(b.subrange(p + 1, p + 9) =~= w) by {
                assert forall|i: int| 0 <= i < 8 implies b[p + 1 + i] == w[i] by {
                    assert(e[1 + i] == w[i]);
                }
            }
        },
        Datum::Text(s) => {
            let u = encode_utf8(s);
            let w = spec_u64_to_le_bytes(u.len() as u64);
            assert(b.subrange(p + 1, p + 9) =~= w) by {
                assert forall|i: int| 0 <= i < 8 implies b[p + 1 + i] == w[i] by {
                    assert(e[1 + i] == w[i]);
                }
            }
            assert(b.subrange(p + 9, p + 9 + u.len()) =~= u) by {
                assert forall|i: int| 0 <= i < u.len() implies b[p + 9 + i] == u[i] by {
                    assert(e[9 + i] == u[i]);
                }
            }
            encode_utf8_valid_utf8(s);
            encode_utf8_decode_utf8(s);
        },
    }
}

proof fn lemma_parse_datums(kind: ArrayKind, pre: Seq<u8>, ds: Seq<Datum>, rest: Seq<u8>)
    requires
        forall|i: int| 0 <= i < ds.len() ==> accepts(kind, #[trigger] ds[i]) && datum_fits(ds[i]),
    ensures
        parse_datums(kind, pre + datums_bytes(ds) + rest, pre.len() as int, ds.len()) == Some(
            (ds, (pre.len() + datums_bytes(ds).len()) as int),
        ),
    decreases ds.len(),
{
    if ds.len() > 0 {
        let init = ds.drop_last();
        let last = ds.last();
        let tail = datum_bytes(last) + rest;
        assert(pre + datums_bytes(ds) + rest =~= pre + datums_bytes(init) + tail);
        assert forall|i: int| 0 <= i < init.len() implies accepts(kind, #[trigger] init[i])
            && datum_fits(init[i]) by {
            assert(init[i] == ds[i]);
        }
        lemma_parse_datums(kind, pre, init, tail);
        assert(accepts(kind, ds[ds.len() - 1]) && datum_fits(ds[ds.len() - 1]));
        let pre2 = pre + datums_bytes(init);
        assert(pre + datums_bytes(ds) + rest =~= pre2 + datum_bytes(last) + rest);
        lemma_parse_datum(kind, pre2, last, rest);
        assert(init.push(last) =~= ds);
    }
}

proof fn lemma_parse_column(pre: Seq<u8>, c: ColumnView, rest: Seq<u8>)
    requires
        column_typed(c),
        forall|i: int| 0 <= i < c.1.len() ==> datum_fits(#[trigger] c.1[i]),
    ensures
        parse_column(pre + column_bytes(c) + rest, pre.len() as int, c.1.len()) == Some(
            (c, (pre.len() + column_bytes(c).len()) as int),
        ),
{
    let pre2 = pre.push(kind_tag(c.0));
    assert(pre + column_bytes(c) + rest =~= pre2 + datums_bytes(c.1) + rest);
    lemma_parse_datums(c.0, pre2, c.1, rest);
}

proof fn lemma_parse_columns(pre: Seq<u8>, cs: Seq<ColumnView>, rest: Seq<u8>, nrows: nat)
    requires
        forall|j: int| 0 <= j < cs.len() ==> column_typed(#[trigger] cs[j]),
        forall|j: int| 0 <= j < cs.len() ==> (#[trigger] cs[j]).1.len() == nrows,
        forall|j: int, i: int|
            0 <= j < cs.len() && 0 <= i < cs[j].1.len() ==> datum_fits(#[trigger] cs[j].1[i]),
    ensures
        parse_columns(pre + columns_bytes(cs) + rest, pre.len() as int, cs.len(), nrows) == Some(
            (cs, (pre.len() + columns_bytes(cs).len()) as int),
        ),
    decreases cs.len(),
{
    if cs.len() > 0 {
        let init = cs.drop_last();
        let last = cs.last();
        let tail = column_bytes(last) + rest;
        assert(pre + columns_bytes(cs) + rest =~= pre + columns_bytes(init) + tail);
        assert forall|j: int| 0 <= j < init.len() implies column_typed(#[trigger] init[j]) && init[j].1.len() == nrows by {
            assert(init[j] == cs[j]);
        }
        assert forall|j: int, i: int|
            0 <= j < init.len() && 0 <= i < init[j].1.len() implies datum_fits(#[trigger] init[j].1[i]) by {
            assert(init[j] == cs[j]);
        }
        lemma_parse_columns(pre, init, tail, nrows);
        let pre2 = pre + columns_bytes(init);
        assert(pre + columns_bytes(cs) + rest =~= pre2 + column_bytes(last) + rest);
        assert(column_typed(cs[cs.len() - 1]));
        assert forall|i: int| 0 <= i < last.1.len() implies datum_fits(#[trigger] last.1[i]) by {
            assert(datum_fits(cs[cs.len() - 1].1[i]));
        }
        lemma_parse_column(pre2, last, rest);
        assert(init.push(last) =~= cs);
    }
}

/// A chunk written into bytes is read back from them exactly, nulls
/// included.
pub proof fn law_chunk_round_trip(v: Seq<ColumnView>)
    requires
        storable(v),
    ensures
        parse_chunk(chunk_bytes(v)) == Some(v),
{
    let b = chunk_bytes(v);
    let h1 = spec_u64_to_le_bytes(v.len() as u64);
    let h2 = spec_u64_to_le_bytes(rows(v) as u64);
    lemma_auto_spec_u64_to_from_le_bytes();
    assert(b.subrange(0, 8) =~= h1);
    assert(b.subrange(8, 16) =~= h2);
    let pre = h1 + h2;
    assert(b =~= pre + columns_bytes(v) + Seq::<u8>::empty());
    assert forall|j: int| 0 <= j < v.len() implies (#[trigger] v[j]).1.len() == rows(v) by {}
    lemma_parse_columns(pre, v, Seq::<u8>::empty(), rows(v));
}

proof fn lemma_parse_datum_advances(kind: ArrayKind, b: Seq<u8>, pos: int)
    requires
        parse_datum(kind, b, pos) is Some,
    ensures
        pos < parse_datum(kind, b, pos).unwrap().1 <= b.len(),
        accepts(kind, parse_datum(kind, b, pos).unwrap().0),
{
}

proof fn lemma_parse_datums_len(kind: ArrayKind, b: Seq<u8>, pos: int, n: nat)
    requires
        parse_datums(kind, b, pos, n) is Some,
    ensures
        parse_datums(kind, b, pos, n).unwrap().0.len() == n,
    decreases n,
{
    if n > 0 {
        lemma_parse_datums_len(kind, b, pos, (n - 1) as nat);
    }
}

proof fn lemma_parse_datums_stop(kind: ArrayKind, b: Seq<u8>, pos: int, n: nat, m: nat)
    requires
        n <= m,
        parse_datums(kind, b, pos, n) is None,
    ensures
        parse_datums(kind, b, pos, m) is None,
    decreases m,
{
    if n < m {
        lemma_parse_datums_stop(kind, b, pos, n, (m - 1) as nat);
    }
}

proof fn lemma_parse_columns_shape(b: Seq<u8>, pos: int, ncols: nat, nrows: nat)
    requires
        parse_columns(b, pos, ncols, nrows) is Some,
    ensures
        parse_columns(b, pos, ncols, nrows).unwrap().0.len() == ncols,
        forall|j: int|
            0 <= j < ncols ==> (#[trigger] parse_columns(b, pos, ncols, nrows).unwrap().0[j]).1.len()
                == nrows,
    decreases ncols,
{
    if ncols > 0 {
        lemma_parse_columns_shape(b, pos, (ncols - 1) as nat, nrows);
        let (cs, p) = parse_columns(b, pos, (ncols - 1) as nat, nrows).unwrap();
        let k = tag_kind(b[p]).unwrap();
        lemma_parse_datums_len(k, b, p + 1, nrows);
    }
}

proof fn lemma_parse_columns_stop(b: Seq<u8>, pos: int, n: nat, m: nat, nrows: nat)
    requires
        n <= m,
        parse_columns(b, pos, n, nrows) is None,
    ensures
        parse_columns(b, pos, m, nrows) is None,
    decreases m,
{
    if n < m {
        lemma_parse_columns_stop(b, pos, n, (m - 1) as nat, nrows);
    }
}

/// Relies on `String::from_utf8`: it succeeds exactly on valid UTF-8, and the
/// string then holds the characters that the bytes encode.
#[verifier::external_body]
fn string_from_utf8(bytes: Vec<u8>) -> (r: Option<String>)
    ensures
        r is Some <==> valid_utf8(bytes@),
        r matches Some(s) ==> s@ == decode_utf8(bytes@),
{
    String::from_utf8(bytes).ok()
}

fn kind_tag_of(kind: ArrayKind) -> (r: u8)
    ensures
        r == kind_tag(kind),
{
    match kind {
        ArrayKind::Bool => 0,
        ArrayKind::Int32 => 1,
        ArrayKind::Float64 => 2,
        ArrayKind::Utf8 => 3,
    }
}

fn kind_of_tag(tag: u8) -> (r: Option<ArrayKind>)
    ensures
        r == tag_kind(tag),
{
    if tag == 0 {
        Some(ArrayKind::Bool)
    } else if tag == 1 {
        Some(ArrayKind::Int32)
    } else if tag == 2 {
        Some(ArrayKind::Float64)
    } else if tag == 3 {
        Some(ArrayKind::Utf8)
    } else {
        None
    }
}

/// Appends the bytes of one slot.
fn encode_value(v: &DataValue, out: &mut Vec<u8>)
    ensures
        final(out)@ == old(out)@ + datum_bytes(v@),
        datum_fits(v@),
{
    match v {
        DataValue::Null => {
            out.push(0);
        },
        DataValue::Bool(b) => {
            out.push(1);
            out.push(if *b { 1 } else { 0 });
        },
        DataValue::Int32(x) => {
            out.push(1);
            let mut bytes = u32_to_le_bytes(*x as u32);
            out.append(&mut bytes);
        },
        DataValue::Float64(x) => {
            out.push(1);
            let mut bytes = u64_to_le_bytes(*x);
            out.append(&mut bytes);
        },
        DataValue::String(s) => {
            out.push(1);
            let mut text = s.as_str().as_bytes_vec();
            let mut len = u64_to_le_bytes(text.len() as u64);
            out.append(&mut len);
            out.append(&mut text);
        },
    }
    assert(final(out)@ =~= old(out)@ + datum_bytes(v@));
}

/// The bytes that store `chunk`.
pub fn encode_chunk(chunk: &DataChunk) -> (r: Vec<u8>)
    requires
        chunk.wf(),
    ensures
        r@ == chunk_bytes(chunk@),
        chunk_fits(chunk@),
{
    let ghost v = chunk@;
    let arrays = chunk.arrays();
    let ncols = arrays.len();
    let nrows = chunk.cardinality();
    let mut out = u64_to_le_bytes(ncols as u64);
    let mut second = u64_to_le_bytes(nrows as u64);
    out.append(&mut second);
    let ghost header = out@;
    let mut j: usize = 0;
    while j < ncols
        invariant
            arrays@.map_values(|a: ArrayImpl| column_view(a)) == v,
            chunk_wf(v),
            ncols == v.len(),
            nrows == rows(v),
            j <= ncols,
            header == spec_u64_to_le_bytes(v.len() as u64) + spec_u64_to_le_bytes(rows(v) as u64),
            out@ == header + columns_bytes(v.subrange(0, j as int)),
            forall|c: int, i: int|
                0 <= c < j && 0 <= i < v[c].1.len() ==> datum_fits(#[trigger] v[c].1[i]),
        decreases ncols - j,
    {
        let array = &arrays[j];
        assert(column_view(*array) == v[j as int]);
        let ghost before = out@;
        out.push(kind_tag_of(array.kind()));
        let mut i: usize = 0;
        while i < nrows
            invariant
                column_view(*array) == v[j as int],
                chunk_wf(v),
                j < ncols,
                ncols == v.len(),
                nrows == rows(v),
                i <= nrows,
                out@ == before + seq![kind_tag(v[j as int].0)] + datums_bytes(
                    v[j as int].1.subrange(0, i as int),
                ),
                forall|k: int| 0 <= k < i ==> datum_fits(#[trigger] v[j as int].1[k]),
            decreases nrows - i,
        {
            assert(v[j as int].1.len() == v[0].1.len());
            let value = array.get(i);
            encode_value(&value, &mut out);
            let ghost ds = v[j as int].1;
            assert(ds.subrange(0, i + 1).drop_last() =~= ds.subrange(0, i as int));
            i += 1;
        }
        assert(v[j as int].1.len() == v[0].1.len());
        assert(v[j as int].1.subrange(0, nrows as int) =~= v[j as int].1);
        assert(v.subrange(0, j + 1).drop_last() =~= v.subrange(0, j as int));
        j += 1;
    }
    assert(v.subrange(0, ncols as int) =~= v);
    out
}

fn decode_u64(b: &[u8], pos: usize) -> (r: Option<u64>)
    ensures
        r == read_u64(b@, pos as int),
{
    if pos <= b.len() && b.len() - pos >= 8 {
        Some(u64_from_le_bytes(slice_subrange(b, pos, pos + 8)))
    } else {
        None
    }
}

fn decode_u32(b: &[u8], pos: usize) -> (r: Option<u32>)
    ensures
        r == read_u32(b@, pos as int),
{
    if pos <= b.len() && b.len() - pos >= 4 {
        Some(u32_from_le_bytes(slice_subrange(b, pos, pos + 4)))
    } else {
        None
    }
}

/// The slot of kind `kind` stored at `pos`, and where it ends.
fn decode_value(kind: ArrayKind, b: &[u8], pos: usize) -> (r: Option<(DataValue, usize)>)
    ensures
        match r {
            Some((v, p)) => parse_datum(kind, b@, pos as int) == Some((v@, p as int)),
            None => parse_datum(kind, b@, pos as int) is None,
        },
{
    if pos >= b.len() {
        return None;
    }
    let tag = b[pos];
    if tag == 0 {
        return Some((DataValue::Null, pos + 1));
    }
    if tag != 1 {
        return None;
    }
    match kind {
        ArrayKind::Bool => {
            if pos + 1 < b.len() && b[pos + 1] == 0 {
                Some((DataValue::Bool(false), pos + 2))
            } else if pos + 1 < b.len() && b[pos + 1] == 1 {
                Some((DataValue::Bool(true), pos + 2))
            } else {
                None
            }
        },
        ArrayKind::Int32 => match decode_u32(b, pos + 1) {
            Some(x) => Some((DataValue::Int32(x as i32), pos + 5)),
            None => None,
        },
        ArrayKind::Float64 => match decode_u64(b, pos + 1) {
            Some(x) => Some((DataValue::Float64(x), pos + 9)),
            None => None,
        },
        ArrayKind::Utf8 => match decode_u64(b, pos + 1) {
            Some(n) => {
                let start = pos + 9;
                if n > (b.len() - start) as u64 {
                    return None;
                }
                let end = start + n as usize;
                let bytes = slice_to_vec(slice_subrange(b, start, end));
                match string_from_utf8(bytes) {
                    Some(s) => Some((DataValue::String(s), end)),
                    None => None,
                }
            },
            None => None,
        },
    }
}

fn empty_builder(kind: ArrayKind) -> (r: ArrayBuilderImpl)
    ensures
        r.kind_spec() == kind,
        r.datums() == Seq::<Datum>::empty(),
{
    let ty = match kind {
        ArrayKind::Bool => DataType::new(DataTypeKind::Boolean, true),
        ArrayKind::Int32 => DataType::new(DataTypeKind::Int, true),
        ArrayKind::Float64 => DataType::new(DataTypeKind::Double, true),
        ArrayKind::Utf8 => DataType::new(DataTypeKind::Varchar, true),
    };
    ArrayBuilderImpl::with_capacity(0, &ty)
}

/// The column of `nrows` slots stored at `pos`, and where it ends.
fn decode_column(b: &[u8], pos: usize, nrows: u64) -> (r: Option<(ArrayImpl, usize)>)
    ensures
        match r {
            Some((a, p)) => parse_column(b@, pos as int, nrows as nat) == Some(
                (column_view(a), p as int),
            ),
            None => parse_column(b@, pos as int, nrows as nat) is None,
        },
{
    if pos >= b.len() {
        return None;
    }
    let kind = match kind_of_tag(b[pos]) {
        Some(k) => k,
        None => {
            return None;
        },
    };
    let mut builder = empty_builder(kind);
    let mut p = pos + 1;
    let mut i: u64 = 0;
    assert(builder.datums() =~= Seq::<Datum>::empty());
    while i < nrows
        invariant
            tag_kind(b@[pos as int]) == Some(kind),
            pos < b@.len(),
            builder.kind_spec() == kind,
            i <= nrows,
            pos + 1 + i <= p <= b@.len(),
            parse_datums(kind, b@, pos + 1, i as nat) == Some((builder.datums(), p as int)),
        decreases nrows - i,
    {
        match decode_value(kind, b, p) {
            Some((value, q)) => {
                proof {
                    lemma_parse_datum_advances(kind, b@, p as int);
                    lemma_parse_datums_len(kind, b@, pos + 1, i as nat);
                }
                let res = builder.push(&value);
                assert(res is Ok);
                p = q;
                i += 1;
            },
            None => {
                proof {
                    lemma_parse_datums_stop(kind, b@, pos + 1, (i + 1) as nat, nrows as nat);
                }
                return None;
            },
        }
    }
    Some((builder.finish(), p))
}

/// The chunk that `b` stores; `None` when `b` is not a whole stored chunk.
pub fn decode_chunk(b: &[u8]) -> (r: Option<DataChunk>)
    ensures
        match r {
            Some(c) => parse_chunk(b@) == Some(c@) && c.wf(),
            None => parse_chunk(b@) is None,
        },
{
    let ncols = match decode_u64(b, 0) {
        Some(n) => n,
        None => {
            return None;
        },
    };
    let nrows = match decode_u64(b, 8) {
        Some(n) => n,
        None => {
            return None;
        },
    };
    if ncols == 0 {
        return None;
    }
    let mut arrays: Vec<ArrayImpl> = Vec::new();
    let mut p: usize = 16;
    let mut j: u64 = 0;
    assert(arrays@.map_values(|a: ArrayImpl| column_view(a)) =~= Seq::<ColumnView>::empty());
    while j < ncols
        invariant
            b@.len() >= 16,
            read_u64(b@, 0) == Some(ncols),
            read_u64(b@, 8) == Some(nrows),
            ncols > 0,
            j <= ncols,
            16 + j <= p <= b@.len(),
            parse_columns(b@, 16, j as nat, nrows as nat) == Some(
                (arrays@.map_values(|a: ArrayImpl| column_view(a)), p as int),
            ),
        decreases ncols - j,
    {
        match decode_column(b, p, nrows) {
            Some((a, q)) => {
                proof {
                    let k = tag_kind(b@[p as int]).unwrap();
                    if nrows > 0 {
                        assert(parse_datums(k, b@, p + 1, nrows as nat) is Some);
                    }
                    lemma_parse_datums_advance(k, b@, p + 1, nrows as nat);
                }
                let ghost before = arrays@;
                arrays.push(a);
                assert(arrays@.map_values(|a: ArrayImpl| column_view(a)) =~= before.map_values(
                    |a: ArrayImpl| column_view(a),
                ).push(column_view(a)));
                p = q;
                j += 1;
            },
            None => {
                proof {
                    lemma_parse_columns_stop(b@, 16, (j + 1) as nat, ncols as nat, nrows as nat);
                }
                return None;
            },
        }
    }
    if p != b.len() {
        return None;
    }
    proof {
        lemma_parse_columns_shape(b@, 16, ncols as nat, nrows as nat);
    }
    match DataChunk::from_arrays(arrays) {
        Ok(c) => Some(c),
        Err(_) => None,
    }
}

proof fn lemma_parse_datums_advance(kind: ArrayKind, b: Seq<u8>, pos: int, n: nat)
    requires
        parse_datums(kind, b, pos, n) is Some,
    ensures
        pos <= parse_datums(kind, b, pos, n).unwrap().1,
    decreases n,
{
    if n > 0 {
        lemma_parse_datums_advance(kind, b, pos, (n - 1) as nat);
        let p = parse_datums(kind, b, pos, (n - 1) as nat).unwrap().1;
        lemma_parse_datum_advances(kind, b, p);
    }
}

} // verus!
