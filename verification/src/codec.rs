//! The record codec: turns file bytes into columnar row batches and
//! back. A file holds one batch in a fixed little-endian layout: the
//! column count, the row count, then every column's values in order.
//! Decoding is exact — a file either is the encoding of one well-formed
//! batch, which decoding returns, or it is malformed and rejected.

use vstd::prelude::*;
use vstd::bytes::*;
use vstd::slice::slice_subrange;
use crate::errors::StoreError;

verus! {

/// One in-memory chunk of decoded rows: ordered columns of equal length
/// sharing one schema. Values are the stored 64-bit integers.
pub struct RowBatch {
    pub columns: Vec<Vec<u64>>,
}

impl RowBatch {
    /// A well-formed batch has at least one column, at least one row,
    /// and columns of equal length.
    pub open spec fn wf(&self) -> bool {
        &&& self.columns@.len() >= 1
        &&& self.columns@[0]@.len() >= 1
        &&& forall|j: int|
            0 <= j < self.columns@.len() ==> (#[trigger] self.columns@[j])@.len()
                == self.columns@[0]@.len()
    }

    /// The batch's columns, as sequences of values.
    pub open spec fn cols(&self) -> Seq<Seq<u64>> {
        self.columns@.map_values(|c: Vec<u64>| c@)
    }

    pub open spec fn n_cols(&self) -> int {
        self.columns@.len() as int
    }

    pub open spec fn n_rows(&self) -> int {
        if self.columns@.len() == 0 {
            0
        } else {
            self.columns@[0]@.len() as int
        }
    }

    /// The batch read row-wise: row `i` holds one value per column.
    pub open spec fn rows(&self) -> Seq<Seq<u64>> {
        batch_rows_of(self.cols(), self.n_rows())
    }
}

/// Columnar data read row-wise: row `i` holds one value per column.
pub open spec fn batch_rows_of(cols: Seq<Seq<u64>>, nr: int) -> Seq<Seq<u64>> {
    Seq::new(nr as nat, |i: int| Seq::new(cols.len(), |j: int| cols[j][i]))
}

/// Columns of uniform length `nr`.
pub open spec fn cols_wf(cols: Seq<Seq<u64>>, nr: int) -> bool {
    forall|j: int| 0 <= j < cols.len() ==> (#[trigger] cols[j]).len() == nr
}

/// The little-endian bytes of a sequence of values, in order.
pub open spec fn spec_encode_u64s(vals: Seq<u64>) -> Seq<u8>
    decreases vals.len(),
{
    if vals.len() == 0 {
        Seq::empty()
    } else {
        spec_encode_u64s(vals.drop_last()) + spec_u64_to_le_bytes(vals.last())
    }
}

/// The bytes of all columns, in column order.
pub open spec fn spec_encode_columns(cols: Seq<Seq<u64>>) -> Seq<u8>
    decreases cols.len(),
{
    if cols.len() == 0 {
        Seq::empty()
    } else {
        spec_encode_columns(cols.drop_last()) + spec_encode_u64s(cols.last())
    }
}

/// The encoding of one batch: column count, row count, then the columns.
pub open spec fn spec_encode(cols: Seq<Seq<u64>>, nr: int) -> Seq<u8> {
    spec_u64_to_le_bytes(cols.len() as u64) + spec_u64_to_le_bytes(nr as u64) + spec_encode_columns(
        cols,
    )
}

/// What a byte string decodes to: the unique columnar content whose
/// encoding it is, or nothing when it is malformed — too short, a zero
/// column or row count, or a length that does not match its header.
pub open spec fn spec_decode(bytes: Seq<u8>) -> Option<Seq<Seq<u64>>> {
    if bytes.len() < 16 {
        None
    } else {
        let nc = spec_u64_from_le_bytes(bytes.subrange(0, 8)) as int;
        let nr = spec_u64_from_le_bytes(bytes.subrange(8, 16)) as int;
        if nc == 0 || nr == 0 {
            None
        } else if bytes.len() != 16 + 8 * (nc * nr) {
            None
        } else {
            Some(spec_decode_payload(bytes, nc, nr))
        }
    }
}

/// The columns a well-formed encoding carries: value `i` of column `j`
/// sits at offset `16 + 8*(j*nr + i)`.
pub open spec fn spec_decode_payload(bytes: Seq<u8>, nc: int, nr: int) -> Seq<Seq<u64>> {
    Seq::new(
        nc as nat,
        |j: int|
            Seq::new(
                nr as nat,
                |i: int|
                    spec_u64_from_le_bytes(
                        bytes.subrange(16 + 8 * (j * nr + i), 16 + 8 * (j * nr + i) + 8),
                    ),
            ),
    )
}

/// The row count a well-formed encoding declares.
pub open spec fn spec_decode_n_rows(bytes: Seq<u8>) -> int {
    spec_u64_from_le_bytes(bytes.subrange(8, 16)) as int
}

/// Encodes one well-formed batch. The output is exactly the batch's
/// encoding, so decoding it restores the batch's columns.
pub fn encode_batch(batch: &RowBatch) -> (r: Vec<u8>)
    requires
        batch.wf(),
    ensures
        r@ == spec_encode(batch.cols(), batch.n_rows()),
{
    let nc = batch.columns.len();
    let nr = batch.columns[0].len();
    let mut out: Vec<u8> = u64_to_le_bytes(nc as u64);
    let mut nr_bytes = u64_to_le_bytes(nr as u64);
    out.append(&mut nr_bytes);
    proof {
        assert(out@ == spec_u64_to_le_bytes(nc as u64) + spec_u64_to_le_bytes(nr as u64));
        assert(batch.cols().take(0) =~= Seq::<Seq<u64>>::empty());
        assert(out@ =~= spec_u64_to_le_bytes(nc as u64) + spec_u64_to_le_bytes(nr as u64)
            + spec_encode_columns(batch.cols().take(0)));
    }
    let mut j: usize = 0;
    while j < nc
        invariant
            batch.wf(),
            nc == batch.columns@.len(),
            nr == batch.columns@[0]@.len(),
            j <= nc,
            out@ == spec_u64_to_le_bytes(nc as u64) + spec_u64_to_le_bytes(nr as u64)
                + spec_encode_columns(batch.cols().take(j as int)),
        decreases nc - j,
    {
        let col = &batch.columns[j];
        let ghost col_view = col@;
        let ghost out_before = out@;
        let mut i: usize = 0;
        proof {
            assert(col_view.take(0) =~= Seq::<u64>::empty());
        }
        while i < col.len()
            invariant
                col_view == col@,
                i <= col.len(),
                out@ == out_before + spec_encode_u64s(col_view.take(i as int)),
            decreases col.len() - i,
        {
            let mut vb = u64_to_le_bytes(col[i]);
            out.append(&mut vb);
            proof {
                assert(col_view.take(i + 1).drop_last() =~= col_view.take(i as int));
                assert(col_view.take(i + 1).last() == col_view[i as int]);
            }
            i = i + 1;
        }
        proof {
            assert(col_view.take(col_view.len() as int) =~= col_view);
            assert(batch.cols().take(j + 1).drop_last() =~= batch.cols().take(j as int));
            assert(batch.cols().take(j + 1).last() == col_view);
            assert(spec_encode_columns(batch.cols().take(j + 1)) == spec_encode_columns(
                batch.cols().take(j as int),
            ) + spec_encode_u64s(col_view));
        }
        j = j + 1;
    }
    proof {
        assert(batch.cols().take(nc as int) =~= batch.cols());
    }
    out
}

/// Decodes file bytes into the one batch they encode, or rejects them as
/// `Decode` when they are not a well-formed encoding.
pub fn decode_batch(bytes: &Vec<u8>) -> (r: Result<RowBatch, StoreError>)
    ensures
        r is Ok <==> spec_decode(bytes@) is Some,
        r is Ok ==> r->Ok_0.wf() && r->Ok_0.cols() == spec_decode(bytes@)->0 && r->Ok_0.n_rows()
            == spec_decode_n_rows(bytes@),
        r is Err ==> r->Err_0 is Decode,
{
    if bytes.len() < 16 {
        return Err(decode_error());
    }
    let nc64 = u64_from_le_bytes(slice_subrange(bytes.as_slice(), 0, 8));
    let nr64 = u64_from_le_bytes(slice_subrange(bytes.as_slice(), 8, 16));
    if nc64 == 0 || nr64 == 0 {
        return Err(decode_error());
    }
    let ghost nc_i: int = nc64 as int;
    let ghost nr_i: int = nr64 as int;
    let ghost total: int = nc_i * nr_i;
    proof {
        assert(total >= nc_i && total >= nr_i && total >= 1) by (nonlinear_arith)
            requires
                nc_i >= 1,
                nr_i >= 1,
                total == nc_i * nr_i,
        ;
        assert(total < 0x10000000000000000 * 0x10000000000000000) by (nonlinear_arith)
            requires
                0 <= nc_i < 0x10000000000000000,
                0 <= nr_i < 0x10000000000000000,
                total == nc_i * nr_i,
        ;
    }
    let prod: u128 = (nc64 as u128) * (nr64 as u128);
    proof {
        assert(prod == total);
    }
    let cap: u128 = ((usize::MAX as u128) - 16) / 8;
    if prod > cap {
        proof {
            assert(8 * total > (usize::MAX as int) - 16);
            assert(bytes@.len() != 16 + 8 * total);
        }
        return Err(decode_error());
    }
    let expected: u128 = 16 + 8 * prod;
    if (bytes.len() as u128) != expected {
        return Err(decode_error());
    }
    proof {
        assert(bytes@.len() == 16 + 8 * total);
        assert(nr_i <= usize::MAX && nc_i <= usize::MAX);
    }
    let nr: usize = nr64 as usize;
    let nc: usize = nc64 as usize;
    let mut columns: Vec<Vec<u64>> = Vec::new();
    let mut off: usize = 16;
    let mut j: usize = 0;
    while j < nc
        invariant
            bytes@.len() == 16 + 8 * total,
            bytes@.len() <= usize::MAX,
            total == nc_i * nr_i,
            nc_i == nc,
            nr_i == nr,
            1 <= nc,
            1 <= nr,
            j <= nc,
            off == 16 + 8 * ((j as int) * nr_i),
            columns@.len() == j,
            forall|j2: int|
                0 <= j2 < j ==> (#[trigger] columns@[j2])@ =~= spec_decode_payload(
                    bytes@,
                    nc_i,
                    nr_i,
                )[j2],
        decreases nc - j,
    {
        let mut col: Vec<u64> = Vec::new();
        let mut i: usize = 0;
        let ghost off_col: int = off as int;
        proof {
            assert(((j as int) + 1) * nr_i == (j as int) * nr_i + nr_i) by (nonlinear_arith);
            assert(((j as int) + 1) * nr_i <= total) by (nonlinear_arith)
                requires
                    (j as int) + 1 <= nc_i,
                    nr_i >= 1,
                    total == nc_i * nr_i,
            ;
            assert(0 <= (j as int) * nr_i) by (nonlinear_arith)
                requires
                    0 <= j as int,
                    0 <= nr_i,
            ;
            assert(off_col + 8 * nr_i == 16 + 8 * (((j as int) + 1) * nr_i));
            assert(off_col + 8 * nr_i <= bytes@.len());
        }
        while i < nr
            invariant
                bytes@.len() == 16 + 8 * total,
                bytes@.len() <= usize::MAX,
                nr_i == nr,
                i <= nr,
                off_col == 16 + 8 * ((j as int) * nr_i),
                16 <= off_col,
                off == off_col + 8 * (i as int),
                off_col + 8 * nr_i <= bytes@.len(),
                col@.len() == i,
                forall|i2: int|
                    0 <= i2 < i ==> col@[i2] == spec_u64_from_le_bytes(
                        bytes@.subrange(off_col + 8 * i2, off_col + 8 * i2 + 8),
                    ),
            decreases nr - i,
        {
            let chunk = slice_subrange(bytes.as_slice(), off, off + 8);
            let v = u64_from_le_bytes(chunk);
            col.push(v);
            off = off + 8;
            i = i + 1;
        }
        columns.push(col);
        proof {
            assert forall|i2: int| 0 <= i2 < nr_i implies col@[i2] == spec_decode_payload(
                bytes@,
                nc_i,
                nr_i,
            )[j as int][i2] by {
                assert(off_col + 8 * i2 == 16 + 8 * ((j as int) * nr_i + i2));
            }
            assert(col@ =~= spec_decode_payload(bytes@, nc_i, nr_i)[j as int]);
            assert(((j as int) + 1) * nr_i == (j as int) * nr_i + nr_i) by (nonlinear_arith);
            assert(off == 16 + 8 * (((j as int) + 1) * nr_i));
        }
        j = j + 1;
    }
    let batch = RowBatch { columns };
    proof {
        assert(batch.cols() =~~= spec_decode_payload(bytes@, nc_i, nr_i));
        assert(spec_decode(bytes@) == Some(spec_decode_payload(bytes@, nc_i, nr_i)));
        assert forall|j2: int| 0 <= j2 < nc_i implies (#[trigger] batch.columns@[j2])@.len()
            == nr_i by {
            assert(batch.columns@[j2]@ =~= spec_decode_payload(bytes@, nc_i, nr_i)[j2]);
        }
        assert(batch.wf());
    }
    Ok(batch)
}

/// The error a malformed file raises.
fn decode_error() -> (r: StoreError)
    ensures
        r is Decode,
{
    StoreError::Decode { cause: String::from_str("file is not a well-formed columnar encoding") }
}

proof fn lemma_encode_u64s_len(vals: Seq<u64>)
    ensures
        spec_encode_u64s(vals).len() == 8 * vals.len(),
    decreases vals.len(),
{
    lemma_auto_spec_u64_to_from_le_bytes();
    if vals.len() > 0 {
        lemma_encode_u64s_len(vals.drop_last());
    }
}

proof fn lemma_encode_columns_len(cols: Seq<Seq<u64>>, nr: int)
    requires
        cols_wf(cols, nr),
        nr >= 0,
    ensures
        spec_encode_columns(cols).len() == 8 * (cols.len() * nr),
    decreases cols.len(),
{
    if cols.len() == 0 {
        assert(cols.len() * nr == 0) by (nonlinear_arith)
            requires
                cols.len() == 0,
        ;
    } else {
        assert(cols_wf(cols.drop_last(), nr)) by {
            assert(forall|j: int| 0 <= j < cols.len() - 1 ==> cols.drop_last()[j] == cols[j]);
        }
        lemma_encode_columns_len(cols.drop_last(), nr);
        lemma_encode_u64s_len(cols.last());
        assert(cols.last() == cols[cols.len() - 1]);
        assert(cols[cols.len() - 1].len() == nr);
        assert((cols.len() - 1) * nr + nr == cols.len() * nr) by (nonlinear_arith);
        assert(spec_encode_columns(cols).len() == 8 * ((cols.len() - 1) * nr) + 8 * nr);
    }
}

proof fn lemma_encode_u64s_at(vals: Seq<u64>, i: int)
    requires
        0 <= i < vals.len(),
    ensures
        spec_encode_u64s(vals).subrange(8 * i, 8 * i + 8) == spec_u64_to_le_bytes(vals[i]),
    decreases vals.len(),
{
    lemma_auto_spec_u64_to_from_le_bytes();
    lemma_encode_u64s_len(vals);
    lemma_encode_u64s_len(vals.drop_last());
    if i == vals.len() - 1 {
        assert(spec_encode_u64s(vals).subrange(8 * i, 8 * i + 8) =~= spec_u64_to_le_bytes(
            vals.last(),
        ));
    } else {
        lemma_encode_u64s_at(vals.drop_last(), i);
        assert(spec_encode_u64s(vals).subrange(8 * i, 8 * i + 8) =~= spec_encode_u64s(
            vals.drop_last(),
        ).subrange(8 * i, 8 * i + 8));
        assert(vals.drop_last()[i] == vals[i]);
    }
}

proof fn lemma_encode_columns_at(cols: Seq<Seq<u64>>, nr: int, j: int, i: int)
    requires
        cols_wf(cols, nr),
        nr >= 1,
        0 <= j < cols.len(),
        0 <= i < nr,
    ensures
        spec_encode_columns(cols).subrange(8 * (j * nr + i), 8 * (j * nr + i) + 8)
            == spec_u64_to_le_bytes(cols[j][i]),
    decreases cols.len(),
{
    assert(cols_wf(cols.drop_last(), nr)) by {
        assert(forall|j2: int| 0 <= j2 < cols.len() - 1 ==> cols.drop_last()[j2] == cols[j2]);
    }
    lemma_encode_columns_len(cols, nr);
    lemma_encode_columns_len(cols.drop_last(), nr);
    lemma_encode_u64s_len(cols.last());
    assert(cols.last() == cols[cols.len() - 1]);
    assert(cols[cols.len() - 1].len() == nr);
    let pre = spec_encode_columns(cols.drop_last());
    let suf = spec_encode_u64s(cols.last());
    assert(spec_encode_columns(cols) == pre + suf);
    assert(pre.len() == 8 * ((cols.len() - 1) * nr));
    if j == cols.len() - 1 {
        lemma_encode_u64s_at(cols.last(), i);
        assert(8 * (j * nr + i) == 8 * ((cols.len() - 1) * nr) + 8 * i) by (nonlinear_arith)
            requires
                j == cols.len() - 1,
        ;
        assert((pre + suf).subrange(8 * (j * nr + i), 8 * (j * nr + i) + 8) =~= suf.subrange(
            8 * i,
            8 * i + 8,
        ));
    } else {
        lemma_encode_columns_at(cols.drop_last(), nr, j, i);
        assert(cols.drop_last()[j] == cols[j]);
        assert(0 <= 8 * (j * nr + i) && 8 * (j * nr + i) + 8 <= 8 * ((cols.len() - 1) * nr))
            by (nonlinear_arith)
            requires
                0 <= j < cols.len() - 1,
                0 <= i < nr,
                nr >= 1,
        ;
        assert((pre + suf).subrange(8 * (j * nr + i), 8 * (j * nr + i) + 8) =~= pre.subrange(
            8 * (j * nr + i),
            8 * (j * nr + i) + 8,
        ));
    }
}

/// Round trip: decoding the encoding of any well-formed columnar content
/// restores exactly that content. Writing a decoded batch out and
/// reading it back therefore yields the original rows.
pub proof fn lemma_decode_encode(cols: Seq<Seq<u64>>, nr: int)
    requires
        cols.len() >= 1,
        cols.len() <= u64::MAX,
        1 <= nr <= u64::MAX,
        cols_wf(cols, nr),
    ensures
        spec_decode(spec_encode(cols, nr)) == Some(cols),
        spec_decode_n_rows(spec_encode(cols, nr)) == nr,
{
    lemma_auto_spec_u64_to_from_le_bytes();
    let bytes = spec_encode(cols, nr);
    let nc = cols.len() as int;
    lemma_encode_columns_len(cols, nr);
    assert(nc * nr >= 1) by (nonlinear_arith)
        requires
            nc >= 1,
            nr >= 1,
    ;
    assert(bytes.len() == 16 + 8 * (nc * nr));
    assert(bytes.subrange(0, 8) =~= spec_u64_to_le_bytes(cols.len() as u64));
    assert(bytes.subrange(8, 16) =~= spec_u64_to_le_bytes(nr as u64));
    assert(spec_u64_from_le_bytes(bytes.subrange(0, 8)) == cols.len() as u64);
    assert(spec_u64_from_le_bytes(bytes.subrange(8, 16)) == nr as u64);
    assert forall|j: int, i: int| 0 <= j < nc && 0 <= i < nr implies spec_u64_from_le_bytes(
        bytes.subrange(16 + 8 * (j * nr + i), 16 + 8 * (j * nr + i) + 8),
    ) == cols[j][i] by {
        lemma_encode_columns_at(cols, nr, j, i);
        assert(0 <= 8 * (j * nr + i) && 8 * (j * nr + i) + 8 <= 8 * (nc * nr)) by (nonlinear_arith)
            requires
                0 <= j < nc,
                0 <= i < nr,
                nr >= 1,
        ;
        assert(bytes.subrange(16 + 8 * (j * nr + i), 16 + 8 * (j * nr + i) + 8)
            =~= spec_encode_columns(cols).subrange(8 * (j * nr + i), 8 * (j * nr + i) + 8));
    }
    assert forall|j: int| 0 <= j < nc implies spec_decode_payload(bytes, nc, nr)[j] =~= cols[j] by {
        assert(cols[j].len() == nr);
    }
    assert(spec_decode_payload(bytes, nc, nr) =~~= cols);
}

} // verus!
