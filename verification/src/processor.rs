//! The transactional table writer and the ingestion cycle: streams a
//! file from the object store, decodes it, flushes the decoded rows into
//! storage artifacts, and commits them as one new table version — all or
//! nothing. A cycle processes one poll's worth of locations in delivery
//! order and fails fast on the first bad file; the checkpointed progress
//! never runs ahead of the committed table state.

use vstd::prelude::*;
use crate::codec::RowBatch;
use crate::codec::batch_rows_of;
use crate::codec::cols_wf;
use crate::codec::decode_batch;
use crate::codec::lemma_decode_encode;
use crate::codec::spec_decode;
use crate::codec::spec_decode_n_rows;
use crate::codec::spec_encode;
use crate::errors::StoreError;
use crate::store::MemStore;

verus! {

/// How many rows one storage artifact holds at most: artifacts are sized
/// for storage, so a large batch flushes into several of them.
pub const ARTIFACT_MAX_ROWS: usize = 1024;

/// How a commit changes the table. Ingestion always appends.
#[derive(Debug, Clone, Copy, PartialEq, Eq, Structural)]
pub enum SaveMode {
    Append,
    Overwrite,
}

/// The operation descriptor attached to a commit: its mode, the table's
/// partition columns, and an optional predicate (none for appends).
pub struct OperationDescriptor {
    pub mode: SaveMode,
    pub partition_by: Vec<String>,
    pub predicate: Option<String>,
}

/// One immutable file produced by flushing buffered rows; owned by the
/// table once a committed version references it.
pub struct StorageArtifact {
    pub data: RowBatch,
}

/// All rows the artifacts hold, in artifact order.
pub open spec fn artifacts_rows(arts: Seq<StorageArtifact>) -> Seq<Seq<u64>>
    decreases arts.len(),
{
    if arts.len() == 0 {
        Seq::empty()
    } else {
        artifacts_rows(arts.drop_last()) + arts.last().data.rows()
    }
}

/// One committed table version: its number, the artifacts it added, and
/// its operation descriptor.
pub struct TableVersionRecord {
    pub version: u64,
    pub artifacts: Vec<StorageArtifact>,
    pub operation: OperationDescriptor,
}

/// The transactional table: a monotonically increasing, gapless version
/// counter and the committed versions' records.
pub struct TableState {
    pub version: u64,
    pub history: Vec<TableVersionRecord>,
    pub partition_columns: Vec<String>,
}

impl TableState {
    /// Versions are gapless: record `i` carries version `i + 1`, and the
    /// counter equals the number of committed versions.
    pub open spec fn wf(&self) -> bool {
        &&& self.history@.len() == self.version
        &&& forall|i: int|
            0 <= i < self.history@.len() ==> (#[trigger] self.history@[i]).version == i + 1
    }

    /// A fresh table at version zero with the given partition columns.
    pub fn new(partition_columns: Vec<String>) -> (r: TableState)
        ensures
            r.wf(),
            r.version == 0,
            r.history@.len() == 0,
            r.partition_columns == partition_columns,
    {
        TableState { version: 0, history: Vec::new(), partition_columns }
    }
}

/// Commits one set of artifacts as the next table version. The new
/// version is visible only with every artifact attached to it: the
/// history gains exactly one record holding them all. Serialization
/// against independent writers is the commit log's own
/// optimistic-concurrency protocol; a conflicting-version failure from
/// it surfaces as `Conflict` and goes through `retry_decision`.
pub fn commit(table: &mut TableState, artifacts: Vec<StorageArtifact>, operation: OperationDescriptor) -> (r: u64)
    requires
        old(table).wf(),
        old(table).version < u64::MAX,
    ensures
        final(table).wf(),
        r == old(table).version + 1,
        final(table).version == old(table).version + 1,
        final(table).partition_columns == old(table).partition_columns,
        final(table).history@.len() == old(table).history@.len() + 1,
        final(table).history@.drop_last() == old(table).history@,
        final(table).history@.last().version == r,
        final(table).history@.last().artifacts == artifacts,
        final(table).history@.last().operation == operation,
{
    let v = table.version + 1;
    let record = TableVersionRecord { version: v, artifacts, operation };
    table.history.push(record);
    table.version = v;
    proof {
        assert(table.history@.drop_last() =~= old(table).history@);
    }
    v
}

/// Flushes one decoded batch into storage artifacts of at most
/// `ARTIFACT_MAX_ROWS` rows each; together the artifacts hold exactly
/// the batch's rows, in order.
pub fn flush_batch(batch: &RowBatch) -> (arts: Vec<StorageArtifact>)
    requires
        batch.wf(),
    ensures
        arts@.len() >= 1,
        artifacts_rows(arts@) == batch.rows(),
        forall|a: int|
            0 <= a < arts@.len() ==> (#[trigger] arts@[a]).data.wf() && arts@[a].data.n_cols()
                == batch.n_cols() && arts@[a].data.n_rows() <= ARTIFACT_MAX_ROWS,
{
    let nc = batch.columns.len();
    let nr = batch.columns[0].len();
    let mut arts: Vec<StorageArtifact> = Vec::new();
    let mut r0: usize = 0;
    proof {
        assert(artifacts_rows(arts@) =~= batch.rows().take(0));
    }
    while r0 < nr
        invariant
            batch.wf(),
            nc == batch.columns@.len(),
            nr == batch.columns@[0]@.len(),
            r0 <= nr,
            r0 > 0 ==> arts@.len() >= 1,
            artifacts_rows(arts@) == batch.rows().take(r0 as int),
            forall|a: int|
                0 <= a < arts@.len() ==> (#[trigger] arts@[a]).data.wf() && arts@[a].data.n_cols()
                    == batch.n_cols() && arts@[a].data.n_rows() <= ARTIFACT_MAX_ROWS,
        decreases nr - r0,
    {
        let take_n: usize = if nr - r0 < ARTIFACT_MAX_ROWS {
            nr - r0
        } else {
            ARTIFACT_MAX_ROWS
        };
        let mut cols: Vec<Vec<u64>> = Vec::new();
        let mut j: usize = 0;
        while j < nc
            invariant
                batch.wf(),
                nc == batch.columns@.len(),
                nr == batch.columns@[0]@.len(),
                r0 + take_n <= nr,
                take_n >= 1,
                j <= nc,
                cols@.len() == j,
                forall|j2: int|
                    0 <= j2 < j ==> (#[trigger] cols@[j2])@ == batch.columns@[j2]@.subrange(
                        r0 as int,
                        r0 + take_n,
                    ),
            decreases nc - j,
        {
            let src = &batch.columns[j];
            let mut col: Vec<u64> = Vec::new();
            let mut t: usize = 0;
            proof {
                assert(col@ =~= src@.subrange(r0 as int, r0 as int));
            }
            while t < take_n
                invariant
                    src@ == batch.columns@[j as int]@,
                    j < nc,
                    nc == batch.columns@.len(),
                    batch.wf(),
                    nr == batch.columns@[0]@.len(),
                    r0 + take_n <= nr,
                    src@.len() == nr,
                    t <= take_n,
                    col@ == src@.subrange(r0 as int, r0 + t),
                decreases take_n - t,
            {
                col.push(src[r0 + t]);
                proof {
                    assert(col@ =~= src@.subrange(r0 as int, r0 + t + 1));
                }
                t = t + 1;
            }
            cols.push(col);
            j = j + 1;
        }
        let art = StorageArtifact { data: RowBatch { columns: cols } };
        proof {
            assert(art.data.wf());
            assert(art.data.rows() =~~= batch.rows().subrange(r0 as int, r0 + take_n)) by {
                assert forall|i: int| 0 <= i < take_n implies art.data.rows()[i] =~= batch.rows()
                    .subrange(r0 as int, r0 + take_n)[i] by {
                    assert(forall|j2: int|
                        0 <= j2 < nc ==> art.data.cols()[j2][i] == batch.cols()[j2][r0 + i]);
                }
            }
        }
        let ghost prev = arts@;
        arts.push(art);
        proof {
            assert(arts@.drop_last() =~= prev);
            assert(arts@.last() == art);
            assert(artifacts_rows(arts@) == artifacts_rows(prev) + art.data.rows());
            assert(batch.rows().take(r0 as int) + batch.rows().subrange(r0 as int, r0 + take_n)
                =~= batch.rows().take(r0 + take_n));
        }
        r0 = r0 + take_n;
    }
    proof {
        assert(batch.rows().take(nr as int) =~= batch.rows());
    }
    arts
}

/// The first index whose file cannot be ingested from `store`: every
/// earlier location exists and decodes. Equals the length when every
/// file is good.
pub open spec fn first_bad_index(store: MemStore, locs: Seq<Seq<char>>) -> int
    decreases locs.len(),
{
    if locs.len() == 0 {
        0
    } else if !file_ok(store, locs[0]) {
        0
    } else {
        1 + first_bad_index(store, locs.drop_first())
    }
}

proof fn lemma_first_bad_index(store: MemStore, locs: Seq<Seq<char>>, k: int)
    requires
        0 <= k < locs.len(),
        forall|i: int| 0 <= i < k ==> file_ok(store, #[trigger] locs[i]),
        !file_ok(store, locs[k]),
    ensures
        first_bad_index(store, locs) == k,
    decreases k,
{
    if k > 0 {
        assert(file_ok(store, locs[0]));
        assert(forall|i: int| 0 <= i < k - 1 ==> locs.drop_first()[i] == locs[i + 1]);
        assert(locs.drop_first()[k - 1] == locs[k]);
        lemma_first_bad_index(store, locs.drop_first(), k - 1);
    }
}

/// Whether the object stored at `loc` decodes: it exists and its bytes
/// are a well-formed encoding.
pub open spec fn file_ok(store: MemStore, loc: Seq<char>) -> bool {
    store.contains_object(loc) && spec_decode(store.contents_of(loc)) is Some
}

/// The rows the file at `loc` decodes to.
pub open spec fn file_rows(store: MemStore, loc: Seq<char>) -> Seq<Seq<u64>> {
    batch_rows_of(
        spec_decode(store.contents_of(loc))->0,
        spec_decode_n_rows(store.contents_of(loc)),
    )
}

/// Record `rec` is the commit of the file at `loc`: it carries version
/// `v`, at least one artifact, together exactly the file's decoded rows,
/// and an append operation tagged with the table's partition columns.
pub open spec fn committed_for(
    store: MemStore,
    loc: Seq<char>,
    rec: TableVersionRecord,
    v: int,
    partition_by: Seq<String>,
) -> bool {
    &&& rec.version == v
    &&& rec.artifacts@.len() >= 1
    &&& artifacts_rows(rec.artifacts@) == file_rows(store, loc)
    &&& rec.operation.mode is Append
    &&& rec.operation.partition_by@ == partition_by
    &&& rec.operation.predicate is None
}

/// What to do after a failed commit attempt: retry a conflict after a
/// backoff, or surface the final error.
pub enum RetryDecision {
    RetryAfterBackoff { delay_ms: u64 },
    Surface { error: StoreError },
}

/// The backoff before retry `attempt + 1`: the base delay scaled
/// linearly, saturating at the largest representable delay.
pub open spec fn spec_backoff_ms(base_delay_ms: int, attempt: int) -> int {
    if base_delay_ms * (attempt + 1) <= u64::MAX {
        base_delay_ms * (attempt + 1)
    } else {
        u64::MAX as int
    }
}

/// Decides whether a failed commit attempt is retried: a `Conflict` is
/// retried with backoff while attempts remain; a conflict with the
/// budget spent surfaces `Exhausted`; any other error surfaces as it is.
pub fn retry_decision(err: StoreError, attempt: u64, max_attempts: u64, base_delay_ms: u64) -> (r:
    RetryDecision)
    ensures
        err is Conflict && attempt < max_attempts ==> r == (RetryDecision::RetryAfterBackoff {
            delay_ms: spec_backoff_ms(base_delay_ms as int, attempt as int) as u64,
        }),
        err is Conflict && attempt >= max_attempts ==> r == (RetryDecision::Surface {
            error: StoreError::Exhausted { attempts: max_attempts },
        }),
        !(err is Conflict) ==> r == (RetryDecision::Surface { error: err }),
{
    match err {
        StoreError::Conflict { cause } => {
            if attempt < max_attempts {
                proof {
                    assert((base_delay_ms as int) * (attempt as int + 1) < 0x10000000000000000
                        * 0x10000000000000000) by (nonlinear_arith)
                        requires
                            0 <= (base_delay_ms as int) < 0x10000000000000000,
                            0 <= (attempt as int) + 1 <= 0x10000000000000000,
                    ;
                }
                let wide: u128 = (base_delay_ms as u128) * ((attempt + 1) as u128);
                let delay_ms: u64 = if wide > (u64::MAX as u128) {
                    u64::MAX
                } else {
                    wide as u64
                };
                RetryDecision::RetryAfterBackoff { delay_ms }
            } else {
                RetryDecision::Surface { error: StoreError::Exhausted { attempts: max_attempts } }
            }
        },
        _ => RetryDecision::Surface { error: err },
    }
}

/// Options of the ingestion loop: the poll cadence in seconds.
pub struct EventProcessorOptions {
    pub poll_time: u64,
}

/// The ingestion processor: the object store it reads from, the
/// transactional table it writes, its options, and the version its
/// checkpointed progress has reached.
pub struct EventProcessor {
    pub storage: MemStore,
    pub table: TableState,
    pub opts: EventProcessorOptions,
    pub checkpointed_version: u64,
}

/// The locations of a batch of files, as character sequences.
pub open spec fn locs_of(files: Seq<String>) -> Seq<Seq<char>> {
    files.map_values(|f: String| f@)
}

impl EventProcessor {
    /// The table and store are well-formed and the checkpointed progress
    /// never runs ahead of the committed table version.
    pub open spec fn wf(&self) -> bool {
        &&& self.table.wf()
        &&& self.storage.wf()
        &&& self.checkpointed_version <= self.table.version
    }

    /// A processor over the given store and table. Its checkpointed
    /// progress starts at the table's current version.
    pub fn new(storage: MemStore, table: TableState, opts: EventProcessorOptions) -> (r: Result<
        EventProcessor,
        StoreError,
    >)
        requires
            storage.wf(),
            table.wf(),
        ensures
            r is Ok,
            r->Ok_0.storage == storage,
            r->Ok_0.table == table,
            r->Ok_0.opts == opts,
            r->Ok_0.checkpointed_version == table.version,
            r->Ok_0.wf(),
    {
        let v = table.version;
        Ok(EventProcessor { storage, table, opts, checkpointed_version: v })
    }

    /// Writes one file into the table: streams its bytes from the object
    /// store, decodes them, flushes the rows into artifacts, and commits
    /// them as one new version. All or nothing: on any error the table
    /// is exactly as it was. `NotFound` is returned if and only if the
    /// store holds no object at the location; `Decode` if and only if it
    /// holds one that is not a well-formed encoding.
    pub fn write_file(&mut self, file: &String) -> (r: Result<u64, StoreError>)
        requires
            old(self).wf(),
            old(self).table.version < u64::MAX,
        ensures
            final(self).storage == old(self).storage,
            final(self).opts == old(self).opts,
            final(self).checkpointed_version == old(self).checkpointed_version,
            final(self).table.partition_columns == old(self).table.partition_columns,
            final(self).wf(),
            r is Ok <==> file_ok(old(self).storage, file@),
            r is Ok ==> {
                &&& r->Ok_0 == old(self).table.version + 1
                &&& final(self).table.version == old(self).table.version + 1
                &&& final(self).table.history@.len() == old(self).table.history@.len() + 1
                &&& final(self).table.history@.drop_last() == old(self).table.history@
                &&& committed_for(
                    old(self).storage,
                    file@,
                    final(self).table.history@.last(),
                    old(self).table.version + 1,
                    old(self).table.partition_columns@,
                )
            },
            r is Err ==> {
                &&& final(self).table == old(self).table
                &&& (!old(self).storage.contains_object(file@) ==> r->Err_0
                    == (StoreError::NotFound { path: *file }))
                &&& (old(self).storage.contains_object(file@) ==> r->Err_0 is Decode)
            },
    {
        let bytes = match self.storage.get(file) {
            Ok(b) => b,
            Err(e) => {
                return Err(e);
            },
        };
        let batch = match decode_batch(&bytes) {
            Ok(b) => b,
            Err(e) => {
                return Err(e);
            },
        };
        let artifacts = flush_batch(&batch);
        let operation = OperationDescriptor {
            mode: SaveMode::Append,
            partition_by: clone_strings(&self.table.partition_columns),
            predicate: None,
        };
        let v = commit(&mut self.table, artifacts, operation);
        Ok(v)
    }

    /// Processes one poll's worth of locations, sequentially and in
    /// delivery order, then advances the checkpointed progress to the
    /// new table version. When every file succeeds the version grows by
    /// exactly the number of files, each committed in its own version
    /// holding its decoded rows. The first failing location aborts the
    /// rest of the cycle: exactly the files before it are committed, and
    /// nothing of the failing or later files.
    pub fn run(&mut self, files: &Vec<String>) -> (r: Result<(), StoreError>)
        requires
            old(self).wf(),
            old(self).table.version + files@.len() <= u64::MAX,
        ensures
            final(self).wf(),
            final(self).storage == old(self).storage,
            final(self).opts == old(self).opts,
            final(self).table.partition_columns == old(self).table.partition_columns,
            r is Ok ==> cycle_committed(*old(self), *final(self), files@),
            r is Err ==> cycle_failed_at(
                *old(self),
                *final(self),
                files@,
                r->Err_0,
                first_bad_index(old(self).storage, locs_of(files@)),
            ),
    {
        let ghost pre = *self;
        let n = files.len();
        let mut idx: usize = 0;
        proof {
            assert(self.table.history@.take(pre.table.history@.len() as int)
                =~= pre.table.history@);
        }
        while idx < n
            invariant
                pre == *old(self),
                n == files@.len(),
                idx <= n,
                self.wf(),
                pre.wf(),
                self.storage == pre.storage,
                self.opts == pre.opts,
                self.checkpointed_version == pre.checkpointed_version,
                self.table.partition_columns == pre.table.partition_columns,
                pre.table.version + n <= u64::MAX,
                self.table.version == pre.table.version + idx,
                self.table.history@.len() == pre.table.history@.len() + idx,
                self.table.history@.take(pre.table.history@.len() as int) == pre.table.history@,
                forall|i: int| 0 <= i < idx ==> file_ok(pre.storage, #[trigger] locs_of(files@)[i]),
                forall|i: int|
                    0 <= i < idx ==> committed_for(
                        pre.storage,
                        locs_of(files@)[i],
                        #[trigger] self.table.history@[pre.table.history@.len() + i],
                        pre.table.version + 1 + i,
                        pre.table.partition_columns@,
                    ),
            decreases n - idx,
        {
            let ghost before = *self;
            match self.write_file(&files[idx]) {
                Ok(_) => {
                    proof {
                        assert(self.table.history@.take(pre.table.history@.len() as int)
                            =~= before.table.history@.take(pre.table.history@.len() as int));
                        assert(self.table.history@.last() == self.table.history@[
                            pre.table.history@.len() + idx]);
                        assert(forall|i: int|
                            0 <= i < idx ==> (#[trigger] self.table.history@[
                            pre.table.history@.len() + i]) == before.table.history@[
                            pre.table.history@.len() + i]);
                    }
                },
                Err(e) => {
                    proof {
                        lemma_first_bad_index(pre.storage, locs_of(files@), idx as int);
                        assert(cycle_failed_at(*old(self), *self, files@, e, idx as int));
                    }
                    return Err(e);
                },
            }
            idx = idx + 1;
        }
        self.checkpointed_version = self.table.version;
        proof {
            assert(cycle_committed(pre, *self, files@));
        }
        Ok(())
    }
}

/// One cycle committed every file: the version grew by the number of
/// files, the old history is untouched, and file `i` is committed as
/// version `old + 1 + i` with its decoded rows. The checkpointed
/// progress advanced to the new version, still never ahead of it.
pub open spec fn cycle_committed(pre: EventProcessor, post: EventProcessor, files: Seq<String>) -> bool {
    &&& forall|i: int| 0 <= i < files.len() ==> file_ok(pre.storage, #[trigger] locs_of(files)[i])
    &&& post.table.version == pre.table.version + files.len()
    &&& post.table.history@.len() == pre.table.history@.len() + files.len()
    &&& post.table.history@.take(pre.table.history@.len() as int) == pre.table.history@
    &&& forall|i: int|
        0 <= i < files.len() ==> committed_for(
            pre.storage,
            locs_of(files)[i],
            #[trigger] post.table.history@[pre.table.history@.len() + i],
            pre.table.version + 1 + i,
            pre.table.partition_columns@,
        )
    &&& post.checkpointed_version == post.table.version
}

/// One cycle failed at file `k`: exactly the files before `k` are
/// committed, as versions `old + 1` through `old + k`; no version
/// references file `k` or any later file; the error names the failure —
/// `NotFound` if and only if file `k` is absent, `Decode` if and only if
/// it is present but malformed. The checkpointed progress did not move.
pub open spec fn cycle_failed_at(
    pre: EventProcessor,
    post: EventProcessor,
    files: Seq<String>,
    e: StoreError,
    k: int,
) -> bool {
    &&& 0 <= k < files.len()
    &&& forall|i: int| 0 <= i < k ==> file_ok(pre.storage, #[trigger] locs_of(files)[i])
    &&& !file_ok(pre.storage, locs_of(files)[k])
    &&& post.table.version == pre.table.version + k
    &&& post.table.history@.len() == pre.table.history@.len() + k
    &&& post.table.history@.take(pre.table.history@.len() as int) == pre.table.history@
    &&& forall|i: int|
        0 <= i < k ==> committed_for(
            pre.storage,
            locs_of(files)[i],
            #[trigger] post.table.history@[pre.table.history@.len() + i],
            pre.table.version + 1 + i,
            pre.table.partition_columns@,
        )
    &&& (!pre.storage.contains_object(locs_of(files)[k]) ==> e == (StoreError::NotFound {
        path: files[k],
    }))
    &&& (pre.storage.contains_object(locs_of(files)[k]) ==> e is Decode)
    &&& post.checkpointed_version == pre.checkpointed_version
}

/// Round trip through the table: when the store holds the encoding of
/// columnar content at `loc` and a version record is committed for that
/// file, the record's artifacts hold exactly that content's rows —
/// decoding, writing and reading back changes nothing.
pub proof fn lemma_write_read_round_trip(
    store: MemStore,
    loc: Seq<char>,
    cols: Seq<Seq<u64>>,
    nr: int,
    rec: TableVersionRecord,
    v: int,
    partition_by: Seq<String>,
)
    requires
        store.contents_of(loc) == spec_encode(cols, nr),
        1 <= cols.len() <= u64::MAX,
        1 <= nr <= u64::MAX,
        cols_wf(cols, nr),
        committed_for(store, loc, rec, v, partition_by),
    ensures
        artifacts_rows(rec.artifacts@) == batch_rows_of(cols, nr),
{
    lemma_decode_encode(cols, nr);
}

/// A copy of a list of names, value for value.
fn clone_strings(v: &Vec<String>) -> (r: Vec<String>)
    ensures
        r@ == v@,
{
    let mut r: Vec<String> = Vec::new();
    let mut i: usize = 0;
    while i < v.len()
        invariant
            i <= v.len(),
            r@.len() == i,
            forall|k: int| 0 <= k < i ==> r@[k] == v@[k],
        decreases v.len() - i,
    {
        r.push(v[i].clone());
        i = i + 1;
    }
    proof {
        assert(r@ =~= v@);
    }
    r
}

} // verus!
