//! Decision logic of the distributed-filesystem adapter: how a seek target
//! is resolved, how a streaming read chunks a file, and the per-handle
//! state machine that keeps operations on one open handle linearized.
//!
//! The blocking native calls themselves run outside the library, on a
//! worker-thread pool; each function here computes what one such round
//! trip must do or how its result advances the stream.

use vstd::prelude::*;
use crate::errors::StoreError;

verus! {

/// Where a seek counts from. Resolving `Start` needs one native round
/// trip; `End` and `Current` need two, since the file length or the
/// current position must be fetched first.
#[derive(Debug, Clone, Copy)]
pub enum SeekOrigin {
    Start(u64),
    End(i64),
    Current(i64),
}

/// The number of native round trips that resolving a seek costs: one for
/// `Start`, two for `End` and `Current`, which first fetch the file
/// length or the current position. None of them is free.
pub fn seek_round_trips(origin: &SeekOrigin) -> (r: u64)
    ensures
        r == (match origin {
            SeekOrigin::Start(_) => 1u64,
            SeekOrigin::End(_) => 2u64,
            SeekOrigin::Current(_) => 2u64,
        }),
{
    match origin {
        SeekOrigin::Start(_) => 1,
        SeekOrigin::End(_) => 2,
        SeekOrigin::Current(_) => 2,
    }
}

/// The absolute offset a seek resolves to: `Start(p)` is `p` itself,
/// `End(d)` is `file_len + d` and `Current(d)` is `current_pos + d`.
/// A target below zero or above `u64::MAX` is rejected as `Generic`
/// rather than wrapped.
pub fn resolve_seek(origin: &SeekOrigin, file_len: u64, current_pos: u64) -> (r: Result<
    u64,
    StoreError,
>)
    ensures
        match origin {
            SeekOrigin::Start(p) => r == Ok::<u64, StoreError>(*p),
            SeekOrigin::End(d) => {
                &&& (0 <= file_len + *d <= u64::MAX) <==> r is Ok
                &&& r is Ok ==> r->Ok_0 == file_len + *d
            },
            SeekOrigin::Current(d) => {
                &&& (0 <= current_pos + *d <= u64::MAX) <==> r is Ok
                &&& r is Ok ==> r->Ok_0 == current_pos + *d
            },
        },
        r is Err ==> r->Err_0 is Generic,
{
    match origin {
        SeekOrigin::Start(p) => Ok(*p),
        SeekOrigin::End(d) => checked_offset(file_len, *d),
        SeekOrigin::Current(d) => checked_offset(current_pos, *d),
    }
}

/// `base + delta` as an absolute offset, rejecting targets outside
/// `0..=u64::MAX`.
fn checked_offset(base: u64, delta: i64) -> (r: Result<u64, StoreError>)
    ensures
        (0 <= base + delta <= u64::MAX) <==> r is Ok,
        r is Ok ==> r->Ok_0 == base + delta,
        r is Err ==> r->Err_0 is Generic,
{
    if delta >= 0 {
        let d = delta as u64;
        if base <= u64::MAX - d {
            Ok(base + d)
        } else {
            Err(StoreError::Generic { cause: String::from_str("seek target beyond maximum offset") })
        }
    } else {
        let magnitude: u64 = if delta == i64::MIN {
            9223372036854775808u64
        } else {
            (-delta) as u64
        };
        if magnitude <= base {
            Ok(base - magnitude)
        } else {
            Err(StoreError::Generic { cause: String::from_str("seek target before start of file") })
        }
    }
}

/// One step of a streaming read: the chunk the backend hands back for a
/// read at `offset` with buffer capacity `cap`. At or past the end of the
/// file the read returns zero bytes and the stream ends (`None`);
/// otherwise the chunk holds between 1 and `cap` bytes taken in order
/// from `offset`. Callers must tolerate any chunk length in that range:
/// boundaries are backend-determined.
pub fn read_chunk(file: &Vec<u8>, offset: usize, cap: usize) -> (r: Option<Vec<u8>>)
    requires
        cap >= 1,
    ensures
        r is None <==> offset >= file.len(),
        r is Some ==> {
            &&& 1 <= r->0.len() <= cap
            &&& offset + r->0.len() <= file.len()
            &&& r->0@ == file@.subrange(offset as int, offset + r->0.len())
        },
{
    if offset >= file.len() {
        None
    } else {
        let avail = file.len() - offset;
        let take = if avail < cap { avail } else { cap };
        let mut chunk: Vec<u8> = Vec::new();
        let mut i: usize = 0;
        assert(chunk@ =~= file@.subrange(offset as int, offset as int));
        while i < take
            invariant
                take <= cap,
                offset + take <= file.len(),
                i <= take,
                chunk@ == file@.subrange(offset as int, offset + i),
            decreases take - i,
        {
            chunk.push(file[offset + i]);
            assert(chunk@ =~= file@.subrange(offset as int, offset + i + 1));
            i = i + 1;
        }
        Some(chunk)
    }
}

/// Streams a file from `start` to its end, one bounded chunk at a time,
/// and returns the concatenated bytes: exactly the file's suffix from
/// `start`, however the backend chose the chunk boundaries. Reading the
/// whole file from offset zero therefore reproduces its original bytes.
pub fn stream_read_from(file: &Vec<u8>, start: usize, cap: usize) -> (r: Vec<u8>)
    requires
        cap >= 1,
        start <= file.len(),
    ensures
        r@ == file@.subrange(start as int, file@.len() as int),
{
    let mut collected: Vec<u8> = Vec::new();
    let mut offset: usize = start;
    assert(collected@ =~= file@.subrange(start as int, start as int));
    while offset < file.len()
        invariant
            cap >= 1,
            start <= offset <= file.len(),
            collected@ == file@.subrange(start as int, offset as int),
        decreases file.len() - offset,
    {
        let chunk_opt = read_chunk(file, offset, cap);
        let chunk = chunk_opt.unwrap();
        let len = chunk.len();
        let mut j: usize = 0;
        while j < len
            invariant
                j <= len,
                len == chunk.len(),
                len >= 1,
                offset + len <= file.len(),
                chunk@ == file@.subrange(offset as int, offset + len),
                collected@ == file@.subrange(start as int, offset + j),
                start <= offset,
            decreases len - j,
        {
            collected.push(chunk[j]);
            assert(collected@ =~= file@.subrange(start as int, offset + j + 1));
            j = j + 1;
        }
        offset = offset + len;
    }
    assert(collected@ =~= file@.subrange(start as int, file@.len() as int));
    collected
}

/// Seeking to the end of the file and then reading yields an empty
/// stream: the resolved offset is the file length, where the first read
/// already returns zero bytes.
pub proof fn lemma_seek_end_then_read_is_empty(file: Seq<u8>, resolved: u64)
    requires
        resolved == file.len(),
    ensures
        file.subrange(resolved as int, file.len() as int) =~= Seq::<u8>::empty(),
{
}

/// The states of one open native file handle. Operations are linearized:
/// a seek, read or write may begin only from `Idle`, so no two native
/// round trips on one handle ever interleave.
#[derive(Debug, Clone, Copy, PartialEq, Eq, Structural)]
pub enum HandleState {
    Idle,
    Seeking,
    ReadPending,
    WritePending,
    Exhausted,
    Closed,
}

/// What happens to a handle: an operation begins, its round trip
/// completes, or the adapter shuts the handle down.
#[derive(Debug, Clone, Copy, PartialEq, Eq, Structural)]
pub enum HandleEvent {
    BeginSeek,
    SeekDone,
    BeginRead,
    ReadDone { eof: bool },
    BeginWrite,
    WriteDone,
    Shutdown,
}

/// Whether `event` may occur in state `s`: operations begin only from
/// `Idle`, completions only in the matching pending state, and shutdown
/// is allowed from any state.
pub open spec fn handle_step_allowed(s: HandleState, event: HandleEvent) -> bool {
    match event {
        HandleEvent::BeginSeek => s is Idle,
        HandleEvent::SeekDone => s is Seeking,
        HandleEvent::BeginRead => s is Idle,
        HandleEvent::ReadDone { .. } => s is ReadPending,
        HandleEvent::BeginWrite => s is Idle,
        HandleEvent::WriteDone => s is WritePending,
        HandleEvent::Shutdown => true,
    }
}

/// The state after an allowed step: an operation moves `Idle` into its
/// pending state; a completion returns to `Idle`, except a read that hit
/// the end of the file, which exhausts the stream; shutdown closes the
/// handle.
pub open spec fn handle_step_target(s: HandleState, event: HandleEvent) -> HandleState {
    match event {
        HandleEvent::BeginSeek => HandleState::Seeking,
        HandleEvent::SeekDone => HandleState::Idle,
        HandleEvent::BeginRead => HandleState::ReadPending,
        HandleEvent::ReadDone { eof } => if eof {
            HandleState::Exhausted
        } else {
            HandleState::Idle
        },
        HandleEvent::BeginWrite => HandleState::WritePending,
        HandleEvent::WriteDone => HandleState::Idle,
        HandleEvent::Shutdown => HandleState::Closed,
    }
}

/// Advances the handle state machine by one event. A step that would
/// interleave two operations on the handle is refused as `Generic` and
/// leaves no transition to take.
pub fn handle_step(s: HandleState, event: HandleEvent) -> (r: Result<HandleState, StoreError>)
    ensures
        r is Ok <==> handle_step_allowed(s, event),
        r is Ok ==> r->Ok_0 == handle_step_target(s, event),
        r is Err ==> r->Err_0 is Generic,
{
    let allowed = match event {
        HandleEvent::BeginSeek => s == HandleState::Idle,
        HandleEvent::SeekDone => s == HandleState::Seeking,
        HandleEvent::BeginRead => s == HandleState::Idle,
        HandleEvent::ReadDone { .. } => s == HandleState::ReadPending,
        HandleEvent::BeginWrite => s == HandleState::Idle,
        HandleEvent::WriteDone => s == HandleState::WritePending,
        HandleEvent::Shutdown => true,
    };
    if allowed {
        Ok(
            match event {
                HandleEvent::BeginSeek => HandleState::Seeking,
                HandleEvent::SeekDone => HandleState::Idle,
                HandleEvent::BeginRead => HandleState::ReadPending,
                HandleEvent::ReadDone { eof } => if eof {
                    HandleState::Exhausted
                } else {
                    HandleState::Idle
                },
                HandleEvent::BeginWrite => HandleState::WritePending,
                HandleEvent::WriteDone => HandleState::Idle,
                HandleEvent::Shutdown => HandleState::Closed,
            },
        )
    } else {
        Err(
            StoreError::Generic {
                cause: String::from_str("operation began while another was pending on the handle"),
            },
        )
    }
}

} // verus!
