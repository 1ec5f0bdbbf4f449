//! The checkpoint store: a local durable key-value log of ingestion
//! progress. Writes append to the log and the latest write for a key
//! wins, as in a log-structured merge engine; `create_checkpoint`
//! exports a point-in-time snapshot of the whole store, suitable for
//! copying to archival storage. A snapshot holds exactly the store's
//! content at the moment of the call, so two snapshots with no
//! intervening writes are identical.

use vstd::prelude::*;
use vstd::bytes::*;
use vstd::slice::slice_subrange;
use crate::errors::StoreError;
use crate::store::MemStore;
use crate::store::clone_bytes;

verus! {

/// One progress record: a key and its value bytes.
pub struct KvEntry {
    pub key: String,
    pub value: Vec<u8>,
}

/// Options the store's engine is opened with.
pub struct EngineOptions {
    pub create_if_missing: bool,
}

/// A point-in-time export of the entire local checkpoint store.
pub struct Checkpoint {
    pub entries: Vec<KvEntry>,
}

/// The entries as (key, value) views, in log order.
pub open spec fn entries_view(s: Seq<KvEntry>) -> Seq<(Seq<char>, Seq<u8>)> {
    s.map_values(|e: KvEntry| (e.key@, e.value@))
}

/// The value stored at `key`, if any: the latest write wins.
pub open spec fn kv_lookup(s: Seq<KvEntry>, key: Seq<char>) -> Option<Seq<u8>>
    decreases s.len(),
{
    if s.len() == 0 {
        None
    } else if s.last().key@ == key {
        Some(s.last().value@)
    } else {
        kv_lookup(s.drop_last(), key)
    }
}

/// The local durable progress store: its data directory, the directory
/// checkpoints are exported under, its engine options, and the log.
pub struct Checkpoints {
    pub local_location: String,
    pub checkpoint_location: String,
    pub options: EngineOptions,
    pub entries: Vec<KvEntry>,
}

impl Checkpoints {
    /// The value stored at `key`, if any.
    pub open spec fn contents(&self, key: Seq<char>) -> Option<Seq<u8>> {
        kv_lookup(self.entries@, key)
    }

    /// Opens the store at `local_location`, creating it when missing;
    /// checkpoints will be exported under `checkpoint_location`.
    pub fn new(local_location: String, checkpoint_location: String) -> (r: Result<
        Checkpoints,
        StoreError,
    >)
        ensures
            r is Ok,
            r->Ok_0.local_location == local_location,
            r->Ok_0.checkpoint_location == checkpoint_location,
            r->Ok_0.options.create_if_missing,
            r->Ok_0.entries@.len() == 0,
    {
        let options = EngineOptions { create_if_missing: true };
        Self::with_options(local_location, checkpoint_location, options)
    }

    /// Opens the store with the given engine options.
    pub fn with_options(
        local_location: String,
        checkpoint_location: String,
        options: EngineOptions,
    ) -> (r: Result<Checkpoints, StoreError>)
        ensures
            r is Ok,
            r->Ok_0.local_location == local_location,
            r->Ok_0.checkpoint_location == checkpoint_location,
            r->Ok_0.options == options,
            r->Ok_0.entries@.len() == 0,
    {
        Ok(Checkpoints { local_location, checkpoint_location, options, entries: Vec::new() })
    }

    /// Durably records `value` under `key`, overwriting any earlier
    /// record; every other key is untouched.
    pub fn put(&mut self, key: &str, value: Vec<u8>) -> (r: Result<(), StoreError>)
        ensures
            r is Ok,
            final(self).contents(key@) == Some(value@),
            forall|k: Seq<char>| k != key@ ==> final(self).contents(k) == old(self).contents(k),
            final(self).local_location == old(self).local_location,
            final(self).checkpoint_location == old(self).checkpoint_location,
            final(self).options == old(self).options,
    {
        let entry = KvEntry { key: key.to_owned(), value };
        let ghost prev = self.entries@;
        self.entries.push(entry);
        proof {
            assert(self.entries@.drop_last() =~= prev);
        }
        Ok(())
    }

    /// The value last recorded under `key`, if any.
    pub fn get(&self, key: &str) -> (r: Option<Vec<u8>>)
        ensures
            match r {
                Some(v) => self.contents(key@) == Some(v@),
                None => self.contents(key@) is None,
            },
    {
        let n = self.entries.len();
        let mut i: usize = n;
        proof {
            assert(self.entries@.take(n as int) =~= self.entries@);
        }
        while i > 0
            invariant
                i <= n,
                n == self.entries@.len(),
                kv_lookup(self.entries@, key@) == kv_lookup(self.entries@.take(i as int), key@),
            decreases i,
        {
            i = i - 1;
            let entry = &self.entries[i];
            let hit = string_eq_str(&entry.key, key);
            proof {
                assert(self.entries@.take(i + 1).drop_last() =~= self.entries@.take(i as int));
                assert(self.entries@.take(i + 1).last() == self.entries@[i as int]);
            }
            if hit {
                return Some(clone_bytes(&entry.value));
            }
        }
        proof {
            assert(self.entries@.take(0) =~= Seq::<KvEntry>::empty());
        }
        None
    }

    /// Exports a consistent point-in-time snapshot of the whole store:
    /// the checkpoint's entries are exactly the store's entries at the
    /// moment of the call.
    pub fn create_checkpoint(&self) -> (r: Checkpoint)
        ensures
            entries_view(r.entries@) == entries_view(self.entries@),
    {
        let n = self.entries.len();
        let mut entries: Vec<KvEntry> = Vec::new();
        let mut i: usize = 0;
        while i < n
            invariant
                i <= n,
                n == self.entries@.len(),
                entries@.len() == i,
                forall|k: int|
                    0 <= k < i ==> (#[trigger] entries@[k]).key@ == self.entries@[k].key@
                        && entries@[k].value@ == self.entries@[k].value@,
            decreases n - i,
        {
            let src = &self.entries[i];
            entries.push(KvEntry { key: src.key.clone(), value: clone_bytes(&src.value) });
            i = i + 1;
        }
        let r = Checkpoint { entries };
        proof {
            assert(entries_view(r.entries@) =~= entries_view(self.entries@));
        }
        r
    }

    /// Records the table version ingestion has committed through.
    pub fn record_progress(&mut self, version: u64) -> (r: Result<(), StoreError>)
        ensures
            r is Ok,
            final(self).contents("last_committed_version"@) == Some(spec_u64_to_le_bytes(version)),
            forall|k: Seq<char>|
                k != "last_committed_version"@ ==> final(self).contents(k) == old(self).contents(k),
    {
        let value = u64_to_le_bytes(version);
        self.put("last_committed_version", value)
    }

    /// The recorded committed table version, if one is stored and well
    /// formed.
    pub fn last_committed_version(&self) -> (r: Option<u64>)
        ensures
            match self.contents("last_committed_version"@) {
                Some(v) => {
                    &&& v.len() == 8 ==> r == Some(spec_u64_from_le_bytes(v))
                    &&& v.len() != 8 ==> r is None
                },
                None => r is None,
            },
    {
        match self.get("last_committed_version") {
            Some(v) => {
                if v.len() == 8 {
                    proof {
                        assert(v@.subrange(0, 8) =~= v@);
                    }
                    Some(u64_from_le_bytes(slice_subrange(v.as_slice(), 0, 8)))
                } else {
                    None
                }
            },
            None => None,
        }
    }
}

/// The archival location of one checkpoint entry: `{prefix}/{key}`.
pub open spec fn archived_location(prefix: Seq<char>, key: Seq<char>) -> Seq<char> {
    prefix + "/"@ + key
}

/// Whether `l` is the archival location of some entry of `s`.
pub open spec fn archived_in(s: Seq<KvEntry>, prefix: Seq<char>, l: Seq<char>) -> bool {
    exists|j: int| 0 <= j < s.len() && l == archived_location(prefix, (#[trigger] s[j]).key@)
}

proof fn lemma_archived_location_injective(prefix: Seq<char>, k1: Seq<char>, k2: Seq<char>)
    requires
        archived_location(prefix, k1) == archived_location(prefix, k2),
    ensures
        k1 == k2,
{
    let l1 = archived_location(prefix, k1);
    let l2 = archived_location(prefix, k2);
    let head = prefix.len() + "/"@.len();
    assert(l1.subrange(head as int, l1.len() as int) =~= k1);
    assert(l2.subrange(head as int, l2.len() as int) =~= k2);
}

/// Copies a checkpoint to an object-store location for disaster
/// recovery: every entry lands at `{prefix}/{key}` with its latest
/// value, and no object outside those locations is touched.
pub fn archive_checkpoint(
    ckpt: &Checkpoint,
    store: &mut MemStore,
    prefix: &String,
    now_ms: u64,
) -> (r: Result<(), StoreError>)
    requires
        old(store).wf(),
    ensures
        r is Ok,
        final(store).wf(),
        forall|k: Seq<char>|
            #[trigger] kv_lookup(ckpt.entries@, k) is Some ==> final(store).entry(
                archived_location(prefix@, k),
            ) == Some((kv_lookup(ckpt.entries@, k)->0, now_ms)),
        forall|l: Seq<char>|
            !archived_in(ckpt.entries@, prefix@, l) ==> final(store).entry(l) == old(store).entry(
                l,
            ),
{
    let ghost pre = *old(store);
    let n = ckpt.entries.len();
    let mut i: usize = 0;
    proof {
        assert(ckpt.entries@.take(0) =~= Seq::<KvEntry>::empty());
    }
    while i < n
        invariant
            pre == *old(store),
            pre.wf(),
            store.wf(),
            n == ckpt.entries@.len(),
            i <= n,
            forall|k: Seq<char>|
                #[trigger] kv_lookup(ckpt.entries@.take(i as int), k) is Some ==> store.entry(
                    archived_location(prefix@, k),
                ) == Some((kv_lookup(ckpt.entries@.take(i as int), k)->0, now_ms)),
            forall|l: Seq<char>|
                !archived_in(ckpt.entries@.take(i as int), prefix@, l) ==> store.entry(l)
                    == pre.entry(l),
        decreases n - i,
    {
        let entry = &ckpt.entries[i];
        let mut location = prefix.clone();
        location.append("/");
        location.append(entry.key.as_str());
        let ghost prev = *store;
        store.put(&location, clone_bytes(&entry.value), now_ms);
        proof {
            let taken = ckpt.entries@.take(i + 1);
            assert(taken.drop_last() =~= ckpt.entries@.take(i as int));
            assert(taken.last() == ckpt.entries@[i as int]);
            assert(location@ == archived_location(prefix@, ckpt.entries@[i as int].key@));
            assert forall|k: Seq<char>| #[trigger] kv_lookup(taken, k) is Some implies store.entry(
                archived_location(prefix@, k),
            ) == Some((kv_lookup(taken, k)->0, now_ms)) by {
                if k != ckpt.entries@[i as int].key@ {
                    assert(kv_lookup(taken, k) == kv_lookup(ckpt.entries@.take(i as int), k));
                    assert(archived_location(prefix@, k) != archived_location(
                        prefix@,
                        ckpt.entries@[i as int].key@,
                    )) by {
                        if archived_location(prefix@, k) == archived_location(
                            prefix@,
                            ckpt.entries@[i as int].key@,
                        ) {
                            lemma_archived_location_injective(
                                prefix@,
                                k,
                                ckpt.entries@[i as int].key@,
                            );
                        }
                    }
                }
            }
            assert forall|l: Seq<char>| !archived_in(taken, prefix@, l) implies store.entry(l)
                == pre.entry(l) by {
                assert(forall|j: int|
                    0 <= j < i ==> ckpt.entries@.take(i as int)[j] == (#[trigger] taken[j]));
                assert(!archived_in(ckpt.entries@.take(i as int), prefix@, l));
                assert(l != archived_location(prefix@, taken[i as int].key@));
            }
        }
        i = i + 1;
    }
    proof {
        assert(ckpt.entries@.take(n as int) =~= ckpt.entries@);
    }
    Ok(())
}

/// Checkpoint idempotence: two checkpoints exported from the same store
/// state, with no intervening writes, hold identical content.
pub proof fn lemma_checkpoint_idempotent(store: Checkpoints, a: Checkpoint, b: Checkpoint)
    requires
        entries_view(a.entries@) == entries_view(store.entries@),
        entries_view(b.entries@) == entries_view(store.entries@),
    ensures
        entries_view(a.entries@) == entries_view(b.entries@),
{
}

/// Whether `name` ends in a dot followed by `ext`.
pub open spec fn has_extension(name: Seq<char>, ext: Seq<char>) -> bool {
    &&& name.len() >= ext.len() + 1
    &&& name[name.len() - ext.len() - 1] == '.'
    &&& name.subrange(name.len() - ext.len(), name.len() as int) == ext
}

/// The names as character sequences.
pub open spec fn name_views(names: Seq<String>) -> Seq<Seq<char>> {
    names.map_values(|n: String| n@)
}

/// The names whose extension matches (`keep` true) or does not match
/// (`keep` false), in order.
pub open spec fn names_by_extension(names: Seq<Seq<char>>, ext: Seq<char>, keep: bool) -> Seq<
    Seq<char>,
>
    decreases names.len(),
{
    if names.len() == 0 {
        Seq::empty()
    } else {
        let rest = names_by_extension(names.drop_last(), ext, keep);
        if has_extension(names.last(), ext) == keep {
            rest.push(names.last())
        } else {
            rest
        }
    }
}

/// Splits file names into those carrying the given extension and the
/// rest, each side in input order — how a snapshot's data files are told
/// apart from its log files when the tree is exported.
pub fn partition_by_extension(names: &Vec<String>, ext: &String) -> (r: (Vec<String>, Vec<String>))
    ensures
        name_views(r.0@) == names_by_extension(name_views(names@), ext@, true),
        name_views(r.1@) == names_by_extension(name_views(names@), ext@, false),
{
    let n = names.len();
    let mut with_ext: Vec<String> = Vec::new();
    let mut without_ext: Vec<String> = Vec::new();
    let mut i: usize = 0;
    proof {
        assert(name_views(names@).take(0) =~= Seq::<Seq<char>>::empty());
        assert(name_views(with_ext@) =~= names_by_extension(
            name_views(names@).take(0),
            ext@,
            true,
        ));
        assert(name_views(without_ext@) =~= names_by_extension(
            name_views(names@).take(0),
            ext@,
            false,
        ));
    }
    while i < n
        invariant
            i <= n,
            n == names@.len(),
            name_views(with_ext@) == names_by_extension(name_views(names@).take(i as int), ext@, true),
            name_views(without_ext@) == names_by_extension(
                name_views(names@).take(i as int),
                ext@,
                false,
            ),
        decreases n - i,
    {
        let name = &names[i];
        let ghost prev_with = with_ext@;
        let ghost prev_without = without_ext@;
        let keep = name_has_extension(name, ext);
        if keep {
            with_ext.push(name.clone());
            proof {
                assert(name_views(with_ext@) =~= name_views(prev_with).push(names@[i as int]@));
            }
        } else {
            without_ext.push(name.clone());
            proof {
                assert(name_views(without_ext@) =~= name_views(prev_without).push(
                    names@[i as int]@,
                ));
            }
        }
        proof {
            assert(name_views(names@).take(i + 1).drop_last() =~= name_views(names@).take(i as int));
            assert(name_views(names@).take(i + 1).last() == names@[i as int]@);
        }
        i = i + 1;
    }
    proof {
        assert(name_views(names@).take(n as int) =~= name_views(names@));
    }
    (with_ext, without_ext)
}

/// Whether the name ends in a dot followed by the extension.
pub fn name_has_extension(name: &String, ext: &String) -> (r: bool)
    ensures
        r <==> has_extension(name@, ext@),
{
    let nl = name.as_str().unicode_len();
    let el = ext.as_str().unicode_len();
    if nl <= el {
        return false;
    }
    if name.as_str().get_char(nl - el - 1) != '.' {
        return false;
    }
    let mut k: usize = 0;
    while k < el
        invariant
            nl == name@.len(),
            el == ext@.len(),
            nl >= el + 1,
            k <= el,
            forall|t: int| 0 <= t < k ==> name@[nl - el + t] == ext@[t],
            name@[nl as int - el - 1] == '.',
        decreases el - k,
    {
        if name.as_str().get_char(nl - el + k) != ext.as_str().get_char(k) {
            proof {
                assert(!has_extension(name@, ext@)) by {
                    if has_extension(name@, ext@) {
                        assert(name@.subrange(nl - el, nl as int)[k as int] == ext@[k as int]);
                    }
                }
            }
            return false;
        }
        k = k + 1;
    }
    proof {
        assert(name@.subrange(nl - el, nl as int) =~= ext@);
    }
    true
}

/// Whether two strings hold the same characters.
fn string_eq_str(a: &String, b: &str) -> (r: bool)
    ensures
        r <==> a@ == b@,
{
    let owned: String = b.to_owned();
    let r = a.eq(&owned);
    r
}

} // verus!
