//! The object-store abstraction: a uniform capability set
//! {get, get_range, put, head, list, copy, delete} over stored objects,
//! together with its in-memory backend. The ingestion pipeline reads its
//! input files through this interface; remote backends expose the same
//! contract through the adapter layer.

use vstd::prelude::*;
use crate::errors::StoreError;

verus! {

/// One stored object: its location, its bytes, and the time it was last
/// written, in milliseconds.
pub struct StoredObject {
    pub location: String,
    pub data: Vec<u8>,
    pub last_modified_ms: u64,
}

/// What `head` and `list` report of an object: {location, size,
/// last-modified timestamp}.
pub struct ObjectMetadata {
    pub location: String,
    pub size: usize,
    pub last_modified_ms: u64,
}

/// An in-memory object store: a sequence of objects with pairwise
/// distinct locations, kept in insertion order.
pub struct MemStore {
    pub objects: Vec<StoredObject>,
}

impl MemStore {
    /// No two stored objects share a location.
    pub open spec fn unique_locations(s: Seq<StoredObject>) -> bool {
        forall|a: int, b: int| 0 <= a < b < s.len() ==> s[a].location@ != s[b].location@
    }

    pub open spec fn wf(&self) -> bool {
        Self::unique_locations(self.objects@)
    }

    /// The bytes and timestamp stored at `loc`, if any; later entries win,
    /// which under `wf` means the unique entry.
    pub open spec fn lookup(s: Seq<StoredObject>, loc: Seq<char>) -> Option<(Seq<u8>, u64)>
        decreases s.len(),
    {
        if s.len() == 0 {
            None
        } else if s.last().location@ == loc {
            Some((s.last().data@, s.last().last_modified_ms))
        } else {
            Self::lookup(s.drop_last(), loc)
        }
    }

    pub open spec fn entry(&self, loc: Seq<char>) -> Option<(Seq<u8>, u64)> {
        Self::lookup(self.objects@, loc)
    }

    pub open spec fn contains_object(&self, loc: Seq<char>) -> bool {
        self.entry(loc) is Some
    }

    pub open spec fn contents_of(&self, loc: Seq<char>) -> Seq<u8> {
        (self.entry(loc)->0).0
    }

    pub open spec fn modified_of(&self, loc: Seq<char>) -> u64 {
        (self.entry(loc)->0).1
    }

    /// The locations of the stored objects, in store order.
    pub open spec fn locations(&self) -> Seq<Seq<char>> {
        self.objects@.map_values(|o: StoredObject| o.location@)
    }

    proof fn lemma_lookup_index(s: Seq<StoredObject>, k: int)
        requires
            Self::unique_locations(s),
            0 <= k < s.len(),
        ensures
            Self::lookup(s, s[k].location@) == Some((s[k].data@, s[k].last_modified_ms)),
        decreases s.len(),
    {
        if k == s.len() - 1 {
        } else {
            assert(s[k].location@ != s[s.len() - 1].location@);
            assert(s.drop_last()[k] == s[k]);
            Self::lemma_lookup_index(s.drop_last(), k);
        }
    }

    proof fn lemma_lookup_absent(s: Seq<StoredObject>, loc: Seq<char>)
        requires
            forall|k: int| 0 <= k < s.len() ==> s[k].location@ != loc,
        ensures
            Self::lookup(s, loc) is None,
        decreases s.len(),
    {
        if s.len() > 0 {
            Self::lemma_lookup_absent(s.drop_last(), loc);
        }
    }

    proof fn lemma_lookup_update(s: Seq<StoredObject>, i: int, obj: StoredObject, l: Seq<char>)
        requires
            Self::unique_locations(s),
            0 <= i < s.len(),
            obj.location@ == s[i].location@,
        ensures
            Self::lookup(s.update(i, obj), l) == (if l == s[i].location@ {
                Some((obj.data@, obj.last_modified_ms))
            } else {
                Self::lookup(s, l)
            }),
        decreases s.len(),
    {
        let t = s.update(i, obj);
        if i == s.len() - 1 {
            assert(t.last() == obj);
            assert(t.drop_last() =~= s.drop_last());
        } else {
            assert(t.last() == s.last());
            assert(t.drop_last() =~= s.drop_last().update(i, obj));
            assert(s.drop_last()[i] == s[i]);
            assert(Self::unique_locations(s.drop_last())) by {
                assert(forall|a: int, b: int|
                    0 <= a < b < s.drop_last().len() ==> s.drop_last()[a].location@ != s.drop_last()[
                        b
                    ].location@) by {
                    assert(forall|a: int| 0 <= a < s.drop_last().len() ==> s.drop_last()[a] == s[a]);
                }
            }
            Self::lemma_lookup_update(s.drop_last(), i, obj, l);
            assert(s[s.len() - 1].location@ != s[i].location@);
        }
    }

    proof fn lemma_lookup_remove(s: Seq<StoredObject>, i: int, l: Seq<char>)
        requires
            Self::unique_locations(s),
            0 <= i < s.len(),
        ensures
            Self::lookup(s.remove(i), l) == (if l == s[i].location@ {
                None::<(Seq<u8>, u64)>
            } else {
                Self::lookup(s, l)
            }),
        decreases s.len(),
    {
        let t = s.remove(i);
        if i == s.len() - 1 {
            assert(t =~= s.drop_last());
            if l == s[i].location@ {
                assert(forall|k: int| 0 <= k < t.len() ==> t[k].location@ != l);
                Self::lemma_lookup_absent(t, l);
            }
        } else {
            assert(t.last() == s.last());
            assert(t.drop_last() =~= s.drop_last().remove(i));
            assert(forall|a: int| 0 <= a < s.drop_last().len() ==> s.drop_last()[a] == s[a]);
            assert(Self::unique_locations(s.drop_last()));
            Self::lemma_lookup_remove(s.drop_last(), i, l);
            assert(s[s.len() - 1].location@ != s[i].location@);
        }
    }

    /// An empty store.
    pub fn new() -> (r: MemStore)
        ensures
            r.wf(),
            forall|l: Seq<char>| !r.contains_object(l),
    {
        let r = MemStore { objects: Vec::new() };
        proof {
            assert forall|l: Seq<char>| !r.contains_object(l) by {
                assert(r.objects@.len() == 0);
            }
        }
        r
    }

    /// The index of the object stored at `location`, if any.
    fn find(&self, location: &String) -> (r: Option<usize>)
        requires
            self.wf(),
        ensures
            match r {
                Some(i) => i < self.objects.len() && self.objects[i as int].location@ == location@
                    && self.entry(location@) == Some(
                    (self.objects[i as int].data@, self.objects[i as int].last_modified_ms),
                ),
                None => !self.contains_object(location@),
            },
    {
        let n = self.objects.len();
        let mut i: usize = 0;
        while i < n
            invariant
                self.wf(),
                n == self.objects.len(),
                i <= n,
                forall|k: int| 0 <= k < i ==> self.objects@[k].location@ != location@,
            decreases n - i,
        {
            if self.objects[i].location == *location {
                proof {
                    Self::lemma_lookup_index(self.objects@, i as int);
                }
                return Some(i);
            }
            i = i + 1;
        }
        proof {
            Self::lemma_lookup_absent(self.objects@, location@);
        }
        None
    }

    /// `get` returns the object's bytes, or `NotFound` when no object is
    /// stored at the location.
    pub fn get(&self, location: &String) -> (r: Result<Vec<u8>, StoreError>)
        requires
            self.wf(),
        ensures
            match r {
                Ok(data) => self.contains_object(location@) && data@ == self.contents_of(location@),
                Err(e) => !self.contains_object(location@) && e == (StoreError::NotFound {
                    path: *location,
                }),
            },
    {
        match self.find(location) {
            Some(i) => Ok(clone_bytes(&self.objects[i].data)),
            None => Err(StoreError::NotFound { path: location.clone() }),
        }
    }

    /// `get_range` returns exactly the bytes `start..end` of the object:
    /// `NotFound` when the object is missing, `Generic` when the range
    /// reaches past its end.
    pub fn get_range(&self, location: &String, start: usize, end: usize) -> (r: Result<
        Vec<u8>,
        StoreError,
    >)
        requires
            self.wf(),
            start <= end,
        ensures
            r is Ok <==> self.contains_object(location@) && end <= self.contents_of(
                location@,
            ).len(),
            r is Ok ==> r->Ok_0@ == self.contents_of(location@).subrange(start as int, end as int),
            !self.contains_object(location@) ==> r == Err::<Vec<u8>, StoreError>(
                StoreError::NotFound { path: *location },
            ),
            r is Err ==> (r->Err_0 is NotFound || r->Err_0 is Generic),
    {
        match self.find(location) {
            Some(i) => {
                let data = &self.objects[i].data;
                if end <= data.len() {
                    let mut out: Vec<u8> = Vec::new();
                    let mut k: usize = start;
                    assert(out@ =~= data@.subrange(start as int, start as int));
                    while k < end
                        invariant
                            start <= k <= end <= data.len(),
                            out@ == data@.subrange(start as int, k as int),
                        decreases end - k,
                    {
                        out.push(data[k]);
                        assert(out@ =~= data@.subrange(start as int, k + 1));
                        k = k + 1;
                    }
                    Ok(out)
                } else {
                    Err(
                        StoreError::Generic {
                            cause: String::from_str("range reaches past the end of the object"),
                        },
                    )
                }
            },
            None => Err(StoreError::NotFound { path: location.clone() }),
        }
    }

    /// `head` returns the object's metadata, or `NotFound`.
    pub fn head(&self, location: &String) -> (r: Result<ObjectMetadata, StoreError>)
        requires
            self.wf(),
        ensures
            match r {
                Ok(m) => self.contains_object(location@) && m.location@ == location@ && m.size
                    == self.contents_of(location@).len() && m.last_modified_ms == self.modified_of(
                    location@,
                ),
                Err(e) => !self.contains_object(location@) && e == (StoreError::NotFound {
                    path: *location,
                }),
            },
    {
        match self.find(location) {
            Some(i) => Ok(
                ObjectMetadata {
                    location: location.clone(),
                    size: self.objects[i].data.len(),
                    last_modified_ms: self.objects[i].last_modified_ms,
                },
            ),
            None => Err(StoreError::NotFound { path: location.clone() }),
        }
    }

    /// `put` writes or overwrites the object at `location`; it
    /// acknowledges only after the store holds exactly the given bytes.
    /// Every other object is untouched.
    pub fn put(&mut self, location: &String, data: Vec<u8>, now_ms: u64)
        requires
            old(self).wf(),
        ensures
            final(self).wf(),
            final(self).entry(location@) == Some((data@, now_ms)),
            forall|l: Seq<char>| l != location@ ==> final(self).entry(l) == old(self).entry(l),
    {
        let ghost old_objects = self.objects@;
        let obj = StoredObject { location: location.clone(), data, last_modified_ms: now_ms };
        let ghost obj_g = obj;
        match self.find(location) {
            Some(i) => {
                self.objects[i] = obj;
                proof {
                    assert(self.objects@ == old_objects.update(i as int, obj_g));
                    assert forall|l: Seq<char>|
                        Self::lookup(self.objects@, l) == (if l == location@ {
                            Some((obj_g.data@, obj_g.last_modified_ms))
                        } else {
                            Self::lookup(old_objects, l)
                        }) by {
                        Self::lemma_lookup_update(old_objects, i as int, obj_g, l);
                    }
                    assert forall|a: int, b: int|
                        0 <= a < b < self.objects@.len() implies self.objects@[a].location@
                        != self.objects@[b].location@ by {
                        assert(old_objects[a].location@ != old_objects[b].location@);
                    }
                }
            },
            None => {
                self.objects.push(obj);
                proof {
                    assert(self.objects@.last() == obj_g);
                    assert(self.objects@.drop_last() =~= old_objects);
                    assert forall|l: Seq<char>| l != location@ implies Self::lookup(
                        self.objects@,
                        l,
                    ) == Self::lookup(old_objects, l) by {
                        assert(self.objects@.last().location@ == location@);
                    }
                    assert forall|a: int, b: int|
                        0 <= a < b < self.objects@.len() implies self.objects@[a].location@
                        != self.objects@[b].location@ by {
                        if b == self.objects@.len() - 1 {
                            assert(self.objects@[a] == old_objects[a]);
                            assert(Self::lookup(old_objects, old_objects[a].location@) is Some) by {
                                Self::lemma_lookup_index(old_objects, a);
                            }
                        } else {
                            assert(self.objects@[a] == old_objects[a]);
                            assert(self.objects@[b] == old_objects[b]);
                        }
                    }
                }
            },
        }
    }

    /// `delete` removes the object, or reports `NotFound`; every other
    /// object is untouched.
    pub fn delete(&mut self, location: &String) -> (r: Result<(), StoreError>)
        requires
            old(self).wf(),
        ensures
            final(self).wf(),
            r is Ok <==> old(self).contains_object(location@),
            !final(self).contains_object(location@),
            forall|l: Seq<char>| l != location@ ==> final(self).entry(l) == old(self).entry(l),
            r is Err ==> *final(self) == *old(self) && r->Err_0 == (StoreError::NotFound {
                path: *location,
            }),
    {
        let ghost old_objects = self.objects@;
        match self.find(location) {
            Some(i) => {
                self.objects.remove(i);
                proof {
                    assert(self.objects@ == old_objects.remove(i as int));
                    assert forall|l: Seq<char>|
                        Self::lookup(self.objects@, l) == (if l == location@ {
                            None::<(Seq<u8>, u64)>
                        } else {
                            Self::lookup(old_objects, l)
                        }) by {
                        Self::lemma_lookup_remove(old_objects, i as int, l);
                    }
                    assert forall|a: int, b: int|
                        0 <= a < b < self.objects@.len() implies self.objects@[a].location@
                        != self.objects@[b].location@ by {
                        let sa = if a < i as int {
                            a
                        } else {
                            a + 1
                        };
                        let sb = if b < i as int {
                            b
                        } else {
                            b + 1
                        };
                        assert(self.objects@[a] == old_objects[sa]);
                        assert(self.objects@[b] == old_objects[sb]);
                    }
                }
                Ok(())
            },
            None => Err(StoreError::NotFound { path: location.clone() }),
        }
    }

    /// `copy` duplicates the source object's bytes at the destination,
    /// or reports `NotFound` for a missing source.
    pub fn copy(&mut self, from: &String, to: &String, now_ms: u64) -> (r: Result<(), StoreError>)
        requires
            old(self).wf(),
        ensures
            final(self).wf(),
            r is Ok <==> old(self).contains_object(from@),
            r is Ok ==> final(self).entry(to@) == Some((old(self).contents_of(from@), now_ms)) && (
            forall|l: Seq<char>|
                l != to@ ==> final(self).entry(l) == old(self).entry(l)),
            r is Err ==> *final(self) == *old(self) && r->Err_0 == (StoreError::NotFound {
                path: *from,
            }),
    {
        let data = match self.get(from) {
            Ok(d) => d,
            Err(e) => {
                return Err(e);
            },
        };
        self.put(to, data, now_ms);
        Ok(())
    }

    /// `list` produces one metadata record per object whose location
    /// starts with `prefix`, in store order.
    pub fn list(&self, prefix: &String) -> (r: Vec<ObjectMetadata>)
        requires
            self.wf(),
        ensures
            r@.map_values(|m: ObjectMetadata| m.location@) == locations_with_prefix(
                self.locations(),
                prefix@,
            ),
            forall|k: int|
                0 <= k < r.len() ==> self.contains_object(#[trigger] r@[k].location@) && r@[k].size
                    == self.contents_of(r@[k].location@).len() && r@[k].last_modified_ms
                    == self.modified_of(r@[k].location@),
    {
        let n = self.objects.len();
        let mut out: Vec<ObjectMetadata> = Vec::new();
        let mut i: usize = 0;
        proof {
            assert(self.locations().take(0) =~= Seq::<Seq<char>>::empty());
            assert(out@.map_values(|m: ObjectMetadata| m.location@) =~= locations_with_prefix(
                self.locations().take(0),
                prefix@,
            ));
        }
        while i < n
            invariant
                n == self.objects.len(),
                i <= n,
                self.wf(),
                out@.map_values(|m: ObjectMetadata| m.location@) == locations_with_prefix(
                    self.locations().take(i as int),
                    prefix@,
                ),
                forall|k: int|
                    0 <= k < out.len() ==> self.contains_object(#[trigger] out@[k].location@)
                        && out@[k].size == self.contents_of(out@[k].location@).len()
                        && out@[k].last_modified_ms == self.modified_of(out@[k].location@),
            decreases n - i,
        {
            let ghost prev = out@;
            let o = &self.objects[i];
            let keep = has_prefix(&o.location, prefix);
            if keep {
                proof {
                    Self::lemma_lookup_index(self.objects@, i as int);
                }
                out.push(
                    ObjectMetadata {
                        location: o.location.clone(),
                        size: o.data.len(),
                        last_modified_ms: o.last_modified_ms,
                    },
                );
                proof {
                    assert(out@.map_values(|m: ObjectMetadata| m.location@) =~= prev.map_values(
                        |m: ObjectMetadata| m.location@,
                    ).push(self.objects@[i as int].location@));
                }
            }
            proof {
                assert(self.locations().take(i + 1).drop_last() =~= self.locations().take(i as int));
                assert(self.locations().take(i + 1).last() == self.objects@[i as int].location@);
                assert(out@.map_values(|m: ObjectMetadata| m.location@) == locations_with_prefix(
                    self.locations().take(i + 1),
                    prefix@,
                ));
            }
            i = i + 1;
        }
        proof {
            assert(self.locations().take(n as int) =~= self.locations());
        }
        out
    }
}

/// The locations among `locs` that start with `prefix`, in order.
pub open spec fn locations_with_prefix(locs: Seq<Seq<char>>, prefix: Seq<char>) -> Seq<Seq<char>>
    decreases locs.len(),
{
    if locs.len() == 0 {
        Seq::empty()
    } else {
        let rest = locations_with_prefix(locs.drop_last(), prefix);
        if prefix.is_prefix_of(locs.last()) {
            rest.push(locs.last())
        } else {
            rest
        }
    }
}

/// A byte-for-byte copy of `v`.
pub(crate) fn clone_bytes(v: &Vec<u8>) -> (r: Vec<u8>)
    ensures
        r@ == v@,
{
    let mut r: Vec<u8> = Vec::new();
    let mut i: usize = 0;
    assert(r@ =~= v@.subrange(0, 0));
    while i < v.len()
        invariant
            i <= v.len(),
            r@ == v@.subrange(0, i as int),
        decreases v.len() - i,
    {
        r.push(v[i]);
        assert(r@ =~= v@.subrange(0, i + 1));
        i = i + 1;
    }
    assert(r@ =~= v@);
    r
}

/// Whether `prefix` is a prefix of `s`, by characters.
pub fn has_prefix(s: &String, prefix: &String) -> (r: bool)
    ensures
        r <==> prefix@.is_prefix_of(s@),
{
    let sl = s.as_str().unicode_len();
    let pl = prefix.as_str().unicode_len();
    if pl > sl {
        assert(!prefix@.is_prefix_of(s@));
        return false;
    }
    let mut i: usize = 0;
    while i < pl
        invariant
            pl == prefix@.len(),
            sl == s@.len(),
            pl <= sl,
            i <= pl,
            forall|k: int| 0 <= k < i ==> s@[k] == prefix@[k],
        decreases pl - i,
    {
        if s.as_str().get_char(i) != prefix.as_str().get_char(i) {
            assert(!prefix@.is_prefix_of(s@));
            return false;
        }
        i = i + 1;
    }
    assert(prefix@ =~= s@.subrange(0, pl as int));
    true
}

} // verus!
