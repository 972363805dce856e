use vstd::prelude::*;

use crate::errors::StoreError;
use crate::store::{knn_post, VecStore};

verus! {

/// The lifecycle of the process-wide store slot: the collection may be
/// operated on only while the slot is ready.
enum SlotInner {
    /// Before `open` has completed.
    Uninitialized,
    /// Holding the one live store.
    Ready(VecStore),
    /// After the store has been torn down.
    Closed,
}

/// The demonstration data set after its one update (record 4) and one
/// delete (record 5): the collection the process starts with.
pub open spec fn demo_contents() -> Map<i64, Seq<i32>> {
    map![
        1i64 => seq![100i32, 100i32, 100i32, 100i32],
        2i64 => seq![200i32, 200i32, 200i32, 200i32],
        3i64 => seq![300i32, 300i32, 300i32, 300i32],
        4i64 => seq![140i32, 140i32, 140i32, 140i32],
    ]
}

/// A demonstration embedding: the coordinate `c` repeated four times.
fn demo_embedding(c: i32) -> (v: Vec<i32>)
    ensures
        v@ =~= seq![c, c, c, c],
{
    let mut v: Vec<i32> = Vec::new();
    v.push(c);
    v.push(c);
    v.push(c);
    v.push(c);
    v
}

/// The guarded slot that owns the one store for the lifetime of the
/// process: an explicit handle passed down to callers in place of
/// ambient global state. Every operation attempted while the slot is not
/// ready fails with `NotInitialized`.
pub struct StoreSlot {
    inner: SlotInner,
}

impl StoreSlot {
    /// Whether the slot holds a live store.
    pub closed spec fn is_ready(&self) -> bool {
        self.inner is Ready
    }

    /// Whether the slot has been closed for good.
    pub closed spec fn is_closed(&self) -> bool {
        self.inner is Closed
    }

    /// The live collection's content (meaningful only while ready).
    pub closed spec fn contents(&self) -> Map<i64, Seq<i32>> {
        self.inner->Ready_0@
    }

    /// The live collection's dimension (meaningful only while ready).
    pub closed spec fn spec_dim(&self) -> int {
        self.inner->Ready_0.spec_dim()
    }

    /// Well-formedness: a ready slot holds a well-formed store.
    pub closed spec fn wf(&self) -> bool {
        self.inner is Ready ==> self.inner->Ready_0.wf()
    }

    /// A fresh, uninitialized slot: no operation may proceed yet.
    pub fn new() -> (s: StoreSlot)
        ensures
            s.wf(),
            !s.is_ready(),
            !s.is_closed(),
    {
        StoreSlot { inner: SlotInner::Uninitialized }
    }

    /// Construct the store exactly once: create a fresh, empty collection
    /// with embedding width `dim`.
    ///
    /// Fails with `SchemaError` when a collection already exists for this
    /// slot, and with `NotInitialized` when the slot is already closed; a
    /// failed call changes nothing.
    pub fn open(&mut self, dim: usize) -> (r: Result<(), StoreError>)
        requires
            old(self).wf(),
        ensures
            final(self).wf(),
            match r {
                Ok(()) => {
                    &&& !old(self).is_ready() && !old(self).is_closed()
                    &&& final(self).is_ready() && !final(self).is_closed()
                    &&& final(self).spec_dim() == dim as int
                    &&& final(self).contents() == Map::<i64, Seq<i32>>::empty()
                },
                Err(e) => {
                    &&& *final(self) == *old(self)
                    &&& (e == StoreError::SchemaError <==> old(self).is_ready())
                    &&& (e == StoreError::NotInitialized <==> old(self).is_closed())
                },
            },
            r is Ok <==> !old(self).is_ready() && !old(self).is_closed(),
    {
        match &self.inner {
            SlotInner::Ready(_) => Err(StoreError::SchemaError),
            SlotInner::Closed => Err(StoreError::NotInitialized),
            SlotInner::Uninitialized => {
                self.inner = SlotInner::Ready(VecStore::new(dim));
                Ok(())
            },
        }
    }

    /// Construct the store exactly once and seed it with the
    /// demonstration data set: five records of width four, then one
    /// update and one delete, exactly as the process performs at
    /// startup. Coordinates are fixed-point with three decimal places,
    /// so the coordinate `100` stands for `0.100`.
    ///
    /// Every step of the seeding provably succeeds, so the slot ends
    /// ready with precisely `demo_contents` in it. Fails with
    /// `SchemaError` when a collection already exists for this slot, and
    /// with `NotInitialized` when the slot is already closed; a failed
    /// call changes nothing.
    pub fn open_demo(&mut self) -> (r: Result<(), StoreError>)
        requires
            old(self).wf(),
        ensures
            final(self).wf(),
            match r {
                Ok(()) => {
                    &&& !old(self).is_ready() && !old(self).is_closed()
                    &&& final(self).is_ready() && !final(self).is_closed()
                    &&& final(self).spec_dim() == 4
                    &&& final(self).contents() == demo_contents()
                },
                Err(e) => {
                    &&& *final(self) == *old(self)
                    &&& (e == StoreError::SchemaError <==> old(self).is_ready())
                    &&& (e == StoreError::NotInitialized <==> old(self).is_closed())
                },
            },
            r is Ok <==> !old(self).is_ready() && !old(self).is_closed(),
    {
        match &self.inner {
            SlotInner::Ready(_) => {
                return Err(StoreError::SchemaError);
            },
            SlotInner::Closed => {
                return Err(StoreError::NotInitialized);
            },
            SlotInner::Uninitialized => {},
        }
        let mut store = VecStore::new(4);
        let r1 = store.insert(1, demo_embedding(100));
        assert(r1 is Ok);
        let r2 = store.insert(2, demo_embedding(200));
        assert(r2 is Ok);
        let r3 = store.insert(3, demo_embedding(300));
        assert(r3 is Ok);
        let r4 = store.insert(4, demo_embedding(400));
        assert(r4 is Ok);
        let r5 = store.insert(5, demo_embedding(500));
        assert(r5 is Ok);
        let r6 = store.update(4, demo_embedding(140));
        assert(r6 is Ok);
        store.delete(5);
        assert(store@ =~= demo_contents());
        self.inner = SlotInner::Ready(store);
        Ok(())
    }

    /// Tear the store down; every later operation fails with
    /// `NotInitialized`.
    pub fn close(&mut self)
        ensures
            final(self).wf(),
            !final(self).is_ready(),
            final(self).is_closed(),
    {
        self.inner = SlotInner::Closed;
    }

    /// Add a new record to the live collection (see `VecStore::insert`);
    /// fails with `NotInitialized` while the slot is not ready.
    pub fn insert(&mut self, id: i64, embedding: Vec<i32>) -> (r: Result<(), StoreError>)
        requires
            old(self).wf(),
        ensures
            final(self).wf(),
            !old(self).is_ready() ==> r == Err::<(), StoreError>(StoreError::NotInitialized)
                && *final(self) == *old(self),
            old(self).is_ready() ==> {
                &&& (r is Ok <==> embedding@.len() == old(self).spec_dim() && !old(
                    self,
                ).contents().contains_key(id))
                &&& final(self).is_ready() && !final(self).is_closed()
                &&& final(self).spec_dim() == old(self).spec_dim()
                &&& match r {
                    Ok(()) => {
                        &&& embedding@.len() == old(self).spec_dim()
                        &&& !old(self).contents().contains_key(id)
                        &&& final(self).contents() == old(self).contents().insert(id, embedding@)
                    },
                    Err(e) => {
                        &&& final(self).contents() == old(self).contents()
                        &&& (e == StoreError::DimensionMismatch <==> embedding@.len() != old(
                            self,
                        ).spec_dim())
                        &&& (e == StoreError::DuplicateKey <==> embedding@.len() == old(
                            self,
                        ).spec_dim() && old(self).contents().contains_key(id))
                    },
                }
            },
    {
        match &mut self.inner {
            SlotInner::Ready(store) => store.insert(id, embedding),
            _ => Err(StoreError::NotInitialized),
        }
    }

    /// Replace the embedding of an existing record (see
    /// `VecStore::update`); fails with `NotInitialized` while the slot is
    /// not ready.
    pub fn update(&mut self, id: i64, embedding: Vec<i32>) -> (r: Result<(), StoreError>)
        requires
            old(self).wf(),
        ensures
            final(self).wf(),
            !old(self).is_ready() ==> r == Err::<(), StoreError>(StoreError::NotInitialized)
                && *final(self) == *old(self),
            old(self).is_ready() ==> {
                &&& (r is Ok <==> embedding@.len() == old(self).spec_dim() && old(
                    self,
                ).contents().contains_key(id))
                &&& final(self).is_ready() && !final(self).is_closed()
                &&& final(self).spec_dim() == old(self).spec_dim()
                &&& match r {
                    Ok(()) => {
                        &&& embedding@.len() == old(self).spec_dim()
                        &&& old(self).contents().contains_key(id)
                        &&& final(self).contents() == old(self).contents().insert(id, embedding@)
                    },
                    Err(e) => {
                        &&& final(self).contents() == old(self).contents()
                        &&& (e == StoreError::DimensionMismatch <==> embedding@.len() != old(
                            self,
                        ).spec_dim())
                        &&& (e == StoreError::NotFound <==> embedding@.len() == old(
                            self,
                        ).spec_dim() && !old(self).contents().contains_key(id))
                    },
                }
            },
    {
        match &mut self.inner {
            SlotInner::Ready(store) => store.update(id, embedding),
            _ => Err(StoreError::NotInitialized),
        }
    }

    /// Remove a record if present, a no-op otherwise (see
    /// `VecStore::delete`); fails with `NotInitialized` while the slot is
    /// not ready.
    pub fn delete(&mut self, id: i64) -> (r: Result<(), StoreError>)
        requires
            old(self).wf(),
        ensures
            final(self).wf(),
            !old(self).is_ready() ==> r == Err::<(), StoreError>(StoreError::NotInitialized)
                && *final(self) == *old(self),
            old(self).is_ready() ==> {
                &&& r == Ok::<(), StoreError>(())
                &&& final(self).is_ready() && !final(self).is_closed()
                &&& final(self).spec_dim() == old(self).spec_dim()
                &&& final(self).contents() == old(self).contents().remove(id)
            },
    {
        match &mut self.inner {
            SlotInner::Ready(store) => {
                store.delete(id);
                Ok(())
            },
            _ => Err(StoreError::NotInitialized),
        }
    }

    /// Answer a k-nearest-neighbour query against the live collection
    /// (see `VecStore::query_nearest`); fails with `NotInitialized` while
    /// the slot is not ready.
    pub fn query_nearest(&self, q: &Vec<i32>, k: usize) -> (r: Result<
        Vec<(i64, u128)>,
        StoreError,
    >)
        requires
            self.wf(),
        ensures
            !self.is_ready() ==> r == Err::<Vec<(i64, u128)>, StoreError>(
                StoreError::NotInitialized,
            ),
            self.is_ready() ==> knn_post(self.contents(), self.spec_dim(), q@, k as int, r),
    {
        match &self.inner {
            SlotInner::Ready(store) => store.query_nearest(q, k),
            _ => Err(StoreError::NotInitialized),
        }
    }

    /// Number of live records; fails with `NotInitialized` while the slot
    /// is not ready.
    pub fn len(&self) -> (r: Result<usize, StoreError>)
        requires
            self.wf(),
        ensures
            !self.is_ready() ==> r == Err::<usize, StoreError>(StoreError::NotInitialized),
            self.is_ready() ==> match r {
                Ok(n) => self.contents().dom().finite() && n as int
                    == self.contents().dom().len(),
                Err(_) => false,
            },
    {
        match &self.inner {
            SlotInner::Ready(store) => Ok(store.len()),
            _ => Err(StoreError::NotInitialized),
        }
    }
}

} // verus!
