//! The shared-memory buffer protocol, modelled at the ownership level: a
//! `Region` is a single-owner byte buffer with a fixed capacity, moved — never
//! copied — so that consuming it twice is impossible in safe code. The
//! `BufferArena` is the checked harness for the handle-based protocol at the
//! lowest boundary layer, where a double consume is a detectable, fatal
//! protocol violation rather than a typed recoverable error.

use vstd::prelude::*;
use crate::err::StdError;

verus! {

/// An owned byte buffer with a fixed capacity: length starts at zero, a
/// writer fills it up to the capacity, and a consumer takes the bytes exactly
/// once, by value.
pub struct Region {
    data: Vec<u8>,
    capacity: usize,
}

impl Region {
    /// The bytes written so far.
    pub closed spec fn view_spec(&self) -> Seq<u8> {
        self.data@
    }

    /// The fixed capacity the region was reserved with.
    pub closed spec fn capacity_spec(&self) -> nat {
        self.capacity as nat
    }

    /// Well-formed: never filled past capacity.
    pub closed spec fn wf(&self) -> bool {
        self.data@.len() <= self.capacity
    }

    /// Reserves an empty region of the given capacity.
    pub fn build(capacity: usize) -> (r: Region)
        ensures
            r.wf(),
            r.view_spec() == Seq::<u8>::empty(),
            r.capacity_spec() == capacity,
    {
        let r = Region { data: Vec::new(), capacity };
        proof {
            assert(r.view_spec() =~= Seq::<u8>::empty());
        }
        r
    }

    /// Wraps an owned byte sequence, transferring ownership to the protocol;
    /// the capacity is the sequence's length.
    pub fn release_buffer(data: Vec<u8>) -> (r: Region)
        ensures
            r.wf(),
            r.view_spec() == data@,
            r.capacity_spec() == data@.len(),
    {
        let capacity = data.len();
        Region { data, capacity }
    }

    /// Appends bytes; a write past the capacity is the fatal protocol
    /// violation and leaves the region unchanged.
    pub fn write(&mut self, bytes: &Vec<u8>) -> (r: Result<(), StdError>)
        requires
            old(self).wf(),
        ensures
            final(self).wf(),
            final(self).capacity_spec() == old(self).capacity_spec(),
            match r {
                Ok(()) => old(self).view_spec().len() + bytes@.len() <= old(self).capacity_spec()
                    && final(self).view_spec() == old(self).view_spec() + bytes@,
                Err(e) => e is BufferProtocolViolation && old(self).view_spec().len() + bytes@.len()
                    > old(self).capacity_spec() && final(self).view_spec() == old(
                    self,
                ).view_spec(),
            },
    {
        if bytes.len() > self.capacity - self.data.len() {
            return Err(StdError::BufferProtocolViolation);
        }
        self.data.extend_from_slice(bytes.as_slice());
        Ok(())
    }

    /// Takes ownership of the bytes, destroying the region. The move makes a
    /// second consume of the same region a compile-time error.
    pub fn consume(self) -> (r: Vec<u8>)
        ensures
            r@ == self.view_spec(),
    {
        self.data
    }
}

/// The checked harness for the handle-based boundary protocol: regions are
/// addressed by numeric handles, as they are across the sandbox boundary.
/// Consuming a handle twice, or a handle never allocated, is detected and
/// reported as the fatal `BufferProtocolViolation` — the protocol does not
/// make such misuse safe, only detectable here.
pub struct BufferArena {
    slots: Vec<Option<Region>>,
}

impl BufferArena {
    /// Live buffer contents by handle; `None` marks a consumed slot.
    pub closed spec fn view_spec(&self) -> Seq<Option<Seq<u8>>> {
        self.slots@.map_values(
            |s: Option<Region>|
                match s {
                    Some(rg) => Some(rg.view_spec()),
                    None => None,
                },
        )
    }

    pub fn new() -> (r: Self)
        ensures
            r.view_spec() == Seq::<Option<Seq<u8>>>::empty(),
    {
        let r = BufferArena { slots: Vec::new() };
        proof {
            assert(r.view_spec() =~= Seq::<Option<Seq<u8>>>::empty());
        }
        r
    }

    /// Hands a region to the arena, returning its handle.
    pub fn release(&mut self, region: Region) -> (h: usize)
        ensures
            h == old(self).view_spec().len(),
            final(self).view_spec() == old(self).view_spec().push(Some(region.view_spec())),
    {
        let h = self.slots.len();
        self.slots.push(Some(region));
        proof {
            assert(final(self).view_spec() =~= old(self).view_spec().push(
                Some(region.view_spec()),
            ));
        }
        h
    }

    /// Allocates an empty region of the given capacity and returns its handle.
    pub fn allocate(&mut self, capacity: usize) -> (h: usize)
        ensures
            h == old(self).view_spec().len(),
            final(self).view_spec() == old(self).view_spec().push(Some(Seq::<u8>::empty())),
    {
        let region = Region::build(capacity);
        self.release(region)
    }

    /// The single-use consume: takes the bytes of a live handle,
    /// deallocating its slot. A second consume of the same handle, or an
    /// unknown handle, is the fatal protocol violation.
    pub fn consume(&mut self, h: usize) -> (r: Result<Vec<u8>, StdError>)
        ensures
            match r {
                Ok(bytes) => h < old(self).view_spec().len() && old(self).view_spec()[h as int]
                    == Some(bytes@) && final(self).view_spec() == old(self).view_spec().update(
                    h as int,
                    None,
                ),
                Err(e) => e is BufferProtocolViolation && (h >= old(self).view_spec().len() || old(
                    self,
                ).view_spec()[h as int] is None) && final(self).view_spec() == old(
                    self,
                ).view_spec(),
            },
    {
        if h >= self.slots.len() {
            return Err(StdError::BufferProtocolViolation);
        }
        let ghost before = self.view_spec();
        let mut slot: Option<Region> = None;
        self.slots.set_and_swap(h, &mut slot);
        match slot {
            Some(region) => {
                proof {
                    assert(self.view_spec() =~= before.update(h as int, None));
                }
                Ok(region.consume())
            },
            None => {
                proof {
                    assert(self.view_spec() =~= before);
                }
                Err(StdError::BufferProtocolViolation)
            },
        }
    }
}

} // verus!
