use vstd::arithmetic::div_mod::lemma_small_mod;
use vstd::prelude::*;

use crate::error::AllocError;
use crate::region::{lemma_pages_within, lemma_take_pages, RegionModel};

verus! {

/// A double-ended bootstrap allocator over one address range.
///
/// ```text
/// [ bytes-used | available | pages-used ]
/// |            | -->   <-- |            |
/// start   free_start    free_end       end
/// ```
///
/// Byte allocations are counted; when the count of live bytes drops to zero
/// the whole byte front is reclaimed at once. Pages are never reclaimed.
pub struct EarlyAllocator<const PAGE_SIZE: usize> {
    start: usize,
    end: usize,
    free_start: usize,
    free_end: usize,
    allocated_bytes: usize,
}

impl<const PAGE_SIZE: usize> View for EarlyAllocator<PAGE_SIZE> {
    type V = RegionModel;

    closed spec fn view(&self) -> RegionModel {
        RegionModel {
            start: self.start as int,
            end: self.end as int,
            free_start: self.free_start as int,
            free_end: self.free_end as int,
            allocated_bytes: self.allocated_bytes as int,
        }
    }
}

impl<const PAGE_SIZE: usize> EarlyAllocator<PAGE_SIZE> {
    /// The invariant every operation keeps.
    pub open spec fn wf(&self) -> bool {
        self@.wf(PAGE_SIZE as int)
    }

    /// An allocator over the empty range at address zero; `init` gives it memory.
    pub fn new() -> (r: Self)
        requires
            PAGE_SIZE > 0,
        ensures
            r.wf(),
            r@ == (RegionModel { start: 0, end: 0, free_start: 0, free_end: 0, allocated_bytes: 0 }),
    {
        proof {
            lemma_small_mod(0, PAGE_SIZE as nat);
        }
        EarlyAllocator { start: 0, end: 0, free_start: 0, free_end: 0, allocated_bytes: 0 }
    }

    /// Gives the allocator the range of `size` bytes at `start`, discarding
    /// whatever it held before.
    pub fn init(&mut self, start: usize, size: usize)
        requires
            PAGE_SIZE > 0,
            start + size <= usize::MAX,
        ensures
            final(self).wf(),
            final(self)@ == RegionModel::initialized(start as int, size as int),
    {
        self.start = start;
        self.end = start + size;
        self.free_start = start;
        self.free_end = start + size;
        self.allocated_bytes = 0;
        proof {
            lemma_small_mod(0, PAGE_SIZE as nat);
        }
    }

    /// Adding a second range is not offered: this allocator serves exactly one
    /// contiguous range. Always `Unsupported`, and nothing changes.
    pub fn add_memory(&mut self, start: usize, size: usize) -> (r: Result<(), AllocError>)
        ensures
            r == Err::<(), AllocError>(AllocError::Unsupported),
            *final(self) == *old(self),
    {
        Err(AllocError::Unsupported)
    }

    /// Size of the whole range in bytes.
    pub fn total_bytes(&self) -> (r: usize)
        requires
            self.wf(),
        ensures
            r == self@.total_bytes(),
    {
        self.end - self.start
    }

    /// Bytes handed out by the byte face and not yet given back.
    pub fn used_bytes(&self) -> (r: usize)
        requires
            self.wf(),
        ensures
            r == self@.used_bytes(),
    {
        self.allocated_bytes
    }

    /// Bytes between the two fronts.
    pub fn available_bytes(&self) -> (r: usize)
        requires
            self.wf(),
        ensures
            r == self@.available_bytes(),
    {
        self.free_end - self.free_start
    }

    /// Allocates `size` bytes from the byte front and returns their address,
    /// the old `free_start`.
    ///
    /// `align` is accepted and not honoured: byte allocations are released in
    /// bulk, so the front is never padded, and the address is aligned only as
    /// far as the sizes allocated before it leave it aligned.
    pub fn alloc_bytes(&mut self, size: usize, align: usize) -> (r: Result<usize, AllocError>)
        requires
            old(self).wf(),
        ensures
            final(self).wf(),
            final(self)@ == old(self)@.after_alloc(size as int),
            r is Ok <==> old(self)@.bytes_fit(size as int),
            r is Ok ==> r->Ok_0 == old(self)@.free_start,
            r is Err ==> r->Err_0 == AllocError::NoMemory && final(self)@ == old(self)@,
    {
        if self.available_bytes() < size {
            return Err(AllocError::NoMemory);
        }
        let pos = self.free_start;
        self.free_start = self.free_start + size;
        self.allocated_bytes = self.allocated_bytes + size;
        Ok(pos)
    }

    /// Gives back `size` bytes of the byte front. Only the live-byte counter
    /// is consulted: `pos` is not checked, and once the counter reaches zero
    /// the whole byte front is reclaimed.
    pub fn dealloc_bytes(&mut self, pos: usize, size: usize, align: usize)
        requires
            old(self).wf(),
            size <= old(self)@.used_bytes(),
        ensures
            final(self).wf(),
            final(self)@ == old(self)@.after_dealloc(size as int),
    {
        self.allocated_bytes = self.allocated_bytes - size;
        if self.allocated_bytes == 0 {
            self.free_start = self.start;
        }
    }

    /// Allocates `num_pages` pages from the page front and returns the base of
    /// the run, the new `free_end`.
    ///
    /// `align_pow2` is accepted and not honoured: runs are placed a whole
    /// number of pages below the end of the range.
    pub fn alloc_pages(&mut self, num_pages: usize, align_pow2: usize) -> (r: Result<usize, AllocError>)
        requires
            old(self).wf(),
        ensures
            final(self).wf(),
            final(self)@ == old(self)@.after_alloc_pages(num_pages as int, PAGE_SIZE as int),
            r is Ok <==> old(self)@.pages_fit(num_pages as int, PAGE_SIZE as int),
            r is Ok ==> r->Ok_0 == final(self)@.free_end,
            r is Err ==> r->Err_0 == AllocError::NoMemory && final(self)@ == old(self)@,
    {
        if self.available_pages() < num_pages {
            return Err(AllocError::NoMemory);
        }
        proof {
            lemma_pages_within(
                num_pages as int,
                self.free_end - self.free_start,
                PAGE_SIZE as int,
            );
            lemma_take_pages(
                (self.end - self.free_end) + num_pages * PAGE_SIZE,
                num_pages as int,
                PAGE_SIZE as int,
            );
        }
        self.free_end = self.free_end - num_pages * PAGE_SIZE;
        Ok(self.free_end)
    }

    /// Pages are never given back: always `Unsupported`, and nothing changes.
    pub fn dealloc_pages(&mut self, pos: usize, num_pages: usize) -> (r: Result<(), AllocError>)
        ensures
            r == Err::<(), AllocError>(AllocError::Unsupported),
            *final(self) == *old(self),
    {
        Err(AllocError::Unsupported)
    }

    /// Whole pages in the range.
    pub fn total_pages(&self) -> (r: usize)
        requires
            self.wf(),
        ensures
            r == self@.total_pages(PAGE_SIZE as int),
    {
        (self.end - self.start) / PAGE_SIZE
    }

    /// Pages handed out by the page face.
    pub fn used_pages(&self) -> (r: usize)
        requires
            self.wf(),
        ensures
            r == self@.used_pages(PAGE_SIZE as int),
    {
        (self.end - self.free_end) / PAGE_SIZE
    }

    /// Whole pages that fit between the two fronts.
    pub fn available_pages(&self) -> (r: usize)
        requires
            self.wf(),
        ensures
            r == self@.available_pages(PAGE_SIZE as int),
    {
        (self.free_end - self.free_start) / PAGE_SIZE
    }
}

} // verus!
