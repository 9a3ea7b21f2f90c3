use vstd::arithmetic::div_mod::{
    lemma_div_multiples_vanish_fancy,
    lemma_fundamental_div_mod,
    lemma_mod_bound,
    lemma_mod_multiples_vanish,
};
use vstd::arithmetic::mul::lemma_mul_inequality;
use vstd::prelude::*;

verus! {

/// The abstract state of a region: its fixed bounds, the two cursors and the
/// live-byte counter, as mathematical integers.
pub struct RegionModel {
    pub start: int,
    pub end: int,
    pub free_start: int,
    pub free_end: int,
    pub allocated_bytes: int,
}

impl RegionModel {
    /// The invariant of a region whose page face uses pages of `page_size` bytes.
    pub open spec fn wf(self, page_size: int) -> bool {
        &&& page_size > 0
        &&& 0 <= self.start <= self.free_start <= self.free_end <= self.end <= usize::MAX
        &&& 0 <= self.allocated_bytes <= self.free_start - self.start
        &&& self.allocated_bytes == 0 ==> self.free_start == self.start
        &&& (self.end - self.free_end) % page_size == 0
    }

    /// The region just after being given `size` bytes at `start`.
    pub open spec fn initialized(start: int, size: int) -> RegionModel {
        RegionModel {
            start,
            end: start + size,
            free_start: start,
            free_end: start + size,
            allocated_bytes: 0,
        }
    }

    /// The size of the whole region, whatever either face has taken.
    pub open spec fn total_bytes(self) -> int {
        self.end - self.start
    }

    /// The live-byte counter.
    pub open spec fn used_bytes(self) -> int {
        self.allocated_bytes
    }

    /// The unallocated middle, shared by both faces.
    pub open spec fn available_bytes(self) -> int {
        self.free_end - self.free_start
    }

    /// Whole pages in the region.
    pub open spec fn total_pages(self, page_size: int) -> int {
        (self.end - self.start) / page_size
    }

    /// Pages handed out by the page face.
    pub open spec fn used_pages(self, page_size: int) -> int {
        (self.end - self.free_end) / page_size
    }

    /// Whole pages that fit in the unallocated middle.
    pub open spec fn available_pages(self, page_size: int) -> int {
        (self.free_end - self.free_start) / page_size
    }

    /// Whether a byte allocation of `size` succeeds.
    pub open spec fn bytes_fit(self, size: int) -> bool {
        size <= self.available_bytes()
    }

    /// The region after a byte allocation of `size`; unchanged when it does not fit.
    pub open spec fn after_alloc(self, size: int) -> RegionModel {
        if self.bytes_fit(size) {
            RegionModel {
                free_start: self.free_start + size,
                allocated_bytes: self.allocated_bytes + size,
                ..self
            }
        } else {
            self
        }
    }

    /// The region after `size` bytes are given back: the counter drops, and
    /// the byte front returns to `start` once it reaches zero.
    pub open spec fn after_dealloc(self, size: int) -> RegionModel {
        let live = self.allocated_bytes - size;
        RegionModel {
            free_start: if live == 0 { self.start } else { self.free_start },
            allocated_bytes: live,
            ..self
        }
    }

    /// Whether an allocation of `count` pages succeeds.
    pub open spec fn pages_fit(self, count: int, page_size: int) -> bool {
        count <= self.available_pages(page_size)
    }

    /// The region after an allocation of `count` pages; unchanged when they do not fit.
    pub open spec fn after_alloc_pages(self, count: int, page_size: int) -> RegionModel {
        if self.pages_fit(count, page_size) {
            RegionModel { free_end: self.free_end - count * page_size, ..self }
        } else {
            self
        }
    }

    /// What each call hands back when byte allocations of `sizes` are made one
    /// after another: the address, or `None` where there was no room.
    pub open spec fn alloc_run(self, sizes: Seq<int>) -> Seq<Option<int>>
        decreases sizes.len(),
    {
        if sizes.len() == 0 {
            seq![]
        } else {
            let first = if self.bytes_fit(sizes[0]) {
                Some(self.free_start)
            } else {
                None
            };
            seq![first] + self.after_alloc(sizes[0]).alloc_run(sizes.drop_first())
        }
    }

    /// What each call hands back when page allocations of `counts` are made one
    /// after another: the base of the run, or `None` where there was no room.
    pub open spec fn alloc_pages_run(self, counts: Seq<int>, page_size: int) -> Seq<Option<int>>
        decreases counts.len(),
    {
        if counts.len() == 0 {
            seq![]
        } else {
            let next = self.after_alloc_pages(counts[0], page_size);
            let first = if self.pages_fit(counts[0], page_size) {
                Some(next.free_end)
            } else {
                None
            };
            seq![first] + next.alloc_pages_run(counts.drop_first(), page_size)
        }
    }

    /// The region after byte deallocations of `sizes`, one after another.
    pub open spec fn dealloc_run(self, sizes: Seq<int>) -> RegionModel
        decreases sizes.len(),
    {
        if sizes.len() == 0 {
            self
        } else {
            self.after_dealloc(sizes[0]).dealloc_run(sizes.drop_first())
        }
    }
}

/// The sum of a sequence of sizes or counts.
pub open spec fn total(xs: Seq<int>) -> int
    decreases xs.len(),
{
    if xs.len() == 0 {
        0
    } else {
        xs[0] + total(xs.drop_first())
    }
}

/// `count` pages that fit in `bytes` take no more than `bytes`.
pub proof fn lemma_pages_within(count: int, bytes: int, page_size: int)
    requires
        page_size > 0,
        bytes >= 0,
        0 <= count <= bytes / page_size,
    ensures
        count * page_size <= bytes,
{
    lemma_fundamental_div_mod(bytes, page_size);
    lemma_mul_inequality(count, bytes / page_size, page_size);
    lemma_mod_bound(bytes, page_size);
    assert(page_size * (bytes / page_size) == (bytes / page_size) * page_size) by (nonlinear_arith);
}

/// Taking `count` whole pages off `bytes` leaves `count` fewer whole pages,
/// and the same remainder.
pub proof fn lemma_take_pages(bytes: int, count: int, page_size: int)
    requires
        page_size > 0,
        count >= 0,
        count * page_size <= bytes,
    ensures
        (bytes - count * page_size) / page_size == bytes / page_size - count,
        (bytes - count * page_size) % page_size == bytes % page_size,
{
    let rest = bytes - count * page_size;
    assert(page_size * count == count * page_size) by (nonlinear_arith);
    lemma_fundamental_div_mod(rest, page_size);
    lemma_mod_bound(rest, page_size);
    lemma_div_multiples_vanish_fancy(count + rest / page_size, rest % page_size, page_size);
    assert(page_size * (count + rest / page_size) + rest % page_size == bytes) by (nonlinear_arith)
        requires
            rest == page_size * (rest / page_size) + rest % page_size,
            rest == bytes - count * page_size,
    ;
    lemma_mod_multiples_vanish(count, rest, page_size);
}

} // verus!
