use vstd::arithmetic::div_mod::{
    lemma_div_is_ordered,
    lemma_div_multiples_vanish,
    lemma_fundamental_div_mod,
    lemma_mod_multiples_vanish,
};
use vstd::arithmetic::mul::lemma_mul_strictly_positive;
use vstd::prelude::*;

use crate::region::{lemma_pages_within, lemma_take_pages, total, RegionModel};

verus! {

proof fn lemma_total_nonneg(xs: Seq<int>)
    requires
        forall|i: int| 0 <= i < xs.len() ==> xs[i] >= 0,
    ensures
        total(xs) >= 0,
    decreases xs.len(),
{
    if xs.len() > 0 {
        lemma_total_nonneg(xs.drop_first());
    }
}

/// Byte allocations of positive sizes whose total fits in the room between
/// the fronts all succeed; the addresses handed out strictly increase, each
/// range lies between the fronts, and no two ranges overlap.
pub proof fn lemma_byte_allocs_ascend(m: RegionModel, page_size: int, sizes: Seq<int>)
    requires
        m.wf(page_size),
        forall|i: int| 0 <= i < sizes.len() ==> sizes[i] > 0,
        total(sizes) <= m.available_bytes(),
    ensures
        m.alloc_run(sizes).len() == sizes.len(),
        forall|i: int|
            0 <= i < sizes.len() ==> {
                let a = #[trigger] m.alloc_run(sizes)[i];
                &&& a is Some
                &&& m.free_start <= a->Some_0
                &&& a->Some_0 + sizes[i] <= m.free_end
            },
        forall|i: int, j: int|
            0 <= i < j < sizes.len() ==> {
                let a = #[trigger] m.alloc_run(sizes)[i];
                let b = #[trigger] m.alloc_run(sizes)[j];
                &&& a->Some_0 < b->Some_0
                &&& a->Some_0 + sizes[i] <= b->Some_0
            },
    decreases sizes.len(),
{
    if sizes.len() > 0 {
        let rest = sizes.drop_first();
        let next = m.after_alloc(sizes[0]);
        lemma_total_nonneg(rest);
        assert(next.wf(page_size));
        lemma_byte_allocs_ascend(next, page_size, rest);
        let run = m.alloc_run(sizes);
        let tail = next.alloc_run(rest);
        assert(run == seq![Some(m.free_start)] + tail);
        assert forall|i: int| 0 < i < sizes.len() implies run[i] == tail[i - 1] && sizes[i] == rest[i - 1] by {}
    }
}

/// Page allocations of positive counts whose total fits in the pages between
/// the fronts all succeed; each base lies a whole number of pages below the
/// end of the range (so it is page-aligned when the end is), the bases
/// strictly decrease, and no two runs overlap.
pub proof fn lemma_page_allocs_descend(m: RegionModel, page_size: int, counts: Seq<int>)
    requires
        m.wf(page_size),
        forall|i: int| 0 <= i < counts.len() ==> counts[i] > 0,
        total(counts) <= m.available_pages(page_size),
    ensures
        m.alloc_pages_run(counts, page_size).len() == counts.len(),
        forall|i: int|
            0 <= i < counts.len() ==> {
                let a = #[trigger] m.alloc_pages_run(counts, page_size)[i];
                &&& a is Some
                &&& m.free_start <= a->Some_0
                &&& a->Some_0 + counts[i] * page_size <= m.free_end
                &&& (m.end - a->Some_0) % page_size == 0
                &&& m.end % page_size == 0 ==> a->Some_0 % page_size == 0
            },
        forall|i: int, j: int|
            0 <= i < j < counts.len() ==> {
                let a = #[trigger] m.alloc_pages_run(counts, page_size)[i];
                let b = #[trigger] m.alloc_pages_run(counts, page_size)[j];
                &&& b->Some_0 < a->Some_0
                &&& b->Some_0 + counts[j] * page_size <= a->Some_0
            },
    decreases counts.len(),
{
    if counts.len() > 0 {
        let c = counts[0];
        let rest = counts.drop_first();
        let next = m.after_alloc_pages(c, page_size);
        lemma_total_nonneg(rest);
        lemma_pages_within(c, m.free_end - m.free_start, page_size);
        lemma_take_pages(m.free_end - m.free_start, c, page_size);
        lemma_take_pages((m.end - m.free_end) + c * page_size, c, page_size);
        assert(next.wf(page_size));
        lemma_page_allocs_descend(next, page_size, rest);
        let base = next.free_end;
        lemma_mul_strictly_positive(c, page_size);
        lemma_fundamental_div_mod(m.end - base, page_size);
        lemma_mod_multiples_vanish(-((m.end - base) / page_size), m.end, page_size);
        assert(base == page_size * -((m.end - base) / page_size) + m.end) by (nonlinear_arith)
            requires
                m.end - base == page_size * ((m.end - base) / page_size) + (m.end - base) % page_size,
                (m.end - base) % page_size == 0,
        ;
        let run = m.alloc_pages_run(counts, page_size);
        let tail = next.alloc_pages_run(rest, page_size);
        assert(run == seq![Some(base)] + tail);
        assert forall|i: int| 0 < i < counts.len() implies run[i] == tail[i - 1] && counts[i] == rest[i - 1] by {}
        assert forall|j: int| 0 < j < counts.len() implies #[trigger] (counts[j] * page_size) > 0 by {
            lemma_mul_strictly_positive(counts[j], page_size);
        }
    }
}

proof fn lemma_dealloc_run(m: RegionModel, page_size: int, sizes: Seq<int>)
    requires
        m.wf(page_size),
        forall|i: int| 0 <= i < sizes.len() ==> sizes[i] >= 0,
        total(sizes) <= m.used_bytes(),
    ensures
        ({
            let after = m.dealloc_run(sizes);
            &&& after.wf(page_size)
            &&& after.used_bytes() == m.used_bytes() - total(sizes)
            &&& after.start == m.start
            &&& after.end == m.end
            &&& after.free_end == m.free_end
            &&& total(sizes) == m.used_bytes() ==> after.free_start == m.start
            &&& total(sizes) < m.used_bytes() ==> after.free_start == m.free_start
        }),
    decreases sizes.len(),
{
    if sizes.len() > 0 {
        let rest = sizes.drop_first();
        lemma_total_nonneg(rest);
        let next = m.after_dealloc(sizes[0]);
        assert(next.wf(page_size));
        assert forall|i: int| 0 <= i < rest.len() implies rest[i] >= 0 by {
            assert(rest[i] == sizes[i + 1]);
        }
        lemma_dealloc_run(next, page_size, rest);
    }
}

/// Giving back byte sizes that add up to exactly the live total returns the
/// byte front to the start of the range, and an allocation of that total
/// then fits, at the start.
pub proof fn lemma_dealloc_all_resets(m: RegionModel, page_size: int, sizes: Seq<int>)
    requires
        m.wf(page_size),
        forall|i: int| 0 <= i < sizes.len() ==> sizes[i] >= 0,
        total(sizes) == m.used_bytes(),
    ensures
        ({
            let after = m.dealloc_run(sizes);
            &&& after.wf(page_size)
            &&& after.free_start == m.start
            &&& after.used_bytes() == 0
            &&& after.bytes_fit(total(sizes))
            &&& after.alloc_run(seq![total(sizes)]) == seq![Some(m.start)]
        }),
{
    lemma_dealloc_run(m, page_size, sizes);
    let after = m.dealloc_run(sizes);
    let again = seq![total(sizes)];
    assert(again.drop_first() =~= Seq::<int>::empty());
    assert(after.bytes_fit(total(sizes)));
    assert(after.after_alloc(total(sizes)).alloc_run(again.drop_first()) =~= Seq::empty());
    assert(after.alloc_run(again) =~= seq![Some(m.start)]);
}

/// Giving back byte sizes that add up to less than the live total leaves the
/// byte front where it was.
pub proof fn lemma_dealloc_some_keeps_front(m: RegionModel, page_size: int, sizes: Seq<int>)
    requires
        m.wf(page_size),
        forall|i: int| 0 <= i < sizes.len() ==> sizes[i] >= 0,
        total(sizes) < m.used_bytes(),
    ensures
        m.dealloc_run(sizes).free_start == m.free_start,
        m.dealloc_run(sizes).used_bytes() == m.used_bytes() - total(sizes),
{
    lemma_dealloc_run(m, page_size, sizes);
}

/// Byte accounting never exceeds the region. Page accounting never exceeds
/// it either, and is exact while the byte front is empty.
pub proof fn lemma_accounting(m: RegionModel, page_size: int)
    requires
        m.wf(page_size),
    ensures
        m.used_bytes() + m.available_bytes() <= m.total_bytes(),
        m.used_pages(page_size) + m.available_pages(page_size) <= m.total_pages(page_size),
        m.free_start == m.start ==> m.used_pages(page_size) + m.available_pages(page_size)
            == m.total_pages(page_size),
{
    let taken = m.end - m.free_end;
    let k = taken / page_size;
    lemma_fundamental_div_mod(taken, page_size);
    lemma_div_multiples_vanish(k, page_size);
    assert(k * page_size == taken) by (nonlinear_arith)
        requires
            taken == page_size * k + taken % page_size,
            taken % page_size == 0,
    ;
    assert(k >= 0) by (nonlinear_arith)
        requires
            taken >= 0,
            page_size > 0,
            k * page_size == taken,
    ;
    lemma_take_pages(m.end - m.start, k, page_size);
    lemma_div_is_ordered(m.free_end - m.free_start, m.free_end - m.start, page_size);
}

} // verus!
