use crate::state::{lemma_count_grows, FilterView};
use vstd::prelude::*;

verus! {

/// Every position that an element hashes to lies inside the bit array.
pub proof fn lemma_indices_in_range(f: FilterView, data: Seq<u8>)
    requires
        f.wf(),
    ensures
        forall|j: int|
            0 <= j < f.indices(data).len() ==> #[trigger] f.indices(data)[j] < f.m,
{
    assert forall|j: int| 0 <= j < f.indices(data).len() implies #[trigger] f.indices(data)[j]
        < f.m by {
        let h = crate::hashing::slot_hash(data, j as u8);
        assert(h % (f.m as u64) < f.m as u64);
    }
}

/// Adding an element keeps the record well formed, keeps its name, size and
/// number of hash functions, and leaves every set bit set.
pub proof fn lemma_add_step(f: FilterView, data: Seq<u8>)
    requires
        f.wf(),
    ensures
        f.add(data).wf(),
        f.add(data).name == f.name,
        f.add(data).m == f.m,
        f.add(data).k == f.k,
        f.add(data).n >= f.n,
        f.add(data).bits.len() == f.bits.len(),
        forall|p: int| 0 <= p < f.bits.len() && #[trigger] f.bits[p] ==> f.add(data).bits[p],
        f.add(data).may_contain(data),
{
    let idx = f.indices(data);
    lemma_indices_in_range(f, data);
    let g = f.add(data);
    if !f.all_set(idx) {
        let j = choose|j: int| 0 <= j < idx.len() && !f.bits[idx[j] as int];
        assert(g.bits[idx[j] as int]) by {
            assert(idx.contains(idx[j]));
        }
        lemma_count_grows(f.bits, g.bits, idx[j] as int);
        crate::state::lemma_count_le_len(g.bits);
        assert forall|i: int| 0 <= i < idx.len() implies g.bits[#[trigger] idx[i] as int] by {
            assert(idx.contains(idx[i]));
        }
    }
}

/// Adding a sequence of elements keeps the record well formed, keeps its
/// name, size and number of hash functions, never lowers the element count,
/// and never clears a bit.
pub proof fn lemma_add_all_step(f: FilterView, elems: Seq<Seq<u8>>)
    requires
        f.wf(),
    ensures
        f.add_all(elems).wf(),
        f.add_all(elems).name == f.name,
        f.add_all(elems).m == f.m,
        f.add_all(elems).k == f.k,
        f.add_all(elems).n >= f.n,
        f.add_all(elems).bits.len() == f.bits.len(),
        forall|p: int|
            0 <= p < f.bits.len() && #[trigger] f.bits[p] ==> f.add_all(elems).bits[p],
    decreases elems.len(),
{
    if elems.len() > 0 {
        lemma_add_all_step(f, elems.drop_last());
        lemma_add_step(f.add_all(elems.drop_last()), elems.last());
    }
}

/// No false negatives: once an element has been added, it is reported as
/// possibly present after any further insertions.
pub proof fn lemma_no_false_negatives(f: FilterView, data: Seq<u8>, later: Seq<Seq<u8>>)
    requires
        f.wf(),
    ensures
        f.add(data).add_all(later).may_contain(data),
{
    lemma_add_step(f, data);
    let g = f.add(data);
    lemma_add_all_step(g, later);
    lemma_indices_in_range(g, data);
    let idx = g.indices(data);
    assert(g.add_all(later).indices(data) == idx);
    assert forall|j: int| 0 <= j < idx.len() implies g.add_all(later).bits[#[trigger] idx[j] as int] by {
        assert(g.bits[idx[j] as int]);
    }
}

/// Adding the same element twice leaves the record as adding it once does.
pub proof fn lemma_add_idempotent(f: FilterView, data: Seq<u8>)
    requires
        f.wf(),
    ensures
        f.add(data).add(data) == f.add(data),
{
    lemma_add_step(f, data);
    assert(f.add(data).indices(data) == f.indices(data));
}

/// Monotonicity: over any sequence of insertions the element count never
/// falls, and a bit once set stays set, so each bit changes at most once,
/// from clear to set.
pub proof fn lemma_monotone(f: FilterView, elems: Seq<Seq<u8>>)
    requires
        f.wf(),
    ensures
        f.add_all(elems).n >= f.n,
        f.add_all(elems).bits.len() == f.bits.len(),
        forall|p: int|
            0 <= p < f.bits.len() && #[trigger] f.bits[p] ==> f.add_all(elems).bits[p],
{
    lemma_add_all_step(f, elems);
}

/// Two records that agree on everything but their names agree on
/// everything but their names after the same insertions.
proof fn lemma_same_insertions(f: FilterView, g: FilterView, elems: Seq<Seq<u8>>)
    requires
        f.bits == g.bits,
        f.m == g.m,
        f.k == g.k,
        f.n == g.n,
    ensures
        f.add_all(elems).bits == g.add_all(elems).bits,
        f.add_all(elems).m == g.add_all(elems).m,
        f.add_all(elems).k == g.add_all(elems).k,
        f.add_all(elems).n == g.add_all(elems).n,
    decreases elems.len(),
{
    if elems.len() > 0 {
        lemma_same_insertions(f, g, elems.drop_last());
        let f1 = f.add_all(elems.drop_last());
        let g1 = g.add_all(elems.drop_last());
        assert(f1.indices(elems.last()) == g1.indices(elems.last()));
    }
}

/// Determinism: two freshly initialized records of the same size and number
/// of hash functions that receive the same insertions end with the same bit
/// array and the same element count.
pub proof fn lemma_deterministic(
    name1: Seq<char>,
    name2: Seq<char>,
    m: u32,
    k: u8,
    elems: Seq<Seq<u8>>,
)
    ensures
        FilterView::fresh(name1, m, k).add_all(elems).bits == FilterView::fresh(
            name2,
            m,
            k,
        ).add_all(elems).bits,
        FilterView::fresh(name1, m, k).add_all(elems).n == FilterView::fresh(
            name2,
            m,
            k,
        ).add_all(elems).n,
{
    lemma_same_insertions(FilterView::fresh(name1, m, k), FilterView::fresh(name2, m, k), elems);
}

} // verus!
