use crate::errors::BloomFilterError;
use crate::hashing::{hash_slot, slot_hash};
use vstd::prelude::*;

verus! {

/// The largest number of bits a filter may hold.
pub const MAX_FILTER_SIZE: usize = 10000;

/// The number of set bits in a bit sequence.
pub open spec fn count_set(s: Seq<bool>) -> nat
    decreases s.len(),
{
    if s.len() == 0 {
        0
    } else {
        count_set(s.drop_last()) + if s.last() { 1nat } else { 0nat }
    }
}

/// The bit position that hash slot `slot` gives `data` in a filter of `m` bits.
pub open spec fn slot_index(data: Seq<u8>, slot: u8, m: u32) -> u32 {
    (slot_hash(data, slot) % (m as u64)) as u32
}

/// The abstract state of a filter record.
pub struct FilterView {
    pub name: Seq<char>,
    pub bits: Seq<bool>,
    pub m: u32,
    pub k: u8,
    pub n: u32,
}

impl FilterView {
    /// A record as `init` leaves it: all bits clear, nothing inserted.
    pub open spec fn fresh(name: Seq<char>, m: u32, k: u8) -> FilterView {
        FilterView { name, bits: Seq::new(m as nat, |p: int| false), m, k, n: 0 }
    }

    /// The record's invariant. Every accepted insertion sets at least one
    /// clear bit, so `n` never exceeds the number of set bits.
    pub open spec fn wf(self) -> bool {
        &&& self.bits.len() == self.m
        &&& 1 <= self.m <= MAX_FILTER_SIZE
        &&& self.k >= 1
        &&& self.n <= count_set(self.bits)
    }

    /// The `k` bit positions of an element, one per hash slot.
    pub open spec fn indices(self, data: Seq<u8>) -> Seq<u32> {
        Seq::new(self.k as nat, |i: int| slot_index(data, i as u8, self.m))
    }

    /// Whether every listed position is set.
    pub open spec fn all_set(self, idx: Seq<u32>) -> bool {
        forall|j: int| 0 <= j < idx.len() ==> self.bits[idx[j] as int]
    }

    /// Whether the element may be in the set: all of its positions are set.
    pub open spec fn may_contain(self, data: Seq<u8>) -> bool {
        self.all_set(self.indices(data))
    }

    /// The record after inserting the element whose positions are `idx`.
    pub open spec fn insert(self, idx: Seq<u32>) -> FilterView {
        if self.all_set(idx) {
            self
        } else {
            FilterView {
                bits: Seq::new(
                    self.bits.len(),
                    |p: int| self.bits[p] || idx.contains(p as u32),
                ),
                n: (self.n + 1) as u32,
                ..self
            }
        }
    }

    /// The record after `add(data)`.
    pub open spec fn add(self, data: Seq<u8>) -> FilterView {
        self.insert(self.indices(data))
    }

    /// The record after adding each element of `elems`, in order.
    pub open spec fn add_all(self, elems: Seq<Seq<u8>>) -> FilterView
        decreases elems.len(),
    {
        if elems.len() == 0 {
            self
        } else {
            self.add_all(elems.drop_last()).add(elems.last())
        }
    }
}

/// A persisted Bloom filter record.
pub struct BloomFilter {
    /// Human label.
    pub name: String,
    /// The bit array, of length `m`.
    pub bit_array: Vec<bool>,
    /// Size of the bit array.
    pub m: u32,
    /// Number of hash functions.
    pub k: u8,
    /// Number of elements inserted.
    pub n: u32,
}

impl View for BloomFilter {
    type V = FilterView;

    open spec fn view(&self) -> FilterView {
        FilterView {
            name: self.name@,
            bits: self.bit_array@,
            m: self.m,
            k: self.k,
            n: self.n,
        }
    }
}

/// A request to create a filter record.
pub struct NewFilter {
    pub name: String,
    /// Requested number of bits.
    pub size: u32,
    /// Requested number of hash functions.
    pub num_hashes: u8,
}

impl NewFilter {
    /// Whether the request describes a filter that may be created.
    pub open spec fn valid(&self) -> bool {
        1 <= self.size <= MAX_FILTER_SIZE && self.num_hashes >= 1
    }

    /// Accepts a request with a non-zero size of at most `MAX_FILTER_SIZE`
    /// and at least one hash function.
    pub fn validate(&self) -> (r: Result<(), BloomFilterError>)
        ensures
            r is Ok <==> self.valid(),
            r == Err::<(), BloomFilterError>(BloomFilterError::InvalidParameters) <==> (self.size
                == 0 || self.num_hashes == 0),
            r == Err::<(), BloomFilterError>(BloomFilterError::FilterTooLarge) <==> (self.size != 0
                && self.num_hashes != 0 && self.size > MAX_FILTER_SIZE),
    {
        if self.size == 0 || self.num_hashes == 0 {
            return Err(BloomFilterError::InvalidParameters);
        }
        if self.size as usize > MAX_FILTER_SIZE {
            return Err(BloomFilterError::FilterTooLarge);
        }
        Ok(())
    }
}

impl Default for BloomFilter {
    /// An empty record, not yet initialized.
    fn default() -> (r: BloomFilter)
        ensures
            r@ == (FilterView { name: Seq::empty(), bits: Seq::empty(), m: 0, k: 0, n: 0 }),
    {
        BloomFilter { name: String::new(), bit_array: Vec::new(), m: 0, k: 0, n: 0 }
    }
}

impl BloomFilter {
    /// Sets up the record as the request describes: `size` clear bits,
    /// `num_hashes` hash functions, no element inserted.
    pub fn init(&mut self, new_filter: NewFilter) -> (r: Result<(), BloomFilterError>)
        ensures
            r is Ok,
            final(self)@ == FilterView::fresh(new_filter.name@, new_filter.size, new_filter.num_hashes),
            new_filter.valid() ==> final(self)@.wf(),
    {
        let ghost name = new_filter.name@;
        self.bit_array = vec![false; new_filter.size as usize];
        self.name = new_filter.name;
        self.m = new_filter.size;
        self.k = new_filter.num_hashes;
        self.n = 0;
        assert(self.bit_array@ =~= Seq::new(self.m as nat, |p: int| false));
        Ok(())
    }

    /// Whether the record satisfies its invariant; a record that `init` set
    /// up from a valid request, and that only `add` changed since, does.
    pub fn is_well_formed(&self) -> (r: bool)
        ensures
            r == self@.wf(),
    {
        if self.bit_array.len() != self.m as usize || self.m == 0 || self.m as usize
            > MAX_FILTER_SIZE || self.k == 0 {
            return false;
        }
        let mut count: u32 = 0;
        let mut i: usize = 0;
        while i < self.bit_array.len()
            invariant
                i <= self.bit_array@.len() <= MAX_FILTER_SIZE,
                count == count_set(self.bit_array@.take(i as int)),
                count <= i,
            decreases self.bit_array@.len() - i,
        {
            proof {
                assert(self.bit_array@.take(i + 1).drop_last() =~= self.bit_array@.take(i as int));
            }
            if self.bit_array[i] {
                count = count + 1;
            }
            i = i + 1;
        }
        assert(self.bit_array@.take(i as int) =~= self.bit_array@);
        self.n <= count
    }

    /// Inserts an element: sets the bit of each of its hash slots and counts
    /// it, unless all of those bits are set already.
    pub fn add(&mut self, data: &[u8]) -> (r: Result<(), BloomFilterError>)
        requires
            old(self)@.wf(),
        ensures
            r is Ok,
            final(self)@ == old(self)@.add(data@),
            final(self)@.wf(),
    {
        let indices = self.get_indices(data);
        self.add_indices(indices.as_slice());
        Ok(())
    }

    /// Succeeds iff the element may be in the set; fails with
    /// `ElementNotFound` when it is definitely absent.
    pub fn check(&self, data: &[u8]) -> (r: Result<(), BloomFilterError>)
        requires
            self@.wf(),
        ensures
            r is Ok <==> self@.may_contain(data@),
            r is Err ==> r == Err::<(), BloomFilterError>(BloomFilterError::ElementNotFound),
    {
        let indices = self.get_indices(data);
        self.check_indices(indices.as_slice())
    }
    /// The bit position of each hash slot of `data`.
    pub fn get_indices(&self, data: &[u8]) -> (r: Vec<u32>)
        requires
            self@.wf(),
        ensures
            r@ == self@.indices(data@),
            forall|j: int| 0 <= j < r@.len() ==> r@[j] < self.m,
    {
        let mut indices: Vec<u32> = Vec::with_capacity(self.k as usize);
        let mut i: u8 = 0;
        while i < self.k
            invariant
                self@.wf(),
                i <= self.k,
                indices@ =~= Seq::new(i as nat, |j: int| slot_index(data@, j as u8, self.m)),
                forall|j: int| 0 <= j < indices@.len() ==> indices@[j] < self.m,
            decreases self.k - i,
        {
            let hash = hash_slot(data, i);
            let index = (hash % (self.m as u64)) as u32;
            indices.push(index);
            i = i + 1;
        }
        indices
    }

    /// Succeeds iff every listed position is set; otherwise the element is
    /// definitely absent.
    pub fn check_indices(&self, indices: &[u32]) -> (r: Result<(), BloomFilterError>)
        requires
            forall|j: int| 0 <= j < indices@.len() ==> indices@[j] < self.bit_array@.len(),
        ensures
            r is Ok <==> self@.all_set(indices@),
            r is Err ==> r == Err::<(), BloomFilterError>(BloomFilterError::ElementNotFound),
    {
        let mut i: usize = 0;
        while i < indices.len()
            invariant
                i <= indices@.len(),
                forall|j: int| 0 <= j < indices@.len() ==> indices@[j] < self.bit_array@.len(),
                forall|j: int| 0 <= j < i ==> self.bit_array@[indices@[j] as int],
            decreases indices@.len() - i,
        {
            if !self.bit_array[indices[i] as usize] {
                return Err(BloomFilterError::ElementNotFound);
            }
            i = i + 1;
        }
        Ok(())
    }

    /// Inserts the element whose positions are `indices`: when some of them
    /// is clear, sets them all and counts one more element; when all are
    /// set already, leaves the record as it is.
    pub fn add_indices(&mut self, indices: &[u32])
        requires
            old(self)@.wf(),
            forall|j: int| 0 <= j < indices@.len() ==> indices@[j] < old(self).m,
        ensures
            final(self)@ == old(self)@.insert(indices@),
            final(self)@.wf(),
    {
        if self.check_indices(indices).is_ok() {
            return;
        }
        let ghost old_bits = self.bit_array@;
        let mut i: usize = 0;
        while i < indices.len()
            invariant
                i <= indices@.len(),
                self.bit_array@.len() == old_bits.len(),
                self.m == old(self).m,
                self.k == old(self).k,
                self.n == old(self).n,
                self.name == old(self).name,
                old_bits == old(self).bit_array@,
                !old(self)@.all_set(indices@),
                forall|j: int| 0 <= j < indices@.len() ==> indices@[j] < self.m,
                old_bits.len() == self.m,
                forall|p: int|
                    0 <= p < old_bits.len() ==> #[trigger] self.bit_array@[p] == (old_bits[p]
                        || indices@.take(i as int).contains(p as u32)),
            decreases indices@.len() - i,
        {
            let index = indices[i] as usize;
            self.bit_array.set(index, true);
            let ghost before = indices@.take(i as int);
            let ghost after = indices@.take(i + 1);
            assert forall|p: int| 0 <= p < old_bits.len() implies #[trigger] self.bit_array@[p] == (
            old_bits[p] || after.contains(p as u32)) by {
                if before.contains(p as u32) {
                    let w = choose|w: int| 0 <= w < before.len() && before[w] == p as u32;
                    assert(after[w] == p as u32);
                }
                if after.contains(p as u32) && p != index {
                    let w = choose|w: int| 0 <= w < after.len() && after[w] == p as u32;
                    assert(before[w] == p as u32);
                }
                if p == index {
                    assert(after[i as int] == p as u32);
                }
            }
            i = i + 1;
        }
        assert(indices@.take(indices@.len() as int) =~= indices@);
        proof {
            let j = choose|j: int| 0 <= j < indices@.len() && !old_bits[indices@[j] as int];
            lemma_count_grows(old_bits, self.bit_array@, indices@[j] as int);
            lemma_count_le_len(self.bit_array@);
        }
        self.n = self.n + 1;
        assert(self@.bits =~= old(self)@.insert(indices@).bits);
    }
}

/// Setting bits never lowers the count of set bits, and setting a clear bit
/// raises it by at least one.
pub proof fn lemma_count_grows(a: Seq<bool>, b: Seq<bool>, q: int)
    requires
        a.len() == b.len(),
        forall|p: int| 0 <= p < a.len() && #[trigger] a[p] ==> b[p],
        0 <= q < a.len(),
        !a[q],
        b[q],
    ensures
        count_set(b) >= count_set(a) + 1,
    decreases a.len(),
{
    if q == a.len() - 1 {
        lemma_count_mono(a.drop_last(), b.drop_last());
    } else {
        lemma_count_grows(a.drop_last(), b.drop_last(), q);
    }
}

/// Setting bits never lowers the count of set bits.
pub proof fn lemma_count_mono(a: Seq<bool>, b: Seq<bool>)
    requires
        a.len() == b.len(),
        forall|p: int| 0 <= p < a.len() && #[trigger] a[p] ==> b[p],
    ensures
        count_set(b) >= count_set(a),
    decreases a.len(),
{
    if a.len() > 0 {
        lemma_count_mono(a.drop_last(), b.drop_last());
    }
}

/// No more bits are set than there are bits.
pub proof fn lemma_count_le_len(s: Seq<bool>)
    ensures
        count_set(s) <= s.len(),
    decreases s.len(),
{
    if s.len() > 0 {
        lemma_count_le_len(s.drop_last());
    }
}

} // verus!
