use vstd::prelude::*;

verus! {

/// The number of slots taken by the first `k` fields, given each field's
/// size in declaration order.
pub open spec fn prefix_slots(sizes: Seq<usize>, k: int) -> int
    decreases k,
{
    if k <= 0 || k > sizes.len() { 0 } else { prefix_slots(sizes, k - 1) + sizes[k - 1] }
}

proof fn lemma_prefix_slots_monotone(sizes: Seq<usize>, j: int, k: int)
    requires
        0 <= j <= k <= sizes.len(),
    ensures
        0 <= prefix_slots(sizes, j) <= prefix_slots(sizes, k),
    decreases k - j,
{
    if j < k {
        lemma_prefix_slots_monotone(sizes, j, k - 1);
    } else {
        lemma_prefix_slots_nonneg(sizes, j);
    }
}

proof fn lemma_prefix_slots_nonneg(sizes: Seq<usize>, k: int)
    ensures
        0 <= prefix_slots(sizes, k),
    decreases k,
{
    if k > 0 && k <= sizes.len() {
        lemma_prefix_slots_nonneg(sizes, k - 1);
    }
}

/// The offset of field `k` within a flattened struct whose fields take
/// `sizes` slots each, in declaration order.
pub fn field_offset(sizes: &Vec<usize>, k: usize) -> (r: usize)
    requires
        k <= sizes@.len(),
        prefix_slots(sizes@, sizes@.len() as int) <= usize::MAX,
    ensures
        r == prefix_slots(sizes@, k as int),
{
    let mut off: usize = 0;
    let mut i: usize = 0;
    while i < k
        invariant
            i <= k <= sizes@.len(),
            prefix_slots(sizes@, sizes@.len() as int) <= usize::MAX,
            off == prefix_slots(sizes@, i as int),
        decreases k - i,
    {
        proof {
            lemma_prefix_slots_monotone(sizes@, i + 1, sizes@.len() as int);
        }
        off = off + sizes[i];
        i = i + 1;
    }
    off
}

/// The number of slots a flattened struct takes.
pub fn struct_slots(sizes: &Vec<usize>) -> (r: usize)
    requires
        prefix_slots(sizes@, sizes@.len() as int) <= usize::MAX,
    ensures
        r == prefix_slots(sizes@, sizes@.len() as int),
{
    field_offset(sizes, sizes.len())
}

/// Fields follow one another: each begins where the one before it ends,
/// and all of them lie inside the struct.
pub proof fn lemma_fields_are_contiguous(sizes: Seq<usize>, k: int)
    requires
        0 <= k < sizes.len(),
    ensures
        prefix_slots(sizes, k + 1) == prefix_slots(sizes, k) + sizes[k],
        prefix_slots(sizes, k) + sizes[k] <= prefix_slots(sizes, sizes.len() as int),
{
    lemma_prefix_slots_monotone(sizes, k + 1, sizes.len() as int);
}

pub open spec fn slot_of(base: int, index: int, elem_slots: int, offset: int) -> int {
    base + index * elem_slots + offset
}

/// The slot of a field of element `index` of an array of structs that
/// starts at `base`: every access recomputes it from the array base, the
/// index and the field's offset.
pub fn element_field_slot(base: usize, index: usize, elem_slots: usize, offset: usize) -> (r: usize)
    requires
        slot_of(base as int, index as int, elem_slots as int, offset as int) <= usize::MAX,
    ensures
        r == slot_of(base as int, index as int, elem_slots as int, offset as int),
{
    assert(0 <= index * elem_slots <= base + index * elem_slots + offset) by (nonlinear_arith)
        requires
            0 <= index,
            0 <= elem_slots,
            0 <= base,
            0 <= offset,
    ;
    base + index * elem_slots + offset
}

/// Elements of an array of structs do not overlap: a field inside element
/// `i` never shares a slot with a field inside a different element `j`.
pub proof fn lemma_elements_disjoint(base: int, elem_slots: int, i: int, off_i: int, j: int, off_j: int)
    requires
        0 <= i,
        0 <= j,
        i != j,
        0 <= off_i < elem_slots,
        0 <= off_j < elem_slots,
    ensures
        slot_of(base, i, elem_slots, off_i) != slot_of(base, j, elem_slots, off_j),
{
    if i < j {
        assert(i * elem_slots + elem_slots <= j * elem_slots) by (nonlinear_arith)
            requires
                i < j,
                elem_slots > 0,
        ;
    } else {
        assert(j * elem_slots + elem_slots <= i * elem_slots) by (nonlinear_arith)
            requires
                j < i,
                elem_slots > 0,
        ;
    }
}

} // verus!
