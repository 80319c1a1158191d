use vstd::prelude::*;

verus! {

/// Construct a vector holding every number of the range, in order.
pub fn vec_from_range(range: std::ops::Range<usize>) -> (v: Vec<usize>)
    requires
        range.start <= range.end,
    ensures
        v@.len() == range.end - range.start,
        forall|i: int| 0 <= i < v@.len() ==> v@[i] == range.start + i,
{
    let mut v: Vec<usize> = Vec::new();
    let mut i: usize = range.start;
    while i < range.end
        invariant
            range.start <= i <= range.end,
            v@.len() == i - range.start,
            forall|j: int| 0 <= j < v@.len() ==> v@[j] == range.start + j,
        decreases range.end - i,
    {
        v.push(i);
        i = i + 1;
    }
    v
}

} // verus!
