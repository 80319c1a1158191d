use vstd::prelude::*;

verus! {

/// The cell (x, y) of a flat row-major vector of `width` columns.
pub open spec fn table_at<T>(data: Seq<T>, width: int, x: int, y: int) -> T {
    data[y * width + x]
}

/// A dense two-dimensional table stored row-major in one vector:
/// the cell (x, y) lives at flat position `y * width + x`.
pub struct BoxedSlice2D<T> {
    pub data: Vec<T>,
    pub width: usize,
    pub height: usize,
}

impl<T: Copy> BoxedSlice2D<T> {
    /// The storage really has one slot per cell.
    pub open spec fn wf(self) -> bool {
        self.data@.len() == self.width * self.height
    }

    #[verifier::inline]
    pub open spec fn spec_get(self, x: int, y: int) -> T {
        table_at(self.data@, self.width as int, x, y)
    }

    pub fn new(width: usize, height: usize, fill: T) -> (s: Self)
        requires
            width * height <= usize::MAX,
        ensures
            s.width == width,
            s.height == height,
            s.wf(),
            forall|i: int| 0 <= i < s.data@.len() ==> s.data@[i] == fill,
    {
        let capacity = width * height;
        let mut data: Vec<T> = Vec::new();
        let mut i: usize = 0;
        while i < capacity
            invariant
                i <= capacity,
                data@.len() == i,
                forall|j: int| 0 <= j < i ==> data@[j] == fill,
            decreases capacity - i,
        {
            data.push(fill);
            i = i + 1;
        }
        BoxedSlice2D { data, width, height }
    }

    pub fn width(&self) -> (w: usize)
        ensures
            w == self.width,
    {
        self.width
    }

    pub fn height(&self) -> (h: usize)
        ensures
            h == self.height,
    {
        self.height
    }

    pub fn get(&self, x: usize, y: usize) -> (v: T)
        requires
            self.wf(),
            x < self.width,
            y < self.height,
        ensures
            v == self.spec_get(x as int, y as int),
    {
        let n = self.data.len();
        proof {
            lemma_flat_index_in_bounds(x as int, y as int, self.width as int, self.height as int);
        }
        self.data[y * self.width + x]
    }

    pub fn set(&mut self, x: usize, y: usize, v: T)
        requires
            old(self).wf(),
            x < old(self).width,
            y < old(self).height,
        ensures
            final(self).width == old(self).width,
            final(self).height == old(self).height,
            final(self).wf(),
            final(self).data@ == old(self).data@.update(y * old(self).width + x, v),
            final(self).spec_get(x as int, y as int) == v,
            forall|x2: int, y2: int|
                0 <= x2 < old(self).width && 0 <= y2 < old(self).height && !(x2 == x && y2 == y)
                    ==> final(self).spec_get(x2, y2) == old(self).spec_get(x2, y2),
    {
        let n = self.data.len();
        proof {
            lemma_flat_index_in_bounds(x as int, y as int, self.width as int, self.height as int);
        }
        self.data[y * self.width + x] = v;
        proof {
            assert forall|x2: int, y2: int|
                0 <= x2 < self.width && 0 <= y2 < self.height && !(x2 == x && y2 == y)
                    implies self.spec_get(x2, y2) == old(self).spec_get(x2, y2) by {
                lemma_flat_index_in_bounds(x2, y2, self.width as int, self.height as int);
                lemma_flat_index_injective(
                    x as int,
                    y as int,
                    x2,
                    y2,
                    self.width as int,
                    self.height as int,
                );
            }
        }
    }
}

impl<T: Copy> Clone for BoxedSlice2D<T> {
    /// A full, non-aliased duplicate of the table.
    fn clone(&self) -> (res: Self)
        ensures
            res.data@ == self.data@,
            res.width == self.width,
            res.height == self.height,
    {
        let mut data: Vec<T> = Vec::new();
        let mut i: usize = 0;
        while i < self.data.len()
            invariant
                i <= self.data@.len(),
                data@.len() == i,
                forall|j: int| 0 <= j < i ==> data@[j] == self.data@[j],
            decreases self.data@.len() - i,
        {
            data.push(self.data[i]);
            i = i + 1;
        }
        proof {
            assert(data@ =~= self.data@);
        }
        BoxedSlice2D { data, width: self.width, height: self.height }
    }
}

/// A cell's flat position lies inside the storage.
pub proof fn lemma_flat_index_in_bounds(x: int, y: int, width: int, height: int)
    by (nonlinear_arith)
    requires
        0 <= x < width,
        0 <= y < height,
    ensures
        0 <= y * width + x < width * height,
{
}

/// Distinct cells have distinct flat positions.
pub proof fn lemma_flat_index_injective(x1: int, y1: int, x2: int, y2: int, width: int, height: int)
    by (nonlinear_arith)
    requires
        0 <= x1 < width,
        0 <= y1 < height,
        0 <= x2 < width,
        0 <= y2 < height,
        !(x1 == x2 && y1 == y2),
    ensures
        y1 * width + x1 != y2 * width + x2,
{
}

} // verus!
