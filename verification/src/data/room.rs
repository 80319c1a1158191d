use vstd::prelude::*;

verus! {

/// A teaching room with a fixed seating capacity.
pub struct Room {
    pub id: String,
    pub capacity: usize,
    pub building: String,
}

impl Room {
    pub fn new(id: String, capacity: usize, building: String) -> (r: Room)
        ensures
            r.id@ == id@,
            r.capacity == capacity,
            r.building@ == building@,
    {
        Room { id, capacity, building }
    }

    pub fn id(&self) -> (r: &str)
        ensures
            r@ == self.id@,
    {
        self.id.as_str()
    }

    pub fn capacity(&self) -> (c: usize)
        ensures
            c == self.capacity,
    {
        self.capacity
    }
}

} // verus!
