//! Append-only log of drawing strokes for the active turn, with the
//! tail-slice primitive that drives incremental client sync.
use vstd::prelude::*;

verus! {

/// One appended stroke: the raw client payload and the moment it was drawn.
pub struct DrawDataUnit {
    pub data: String,
    pub timestamp: i64,
}

impl DrawDataUnit {
    /// An equal copy of this unit.
    pub fn dup(&self) -> (r: DrawDataUnit)
        ensures
            r == *self,
    {
        DrawDataUnit { data: self.data.clone(), timestamp: self.timestamp }
    }
}

/// The ordered stroke log. Clients remember how many units they have seen
/// and ask for the tail starting at that index.
pub struct DrawData {
    inner: Vec<DrawDataUnit>,
}

impl View for DrawData {
    type V = Seq<DrawDataUnit>;

    closed spec fn view(&self) -> Seq<DrawDataUnit> {
        self.inner@
    }
}

impl DrawData {
    /// A fresh, empty log.
    pub fn new() -> (r: DrawData)
        ensures
            r@ == Seq::<DrawDataUnit>::empty(),
    {
        DrawData { inner: Vec::new() }
    }

    /// Appends one unit; no dedup, no bound.
    pub fn draw(&mut self, data: String, timestamp: i64)
        ensures
            final(self)@ == old(self)@.push((DrawDataUnit { data, timestamp })),
    {
        let new_data = DrawDataUnit { data, timestamp };
        self.inner.push(new_data);
    }

    /// The ordered sub-sequence of units at positions `[index, len)`.
    /// An index at or past the end yields the empty sequence, never an error.
    pub fn slice(&self, index: usize) -> (r: Vec<DrawDataUnit>)
        ensures
            index <= self@.len() ==> r@ == self@.subrange(index as int, self@.len() as int),
            index > self@.len() ==> r@ == Seq::<DrawDataUnit>::empty(),
    {
        let mut r: Vec<DrawDataUnit> = Vec::new();
        let len = self.inner.len();
        if index <= len {
            let mut j = index;
            while j < len
                invariant
                    index <= j <= len,
                    len == self@.len(),
                    r@ == self@.subrange(index as int, j as int),
                decreases len - j,
            {
                r.push(self.inner[j].dup());
                proof {
                    assert(r@ =~= self@.subrange(index as int, j + 1 as int));
                }
                j = j + 1;
            }
        }
        r
    }

    /// Removes all units; starts a fresh turn.
    pub fn clear(&mut self)
        ensures
            final(self)@ == Seq::<DrawDataUnit>::empty(),
    {
        self.inner.clear();
    }

    /// Removes the most recently appended unit if any; a no-op on an empty log.
    pub fn undo(&mut self)
        ensures
            old(self)@.len() == 0 ==> final(self)@ == old(self)@,
            old(self)@.len() > 0 ==> final(self)@ == old(self)@.drop_last(),
    {
        self.inner.pop();
    }

    /// The current unit count: the high-water mark a client uses for its
    /// next `slice` call.
    pub fn len(&self) -> (r: usize)
        ensures
            r == self@.len(),
    {
        self.inner.len()
    }
}

impl Default for DrawData {
    /// Same as `new`: an empty log.
    fn default() -> (r: DrawData)
        ensures
            r@ == Seq::<DrawDataUnit>::empty(),
    {
        DrawData { inner: Vec::new() }
    }
}

} // verus!
