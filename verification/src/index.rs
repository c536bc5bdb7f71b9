use vstd::prelude::*;

verus! {

/// An ordered list with an optional selection cursor.
///
/// The cursor, when set, always points at an existing element, and an empty
/// list never carries a cursor. Every operation preserves that invariant.
pub struct Index<T> {
    pub data: Vec<T>,
    pub index: Option<usize>,
}

impl<T> Index<T> {
    /// Cursor validity: an empty list has no cursor and a set cursor is in
    /// range.
    pub open spec fn wf(self) -> bool {
        match self.index {
            Some(i) => i < self.data@.len(),
            None => true,
        }
    }

    pub fn new(data: Vec<T>, index: Option<usize>) -> (r: Index<T>)
        requires
            match index {
                Some(i) => i < data@.len(),
                None => true,
            },
        ensures
            r.wf(),
            r.data@ == data@,
            r.index == index,
    {
        Index { data, index }
    }

    pub fn empty() -> (r: Index<T>)
        ensures
            r.wf(),
            r.data@.len() == 0,
            r.index is None,
    {
        Index { data: Vec::new(), index: None }
    }

    pub fn len(&self) -> (n: usize)
        ensures
            n == self.data@.len(),
    {
        self.data.len()
    }

    pub fn is_empty(&self) -> (r: bool)
        ensures
            r == (self.data@.len() == 0),
    {
        self.data.len() == 0
    }

    pub fn is_none(&self) -> (r: bool)
        ensures
            r == (self.index is None),
    {
        self.index.is_none()
    }

    /// The cursor position, if any.
    pub fn selection(&self) -> (r: Option<usize>)
        ensures
            r == self.index,
    {
        self.index
    }

    /// The selected element, if any.
    pub fn selected(&self) -> (r: Option<&T>)
        requires
            self.wf(),
        ensures
            match self.index {
                Some(i) => r is Some && r->0 == &self.data[i as int],
                None => r is None,
            },
    {
        match self.index {
            Some(i) => Some(&self.data[i]),
            None => None,
        }
    }

    /// Move the cursor, or clear it.
    pub fn select(&mut self, index: Option<usize>)
        requires
            match index {
                Some(i) => i < old(self).data@.len(),
                None => true,
            },
        ensures
            final(self).wf(),
            final(self).data@ == old(self).data@,
            final(self).index == index,
    {
        self.index = index;
    }

    /// Step the cursor towards the front, wrapping to the back at the top.
    /// Without a cursor nothing moves.
    pub fn up(&mut self)
        requires
            old(self).wf(),
        ensures
            final(self).wf(),
            final(self).data@ == old(self).data@,
            final(self).index == match old(self).index {
                Some(i) => if i > 0 {
                    Some((i - 1) as usize)
                } else {
                    Some((old(self).data@.len() - 1) as usize)
                },
                None => None::<usize>,
            },
    {
        match self.index {
            Some(i) => {
                if i > 0 {
                    self.index = Some(i - 1);
                } else {
                    self.index = Some(self.data.len() - 1);
                }
            }
            None => (),
        }
    }

    /// Step the cursor towards the back, wrapping to the front at the end.
    /// Without a cursor nothing moves.
    pub fn down(&mut self)
        requires
            old(self).wf(),
        ensures
            final(self).wf(),
            final(self).data@ == old(self).data@,
            final(self).index == match old(self).index {
                Some(i) => if i + 1 < old(self).data@.len() {
                    Some((i + 1) as usize)
                } else {
                    Some(0usize)
                },
                None => None::<usize>,
            },
    {
        match self.index {
            Some(i) => {
                if i < self.data.len() - 1 {
                    self.index = Some(i + 1);
                } else {
                    self.index = Some(0);
                }
            }
            None => (),
        }
    }

    /// Append one element; the cursor does not move.
    pub fn push(&mut self, value: T)
        requires
            old(self).wf(),
            old(self).data@.len() < usize::MAX,
        ensures
            final(self).wf(),
            final(self).data@ == old(self).data@.push(value),
            final(self).index == old(self).index,
    {
        self.data.push(value);
    }

    /// Append many elements; the cursor does not move.
    pub fn extend(&mut self, mut values: Vec<T>)
        requires
            old(self).wf(),
            old(self).data@.len() + values@.len() <= usize::MAX,
        ensures
            final(self).wf(),
            final(self).data@ == old(self).data@ + values@,
            final(self).index == old(self).index,
    {
        let ghost all = values@;
        let ghost start = self.data@;
        let n = values.len();
        let mut i: usize = 0;
        while i < n
            invariant
                n == all.len(),
                i <= n,
                values@ =~= all.subrange(i as int, n as int),
                self.data@ =~= start + all.subrange(0, i as int),
                self.index == old(self).index,
                old(self).wf(),
                start == old(self).data@,
                start.len() + all.len() <= usize::MAX,
            decreases n - i,
        {
            let v = values.remove(0);
            assert(v == all[i as int]);
            self.data.push(v);
            i = i + 1;
            assert(values@ =~= all.subrange(i as int, n as int));
            assert(self.data@ =~= start + all.subrange(0, i as int));
        }
        assert(self.data@ =~= start + all);
    }

    /// Remove the element at `at`. If the list empties the cursor clears;
    /// otherwise a cursor behind the hole slides one step forward and a
    /// cursor at or past the end clamps to the last element.
    pub fn remove(&mut self, at: usize) -> (r: T)
        requires
            old(self).wf(),
            at < old(self).data@.len(),
        ensures
            final(self).wf(),
            r == old(self).data@[at as int],
            final(self).data@ == old(self).data@.remove(at as int),
            final(self).index == spec_index_after_remove(
                old(self).index,
                at as int,
                old(self).data@.len() as int,
            ),
    {
        let r = self.data.remove(at);
        let len = self.data.len();
        match self.index {
            Some(j) => {
                if len == 0 {
                    self.index = None;
                } else if at < j {
                    self.index = Some(j - 1);
                } else if j < len {
                    self.index = Some(j);
                } else {
                    self.index = Some(len - 1);
                }
            }
            None => (),
        }
        r
    }
}

/// Where the cursor lands when the element at `at` leaves a list of length
/// `len`.
pub open spec fn spec_index_after_remove(index: Option<usize>, at: int, len: int) -> Option<usize> {
    match index {
        Some(j) => if len == 1 {
            None::<usize>
        } else if at < j {
            Some((j - 1) as usize)
        } else if j < len - 1 {
            Some(j as usize)
        } else {
            Some((len - 2) as usize)
        },
        None => None::<usize>,
    }
}

} // verus!
