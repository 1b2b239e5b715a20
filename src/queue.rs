use vstd::prelude::*;

verus! {

/// A double-ended queue that holds at most `CAP` items.
#[derive(Debug)]
pub struct ArrayQueue<T, const CAP: usize> {
    items: Vec<T>,
}

impl<T, const CAP: usize> View for ArrayQueue<T, CAP> {
    type V = Seq<T>;

    closed spec fn view(&self) -> Seq<T> {
        self.items@
    }
}

impl<T, const CAP: usize> ArrayQueue<T, CAP> {
    pub fn new() -> (r: Self)
        ensures
            r@ == Seq::<T>::empty(),
    {
        ArrayQueue { items: Vec::new() }
    }

    /// Adds `val` in front of the first item.
    pub fn push_front(&mut self, val: T)
        requires
            old(self)@.len() < CAP,
        ensures
            final(self)@ == seq![val] + old(self)@,
    {
        self.items.insert(0, val);
        assert(self.items@ =~= seq![val] + old(self)@);
    }

    /// Adds `val` after the last item.
    pub fn push_back(&mut self, val: T)
        requires
            old(self)@.len() < CAP,
        ensures
            final(self)@ == old(self)@.push(val),
    {
        self.items.push(val);
    }

    /// Removes and returns the first item.
    pub fn pop_front(&mut self) -> (r: Option<T>)
        ensures
            old(self)@.len() == 0 ==> r is None && final(self)@ == old(self)@,
            old(self)@.len() > 0 ==> r == Some(old(self)@[0]) && final(self)@ == old(self)@.drop_first(),
    {
        if self.items.len() > 0 {
            let v = self.items.remove(0);
            assert(self.items@ =~= old(self)@.drop_first());
            Some(v)
        } else {
            None
        }
    }

    /// Removes and returns the last item.
    pub fn pop_back(&mut self) -> (r: Option<T>)
        ensures
            old(self)@.len() == 0 ==> r is None && final(self)@ == old(self)@,
            old(self)@.len() > 0 ==> r == Some(old(self)@.last()) && final(self)@ == old(self)@.drop_last(),
    {
        self.items.pop()
    }

    pub fn first(&self) -> (r: Option<&T>)
        ensures
            self@.len() == 0 ==> r is None,
            self@.len() > 0 ==> (r matches Some(v) && *v == self@[0]),
    {
        if self.items.len() > 0 {
            Some(&self.items[0])
        } else {
            None
        }
    }

    pub fn last(&self) -> (r: Option<&T>)
        ensures
            self@.len() == 0 ==> r is None,
            self@.len() > 0 ==> (r matches Some(v) && *v == self@.last()),
    {
        if self.items.len() > 0 {
            Some(&self.items[self.items.len() - 1])
        } else {
            None
        }
    }

    pub fn is_empty(&self) -> (r: bool)
        ensures
            r == (self@.len() == 0),
    {
        self.items.len() == 0
    }

    pub fn len(&self) -> (r: usize)
        ensures
            r == self@.len(),
    {
        self.items.len()
    }

    /// The item at position `index`, counted from the front.
    pub fn get(&self, index: usize) -> (r: &T)
        requires
            index < self@.len(),
        ensures
            *r == self@[index as int],
    {
        &self.items[index]
    }
}

} // verus!
