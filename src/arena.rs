use std::marker::PhantomData;
use vstd::prelude::*;

verus! {

/// A typed index into a `SeqIndexedStore`: a thin wrapper around a dense position.
pub trait ArenaIndex: Copy + Sized {
    /// The position this index designates.
    spec fn spec_index(self) -> nat;

    fn from_index(i: usize) -> (r: Self)
        ensures
            r.spec_index() == i as nat,
    ;

    fn index(&self) -> (r: usize)
        ensures
            r as nat == self.spec_index(),
    ;
}

/// An append-only, index-addressed container: every stored value gets a stable,
/// typed identifier, namely its position. Entries are never removed or reordered.
pub struct SeqIndexedStore<U, T> {
    index_type: PhantomData<U>,
    data: Vec<T>,
}

impl<U: ArenaIndex, T> View for SeqIndexedStore<U, T> {
    type V = Seq<T>;

    closed spec fn view(&self) -> Seq<T> {
        self.data@
    }
}

impl<U: ArenaIndex, T> SeqIndexedStore<U, T> {
    pub fn new() -> (r: Self)
        ensures
            r@ == Seq::<T>::empty(),
    {
        SeqIndexedStore { index_type: PhantomData, data: Vec::new() }
    }

    /// Appends `val` and returns the identifier minted for it.
    pub fn push(&mut self, val: T) -> (r: U)
        ensures
            final(self)@ == old(self)@.push(val),
            r.spec_index() == old(self)@.len(),
    {
        let id = self.data.len();
        self.data.push(val);
        U::from_index(id)
    }

    pub fn get(&self, id: &U) -> (r: Option<&T>)
        ensures
            match r {
                Some(v) => id.spec_index() < self@.len() && *v == self@[id.spec_index() as int],
                None => id.spec_index() >= self@.len(),
            },
    {
        let i = id.index();
        if i < self.data.len() {
            Some(&self.data[i])
        } else {
            None
        }
    }

    pub fn get_mut(&mut self, id: &U) -> (r: Option<&mut T>)
        ensures
            match r {
                Some(v) => {
                    &&& id.spec_index() < old(self)@.len()
                    &&& *v == old(self)@[id.spec_index() as int]
                    &&& final(self)@ == old(self)@.update(id.spec_index() as int, *final(v))
                },
                None => {
                    &&& id.spec_index() >= old(self)@.len()
                    &&& final(self)@ == old(self)@
                },
            },
    {
        let i = id.index();
        if i < self.data.len() {
            Some(&mut self.data[i])
        } else {
            None
        }
    }

    /// Every entry with its id, in insertion order.
    pub fn enumerate(&self) -> (r: Vec<(U, &T)>)
        ensures
            r@.len() == self@.len(),
            forall|i: int| 0 <= i < r@.len() ==> (#[trigger] r@[i]).0.spec_index() == i && *r@[i].1 == self@[i],
    {
        let mut r: Vec<(U, &T)> = Vec::new();
        let mut i: usize = 0;
        while i < self.data.len()
            invariant
                i <= self.data@.len(),
                r@.len() == i,
                forall|k: int| 0 <= k < i ==> (#[trigger] r@[k]).0.spec_index() == k && *r@[k].1 == self.data@[k],
            decreases self.data@.len() - i,
        {
            r.push((U::from_index(i), &self.data[i]));
            i = i + 1;
        }
        r
    }

    /// Every entry with its id, in insertion order, open for writing: what is
    /// left behind each handed-out reference is what the store holds afterwards.
    pub fn enumerate_mut(&mut self) -> (r: Vec<(U, &mut T)>)
        ensures
            r@.len() == old(self)@.len(),
            forall|i: int| 0 <= i < r@.len() ==> (#[trigger] r@[i]).0.spec_index() == i && *r@[i].1 == old(self)@[i],
            final(self)@ == Seq::new(r@.len(), |i: int| *final(r@[i].1)),
    {
        let mut r: Vec<(U, &mut T)> = Vec::new();
        let ghost all = self.data@;
        let n = self.data.len();
        let ghost fin = final(self)@;
        let mut rest: &mut [T] = self.data.as_mut_slice();
        let mut i: usize = 0;
        while rest.len() > 0
            invariant
                i + rest@.len() == all.len(),
                all.len() == n,
                rest@ == all.subrange(i as int, all.len() as int),
                r@.len() == i,
                forall|k: int| 0 <= k < i ==> (#[trigger] r@[k]).0.spec_index() == k && *r@[k].1 == all[k],
                fin == Seq::new(i as nat, |k: int| *final(r@[k].1)) + final(rest)@,
            decreases rest@.len(),
        {
            let (head, tail) = rest.split_at_mut(1);
            let first = &mut head[0];
            r.push((U::from_index(i), first));
            rest = tail;
            i = i + 1;
        }
        r
    }

    pub fn len(&self) -> (r: usize)
        ensures
            r == self@.len(),
    {
        self.data.len()
    }
}

} // verus!
