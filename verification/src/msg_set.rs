use vstd::prelude::*;

verus! {

broadcast use vstd::seq_lib::group_seq_properties;

/// A grow-only set of broadcast values, stored as a vector without
/// duplicates. Its abstract value (the view) is the mathematical set of
/// the stored elements.
pub struct MsgSet {
    items: Vec<usize>,
}

impl View for MsgSet {
    type V = Set<usize>;

    closed spec fn view(&self) -> Set<usize> {
        self.items@.to_set()
    }
}

impl MsgSet {
    /// The stored vector never repeats an element.
    pub closed spec fn wf(&self) -> bool {
        forall|i: int, j: int|
            0 <= i < j < self.items@.len() ==> self.items@[i] != self.items@[j]
    }

    /// The empty set.
    pub fn new() -> (r: MsgSet)
        ensures
            r@ == Set::<usize>::empty(),
            r.wf(),
    {
        let r = MsgSet { items: Vec::new() };
        proof {
            assert(r@ =~= Set::<usize>::empty());
        }
        r
    }

    /// Membership test.
    pub fn contains(&self, m: usize) -> (r: bool)
        ensures
            r == self@.contains(m),
    {
        let mut i: usize = 0;
        while i < self.items.len()
            invariant
                i <= self.items@.len(),
                forall|k: int| 0 <= k < i ==> self.items@[k] != m,
            decreases self.items@.len() - i,
        {
            if self.items[i] == m {
                return true;
            }
            i += 1;
        }
        false
    }

    /// Inserts one value; a no-op when the value is already present.
    pub fn insert(&mut self, m: usize)
        requires
            old(self).wf(),
        ensures
            final(self).wf(),
            final(self)@ == old(self)@.insert(m),
    {
        if !self.contains(m) {
            self.items.push(m);
        }
        proof {
            old(self).items@.lemma_push_to_set_commute(m);
            assert(self@ =~= old(self)@.insert(m));
        }
    }

    /// Unions a slice of values into the set.
    pub fn extend_from(&mut self, vs: &Vec<usize>)
        requires
            old(self).wf(),
        ensures
            final(self).wf(),
            final(self)@ == old(self)@.union(vs@.to_set()),
    {
        let mut i: usize = 0;
        while i < vs.len()
            invariant
                i <= vs@.len(),
                self.wf(),
                forall|k: int| 0 <= k < i ==> self@.contains(vs@[k]),
                forall|x: usize|
                    self@.contains(x) ==> old(self)@.contains(x) || vs@.contains(x),
                forall|x: usize| old(self)@.contains(x) ==> self@.contains(x),
            decreases vs@.len() - i,
        {
            self.insert(vs[i]);
            i += 1;
        }
        proof {
            assert forall|x: usize| vs@.to_set().contains(x) implies self@.contains(x) by {
                let k = choose|k: int| 0 <= k < vs@.len() && vs@[k] == x;
                assert(self@.contains(vs@[k]));
            };
            assert(self@ =~= old(self)@.union(vs@.to_set()));
        }
    }

    /// A snapshot of the set as a vector, each element listed once.
    pub fn to_vec(&self) -> (r: Vec<usize>)
        requires
            self.wf(),
        ensures
            r@.to_set() == self@,
            forall|i: int, j: int| 0 <= i < j < r@.len() ==> r@[i] != r@[j],
    {
        let mut r: Vec<usize> = Vec::new();
        let mut i: usize = 0;
        while i < self.items.len()
            invariant
                i <= self.items@.len(),
                r@ == self.items@.take(i as int),
                self.wf(),
            decreases self.items@.len() - i,
        {
            r.push(self.items[i]);
            proof {
                assert(self.items@.take(i as int).push(self.items@[i as int])
                    =~= self.items@.take(i + 1));
            }
            i += 1;
        }
        proof {
            assert(self.items@.take(self.items@.len() as int) =~= self.items@);
        }
        r
    }
}

} // verus!
