//! A table from text keys to values, each key held once, in the order in
//! which the keys were added.
use vstd::prelude::*;

use crate::argparse::strings_view;

verus! {

pub struct KeyTable<V> {
    pub keys: Vec<String>,
    pub vals: Vec<V>,
}

impl<V> KeyTable<V> {
    pub open spec fn key_seq(&self) -> Seq<Seq<char>> {
        strings_view(self.keys@)
    }

    /// One value per key, and no key twice.
    pub open spec fn wf(&self) -> bool {
        &&& self.keys@.len() == self.vals@.len()
        &&& forall|i: int, j: int|
            0 <= i < j < self.keys@.len() ==> #[trigger] self.keys@[i]@ != #[trigger] self.keys@[j]@
    }

    pub fn new() -> (r: KeyTable<V>)
        ensures
            r.wf(),
            r.keys@.len() == 0,
            r.vals@.len() == 0,
    {
        KeyTable { keys: Vec::new(), vals: Vec::new() }
    }

    /// Position of `key` among the keys.
    pub fn find(&self, key: &str) -> (r: Option<usize>)
        requires
            self.wf(),
        ensures
            match r {
                Some(j) => j < self.keys@.len() && self.keys@[j as int]@ == key@,
                None => !self.key_seq().contains(key@),
            },
    {
        let wanted = key.to_owned();
        let mut j: usize = 0;
        while j < self.keys.len()
            invariant
                self.wf(),
                wanted@ == key@,
                j <= self.keys@.len(),
                forall|i: int| 0 <= i < j ==> self.keys@[i]@ != key@,
            decreases self.keys@.len() - j,
        {
            if self.keys[j] == wanted {
                return Some(j);
            }
            j = j + 1;
        }
        proof {
            if self.key_seq().contains(key@) {
                let i = choose|i: int| 0 <= i < self.key_seq().len() && self.key_seq()[i] == key@;
                assert(self.keys@[i]@ == key@);
            }
        }
        None
    }

    /// Adds a key that is not there yet, with its value, at the end.
    pub fn add(&mut self, key: &str, v: V) -> (j: usize)
        requires
            old(self).wf(),
            !old(self).key_seq().contains(key@),
        ensures
            final(self).wf(),
            j == old(self).keys@.len(),
            final(self).key_seq() == old(self).key_seq().push(key@),
            final(self).keys@.len() == j + 1,
            forall|i: int| 0 <= i < j ==> #[trigger] final(self).keys@[i] == old(self).keys@[i],
            final(self).keys@[j as int]@ == key@,
            final(self).vals@ == old(self).vals@.push(v),
    {
        let j = self.keys.len();
        self.keys.push(key.to_owned());
        self.vals.push(v);
        proof {
            assert(self.key_seq() =~= old(self).key_seq().push(key@));
            assert forall|a: int, b: int| 0 <= a < b < self.keys@.len() implies #[trigger] self.keys@[a]@
                != #[trigger] self.keys@[b]@ by {
                if b == j {
                    assert(old(self).key_seq()[a] == self.keys@[a]@);
                }
            }
        }
        j
    }

    /// The position of a key is where it stands.
    pub proof fn lemma_index_of(&self, j: int)
        requires
            self.wf(),
            0 <= j < self.keys@.len(),
        ensures
            self.key_seq().contains(self.keys@[j]@),
            self.key_seq().index_of(self.keys@[j]@) == j,
    {
        let k = self.keys@[j]@;
        assert(self.key_seq()[j] == k);
        let i = self.key_seq().index_of(k);
        assert(self.keys@[i]@ == k);
        if i < j {
            assert(self.keys@[i]@ != self.keys@[j]@);
        } else if i > j {
            assert(self.keys@[j]@ != self.keys@[i]@);
        }
    }
}

} // verus!
