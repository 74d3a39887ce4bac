//! The table from a source to the render targets that follow it.
use vstd::prelude::*;

use crate::table::KeyTable;

verus! {

/// For each source, the targets to tell when it changes, in the order in
/// which they subscribed. A target that subscribed twice is told twice.
pub struct Registry {
    table: KeyTable<Vec<usize>>,
}

impl Registry {
    pub closed spec fn wf(&self) -> bool {
        self.table.wf()
    }

    /// The targets subscribed to source `k`.
    pub closed spec fn subscribers(&self, k: Seq<char>) -> Seq<usize> {
        if self.table.key_seq().contains(k) {
            self.table.vals@[self.table.key_seq().index_of(k)]@
        } else {
            Seq::empty()
        }
    }

    pub fn new() -> (r: Registry)
        ensures
            r.wf(),
            forall|k: Seq<char>| #[trigger] r.subscribers(k) == Seq::<usize>::empty(),
    {
        let r = Registry { table: KeyTable::new() };
        assert(r.table.key_seq() =~= Seq::empty());
        r
    }

    /// Adds `target` at the end of the subscribers of `key`.
    pub fn subscribe(&mut self, key: &str, target: usize)
        requires
            old(self).wf(),
        ensures
            final(self).wf(),
            final(self).subscribers(key@) == old(self).subscribers(key@).push(target),
            forall|k: Seq<char>| k != key@ ==> #[trigger] final(self).subscribers(k) == old(self).subscribers(k),
    {
        match self.table.find(key) {
            Some(j) => {
                proof {
                    self.table.lemma_index_of(j as int);
                }
                self.table.vals[j].push(target);
                proof {
                    assert(self.table.key_seq() =~= old(self).table.key_seq());
                    assert forall|k: Seq<char>| k != key@ implies #[trigger] self.subscribers(k)
                        == old(self).subscribers(k) by {
                        if self.table.key_seq().contains(k) {
                            let i = self.table.key_seq().index_of(k);
                            assert(self.table.key_seq()[i] == k);
                            assert(i != j);
                        }
                    }
                }
            },
            None => {
                let mut v: Vec<usize> = Vec::new();
                v.push(target);
                let j = self.table.add(key, v);
                proof {
                    self.table.lemma_index_of(j as int);
                    assert(self.table.vals@[j as int]@ =~= seq![target]);
                    assert forall|k: Seq<char>| k != key@ implies #[trigger] self.subscribers(k)
                        == old(self).subscribers(k) by {
                        if old(self).table.key_seq().contains(k) {
                            let i = old(self).table.key_seq().index_of(k);
                            assert(old(self).table.key_seq()[i] == k);
                            assert(self.table.keys@[i]@ == k);
                            self.table.lemma_index_of(i);
                            old(self).table.lemma_index_of(i);
                        } else {
                            assert(!self.table.key_seq().contains(k)) by {
                                if self.table.key_seq().contains(k) {
                                    let i = choose|i: int|
                                        0 <= i < self.table.key_seq().len() && self.table.key_seq()[i] == k;
                                    if i < j {
                                        assert(old(self).table.key_seq()[i] == k);
                                    }
                                }
                            }
                        }
                    }
                }
            },
        }
    }

    /// The targets to tell that `key` changed.
    pub fn notify(&self, key: &str) -> (r: Vec<usize>)
        requires
            self.wf(),
        ensures
            r@ == self.subscribers(key@),
    {
        match self.table.find(key) {
            Some(j) => {
                proof {
                    self.table.lemma_index_of(j as int);
                }
                self.table.vals[j].clone()
            },
            None => Vec::new(),
        }
    }
}

/// Sends to each of `targets` in order with `send`, which tells whether the
/// message was delivered. A failed delivery does not stop the ones after it:
/// there is one outcome for each target, in the same order, and each is an
/// outcome that `send` can give for that target.
pub fn forward<F: Fn(usize) -> bool>(targets: &Vec<usize>, send: F) -> (delivered: Vec<bool>)
    requires
        forall|i: int| 0 <= i < targets@.len() ==> send.requires((#[trigger] targets@[i],)),
    ensures
        delivered@.len() == targets@.len(),
        forall|i: int| 0 <= i < targets@.len() ==> send.ensures((#[trigger] targets@[i],), delivered@[i]),
{
    let mut delivered: Vec<bool> = Vec::new();
    let mut i: usize = 0;
    while i < targets.len()
        invariant
            i <= targets@.len(),
            delivered@.len() == i,
            forall|j: int| 0 <= j < targets@.len() ==> send.requires((#[trigger] targets@[j],)),
            forall|j: int| 0 <= j < i ==> send.ensures((#[trigger] targets@[j],), delivered@[j]),
        decreases targets@.len() - i,
    {
        let t = targets[i];
        let ok = send(t);
        delivered.push(ok);
        i = i + 1;
    }
    delivered
}

} // verus!
