//! Grouping of flag-style tokens: `--foo 1 2 --bar --baz 3`.
use vstd::prelude::*;

use crate::table::KeyTable;

verus! {

/// A token that names a key: it starts with two dashes.
pub open spec fn is_flag(s: Seq<char>) -> bool {
    s.len() >= 2 && s[0] == '-' && s[1] == '-'
}

/// The key that a value at position `i` belongs to: the last flag before it,
/// or the empty key when there is none.
pub open spec fn key_before(args: Seq<Seq<char>>, i: int) -> Seq<char>
    decreases i,
{
    if i <= 0 {
        Seq::empty()
    } else if is_flag(args[i - 1]) {
        args[i - 1]
    } else {
        key_before(args, i - 1)
    }
}

/// The key that the token at position `i` names or belongs to.
pub open spec fn owner(args: Seq<Seq<char>>, i: int) -> Seq<char> {
    if is_flag(args[i]) {
        args[i]
    } else {
        key_before(args, i)
    }
}

/// Some token among the first `n` names or belongs to `k`.
pub open spec fn has_key(args: Seq<Seq<char>>, k: Seq<char>, n: int) -> bool {
    exists|i: int| 0 <= i < n && #[trigger] owner(args, i) == k
}

/// The values among the first `n` tokens that belong to `k`, in order.
pub open spec fn values_of(args: Seq<Seq<char>>, k: Seq<char>, n: int) -> Seq<Seq<char>>
    decreases n,
{
    if n <= 0 {
        Seq::empty()
    } else if !is_flag(args[n - 1]) && key_before(args, n - 1) == k {
        values_of(args, k, n - 1).push(args[n - 1])
    } else {
        values_of(args, k, n - 1)
    }
}

/// What a token sequence means: each key that occurs, with the values that
/// follow its occurrences, in order.
pub open spec fn arg_model(args: Seq<Seq<char>>) -> Map<Seq<char>, Seq<Seq<char>>> {
    Map::new(
        |k: Seq<char>| has_key(args, k, args.len() as int),
        |k: Seq<char>| values_of(args, k, args.len() as int),
    )
}

pub open spec fn strings_view(v: Seq<String>) -> Seq<Seq<char>> {
    v.map_values(|s: String| s@)
}

/// Keys with the values given to them. Each key is held once.
pub struct ArgMap {
    table: KeyTable<Vec<String>>,
}

impl ArgMap {
    pub closed spec fn key_seq(&self) -> Seq<Seq<char>> {
        self.table.key_seq()
    }

    pub closed spec fn val_seq(&self) -> Seq<Seq<Seq<char>>> {
        self.table.vals@.map_values(|v: Vec<String>| strings_view(v@))
    }

    pub closed spec fn wf(&self) -> bool {
        self.table.wf()
    }

    pub closed spec fn view(&self) -> Map<Seq<char>, Seq<Seq<char>>> {
        Map::new(
            |k: Seq<char>| self.key_seq().contains(k),
            |k: Seq<char>| self.val_seq()[self.key_seq().index_of(k)],
        )
    }

    /// The values given to `key`, if the key occurred.
    pub fn get(&self, key: &str) -> (r: Option<&Vec<String>>)
        requires
            self.wf(),
        ensures
            r.is_some() == self@.contains_key(key@),
            r.is_some() ==> strings_view(r.unwrap()@) == self@[key@],
    {
        match self.table.find(key) {
            Some(j) => {
                proof {
                    self.lemma_index_of(j as int);
                }
                Some(&self.table.vals[j])
            },
            None => None,
        }
    }

    /// The keys, in the order of their first occurrence.
    pub fn keys(&self) -> (r: &Vec<String>)
        ensures
            strings_view(r@) == self.key_seq(),
            self.wf() ==> forall|k: Seq<char>| #[trigger] self@.contains_key(k) <==> strings_view(r@).contains(k),
    {
        &self.table.keys
    }

    /// Position of `key`, added with no values when it is not there yet.
    fn entry(&mut self, key: &String) -> (j: usize)
        requires
            old(self).wf(),
        ensures
            final(self).wf(),
            j < final(self).table.keys@.len(),
            final(self).table.keys@[j as int]@ == key@,
            old(self).key_seq().contains(key@) ==> final(self).key_seq() == old(self).key_seq()
                && final(self).table.vals@ == old(self).table.vals@,
            !old(self).key_seq().contains(key@) ==> final(self).key_seq() == old(self).key_seq().push(key@)
                && final(self).table.vals@.len() == old(self).table.vals@.len() + 1
                && final(self).table.vals@.subrange(0, old(self).table.vals@.len() as int) == old(self).table.vals@
                && j == old(self).table.vals@.len() && final(self).table.vals@[j as int]@.len() == 0,
    {
        match self.table.find(key.as_str()) {
            Some(j) => {
                proof {
                    assert(self.key_seq()[j as int] == key@);
                }
                j
            },
            None => {
                let j = self.table.add(key.as_str(), Vec::new());
                proof {
                    assert(self.table.vals@.subrange(0, old(self).table.vals@.len() as int) =~= old(self).table.vals@);
                }
                j
            },
        }
    }

    proof fn lemma_index_of(&self, j: int)
        requires
            self.wf(),
            0 <= j < self.table.keys@.len(),
        ensures
            self.key_seq().contains(self.table.keys@[j]@),
            self.key_seq().index_of(self.table.keys@[j]@) == j,
            self@[self.table.keys@[j]@] == strings_view(self.table.vals@[j]@),
    {
        self.table.lemma_index_of(j);
    }
}

fn is_flag_token(s: &str) -> (r: bool)
    ensures
        r == is_flag(s@),
{
    let n = s.unicode_len();
    n >= 2 && s.get_char(0) == '-' && s.get_char(1) == '-'
}

/// Values never precede the first occurrence of their key.
proof fn lemma_values_need_key(args: Seq<Seq<char>>, k: Seq<char>, n: int)
    requires
        0 <= n <= args.len(),
        !has_key(args, k, n),
    ensures
        values_of(args, k, n).len() == 0,
    decreases n,
{
    if n > 0 {
        assert(!has_key(args, k, n - 1)) by {
            if has_key(args, k, n - 1) {
                let i = choose|i: int| 0 <= i < n - 1 && #[trigger] owner(args, i) == k;
                assert(0 <= i < n && owner(args, i) == k);
            }
        }
        lemma_values_need_key(args, k, n - 1);
        if !is_flag(args[n - 1]) && key_before(args, n - 1) == k {
            assert(owner(args, n - 1) == k);
        }
    }
}

/// Groups tokens by key: a token starting with `--` is a key, and each other
/// token is a value of the last key before it (of the empty key when there is
/// none). A key that occurs more than once collects the values of all its
/// occurrences, in order; a key with no values is still present.
pub fn parse_args(args: Vec<String>) -> (r: ArgMap)
    ensures
        r.wf(),
        r@ == arg_model(strings_view(args@)),
{
    let ghost toks = strings_view(args@);
    let mut m = ArgMap { table: KeyTable::new() };
    let mut last = String::new();
    let mut i: usize = 0;
    while i < args.len()
        invariant
            toks == strings_view(args@),
            i <= args@.len(),
            m.wf(),
            last@ == key_before(toks, i as int),
            forall|k: Seq<char>| #[trigger] m.key_seq().contains(k) <==> has_key(toks, k, i as int),
            forall|j: int|
                0 <= j < m.table.keys@.len() ==> strings_view(#[trigger] m.table.vals@[j]@) == values_of(
                    toks,
                    m.table.keys@[j]@,
                    i as int,
                ),
        decreases args@.len() - i,
    {
        let a = &args[i];
        let ghost old_m = m;
        assert(toks[i as int] == a@);
        let ghost mut pushed: int = -1;
        let ghost mut mid = m;
        if is_flag_token(a.as_str()) {
            last = a.clone();
            let _ = m.entry(a);
            proof {
                mid = m;
            }
        } else {
            let j = m.entry(&last);
            proof {
                mid = m;
                pushed = j as int;
            }
            let v = a.clone();
            m.table.vals[j].push(v);
            proof {
                assert(m.table.vals@[j as int]@ == mid.table.vals@[j as int]@.push(v));
                assert(strings_view(m.table.vals@[j as int]@) =~= strings_view(mid.table.vals@[j as int]@).push(a@));
            }
        }
        proof {
            let i1 = i + 1;
            assert(owner(toks, i as int) == (if is_flag(a@) { a@ } else { key_before(toks, i as int) }));
            assert forall|k: Seq<char>| #[trigger] m.key_seq().contains(k) <==> has_key(toks, k, i1) by {
                if has_key(toks, k, i1) && !has_key(toks, k, i as int) {
                    let w = choose|w: int| 0 <= w < i1 && #[trigger] owner(toks, w) == k;
                    assert(w == i);
                }
                if has_key(toks, k, i as int) {
                    let w = choose|w: int| 0 <= w < i && #[trigger] owner(toks, w) == k;
                    assert(0 <= w < i1 && owner(toks, w) == k);
                }
                if m.key_seq().contains(k) && !old_m.key_seq().contains(k) {
                    assert(m.key_seq().last() == k);
                    assert(owner(toks, i as int) == k);
                }
                if old_m.key_seq().contains(k) {
                    let w = choose|w: int| 0 <= w < old_m.key_seq().len() && old_m.key_seq()[w] == k;
                    assert(m.key_seq()[w] == k);
                }
                if owner(toks, i as int) == k {
                    if old_m.key_seq().contains(k) {
                    } else {
                        assert(m.key_seq().last() == k);
                    }
                }
            }
            assert forall|j: int|
                0 <= j < m.table.keys@.len() implies strings_view(#[trigger] m.table.vals@[j]@) == values_of(
                toks,
                m.table.keys@[j]@,
                i1,
            ) by {
                let k = m.table.keys@[j]@;
                assert(m.key_seq()[j] == k);
                assert(m.table.keys@ == mid.table.keys@);
                if j != pushed {
                    assert(m.table.vals@[j] == mid.table.vals@[j]);
                }
                if pushed >= 0 && j != pushed {
                    assert(m.table.keys@[pushed]@ == last@);
                    assert(k != key_before(toks, i as int));
                }
                if j >= old_m.table.keys@.len() {
                    assert(!has_key(toks, k, i as int)) by {
                        if has_key(toks, k, i as int) {
                            assert(old_m.key_seq().contains(k));
                            let w = choose|w: int| 0 <= w < old_m.key_seq().len() && old_m.key_seq()[w] == k;
                            assert(m.key_seq()[w] == k);
                            assert(m.table.keys@[w]@ == m.table.keys@[j]@);
                        }
                    }
                    lemma_values_need_key(toks, k, i as int);
                } else {
                    assert(old_m.key_seq()[j] == k);
                    assert(mid.table.vals@[j] == old_m.table.vals@[j]);
                }
                assert(strings_view(m.table.vals@[j]@) =~= values_of(toks, k, i1));
            }
        }
        i = i + 1;
    }
    proof {
        assert forall|k: Seq<char>| #[trigger] m@.contains_key(k) implies m@[k] == values_of(
            toks,
            k,
            toks.len() as int,
        ) by {
            let j = m.key_seq().index_of(k);
            m.lemma_index_of(j);
        }
        assert(m@ =~= arg_model(toks));
    }
    m
}

/// A copy of a list of strings.
pub fn clone_strings(v: &Vec<String>) -> (r: Vec<String>)
    ensures
        strings_view(r@) == strings_view(v@),
{
    let mut r: Vec<String> = Vec::new();
    let mut i: usize = 0;
    while i < v.len()
        invariant
            i <= v@.len(),
            strings_view(r@) == strings_view(v@.subrange(0, i as int)),
        decreases v@.len() - i,
    {
        let c = v[i].clone();
        let ghost r0 = r@;
        r.push(c);
        assert(r@ == r0.push(c));
        assert(v@.subrange(0, i + 1) =~= v@.subrange(0, i as int).push(v@[i as int]));
        assert(strings_view(r@) =~= strings_view(r0).push(c@));
        assert(strings_view(r@) =~= strings_view(v@.subrange(0, i + 1)));
        i = i + 1;
    }
    assert(v@.subrange(0, v@.len() as int) =~= v@);
    r
}

} // verus!
