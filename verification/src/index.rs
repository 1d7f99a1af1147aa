//! The desired-mapping index: an in-memory table from the identity of a
//! source secret to the ordered list of destination identities its payload
//! must be copied to. Entries are only ever added, never removed.

use vstd::prelude::*;

verus! {

/// The contents of a vector of identity strings, as a sequence of
/// character sequences.
pub open spec fn ids_view(v: Vec<String>) -> Seq<Seq<char>> {
    Seq::new(v@.len(), |i: int| v@[i]@)
}

/// The map described by parallel key and value rows, later rows winning.
/// An index keeps its keys unique, so no row ever overrides another.
pub open spec fn map_of(keys: Seq<Seq<char>>, vals: Seq<Seq<Seq<char>>>) -> Map<
    Seq<char>,
    Seq<Seq<char>>,
>
    decreases keys.len(),
{
    if keys.len() == 0 {
        Map::empty()
    } else {
        map_of(keys.drop_last(), vals.drop_last()).insert(keys.last(), vals.last())
    }
}

/// A key is in the map exactly when it stands in the key row.
pub proof fn lemma_map_of_contains(keys: Seq<Seq<char>>, vals: Seq<Seq<Seq<char>>>, k: Seq<char>)
    ensures
        map_of(keys, vals).contains_key(k) <==> keys.contains(k),
    decreases keys.len(),
{
    if keys.len() == 0 {
    } else {
        lemma_map_of_contains(keys.drop_last(), vals.drop_last(), k);
        if keys.contains(k) {
            let j = choose|j: int| 0 <= j < keys.len() && keys[j] == k;
            if j < keys.len() - 1 {
                assert(keys.drop_last()[j] == k);
                assert(keys.drop_last().contains(k));
            }
            assert(map_of(keys, vals).contains_key(k));
        }
        if map_of(keys, vals).contains_key(k) && k != keys.last() {
            assert(keys.drop_last().contains(k));
            let j = choose|j: int| 0 <= j < keys.drop_last().len() && keys.drop_last()[j] == k;
            assert(keys[j] == k);
            assert(keys.contains(k));
        }
        if k == keys.last() {
            assert(keys.contains(k));
        }
    }
}

/// With unique keys, the map sends each key to the value in its row.
pub proof fn lemma_map_of_get(keys: Seq<Seq<char>>, vals: Seq<Seq<Seq<char>>>, i: int)
    requires
        keys.len() == vals.len(),
        keys.no_duplicates(),
        0 <= i < keys.len(),
    ensures
        map_of(keys, vals).contains_key(keys[i]),
        map_of(keys, vals)[keys[i]] == vals[i],
    decreases keys.len(),
{
    if i == keys.len() - 1 {
    } else {
        assert(keys.drop_last().no_duplicates());
        lemma_map_of_get(keys.drop_last(), vals.drop_last(), i);
        assert(keys.drop_last()[i] == keys[i]);
        assert(keys[i] != keys.last());
    }
}

/// With unique keys, the map has exactly one entry per row.
pub proof fn lemma_map_of_dom_len(keys: Seq<Seq<char>>, vals: Seq<Seq<Seq<char>>>)
    requires
        keys.len() == vals.len(),
        keys.no_duplicates(),
    ensures
        map_of(keys, vals).dom().finite(),
        map_of(keys, vals).dom().len() == keys.len(),
    decreases keys.len(),
{
    if keys.len() == 0 {
        assert(map_of(keys, vals).dom() =~= Set::<Seq<char>>::empty());
    } else {
        assert(keys.drop_last().no_duplicates());
        lemma_map_of_dom_len(keys.drop_last(), vals.drop_last());
        lemma_map_of_contains(keys.drop_last(), vals.drop_last(), keys.last());
        assert(!keys.drop_last().contains(keys.last())) by {
            if keys.drop_last().contains(keys.last()) {
                let j = choose|j: int|
                    0 <= j < keys.drop_last().len() && keys.drop_last()[j] == keys.last();
                assert(keys[j] == keys[keys.len() - 1]);
            }
        }
        assert(map_of(keys, vals).dom() =~= map_of(keys.drop_last(), vals.drop_last()).dom().insert(
            keys.last(),
        ));
    }
}

/// The desired-mapping index. Writers are expected to hold exclusive
/// access for the duration of a call; the structure itself is a plain
/// table of unique keys in insertion order.
pub struct Index {
    keys: Vec<String>,
    vals: Vec<Vec<String>>,
}

impl View for Index {
    type V = Map<Seq<char>, Seq<Seq<char>>>;

    closed spec fn view(&self) -> Map<Seq<char>, Seq<Seq<char>>> {
        map_of(self.key_seq(), self.val_seq())
    }
}

impl Index {
    /// The key row: the registered source identities, in insertion order.
    pub closed spec fn key_seq(self) -> Seq<Seq<char>> {
        Seq::new(self.keys@.len(), |i: int| self.keys@[i]@)
    }

    /// The value row: each key's destination identities, in spec order.
    pub closed spec fn val_seq(self) -> Seq<Seq<Seq<char>>> {
        Seq::new(self.vals@.len(), |i: int| ids_view(self.vals@[i]))
    }

    /// Well-formedness: rows line up and keys are unique.
    pub closed spec fn wf(self) -> bool {
        &&& self.keys@.len() == self.vals@.len()
        &&& self.key_seq().no_duplicates()
    }

    /// An empty index.
    pub fn new() -> (r: Index)
        ensures
            r.wf(),
            r@ == Map::<Seq<char>, Seq<Seq<char>>>::empty(),
    {
        let r = Index { keys: Vec::new(), vals: Vec::new() };
        proof {
            assert(r.key_seq() =~= Seq::<Seq<char>>::empty());
        }
        r
    }

    /// Membership test for a source identity.
    pub fn contains_key(&self, k: &String) -> (r: bool)
        requires
            self.wf(),
        ensures
            r == self@.contains_key(k@),
    {
        proof {
            lemma_map_of_contains(self.key_seq(), self.val_seq(), k@);
        }
        let n = self.keys.len();
        let mut i: usize = 0;
        while i < n
            invariant
                self.wf(),
                n == self.keys.len(),
                i <= n,
                forall|j: int| 0 <= j < i ==> self.key_seq()[j] != k@,
            decreases n - i,
        {
            if self.keys[i] == *k {
                proof {
                    assert(self.key_seq()[i as int] == k@);
                    assert(self.key_seq().contains(k@));
                    lemma_map_of_contains(self.key_seq(), self.val_seq(), k@);
                }
                return true;
            }
            i = i + 1;
        }
        proof {
            assert(!self.key_seq().contains(k@)) by {
                if self.key_seq().contains(k@) {
                    let j = choose|j: int|
                        0 <= j < self.key_seq().len() && self.key_seq()[j] == k@;
                }
            }
        }
        false
    }

    /// Look a source identity up; `Some` exactly when it is registered,
    /// and then the returned list holds its destination identities.
    pub fn get(&self, k: &String) -> (r: Option<&Vec<String>>)
        requires
            self.wf(),
        ensures
            r is Some <==> self@.contains_key(k@),
            r matches Some(v) ==> ids_view(*v) == self@[k@],
    {
        proof {
            lemma_map_of_contains(self.key_seq(), self.val_seq(), k@);
        }
        let n = self.keys.len();
        let mut i: usize = 0;
        while i < n
            invariant
                self.wf(),
                n == self.keys.len(),
                i <= n,
                forall|j: int| 0 <= j < i ==> self.key_seq()[j] != k@,
            decreases n - i,
        {
            if self.keys[i] == *k {
                proof {
                    assert(self.key_seq()[i as int] == k@);
                    assert(self.key_seq().contains(k@));
                    lemma_map_of_contains(self.key_seq(), self.val_seq(), k@);
                    lemma_map_of_get(self.key_seq(), self.val_seq(), i as int);
                }
                return Option::Some(&self.vals[i]);
            }
            i = i + 1;
        }
        proof {
            assert(!self.key_seq().contains(k@)) by {
                if self.key_seq().contains(k@) {
                    let j = choose|j: int|
                        0 <= j < self.key_seq().len() && self.key_seq()[j] == k@;
                }
            }
        }
        Option::None
    }

    /// Register a fresh source identity with its destination list.
    pub fn insert(&mut self, k: String, v: Vec<String>)
        requires
            old(self).wf(),
            !old(self)@.contains_key(k@),
        ensures
            final(self).wf(),
            final(self)@ == old(self)@.insert(k@, ids_view(v)),
            final(self)@.dom().len() == old(self)@.dom().len() + 1,
    {
        proof {
            lemma_map_of_contains(old(self).key_seq(), old(self).val_seq(), k@);
            lemma_map_of_dom_len(old(self).key_seq(), old(self).val_seq());
        }
        let ghost gk = k@;
        self.keys.push(k);
        self.vals.push(v);
        proof {
            assert(self.key_seq() =~= old(self).key_seq().push(gk));
            assert(self.val_seq() =~= old(self).val_seq().push(ids_view(v)));
            assert(self.key_seq().drop_last() =~= old(self).key_seq());
            assert(self.val_seq().drop_last() =~= old(self).val_seq());
            assert(self.key_seq().no_duplicates()) by {
                assert(forall|j: int|
                    0 <= j < old(self).key_seq().len() ==> old(self).key_seq()[j] != gk) by {
                    if exists|j: int|
                        0 <= j < old(self).key_seq().len() && old(self).key_seq()[j] == gk {
                        let j = choose|j: int|
                            0 <= j < old(self).key_seq().len() && old(self).key_seq()[j] == gk;
                        assert(old(self).key_seq().contains(gk));
                    }
                }
            }
            assert(self@ == old(self)@.insert(gk, ids_view(v)));
            assert(self@.dom() =~= old(self)@.dom().insert(gk));
        }
    }

    /// The number of registered source identities.
    pub fn len(&self) -> (r: usize)
        requires
            self.wf(),
        ensures
            r == self@.dom().len(),
    {
        proof {
            lemma_map_of_dom_len(self.key_seq(), self.val_seq());
        }
        self.keys.len()
    }
}

} // verus!
