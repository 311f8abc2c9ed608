use vstd::prelude::*;
use crate::session::Event;

verus! {

/// Entries keyed by text, each key at most once.
pub struct Table<V> {
    keys: Vec<String>,
    vals: Vec<V>,
}

/// The map that the parallel sequences `keys` and `vals` describe.
pub open spec fn table_map<V>(keys: Seq<String>, vals: Seq<V>) -> Map<Seq<char>, V>
    decreases keys.len(),
{
    if keys.len() == 0 || vals.len() == 0 {
        Map::empty()
    } else {
        table_map(keys.drop_last(), vals.drop_last()).insert(keys.last()@, vals.last())
    }
}

pub open spec fn distinct_keys(keys: Seq<String>) -> bool {
    forall|i: int, j: int| 0 <= i < j < keys.len() ==> keys[i]@ != keys[j]@
}

pub open spec fn has_key(keys: Seq<String>, k: Seq<char>) -> bool {
    exists|i: int| 0 <= i < keys.len() && keys[i]@ == k
}

proof fn lemma_domain<V>(keys: Seq<String>, vals: Seq<V>, k: Seq<char>)
    requires
        keys.len() == vals.len(),
    ensures
        table_map(keys, vals).contains_key(k) == has_key(keys, k),
    decreases keys.len(),
{
    if keys.len() > 0 {
        lemma_domain(keys.drop_last(), vals.drop_last(), k);
        if has_key(keys, k) && keys.last()@ != k {
            let i = choose|i: int| 0 <= i < keys.len() && keys[i]@ == k;
            assert(keys.drop_last()[i] == keys[i]);
        }
        if has_key(keys.drop_last(), k) {
            let i = choose|i: int| 0 <= i < keys.drop_last().len() && keys.drop_last()[i]@ == k;
            assert(keys[i] == keys.drop_last()[i]);
        }
    }
}

proof fn lemma_value<V>(keys: Seq<String>, vals: Seq<V>, i: int)
    requires
        keys.len() == vals.len(),
        distinct_keys(keys),
        0 <= i < keys.len(),
    ensures
        table_map(keys, vals).contains_key(keys[i]@),
        table_map(keys, vals)[keys[i]@] == vals[i],
    decreases keys.len(),
{
    if i < keys.len() - 1 {
        lemma_value(keys.drop_last(), vals.drop_last(), i);
        assert(keys.drop_last()[i] == keys[i]);
    }
}

proof fn lemma_remove<V>(keys: Seq<String>, vals: Seq<V>, i: int)
    requires
        keys.len() == vals.len(),
        distinct_keys(keys),
        0 <= i < keys.len(),
    ensures
        table_map(keys.remove(i), vals.remove(i)) == table_map(keys, vals).remove(keys[i]@),
        distinct_keys(keys.remove(i)),
    decreases keys.len(),
{
    let n = keys.len();
    let k = keys[i]@;
    let kd = keys.drop_last();
    let vd = vals.drop_last();
    if i == n - 1 {
        assert(keys.remove(i) =~= kd);
        assert(vals.remove(i) =~= vd);
        assert(!has_key(kd, k));
        lemma_domain(kd, vd, k);
        assert(table_map(kd, vd) =~= table_map(keys, vals).remove(k));
    } else {
        lemma_remove(kd, vd, i);
        assert(keys.remove(i).drop_last() =~= kd.remove(i));
        assert(vals.remove(i).drop_last() =~= vd.remove(i));
        assert(kd[i] == keys[i]);
        assert(keys.remove(i).last() == keys.last());
        assert(vals.remove(i).last() == vals.last());
        assert(keys.last()@ != k);
        assert(table_map(keys.remove(i), vals.remove(i)) =~= table_map(keys, vals).remove(k));
    }
    assert forall|a: int, b: int| 0 <= a < b < keys.remove(i).len() implies keys.remove(i)[a]@
        != keys.remove(i)[b]@ by {
        let a0 = if a < i {
            a
        } else {
            a + 1
        };
        let b0 = if b < i {
            b
        } else {
            b + 1
        };
        assert(keys.remove(i)[a] == keys[a0]);
        assert(keys.remove(i)[b] == keys[b0]);
    }
}

proof fn lemma_update<V>(keys: Seq<String>, vals: Seq<V>, i: int, v: V)
    requires
        keys.len() == vals.len(),
        distinct_keys(keys),
        0 <= i < keys.len(),
    ensures
        table_map(keys, vals.update(i, v)) == table_map(keys, vals).insert(keys[i]@, v),
    decreases keys.len(),
{
    let kd = keys.drop_last();
    let vd = vals.drop_last();
    if i == keys.len() - 1 {
        assert(vals.update(i, v).drop_last() =~= vd);
        assert(table_map(keys, vals.update(i, v)) =~= table_map(keys, vals).insert(keys[i]@, v));
    } else {
        lemma_update(kd, vd, i, v);
        assert(vals.update(i, v).drop_last() =~= vd.update(i, v));
        assert(kd[i] == keys[i]);
        assert(keys.last()@ != keys[i]@);
        assert(table_map(keys, vals.update(i, v)) =~= table_map(keys, vals).insert(keys[i]@, v));
    }
}

impl<V> Table<V> {
    pub closed spec fn wf(&self) -> bool {
        self.keys@.len() == self.vals@.len() && distinct_keys(self.keys@)
    }

    pub closed spec fn view(&self) -> Map<Seq<char>, V> {
        table_map(self.keys@, self.vals@)
    }

    pub fn new() -> (r: Table<V>)
        ensures
            r.wf(),
            r.view() == Map::<Seq<char>, V>::empty(),
    {
        Table { keys: Vec::new(), vals: Vec::new() }
    }

    pub fn len(&self) -> (r: usize)
        requires
            self.wf(),
        ensures
            r == self.view().len(),
    {
        proof {
            self.lemma_len();
        }
        self.keys.len()
    }

    proof fn lemma_len(&self)
        requires
            self.wf(),
        ensures
            self.view().dom().finite(),
            self.view().len() == self.keys@.len(),
    {
        lemma_len_of(self.keys@, self.vals@);
    }

    /// Where `key` stands, if it is present.
    fn position(&self, key: &String) -> (r: Option<usize>)
        requires
            self.wf(),
        ensures
            r is Some <==> self.view().contains_key(key@),
            r matches Some(i) ==> i < self.keys@.len() && self.keys@[i as int]@ == key@,
    {
        let mut i: usize = 0;
        while i < self.keys.len()
            invariant
                self.wf(),
                i <= self.keys@.len(),
                forall|j: int| 0 <= j < i ==> self.keys@[j]@ != key@,
            decreases self.keys@.len() - i,
        {
            if self.keys[i] == *key {
                proof {
                    lemma_domain(self.keys@, self.vals@, key@);
                }
                return Some(i);
            }
            i = i + 1;
        }
        proof {
            lemma_domain(self.keys@, self.vals@, key@);
        }
        None
    }

    pub fn contains(&self, key: &String) -> (r: bool)
        requires
            self.wf(),
        ensures
            r == self.view().contains_key(key@),
    {
        self.position(key).is_some()
    }

    pub fn get(&self, key: &String) -> (r: Option<&V>)
        requires
            self.wf(),
        ensures
            r is Some <==> self.view().contains_key(key@),
            r matches Some(v) ==> *v == self.view()[key@],
    {
        match self.position(key) {
            Some(i) => {
                proof {
                    lemma_value(self.keys@, self.vals@, i as int);
                }
                Some(&self.vals[i])
            },
            None => None,
        }
    }

    /// Adds `key` with `v`; refuses a key that is already present.
    pub fn insert(&mut self, key: String, v: V) -> (r: bool)
        requires
            old(self).wf(),
        ensures
            final(self).wf(),
            r == !old(self).view().contains_key(key@),
            r ==> final(self).view() == old(self).view().insert(key@, v),
            !r ==> final(self).view() == old(self).view(),
    {
        if self.contains(&key) {
            return false;
        }
        proof {
            lemma_domain(self.keys@, self.vals@, key@);
        }
        let ghost k = key@;
        self.keys.push(key);
        self.vals.push(v);
        proof {
            assert(self.keys@.drop_last() =~= old(self).keys@);
            assert(self.vals@.drop_last() =~= old(self).vals@);
            assert forall|a: int, b: int| 0 <= a < b < self.keys@.len() implies self.keys@[a]@
                != self.keys@[b]@ by {
                if b == self.keys@.len() - 1 {
                    assert(old(self).keys@[a] == self.keys@[a]);
                } else {
                    assert(old(self).keys@[a] == self.keys@[a]);
                    assert(old(self).keys@[b] == self.keys@[b]);
                }
            }
        }
        true
    }

    /// Takes `key` out; a key that is absent leaves the table as it is.
    pub fn remove(&mut self, key: &String) -> (r: Option<V>)
        requires
            old(self).wf(),
        ensures
            final(self).wf(),
            r is Some <==> old(self).view().contains_key(key@),
            r matches Some(v) ==> v == old(self).view()[key@],
            final(self).view() == old(self).view().remove(key@),
            r is None ==> final(self).view() == old(self).view(),
    {
        match self.position(key) {
            Some(i) => {
                proof {
                    lemma_value(self.keys@, self.vals@, i as int);
                    lemma_remove(self.keys@, self.vals@, i as int);
                }
                self.keys.remove(i);
                let v = self.vals.remove(i);
                Some(v)
            },
            None => {
                assert(self.view() =~= self.view().remove(key@));
                None
            },
        }
    }

    /// Puts `v` in place of the value under `key` and hands the old one back;
    /// an absent key leaves the table as it is.
    pub fn replace(&mut self, key: &String, v: V) -> (r: Option<V>)
        requires
            old(self).wf(),
        ensures
            final(self).wf(),
            r is Some <==> old(self).view().contains_key(key@),
            r matches Some(w) ==> w == old(self).view()[key@] && final(self).view() == old(
                self,
            ).view().insert(key@, v),
            r is None ==> final(self).view() == old(self).view(),
    {
        match self.position(key) {
            Some(i) => {
                proof {
                    lemma_value(self.keys@, self.vals@, i as int);
                    lemma_update(self.keys@, self.vals@, i as int, v);
                }
                let mut w = v;
                std::mem::swap(&mut self.vals[i], &mut w);
                Some(w)
            },
            None => None,
        }
    }
}

impl Table<Vec<Event>> {
    /// Appends a copy of `e` to every queue.
    pub fn push_each(&mut self, e: &Event)
        requires
            old(self).wf(),
        ensures
            final(self).wf(),
            final(self).view().dom() == old(self).view().dom(),
            forall|k: Seq<char>| #[trigger]
                old(self).view().contains_key(k) ==> final(self).view()[k]@ == old(
                    self,
                ).view()[k]@.push(*e),
    {
        let mut i: usize = 0;
        while i < self.vals.len()
            invariant
                i <= self.vals@.len(),
                self.keys@ == old(self).keys@,
                self.vals@.len() == old(self).vals@.len(),
                old(self).wf(),
                forall|j: int| 0 <= j < i ==> (#[trigger] self.vals@[j])@ == old(self).vals@[j]@.push(*e),
                forall|j: int| i <= j < self.vals@.len() ==> #[trigger] self.vals@[j] == old(self).vals@[j],
            decreases self.vals@.len() - i,
        {
            let c = e.copy();
            self.vals[i].push(c);
            i = i + 1;
        }
        proof {
            assert forall|k: Seq<char>| #[trigger] self.view().contains_key(k) == old(self).view().contains_key(k) by {
                lemma_domain(self.keys@, self.vals@, k);
                lemma_domain(old(self).keys@, old(self).vals@, k);
            }
            assert(self.view().dom() =~= old(self).view().dom());
            assert forall|k: Seq<char>| #[trigger]
                old(self).view().contains_key(k) implies self.view()[k]@ == old(self).view()[k]@.push(*e) by {
                lemma_domain(old(self).keys@, old(self).vals@, k);
                let j = choose|j: int| 0 <= j < self.keys@.len() && self.keys@[j]@ == k;
                lemma_value(self.keys@, self.vals@, j);
                lemma_value(old(self).keys@, old(self).vals@, j);
            }
        }
    }

    /// Appends `e` to the queue under `key`, if there is one.
    pub fn push_to(&mut self, key: &String, e: Event) -> (r: bool)
        requires
            old(self).wf(),
        ensures
            final(self).wf(),
            r == old(self).view().contains_key(key@),
            final(self).view().dom() == old(self).view().dom(),
            forall|k: Seq<char>| #[trigger]
                old(self).view().contains_key(k) ==> final(self).view()[k]@ == if k == key@ {
                    old(self).view()[k]@.push(e)
                } else {
                    old(self).view()[k]@
                },
    {
        match self.position(key) {
            Some(i) => {
                proof {
                    lemma_value(self.keys@, self.vals@, i as int);
                }
                let ghost q = self.vals@[i as int];
                self.vals[i].push(e);
                proof {
                    assert(self.vals@ == old(self).vals@.update(i as int, self.vals@[i as int]));
                    lemma_update(old(self).keys@, old(self).vals@, i as int, self.vals@[i as int]);
                    assert(self.view().dom() =~= old(self).view().dom());
                }
                true
            },
            None => false,
        }
    }
}

proof fn lemma_len_of<V>(keys: Seq<String>, vals: Seq<V>)
    requires
        keys.len() == vals.len(),
        distinct_keys(keys),
    ensures
        table_map(keys, vals).dom().finite(),
        table_map(keys, vals).len() == keys.len(),
    decreases keys.len(),
{
    if keys.len() > 0 {
        let kd = keys.drop_last();
        lemma_len_of(kd, vals.drop_last());
        assert(!has_key(kd, keys.last()@));
        lemma_domain(kd, vals.drop_last(), keys.last()@);
    }
}

} // verus!
