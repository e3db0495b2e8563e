//! A map from texts to values, indexed by a sharded hash map.
use vstd::prelude::*;

verus! {

#[verifier::external_type_specification]
#[verifier::external_body]
#[verifier::reject_recursive_types(K)]
#[verifier::reject_recursive_types(V)]
#[verifier::reject_recursive_types(S)]
pub struct ExDashMap<K, V, S>(dashmap::DashMap<K, V, S>);

/// What a `DashMap` from strings to numbers holds.
pub uninterp spec fn positions(map: dashmap::DashMap<String, u64>) -> Map<Seq<char>, u64>;

/// `dashmap::DashMap::new`: an empty map.
#[verifier::external_body]
fn new_positions() -> (res: dashmap::DashMap<String, u64>)
    ensures
        positions(res).dom() == Set::<Seq<char>>::empty(),
{
    dashmap::DashMap::new()
}

/// `dashmap::DashMap::get`: the value of the key, where it has one.
#[verifier::external_body]
fn position_at(map: &dashmap::DashMap<String, u64>, key: &str) -> (res: Option<u64>)
    ensures
        match res {
            Some(v) => positions(*map).contains_key(key@) && v == positions(*map)[key@],
            None => !positions(*map).contains_key(key@),
        },
{
    map.get(key).map(|entry| *entry.value())
}

/// `dashmap::DashMap::insert`: gives the key its value, in place of an earlier one.
#[verifier::external_body]
fn set_position(map: &mut dashmap::DashMap<String, u64>, key: String, value: u64)
    ensures
        positions(*final(map)) == positions(*old(map)).insert(key@, value),
{
    map.insert(key, value);
}

/// `dashmap::DashMap::remove`: takes the key out.
#[verifier::external_body]
fn unset_position(map: &mut dashmap::DashMap<String, u64>, key: &str)
    ensures
        positions(*final(map)) == positions(*old(map)).remove(key@),
{
    map.remove(key);
}

/// A map from texts to values.
pub struct Ledger<T> {
    index: dashmap::DashMap<String, u64>,
    items: Vec<(String, T)>,
}

impl<T> Ledger<T> {
    /// The index and the items agree: every item is found under its key, and nothing
    /// else is.
    pub closed spec fn wf(self) -> bool {
        &&& forall|i: int|
            0 <= i < self.items@.len() ==> positions(self.index).contains_key(
                (#[trigger] self.items@[i]).0@,
            ) && positions(self.index)[self.items@[i].0@] == i
        &&& forall|k: Seq<char>| #[trigger]
            positions(self.index).contains_key(k) ==> positions(self.index)[k] < self.items@.len()
                && self.items@[positions(self.index)[k] as int].0@ == k
    }

    /// The map from keys to values.
    pub closed spec fn view(self) -> Map<Seq<char>, T> {
        Map::new(
            |k: Seq<char>| positions(self.index).contains_key(k),
            |k: Seq<char>| self.items@[positions(self.index)[k] as int].1,
        )
    }

    /// The keys in the order in which the items are kept.
    pub closed spec fn order(self) -> Seq<Seq<char>> {
        self.items@.map_values(|item: (String, T)| item.0@)
    }

    /// What the order of the items is to the map.
    pub proof fn order_lists_keys(self)
        requires
            self.wf(),
        ensures
            forall|i: int|
                0 <= i < self.order().len() ==> self@.contains_key(#[trigger] self.order()[i]),
            forall|k: Seq<char>| #[trigger] self@.contains_key(k) ==> self.order().contains(k),
            self.order().no_duplicates(),
            self@.dom().finite(),
            self@.len() == self.order().len(),
    {
        let keys = self.order();
        assert forall|i: int| 0 <= i < keys.len() implies self@.contains_key(#[trigger] keys[i]) by {
            assert(keys[i] == self.items@[i].0@);
        }
        assert forall|k: Seq<char>| #[trigger] self@.contains_key(k) implies keys.contains(k) by {
            assert(positions(self.index).contains_key(k));
            let p = positions(self.index)[k] as int;
            assert(keys[p] == k);
        }
        assert forall|i: int, j: int| 0 <= i < keys.len() && 0 <= j < keys.len() && i != j implies keys[i]
            != keys[j] by {
            assert(keys[i] == self.items@[i].0@);
            assert(keys[j] == self.items@[j].0@);
        }
        assert(self@.dom() =~= keys.to_set());
        keys.unique_seq_to_set();
        vstd::seq_lib::seq_to_set_is_finite(keys);
    }

    pub fn new() -> (res: Ledger<T>)
        ensures
            res.wf(),
            res@ == Map::<Seq<char>, T>::empty(),
            res.order() == Seq::<Seq<char>>::empty(),
    {
        let res: Ledger<T> = Ledger { index: new_positions(), items: Vec::new() };
        assert(res@ =~= Map::<Seq<char>, T>::empty());
        assert(res.order() =~= Seq::<Seq<char>>::empty());
        res
    }

    pub fn len(&self) -> (res: usize)
        requires
            self.wf(),
        ensures
            res == self.order().len(),
            res == self@.len(),
    {
        proof {
            self.order_lists_keys();
        }
        self.items.len()
    }

    pub fn contains(&self, key: &str) -> (res: bool)
        requires
            self.wf(),
        ensures
            res == self@.contains_key(key@),
    {
        match position_at(&self.index, key) {
            Some(_) => true,
            None => false,
        }
    }

    pub fn get(&self, key: &str) -> (res: Option<&T>)
        requires
            self.wf(),
        ensures
            match res {
                Some(v) => self@.contains_key(key@) && *v == self@[key@],
                None => !self@.contains_key(key@),
            },
    {
        match position_at(&self.index, key) {
            Some(p) => {
                let n: usize = self.items.len();
                assert(p < n);
                Some(&self.items[p as usize].1)
            },
            None => None,
        }
    }

    /// Key and value of the item with number `i`.
    pub fn entry(&self, i: usize) -> (res: (&str, &T))
        requires
            self.wf(),
            i < self.order().len(),
        ensures
            res.0@ == self.order()[i as int],
            self@.contains_key(res.0@),
            *res.1 == self@[res.0@],
    {
        assert(self.order()[i as int] == self.items@[i as int].0@);
        (self.items[i].0.as_str(), &self.items[i].1)
    }

    pub fn insert(&mut self, key: &str, value: T)
        requires
            old(self).wf(),
        ensures
            final(self).wf(),
            final(self)@ == old(self)@.insert(key@, value),
    {
        let ghost before = *self;
        match position_at(&self.index, key) {
            Some(p) => {
                let owned: String = key.to_owned();
                self.items.set(p as usize, (owned, value));
                assert(self.index == before.index);
                assert(self@ =~= before@.insert(key@, value)) by {
                    assert forall|k: Seq<char>| #[trigger]
                        positions(self.index).contains_key(k) && k != key@ implies positions(
                        self.index,
                    )[k] != p by {
                        assert(before.items@[positions(before.index)[k] as int].0@ == k);
                    }
                }
            },
            None => {
                let n: usize = self.items.len();
                let owned: String = key.to_owned();
                set_position(&mut self.index, key.to_owned(), n as u64);
                self.items.push((owned, value));
                proof {
                    assert forall|i: int| 0 <= i < self.items@.len() implies positions(
                        self.index,
                    ).contains_key((#[trigger] self.items@[i]).0@) && positions(
                        self.index,
                    )[self.items@[i].0@] == i by {
                        if i < n {
                            assert(self.items@[i] == before.items@[i]);
                            assert(positions(before.index).contains_key(before.items@[i].0@));
                        }
                    }
                    assert forall|k: Seq<char>| #[trigger]
                        positions(self.index).contains_key(k) implies positions(self.index)[k]
                        < self.items@.len() && self.items@[positions(self.index)[k] as int].0@
                        == k by {
                        if k != key@ {
                            assert(positions(before.index).contains_key(k));
                        }
                    }
                    assert(self@ =~= before@.insert(key@, value));
                }
            },
        }
    }

    /// Take the key out; its value, where it had one.
    pub fn remove(&mut self, key: &str) -> (res: Option<T>)
        requires
            old(self).wf(),
        ensures
            final(self).wf(),
            final(self)@ == old(self)@.remove(key@),
            match res {
                Some(v) => old(self)@.contains_key(key@) && v == old(self)@[key@],
                None => !old(self)@.contains_key(key@),
            },
    {
        let ghost before = *self;
        match position_at(&self.index, key) {
            Some(p) => {
                let at: usize = p as usize;
                let n: usize = self.items.len();
                unset_position(&mut self.index, key);
                if at + 1 < n {
                    let moved: String = self.items[n - 1].0.clone();
                    proof {
                        assert(before.items@[n - 1].0@ != key@) by {
                            assert(positions(before.index)[before.items@[n - 1].0@] == n - 1);
                        }
                    }
                    set_position(&mut self.index, moved, p);
                }
                let (_, value): (String, T) = self.items.swap_remove(at);
                proof {
                    let last = before.items@[n - 1].0@;
                    assert forall|i: int| 0 <= i < self.items@.len() implies positions(
                        self.index,
                    ).contains_key((#[trigger] self.items@[i]).0@) && positions(
                        self.index,
                    )[self.items@[i].0@] == i by {
                        if i == at {
                            assert(self.items@[i] == before.items@[n - 1]);
                        } else {
                            assert(self.items@[i] == before.items@[i]);
                            assert(positions(before.index)[before.items@[i].0@] == i);
                            assert(positions(before.index)[key@] == at);
                            assert(positions(before.index)[last] == n - 1);
                        }
                    }
                    assert forall|k: Seq<char>| #[trigger]
                        positions(self.index).contains_key(k) implies positions(self.index)[k]
                        < self.items@.len() && self.items@[positions(self.index)[k] as int].0@
                        == k by {
                        assert(positions(before.index).contains_key(k));
                        let q = positions(before.index)[k] as int;
                        assert(before.items@[q].0@ == k);
                        if k == last {
                        } else {
                            assert(q != n - 1);
                            assert(q != at);
                            assert(self.items@[q] == before.items@[q]);
                        }
                    }
                    assert(self@ =~= before@.remove(key@)) by {
                        assert forall|k: Seq<char>| k != key@ && before@.contains_key(k) implies self@.contains_key(
                            k,
                        ) && self@[k] == #[trigger] before@[k] by {
                            assert(positions(before.index).contains_key(k));
                            let q = positions(before.index)[k] as int;
                            assert(before.items@[q].0@ == k);
                            assert(q != at);
                        }
                    }
                }
                Some(value)
            },
            None => {
                assert(self@ =~= before@.remove(key@));
                None
            },
        }
    }

    pub fn clear(&mut self)
        ensures
            final(self).wf(),
            final(self)@ == Map::<Seq<char>, T>::empty(),
    {
        self.index = new_positions();
        self.items = Vec::new();
        assert(self@ =~= Map::<Seq<char>, T>::empty());
    }

    /// All keys.
    pub fn keys(&self) -> (res: Vec<String>)
        requires
            self.wf(),
        ensures
            crate::text::views(res@) == self.order(),
    {
        let mut out: Vec<String> = Vec::new();
        let mut i: usize = 0;
        while i < self.items.len()
            invariant
                i <= self.items@.len(),
                out@.len() == i,
                forall|j: int| 0 <= j < i ==> (#[trigger] out@[j])@ == self.items@[j].0@,
            decreases self.items@.len() - i,
        {
            out.push(self.items[i].0.clone());
            i += 1;
        }
        assert(crate::text::views(out@) =~= self.order());
        out
    }
}

} // verus!
