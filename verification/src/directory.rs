//! A keyed collection on top of `dashmap`: the map holds, for each key, the
//! position of its entry, so that entries can also be walked one by one.

use dashmap::{DashMap, DashSet};
use vstd::prelude::*;

verus! {

/// `dashmap::DashMap`, held as an opaque value.
#[verifier::external_type_specification]
#[verifier::external_body]
#[verifier::reject_recursive_types(K)]
#[verifier::reject_recursive_types(V)]
#[verifier::reject_recursive_types(S)]
pub struct ExDashMap<K, V, S>(DashMap<K, V, S>);

/// `dashmap::DashSet`, held as an opaque value.
#[verifier::external_type_specification]
#[verifier::external_body]
#[verifier::reject_recursive_types(K)]
#[verifier::reject_recursive_types(S)]
pub struct ExDashSet<K, S>(DashSet<K, S>);

/// What a map from texts to positions holds.
pub uninterp spec fn text_positions(index: DashMap<String, usize>) -> Map<Seq<char>, usize>;

/// What a map from identifiers to positions holds.
pub uninterp spec fn id_positions(index: DashMap<u128, usize>) -> Map<u128, usize>;

/// What a set of texts holds.
pub uninterp spec fn set_texts(set: DashSet<String>) -> Set<Seq<char>>;

/// `DashMap::new` makes a map that holds nothing.
#[verifier::external_body]
fn text_index_new() -> (r: DashMap<String, usize>)
    ensures
        text_positions(r) =~= map![],
{
    DashMap::new()
}

/// `DashMap::get` finds the value held for an equal key, if there is one.
#[verifier::external_body]
fn text_index_get(index: &DashMap<String, usize>, key: &String) -> (r: Option<usize>)
    ensures
        r == (if text_positions(*index).contains_key(key@) {
            Some(text_positions(*index)[key@])
        } else {
            None
        }),
{
    index.get(key).map(|entry| *entry.value())
}

/// `DashMap::insert` holds the value for the key, in place of any other.
#[verifier::external_body]
fn text_index_insert(index: &mut DashMap<String, usize>, key: String, at: usize)
    ensures
        text_positions(*final(index)) == text_positions(*old(index)).insert(key@, at),
{
    index.insert(key, at);
}

/// `DashMap::remove` drops the key and what was held for it.
#[verifier::external_body]
fn text_index_remove(index: &mut DashMap<String, usize>, key: &String)
    ensures
        text_positions(*final(index)) == text_positions(*old(index)).remove(key@),
{
    index.remove(key);
}

/// `DashMap::new` makes a map that holds nothing.
#[verifier::external_body]
fn id_index_new() -> (r: DashMap<u128, usize>)
    ensures
        id_positions(r) =~= map![],
{
    DashMap::new()
}

/// `DashMap::get` finds the value held for an equal key, if there is one.
#[verifier::external_body]
fn id_index_get(index: &DashMap<u128, usize>, key: &u128) -> (r: Option<usize>)
    ensures
        r == (if id_positions(*index).contains_key(*key) {
            Some(id_positions(*index)[*key])
        } else {
            None
        }),
{
    index.get(key).map(|entry| *entry.value())
}

/// `DashMap::insert` holds the value for the key, in place of any other.
#[verifier::external_body]
fn id_index_insert(index: &mut DashMap<u128, usize>, key: u128, at: usize)
    ensures
        id_positions(*final(index)) == id_positions(*old(index)).insert(key, at),
{
    index.insert(key, at);
}

/// `DashMap::remove` drops the key and what was held for it.
#[verifier::external_body]
fn id_index_remove(index: &mut DashMap<u128, usize>, key: &u128)
    ensures
        id_positions(*final(index)) == id_positions(*old(index)).remove(*key),
{
    index.remove(key);
}

/// `DashSet::new` makes a set that holds nothing.
#[verifier::external_body]
pub(crate) fn text_set_new() -> (r: DashSet<String>)
    ensures
        set_texts(r) =~= set![],
{
    DashSet::new()
}

/// `DashSet::insert` adds the text to the set.
#[verifier::external_body]
pub(crate) fn text_set_insert(set: &mut DashSet<String>, text: String)
    ensures
        set_texts(*final(set)) == set_texts(*old(set)).insert(text@),
{
    set.insert(text);
}

/// `DashSet::remove` takes the text out of the set.
#[verifier::external_body]
pub(crate) fn text_set_remove(set: &mut DashSet<String>, text: &String)
    ensures
        set_texts(*final(set)) == set_texts(*old(set)).remove(text@),
{
    set.remove(text);
}

/// `DashSet::iter` hands out every text of the set once, in an order that is
/// not promised.
#[verifier::external_body]
pub(crate) fn text_set_list(set: &DashSet<String>) -> (r: Vec<String>)
    ensures
        r.deep_view().to_set() == set_texts(*set),
        r.deep_view().no_duplicates(),
{
    set.iter().map(|entry| entry.key().clone()).collect()
}

/// A type that entries of a `Directory` can be found by.
pub trait Key: DeepView + Sized {
    /// What the index of a directory holds.
    spec fn positions(index: DashMap<Self, usize>) -> Map<Self::V, usize>;

    /// An equal key.
    fn duplicate(&self) -> (r: Self)
        ensures
            r.deep_view() == self.deep_view(),
    ;

    /// An index that holds nothing.
    fn index_new() -> (r: DashMap<Self, usize>)
        ensures
            Self::positions(r) == Map::<Self::V, usize>::empty(),
    ;

    /// The position held for a key.
    fn index_get(index: &DashMap<Self, usize>, key: &Self) -> (r: Option<usize>)
        ensures
            r == (if Self::positions(*index).contains_key(key.deep_view()) {
                Some(Self::positions(*index)[key.deep_view()])
            } else {
                None
            }),
    ;

    /// Holds a position for a key.
    fn index_insert(index: &mut DashMap<Self, usize>, key: Self, at: usize)
        ensures
            Self::positions(*final(index)) == Self::positions(*old(index)).insert(
                key.deep_view(),
                at,
            ),
    ;

    /// Holds nothing for a key any more.
    fn index_remove(index: &mut DashMap<Self, usize>, key: &Self)
        ensures
            Self::positions(*final(index)) == Self::positions(*old(index)).remove(key.deep_view()),
    ;
}

impl Key for String {
    open spec fn positions(index: DashMap<String, usize>) -> Map<Seq<char>, usize> {
        text_positions(index)
    }

    fn duplicate(&self) -> (r: String) {
        self.clone()
    }

    fn index_new() -> (r: DashMap<String, usize>) {
        text_index_new()
    }

    fn index_get(index: &DashMap<String, usize>, key: &String) -> (r: Option<usize>) {
        text_index_get(index, key)
    }

    fn index_insert(index: &mut DashMap<String, usize>, key: String, at: usize) {
        text_index_insert(index, key, at);
    }

    fn index_remove(index: &mut DashMap<String, usize>, key: &String) {
        text_index_remove(index, key);
    }
}

impl Key for u128 {
    open spec fn positions(index: DashMap<u128, usize>) -> Map<u128, usize> {
        id_positions(index)
    }

    fn duplicate(&self) -> (r: u128) {
        *self
    }

    fn index_new() -> (r: DashMap<u128, usize>) {
        id_index_new()
    }

    fn index_get(index: &DashMap<u128, usize>, key: &u128) -> (r: Option<usize>) {
        id_index_get(index, key)
    }

    fn index_insert(index: &mut DashMap<u128, usize>, key: u128, at: usize) {
        id_index_insert(index, key, at);
    }

    fn index_remove(index: &mut DashMap<u128, usize>, key: &u128) {
        id_index_remove(index, key);
    }
}

/// Values found by key, and walked by position.
#[verifier::reject_recursive_types(K)]
#[verifier::reject_recursive_types(V)]
pub struct Directory<K: Key, V: DeepView> {
    index: DashMap<K, usize>,
    slots: Vec<(K, V)>,
}

impl<K: Key, V: DeepView> View for Directory<K, V> {
    type V = Map<K::V, V::V>;

    closed spec fn view(&self) -> Map<K::V, V::V> {
        Map::new(
            |k: K::V| K::positions(self.index).contains_key(k),
            |k: K::V| self.slots@[K::positions(self.index)[k] as int].1.deep_view(),
        )
    }
}

impl<K: Key, V: DeepView> Directory<K, V> {
    /// The index and the slots agree.
    pub closed spec fn wf(&self) -> bool {
        &&& forall|i: int|
            0 <= i < self.slots@.len() ==> {
                let k = (#[trigger] self.slots@[i]).0.deep_view();
                K::positions(self.index).contains_key(k) && K::positions(self.index)[k] == i
            }
        &&& forall|k: K::V| #[trigger]
            K::positions(self.index).contains_key(k) ==> {
                let at = K::positions(self.index)[k] as int;
                at < self.slots@.len() && self.slots@[at].0.deep_view() == k
            }
    }

    /// The keys in the order in which they are walked.
    pub closed spec fn order(&self) -> Seq<K::V> {
        Seq::new(self.slots@.len(), |i: int| self.slots@[i].0.deep_view())
    }

    /// Every key is walked once.
    pub proof fn lemma_order(&self)
        requires
            self.wf(),
        ensures
            self.order().no_duplicates(),
            forall|k: K::V| #[trigger] self@.contains_key(k) <==> self.order().contains(k),
            forall|i: int| 0 <= i < self.order().len() ==> self@.contains_key(#[trigger] self.order()[i]),
            self@.dom().finite(),
            self@.dom().len() == self.order().len(),
            self.order().to_set() == self@.dom(),
    {
        assert forall|i: int, j: int|
            0 <= i < self.order().len() && 0 <= j < self.order().len() && i != j implies self.order()[i]
            != self.order()[j] by {
            assert(self.slots@[i].0.deep_view() == self.order()[i]);
            assert(self.slots@[j].0.deep_view() == self.order()[j]);
        }
        assert forall|k: K::V| #[trigger] self@.contains_key(k) implies self.order().contains(k) by {
            assert(K::positions(self.index).contains_key(k));
            let at = K::positions(self.index)[k] as int;
            assert(self.order()[at] == k);
        }
        assert forall|i: int| 0 <= i < self.order().len() implies self@.contains_key(
            #[trigger] self.order()[i],
        ) by {
            assert(self.slots@[i].0.deep_view() == self.order()[i]);
        }
        assert(self.order().to_set() =~= self@.dom());
        self.order().unique_seq_to_set();
    }

    /// A directory that holds nothing.
    pub fn new() -> (r: Self)
        ensures
            r.wf(),
            r@ == Map::<K::V, V::V>::empty(),
    {
        let r = Directory { index: K::index_new(), slots: Vec::new() };
        assert(r@ =~= Map::<K::V, V::V>::empty());
        r
    }

    /// How many entries there are.
    pub fn len(&self) -> (r: usize)
        requires
            self.wf(),
        ensures
            r == self.order().len(),
            r == self@.dom().len(),
    {
        proof {
            self.lemma_order();
        }
        self.slots.len()
    }

    /// The key at a position.
    pub fn key_at(&self, i: usize) -> (r: &K)
        requires
            self.wf(),
            i < self.order().len(),
        ensures
            r.deep_view() == self.order()[i as int],
            self@.contains_key(r.deep_view()),
    {
        proof {
            self.lemma_order();
        }
        &self.slots[i].0
    }

    /// The value at a position.
    pub fn value_at(&self, i: usize) -> (r: &V)
        requires
            self.wf(),
            i < self.order().len(),
        ensures
            self@.contains_key(self.order()[i as int]),
            r.deep_view() == self@[self.order()[i as int]],
    {
        proof {
            self.lemma_order();
            assert(self.slots@[i as int].0.deep_view() == self.order()[i as int]);
        }
        &self.slots[i].1
    }

    /// All keys, in the order in which they are walked.
    pub fn keys(&self) -> (r: Vec<K>)
        requires
            self.wf(),
        ensures
            r.deep_view() == self.order(),
            r.deep_view().no_duplicates(),
            forall|k: K::V| #[trigger] self@.contains_key(k) <==> r.deep_view().contains(k),
            r.deep_view().to_set() == self@.dom(),
    {
        let mut out: Vec<K> = Vec::new();
        let mut i: usize = 0;
        assert(out.deep_view() =~= self.order().take(0));
        while i < self.slots.len()
            invariant
                i <= self.slots@.len(),
                out.deep_view() == self.order().take(i as int),
            decreases self.slots@.len() - i,
        {
            let ghost before = out.deep_view();
            let key = self.slots[i].0.duplicate();
            out.push(key);
            i = i + 1;
            assert(out.deep_view() =~= before.push(key.deep_view()));
            assert(self.order().take(i as int) =~= self.order().take(i - 1).push(self.order()[i - 1]));
        }
        proof {
            self.lemma_order();
            assert(self.order().take(self.order().len() as int) =~= self.order());
        }
        out
    }

    /// Whether there is an entry for a key.
    pub fn contains_key(&self, key: &K) -> (r: bool)
        requires
            self.wf(),
        ensures
            r == self@.contains_key(key.deep_view()),
    {
        match K::index_get(&self.index, key) {
            Some(_) => true,
            None => false,
        }
    }

    /// The value held for a key.
    pub fn get(&self, key: &K) -> (r: Option<&V>)
        requires
            self.wf(),
        ensures
            r is Some <==> self@.contains_key(key.deep_view()),
            r matches Some(v) ==> v.deep_view() == self@[key.deep_view()],
    {
        match K::index_get(&self.index, key) {
            Some(at) => Some(&self.slots[at].1),
            None => None,
        }
    }

    /// Gives access to the value held for a key.
    pub fn get_mut(&mut self, key: &K) -> (r: Option<&mut V>)
        requires
            old(self).wf(),
        ensures
            r is Some <==> old(self)@.contains_key(key.deep_view()),
            final(self).wf(),
            final(self).order() == old(self).order(),
            match r {
                Some(v) => {
                    &&& v.deep_view() == old(self)@[key.deep_view()]
                    &&& final(self)@ == old(self)@.insert(
                        key.deep_view(),
                        final(v).deep_view(),
                    )
                },
                None => final(self)@ == old(self)@,
            },
    {
        match K::index_get(&self.index, key) {
            Some(at) => {
                let r = &mut self.slots[at].1;
                Some(r)
            },
            None => None,
        }
    }

    /// Holds a value for a key, in place of any other.
    pub fn insert(&mut self, key: K, value: V)
        requires
            old(self).wf(),
        ensures
            final(self).wf(),
            final(self)@ == old(self)@.insert(key.deep_view(), value.deep_view()),
            old(self)@.contains_key(key.deep_view()) ==> final(self).order() == old(self).order(),
            !old(self)@.contains_key(key.deep_view()) ==> final(self).order() == old(
                self,
            ).order().push(key.deep_view()),
    {
        let ghost k = key.deep_view();
        match K::index_get(&self.index, &key) {
            Some(at) => {
                self.slots[at].1 = value;
            },
            None => {
                let at: usize = self.slots.len();
                K::index_insert(&mut self.index, key.duplicate(), at);
                self.slots.push((key, value));
            },
        }
        assert(self@ =~= old(self)@.insert(k, value.deep_view()));
        proof {
            if old(self)@.contains_key(k) {
                assert(self.order() =~= old(self).order());
            } else {
                assert(self.order() =~= old(self).order().push(k));
            }
        }
    }

    /// Drops the entry for a key, and hands out its value.
    pub fn remove(&mut self, key: &K) -> (r: Option<V>)
        requires
            old(self).wf(),
        ensures
            final(self).wf(),
            final(self)@ == old(self)@.remove(key.deep_view()),
            r is Some <==> old(self)@.contains_key(key.deep_view()),
            r matches Some(v) ==> v.deep_view() == old(self)@[key.deep_view()],
    {
        let ghost k = key.deep_view();
        match K::index_get(&self.index, key) {
            Some(at) => {
                K::index_remove(&mut self.index, key);
                let entry = self.slots.swap_remove(at);
                if at < self.slots.len() {
                    let moved = self.slots[at].0.duplicate();
                    K::index_insert(&mut self.index, moved, at);
                }
                proof {
                    assert(self@ =~= old(self)@.remove(k));
                }
                Some(entry.1)
            },
            None => {
                assert(self@ =~= old(self)@.remove(k));
                None
            },
        }
    }
}

} // verus!
