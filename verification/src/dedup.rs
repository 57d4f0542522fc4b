//! The deduplication window: items kept once per key, in the order in which their keys
//! first arrived, until the window is drained.
use vstd::prelude::*;
use vstd::hash_set::StringHashSet;

verus! {

/// Items held once per key, in first-arrival order.
pub struct DedupBuffer<T> {
    seen: StringHashSet,
    keys: Vec<String>,
    items: Vec<T>,
}

impl<T> DedupBuffer<T> {
    /// The keys of the held items, in order.
    pub closed spec fn keys(&self) -> Seq<Seq<char>> {
        self.keys.deep_view()
    }

    /// The held items, in order.
    pub closed spec fn items(&self) -> Seq<T> {
        self.items@
    }

    /// The buffer's invariant: one key per item, no key twice, and the lookup set holding
    /// exactly the keys.
    pub closed spec fn wf(&self) -> bool {
        &&& self.keys@.len() == self.items@.len()
        &&& self.keys().no_duplicates()
        &&& self.seen@ == self.keys().to_set()
    }

    /// An empty buffer.
    pub fn new() -> (r: Self)
        ensures
            r.wf(),
            r.keys() == Seq::<Seq<char>>::empty(),
            r.items() == Seq::<T>::empty(),
    {
        let r = DedupBuffer { seen: StringHashSet::new(), keys: Vec::new(), items: Vec::new() };
        assert(r.keys() =~= Seq::<Seq<char>>::empty());
        assert(r.seen@ =~= r.keys().to_set());
        r
    }

    /// Keeps `item` under `key` unless an item with that key is already held; says
    /// whether it was kept.
    pub fn insert(&mut self, key: String, item: T) -> (added: bool)
        requires
            old(self).wf(),
        ensures
            final(self).wf(),
            added == !old(self).keys().contains(key@),
            added ==> final(self).keys() == old(self).keys().push(key@) && final(self).items() == old(
                self,
            ).items().push(item),
            !added ==> final(self).keys() == old(self).keys() && final(self).items() == old(
                self,
            ).items(),
    {
        if self.seen.contains(key.as_str()) {
            return false;
        }
        let ghost old_keys = self.keys();
        self.seen.insert(key.clone());
        self.keys.push(key);
        self.items.push(item);
        proof {
            assert(self.keys() =~= old_keys.push(key@));
            assert(self.seen@ =~= self.keys().to_set()) by {
                assert forall|k: Seq<char>| self.keys().contains(k) <==> old_keys.contains(k) || k
                    == key@ by {
                    if self.keys().contains(k) {
                        let j = choose|j: int| 0 <= j < self.keys().len() && self.keys()[j] == k;
                        if j < old_keys.len() {
                            assert(old_keys[j] == k);
                        }
                    }
                    if old_keys.contains(k) {
                        let j = choose|j: int| 0 <= j < old_keys.len() && old_keys[j] == k;
                        assert(self.keys()[j] == k);
                    }
                    if k == key@ {
                        assert(self.keys()[old_keys.len() as int] == k);
                    }
                }
            }
            assert forall|a: int, b: int|
                0 <= a < b < self.keys().len() implies self.keys()[a] != self.keys()[b] by {
                if b == old_keys.len() {
                    assert(old_keys.contains(old_keys[a]));
                }
            }
        }
        true
    }

    /// The number of held items.
    pub fn len(&self) -> (r: usize)
        requires
            self.wf(),
        ensures
            r == self.items().len(),
            r == self.keys().len(),
    {
        self.items.len()
    }

    /// A well-formed buffer holds no key twice.
    pub proof fn lemma_keys_distinct(&self)
        requires
            self.wf(),
        ensures
            self.keys().no_duplicates(),
    {
    }

    /// The held items, in order.
    pub fn as_vec(&self) -> (r: &Vec<T>)
        ensures
            r@ == self.items(),
    {
        &self.items
    }

    /// Hands out the held items in order and empties the buffer.
    pub fn drain(&mut self) -> (r: Vec<T>)
        requires
            old(self).wf(),
        ensures
            final(self).wf(),
            r@ == old(self).items(),
            final(self).keys() == Seq::<Seq<char>>::empty(),
            final(self).items() == Seq::<T>::empty(),
    {
        let mut out: Vec<T> = Vec::new();
        std::mem::swap(&mut out, &mut self.items);
        self.keys.clear();
        self.seen.clear();
        assert(self.keys() =~= Seq::<Seq<char>>::empty());
        assert(self.seen@ =~= self.keys().to_set());
        out
    }
}

} // verus!
