//! The tables that the two passes fill: finite maps and sets, kept in the order
//! in which their keys first came.

use vstd::prelude::*;

verus! {

/// A type whose values can be compared by their views.
pub trait Key: View + Sized {
    /// Whether two keys have the same view.
    fn same(&self, other: &Self) -> (b: bool)
        ensures
            b == (self@ == other@),
    ;

    /// A copy of the key.
    fn copy(&self) -> (k: Self)
        ensures
            k@ == self@,
    ;
}

impl Key for String {
    fn same(&self, other: &Self) -> (b: bool) {
        *self == *other
    }

    fn copy(&self) -> (k: Self) {
        self.clone()
    }
}

/// Whether a string is the given word.
pub fn is_word(s: &String, word: &str) -> (b: bool)
    ensures
        b == (s@ == word@),
{
    let w = String::from_str(word);
    *s == w
}

/// The identity of an identifier: its symbol and the marks of its lexical-scope
/// context, the outermost first.
#[derive(Debug)]
pub struct IdentId {
    pub sym: String,
    pub ctxt: Vec<u32>,
}

/// The mathematical value of an [`IdentId`].
pub struct IdentKey {
    pub sym: Seq<char>,
    pub ctxt: Seq<u32>,
}

impl View for IdentId {
    type V = IdentKey;

    open spec fn view(&self) -> IdentKey {
        IdentKey { sym: self.sym@, ctxt: self.ctxt@ }
    }
}

/// Whether two lists of marks are equal.
pub fn same_marks(a: &Vec<u32>, b: &Vec<u32>) -> (r: bool)
    ensures
        r == (a@ == b@),
{
    if a.len() != b.len() {
        return false;
    }
    let mut i: usize = 0;
    while i < a.len()
        invariant
            a.len() == b.len(),
            i <= a.len(),
            a@.subrange(0, i as int) == b@.subrange(0, i as int),
        decreases a.len() - i,
    {
        if a[i] != b[i] {
            assert(a@[i as int] != b@[i as int]);
            return false;
        }
        assert(a@.subrange(0, i + 1) =~= a@.subrange(0, i as int).push(a@[i as int]));
        assert(b@.subrange(0, i + 1) =~= b@.subrange(0, i as int).push(b@[i as int]));
        i += 1;
    }
    assert(a@ =~= a@.subrange(0, a.len() as int));
    assert(b@ =~= b@.subrange(0, b.len() as int));
    true
}

impl IdentId {
    /// The identity made of a symbol and a context.
    pub fn new(sym: &str, ctxt: Vec<u32>) -> (id: IdentId)
        ensures
            id@ == (IdentKey { sym: sym@, ctxt: ctxt@ }),
    {
        IdentId { sym: String::from_str(sym), ctxt }
    }
}

impl Key for IdentId {
    fn same(&self, other: &Self) -> (b: bool) {
        self.sym == other.sym && same_marks(&self.ctxt, &other.ctxt)
    }

    fn copy(&self) -> (k: Self) {
        IdentId { sym: self.sym.clone(), ctxt: crate::tree::copy_marks(&self.ctxt) }
    }
}

/// Whether a key occurs in a list.
pub open spec fn occurs<K: View>(keys: Seq<K>, k: K::V) -> bool {
    exists|i: int| 0 <= i < keys.len() && (#[trigger] keys[i])@ == k
}

/// Whether `i` is the first place at which a key occurs.
pub open spec fn first_at<K: View>(keys: Seq<K>, k: K::V, i: int) -> bool {
    &&& 0 <= i < keys.len()
    &&& keys[i]@ == k
    &&& forall|j: int| 0 <= j < i ==> (#[trigger] keys[j])@ != k
}

/// The first place at which a key occurs.
pub open spec fn place<K: View>(keys: Seq<K>, k: K::V) -> int {
    choose|i: int| first_at(keys, k, i)
}

/// The views of a list of keys, in order.
pub open spec fn views<K: View>(keys: Seq<K>) -> Seq<K::V> {
    Seq::new(keys.len(), |i: int| keys[i]@)
}

/// A key that occurs first at `i` has `i` as its place.
pub proof fn lemma_place<K: View>(keys: Seq<K>, k: K::V, i: int)
    requires
        first_at(keys, k, i),
    ensures
        occurs(keys, k),
        place(keys, k) == i,
{
    let j = place(keys, k);
    assert(first_at(keys, k, j));
    if j < i {
        assert(keys[j]@ != k);
    } else if i < j {
        assert(keys[i]@ != k);
    }
}

/// A key that occurs has a first place.
pub proof fn lemma_occurs<K: View>(keys: Seq<K>, k: K::V)
    requires
        occurs(keys, k),
    ensures
        first_at(keys, k, place(keys, k)),
    decreases keys.len(),
{
    let i = choose|i: int| 0 <= i < keys.len() && (#[trigger] keys[i])@ == k;
    lemma_first_before(keys, k, i);
}

/// A key that occurs at `i` occurs first at `i` or before.
proof fn lemma_first_before<K: View>(keys: Seq<K>, k: K::V, i: int)
    requires
        0 <= i < keys.len(),
        keys[i]@ == k,
    ensures
        first_at(keys, k, place(keys, k)),
    decreases i,
{
    if forall|j: int| 0 <= j < i ==> (#[trigger] keys[j])@ != k {
        assert(first_at(keys, k, i));
    } else {
        let j = choose|j: int| 0 <= j < i && (#[trigger] keys[j])@ == k;
        lemma_first_before(keys, k, j);
    }
}

/// The first place at which a key occurs, if there is one.
fn find<K: Key>(keys: &Vec<K>, k: &K) -> (r: Option<usize>)
    ensures
        match r {
            Some(i) => first_at(keys@, k@, i as int),
            None => !occurs(keys@, k@),
        },
{
    let mut i: usize = 0;
    while i < keys.len()
        invariant
            i <= keys.len(),
            forall|j: int| 0 <= j < i ==> (#[trigger] keys[j])@ != k@,
        decreases keys.len() - i,
    {
        if keys[i].same(k) {
            return Some(i);
        }
        i += 1;
    }
    None
}

/// Appending a key leaves the places of the keys before it, and gives a new key
/// the last place.
proof fn lemma_push<K: View>(keys0: Seq<K>, keys1: Seq<K>, k: K::V)
    requires
        keys1.len() == keys0.len() + 1,
        forall|i: int| 0 <= i < keys0.len() ==> (#[trigger] keys1[i])@ == keys0[i]@,
        keys1[keys0.len() as int]@ == k,
    ensures
        forall|q: K::V| #[trigger] occurs(keys1, q) == (occurs(keys0, q) || q == k),
        forall|q: K::V| occurs(keys0, q) ==> #[trigger] place(keys1, q) == place(keys0, q),
        !occurs(keys0, k) ==> place(keys1, k) == keys0.len(),
        views(keys1) == views(keys0).push(k),
{
    let n = keys0.len() as int;
    assert forall|q: K::V| #[trigger] occurs(keys1, q) == (occurs(keys0, q) || q == k) by {
        if occurs(keys0, q) {
            let j = choose|j: int| 0 <= j < keys0.len() && (#[trigger] keys0[j])@ == q;
            assert(keys1[j]@ == q);
        }
        if occurs(keys1, q) {
            let j = choose|j: int| 0 <= j < keys1.len() && (#[trigger] keys1[j])@ == q;
            if j < n {
                assert(keys0[j]@ == q);
            }
        }
    }
    assert forall|q: K::V| occurs(keys0, q) implies #[trigger] place(keys1, q) == place(
        keys0,
        q,
    ) by {
        lemma_occurs(keys0, q);
        let j = place(keys0, q);
        assert(first_at(keys1, q, j)) by {
            assert forall|a: int| 0 <= a < j implies (#[trigger] keys1[a])@ != q by {
                assert(keys0[a]@ != q);
            }
        }
        lemma_place(keys1, q, j);
    }
    if !occurs(keys0, k) {
        assert(first_at(keys1, k, n)) by {
            assert forall|a: int| 0 <= a < n implies (#[trigger] keys1[a])@ != k by {
                assert(keys0[a]@ == keys1[a]@);
            }
        }
        lemma_place(keys1, k, n);
    }
    assert(views(keys1) =~= views(keys0).push(k));
}

/// One entry of a [`Table`].
#[derive(Debug)]
pub struct Entry<K, V> {
    pub key: K,
    pub value: V,
}

/// The keys of a list of entries.
pub open spec fn entry_keys<K, V>(entries: Seq<Entry<K, V>>) -> Seq<K> {
    Seq::new(entries.len(), |i: int| entries[i].key)
}

/// A finite map whose keys stay in the order in which they first came.
#[derive(Debug)]
pub struct Table<K: Key, V: View> {
    entries: Vec<Entry<K, V>>,
}

impl<K: Key, V: View> View for Table<K, V> {
    type V = Map<K::V, V::V>;

    closed spec fn view(&self) -> Map<K::V, V::V> {
        let keys = entry_keys(self.entries@);
        Map::new(|k: K::V| occurs(keys, k), |k: K::V| self.entries[place(keys, k)].value@)
    }
}

impl<K: Key, V: View> Table<K, V> {
    /// The keys, in the order in which they first came.
    pub closed spec fn order(&self) -> Seq<K::V> {
        views(entry_keys(self.entries@))
    }

    /// The table without entries.
    pub fn new() -> (t: Self)
        ensures
            t@ == Map::<K::V, V::V>::empty(),
            t.order() == Seq::<K::V>::empty(),
    {
        let t = Table { entries: Vec::new() };
        assert(t@ =~= Map::<K::V, V::V>::empty());
        assert(t.order() =~= Seq::<K::V>::empty());
        t
    }

    /// The number of entries.
    pub fn len(&self) -> (n: usize)
        ensures
            n == self.order().len(),
    {
        self.entries.len()
    }

    /// The key that came as number `i`, with its value.
    pub fn entry_at(&self, i: usize) -> (e: (&K, &V))
        requires
            i < self.order().len(),
        ensures
            e.0@ == self.order()[i as int],
            self@.contains_key(e.0@),
            e.1@ == self@[e.0@],
    {
        let key = &self.entries[i].key;
        assert(entry_keys(self.entries@)[i as int] == self.entries[i as int].key);
        match self.find(key) {
            Some(j) => {
                proof {
                    lemma_place(entry_keys(self.entries@), key@, j as int);
                }
                (key, &self.entries[j].value)
            },
            None => {
                proof {
                    assert(occurs(entry_keys(self.entries@), key@));
                }
                (key, &self.entries[i].value)
            },
        }
    }

    /// The first place of a key among the entries, if it has one.
    fn find(&self, k: &K) -> (r: Option<usize>)
        ensures
            match r {
                Some(i) => first_at(entry_keys(self.entries@), k@, i as int),
                None => !occurs(entry_keys(self.entries@), k@),
            },
    {
        let mut i: usize = 0;
        while i < self.entries.len()
            invariant
                i <= self.entries.len(),
                forall|j: int| 0 <= j < i ==> (#[trigger] entry_keys(self.entries@)[j])@ != k@,
            decreases self.entries.len() - i,
        {
            if self.entries[i].key.same(k) {
                assert(entry_keys(self.entries@)[i as int] == self.entries[i as int].key);
                return Some(i);
            }
            assert(entry_keys(self.entries@)[i as int] == self.entries[i as int].key);
            i += 1;
        }
        None
    }

    /// The value of a key, if the table has the key.
    pub fn get(&self, k: &K) -> (r: Option<&V>)
        ensures
            match r {
                Some(v) => self@.contains_key(k@) && v@ == self@[k@],
                None => !self@.contains_key(k@),
            },
    {
        match self.find(k) {
            Some(i) => {
                proof {
                    lemma_place(entry_keys(self.entries@), k@, i as int);
                }
                Some(&self.entries[i].value)
            },
            None => None,
        }
    }

    /// Whether the table has the key.
    pub fn contains_key(&self, k: &K) -> (b: bool)
        ensures
            b == self@.contains_key(k@),
    {
        self.get(k).is_some()
    }

    /// Gives the key this value, whether or not the key had one.
    pub fn insert(&mut self, k: K, v: V)
        ensures
            final(self)@ == old(self)@.insert(k@, v@),
            final(self).order() == if old(self)@.contains_key(k@) {
                old(self).order()
            } else {
                old(self).order().push(k@)
            },
    {
        let ghost entries0 = self.entries@;
        let ghost keys0 = entry_keys(entries0);
        let ghost kv = k@;
        let ghost vv = v@;
        match self.find(&k) {
            Some(i) => {
                self.entries.set(i, Entry { key: k, value: v });
                proof {
                    let entries1 = self.entries@;
                    let keys1 = entry_keys(entries1);
                    lemma_place(keys0, kv, i as int);
                    assert(views(keys1) =~= views(keys0));
                    assert forall|q: K::V| #[trigger] occurs(keys1, q) == occurs(keys0, q) by {
                        if occurs(keys0, q) {
                            let j = choose|j: int| 0 <= j < keys0.len() && (#[trigger] keys0[j])@ == q;
                            assert(keys1[j]@ == q);
                        }
                        if occurs(keys1, q) {
                            let j = choose|j: int| 0 <= j < keys1.len() && (#[trigger] keys1[j])@ == q;
                            assert(keys0[j]@ == q);
                        }
                    }
                    assert forall|q: K::V| occurs(keys0, q) implies #[trigger] place(keys1, q)
                        == place(keys0, q) by {
                        lemma_occurs(keys0, q);
                        let j = place(keys0, q);
                        assert(first_at(keys1, q, j)) by {
                            assert(keys1[j]@ == keys0[j]@);
                            assert forall|a: int| 0 <= a < j implies (#[trigger] keys1[a])@ != q by {
                                assert(keys0[a]@ != q);
                            }
                        }
                        lemma_place(keys1, q, j);
                    }
                    assert forall|q: K::V| occurs(keys0, q) implies #[trigger] self@[q] == old(
                        self,
                    )@.insert(kv, vv)[q] by {
                        lemma_occurs(keys0, q);
                        let j = place(keys0, q);
                        assert(place(keys1, q) == j);
                        if j != i {
                            assert(entries1[j] == entries0[j]);
                        }
                    }
                    assert(self@ =~= old(self)@.insert(kv, vv));
                }
            },
            None => {
                self.entries.push(Entry { key: k, value: v });
                proof {
                    let entries1 = self.entries@;
                    let keys1 = entry_keys(entries1);
                    lemma_push(keys0, keys1, kv);
                    assert forall|q: K::V| occurs(keys1, q) implies #[trigger] self@[q] == old(
                        self,
                    )@.insert(kv, vv)[q] by {
                        if occurs(keys0, q) {
                            lemma_occurs(keys0, q);
                            let j = place(keys0, q);
                            assert(place(keys1, q) == j);
                            assert(entries1[j] == entries0[j]);
                        } else {
                            assert(place(keys1, q) == keys0.len());
                        }
                    }
                    assert(self@ =~= old(self)@.insert(kv, vv));
                }
            },
        }
    }

    /// Gives the key this value unless the key has one.
    pub fn insert_if_absent(&mut self, k: K, v: V)
        ensures
            final(self)@ == if old(self)@.contains_key(k@) {
                old(self)@
            } else {
                old(self)@.insert(k@, v@)
            },
            final(self).order() == if old(self)@.contains_key(k@) {
                old(self).order()
            } else {
                old(self).order().push(k@)
            },
    {
        if !self.contains_key(&k) {
            self.insert(k, v);
        }
    }
}

/// A finite set whose members stay in the order in which they first came.
#[derive(Debug)]
pub struct KeySet<K: Key> {
    keys: Vec<K>,
}

impl<K: Key> View for KeySet<K> {
    type V = Set<K::V>;

    closed spec fn view(&self) -> Set<K::V> {
        Set::new(|k: K::V| occurs(self.keys@, k))
    }
}

impl<K: Key> KeySet<K> {
    /// The members, in the order in which they first came.
    pub closed spec fn order(&self) -> Seq<K::V> {
        views(self.keys@)
    }

    /// The set without members.
    pub fn new() -> (s: Self)
        ensures
            s@ == Set::<K::V>::empty(),
            s.order() == Seq::<K::V>::empty(),
    {
        let s = KeySet { keys: Vec::new() };
        assert(s@ =~= Set::<K::V>::empty());
        assert(s.order() =~= Seq::<K::V>::empty());
        s
    }

    /// The number of members.
    pub fn len(&self) -> (n: usize)
        ensures
            n == self.order().len(),
    {
        self.keys.len()
    }

    /// The member that came as number `i`.
    pub fn key_at(&self, i: usize) -> (k: &K)
        requires
            i < self.order().len(),
        ensures
            k@ == self.order()[i as int],
            self@.contains(k@),
    {
        &self.keys[i]
    }

    /// Whether the key is a member.
    pub fn contains(&self, k: &K) -> (b: bool)
        ensures
            b == self@.contains(k@),
    {
        find(&self.keys, k).is_some()
    }

    /// Makes the key a member.
    pub fn insert(&mut self, k: K)
        ensures
            final(self)@ == old(self)@.insert(k@),
            final(self).order() == if old(self)@.contains(k@) {
                old(self).order()
            } else {
                old(self).order().push(k@)
            },
    {
        let ghost keys0 = self.keys@;
        let ghost kv = k@;
        if find(&self.keys, &k).is_none() {
            self.keys.push(k);
            proof {
                lemma_push(keys0, self.keys@, kv);
                assert(self@ =~= old(self)@.insert(kv));
            }
        } else {
            assert(self@ =~= old(self)@.insert(kv));
        }
    }

    /// The members are what occurs in the order.
    pub proof fn lemma_members(&self)
        ensures
            forall|k: K::V| self@.contains(k) <==> self.order().contains(k),
    {
        let keys = self.keys@;
        assert forall|k: K::V| self@.contains(k) <==> self.order().contains(k) by {
            if self@.contains(k) {
                let i = choose|i: int| 0 <= i < keys.len() && (#[trigger] keys[i])@ == k;
                assert(self.order()[i] == k);
            }
            if self.order().contains(k) {
                let i = choose|i: int| 0 <= i < self.order().len() && self.order()[i] == k;
                assert(keys[i]@ == k);
            }
        }
    }

    /// A copy of the set.
    pub fn copy(&self) -> (s: Self)
        ensures
            s@ == self@,
            s.order() == self.order(),
    {
        let mut keys: Vec<K> = Vec::new();
        let mut i: usize = 0;
        while i < self.keys.len()
            invariant
                i <= self.keys.len(),
                keys.len() == i,
                forall|j: int| 0 <= j < i ==> (#[trigger] keys[j])@ == self.keys[j]@,
            decreases self.keys.len() - i,
        {
            keys.push(self.keys[i].copy());
            i += 1;
        }
        proof {
            assert(views(keys@) =~= views(self.keys@));
            assert forall|q: K::V| #[trigger] occurs(keys@, q) == occurs(self.keys@, q) by {
                if occurs(keys@, q) {
                    let j = choose|j: int| 0 <= j < keys.len() && (#[trigger] keys[j])@ == q;
                    assert(self.keys[j]@ == q);
                }
                if occurs(self.keys@, q) {
                    let j = choose|j: int| 0 <= j < self.keys.len() && (#[trigger] self.keys[j])@ == q;
                    assert(keys[j]@ == q);
                }
            }
        }
        let s = KeySet { keys };
        assert(s@ =~= self@);
        s
    }
}

} // verus!
