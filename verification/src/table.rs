//! A finite map keyed by strings.
//!
//! The hostnames of a node key three maps: the deployment catalog, the
//! host-to-thread affinity map and each worker's isolate cache. All three are
//! built on [`StrTable`], a list of bindings in which no key occurs twice and
//! whose view is a mathematical `Map` from the key's characters to the value.

use crate::text::str_eq;
use vstd::prelude::*;

verus! {

/// One binding of a table.
#[derive(Debug)]
pub struct Entry<V> {
    pub key: String,
    pub value: V,
}

/// The keys of a list of bindings, in order.
pub open spec fn keys_of<V>(entries: Seq<Entry<V>>) -> Seq<Seq<char>> {
    Seq::new(entries.len(), |i: int| entries[i].key@)
}

/// The map that a list of bindings stands for: each key goes to the value
/// stored with it.
pub open spec fn map_of<V>(entries: Seq<Entry<V>>) -> Map<Seq<char>, V> {
    Map::new(
        |k: Seq<char>| keys_of(entries).contains(k),
        |k: Seq<char>| entries[keys_of(entries).index_of(k)].value,
    )
}

/// In a sequence without duplicates an element is found at its own index.
proof fn lemma_index_of_unique<A>(s: Seq<A>, i: int)
    requires
        s.no_duplicates(),
        0 <= i < s.len(),
    ensures
        s.index_of(s[i]) == i,
{
    assert(s.contains(s[i]));
    let j = s.index_of(s[i]);
    assert(0 <= j < s.len() && s[j] == s[i]);
}

/// The elements of a sequence with one more element are those of the
/// sequence and that element.
pub proof fn lemma_push_to_set<A>(s: Seq<A>, x: A)
    ensures
        s.push(x).to_set() == s.to_set().insert(x),
{
    assert forall|y: A| #[trigger] s.push(x).to_set().contains(y) <==> s.to_set().insert(x).contains(
        y,
    ) by {
        vstd::seq_lib::lemma_seq_contains_after_push(s, x, y);
    }
    assert(s.push(x).to_set() =~= s.to_set().insert(x));
}

/// A list of bindings with distinct keys binds each of its keys to the value
/// beside it, and binds as many keys as it is long.
pub proof fn lemma_map_of<V>(entries: Seq<Entry<V>>)
    requires
        keys_of(entries).no_duplicates(),
    ensures
        map_of(entries).dom() == keys_of(entries).to_set(),
        map_of(entries).dom().finite(),
        map_of(entries).len() == entries.len(),
        forall|i: int|
            0 <= i < entries.len() ==> map_of(entries).contains_key(#[trigger] entries[i].key@)
                && map_of(entries)[entries[i].key@] == entries[i].value,
{
    let keys = keys_of(entries);
    assert(map_of(entries).dom() =~= keys.to_set());
    keys.unique_seq_to_set();
    assert forall|i: int| 0 <= i < entries.len() implies map_of(entries).contains_key(
        #[trigger] entries[i].key@,
    ) && map_of(entries)[entries[i].key@] == entries[i].value by {
        assert(keys[i] == entries[i].key@);
        lemma_index_of_unique(keys, i);
    }
}

/// Taking the binding at position `i` out of a list with distinct keys
/// unbinds its key and nothing else.
proof fn lemma_map_of_remove<V>(entries: Seq<Entry<V>>, i: int)
    requires
        keys_of(entries).no_duplicates(),
        0 <= i < entries.len(),
    ensures
        keys_of(entries.remove(i)).no_duplicates(),
        map_of(entries.remove(i)) == map_of(entries).remove(entries[i].key@),
{
    let rest = entries.remove(i);
    let bk = keys_of(entries);
    let ak = keys_of(rest);
    assert(ak =~= bk.remove(i));
    assert forall|a: int, b: int| 0 <= a < ak.len() && 0 <= b < ak.len() && a != b implies ak[a]
        != ak[b] by {
        let a0 = if a < i { a } else { a + 1 };
        let b0 = if b < i { b } else { b + 1 };
        assert(bk[a0] != bk[b0]);
    }
    lemma_map_of(entries);
    lemma_map_of(rest);
    let want = map_of(entries).remove(entries[i].key@);
    assert(bk[i] == entries[i].key@);
    assert forall|k: Seq<char>| map_of(rest).contains_key(k) <==> want.contains_key(k) by {
        if map_of(rest).contains_key(k) {
            assert(ak.contains(k));
            let a = ak.index_of(k);
            let a0 = if a < i { a } else { a + 1 };
            assert(bk[a0] == k);
            assert(bk.contains(k));
        }
        if want.contains_key(k) {
            assert(bk.contains(k));
            let b = bk.index_of(k);
            let b1 = if b < i { b } else { b - 1 };
            assert(ak[b1] == k);
            assert(ak.contains(k));
        }
    }
    assert forall|k: Seq<char>| map_of(rest).contains_key(k) implies map_of(rest)[k] == want[k] by {
        assert(ak.contains(k));
        let a = ak.index_of(k);
        let a0 = if a < i { a } else { a + 1 };
        assert(rest[a] == entries[a0]);
        assert(rest[a].key@ == k);
        assert(entries[a0].key@ == k);
    }
    assert(map_of(rest) =~= want);
}

/// Storing a binding of an unbound key after the others binds that key and
/// leaves the rest as it was.
proof fn lemma_map_of_push<V>(entries: Seq<Entry<V>>, entry: Entry<V>)
    requires
        keys_of(entries).no_duplicates(),
        !map_of(entries).contains_key(entry.key@),
    ensures
        keys_of(entries.push(entry)).no_duplicates(),
        map_of(entries.push(entry)) == map_of(entries).insert(entry.key@, entry.value),
{
    let more = entries.push(entry);
    let bk = keys_of(entries);
    let ak = keys_of(more);
    assert(ak =~= bk.push(entry.key@));
    assert forall|a: int, b: int| 0 <= a < ak.len() && 0 <= b < ak.len() && a != b implies ak[a]
        != ak[b] by {
        if a < bk.len() && b < bk.len() {
            assert(bk[a] != bk[b]);
        } else if a < bk.len() {
            assert(bk.contains(bk[a]));
        } else {
            assert(bk.contains(bk[b]));
        }
    }
    lemma_map_of(entries);
    lemma_map_of(more);
    let want = map_of(entries).insert(entry.key@, entry.value);
    assert forall|k: Seq<char>| map_of(more).contains_key(k) <==> want.contains_key(k) by {
        if map_of(more).contains_key(k) {
            let a = ak.index_of(k);
            if a < bk.len() {
                assert(bk[a] == k);
            }
        }
        if map_of(entries).contains_key(k) {
            let b = bk.index_of(k);
            assert(ak[b] == k);
        }
        if k == entry.key@ {
            assert(ak[bk.len() as int] == k);
        }
    }
    assert forall|k: Seq<char>| map_of(more).contains_key(k) implies map_of(more)[k] == want[k] by {
        let a = ak.index_of(k);
        assert(more[a].key@ == k);
        if a < bk.len() {
            assert(more[a] == entries[a]);
        }
    }
    assert(map_of(more) =~= want);
}

/// A map from strings to `V`, viewed as `Map<Seq<char>, V>`.
#[derive(Debug)]
pub struct StrTable<V> {
    entries: Vec<Entry<V>>,
}

impl<V> View for StrTable<V> {
    type V = Map<Seq<char>, V>;

    closed spec fn view(&self) -> Map<Seq<char>, V> {
        map_of(self.entries@)
    }
}

impl<V> StrTable<V> {
    /// The bindings in the order in which they are stored.
    pub closed spec fn bindings(&self) -> Seq<Entry<V>> {
        self.entries@
    }

    #[verifier::type_invariant]
    spec fn distinct_keys(&self) -> bool {
        keys_of(self.entries@).no_duplicates()
    }

    /// The empty table.
    pub fn new() -> (table: Self)
        ensures
            table@ == Map::<Seq<char>, V>::empty(),
            table.bindings() == Seq::<Entry<V>>::empty(),
    {
        let table = StrTable { entries: Vec::new() };
        assert(table@ =~= Map::<Seq<char>, V>::empty());
        table
    }

    /// The number of bindings.
    pub fn len(&self) -> (n: usize)
        ensures
            n == self@.len(),
            n == self.bindings().len(),
            self@.dom().finite(),
            self@ == map_of(self.bindings()),
            keys_of(self.bindings()).no_duplicates(),
    {
        proof {
            use_type_invariant(self);
            lemma_map_of(self.entries@);
        }
        self.entries.len()
    }

    /// Where `key` is stored, if it is bound.
    pub fn position(&self, key: &str) -> (at: Option<usize>)
        ensures
            match at {
                Some(i) => i < self.bindings().len() && self.bindings()[i as int].key@ == key@,
                None => !self@.contains_key(key@),
            },
            at is Some <==> self@.contains_key(key@),
    {
        proof {
            use_type_invariant(self);
            lemma_map_of(self.entries@);
        }
        let mut i: usize = 0;
        while i < self.entries.len()
            invariant
                i <= self.entries@.len(),
                forall|j: int| 0 <= j < i ==> keys_of(self.entries@)[j] != key@,
            decreases self.entries@.len() - i,
        {
            if str_eq(self.entries[i].key.as_str(), key) {
                assert(keys_of(self.entries@)[i as int] == key@);
                return Some(i);
            }
            i += 1;
        }
        None
    }

    /// Whether `key` is bound.
    pub fn contains_key(&self, key: &str) -> (found: bool)
        ensures
            found == self@.contains_key(key@),
    {
        self.position(key).is_some()
    }

    /// The value that `key` is bound to.
    pub fn get(&self, key: &str) -> (value: Option<&V>)
        ensures
            match value {
                Some(v) => self@.contains_key(key@) && *v == self@[key@],
                None => !self@.contains_key(key@),
            },
    {
        proof {
            use_type_invariant(self);
            lemma_map_of(self.entries@);
        }
        match self.position(key) {
            Some(i) => Some(&self.entries[i].value),
            None => None,
        }
    }

    /// The binding stored at position `i`, for the positions below `len`.
    pub fn binding_at(&self, i: usize) -> (found: Option<&Entry<V>>)
        ensures
            found is Some <==> i < self.bindings().len(),
            found matches Some(entry) ==> {
                &&& *entry == self.bindings()[i as int]
                &&& self@.contains_key(entry.key@)
                &&& self@[entry.key@] == entry.value
            },
    {
        proof {
            use_type_invariant(self);
            lemma_map_of(self.entries@);
        }
        if i < self.entries.len() {
            Some(&self.entries[i])
        } else {
            None
        }
    }

    /// Binds `key` to `value` and returns what it was bound to before.
    pub fn insert(&mut self, key: String, value: V) -> (previous: Option<V>)
        ensures
            final(self)@ == old(self)@.insert(key@, value),
            previous == if old(self)@.contains_key(key@) {
                Some(old(self)@[key@])
            } else {
                None::<V>
            },
    {
        proof {
            use_type_invariant(&*self);
            lemma_map_of(self.entries@);
        }
        let at = self.position(key.as_str());
        let mut entries: Vec<Entry<V>> = Vec::new();
        assert(keys_of(entries@) =~= Seq::<Seq<char>>::empty());
        core::mem::swap(&mut self.entries, &mut entries);
        let previous = match at {
            Some(i) => {
                proof {
                    lemma_map_of_remove(entries@, i as int);
                }
                let entry = entries.remove(i);
                Some(entry.value)
            },
            None => None,
        };
        let entry = Entry { key, value };
        proof {
            lemma_map_of_push(entries@, entry);
        }
        entries.push(entry);
        core::mem::swap(&mut self.entries, &mut entries);
        assert(final(self)@ =~= old(self)@.insert(key@, value));
        previous
    }

    /// Takes the binding of `key` out of the table and returns its value.
    pub fn remove(&mut self, key: &str) -> (removed: Option<V>)
        ensures
            final(self)@ == old(self)@.remove(key@),
            removed == if old(self)@.contains_key(key@) {
                Some(old(self)@[key@])
            } else {
                None::<V>
            },
    {
        proof {
            use_type_invariant(&*self);
            lemma_map_of(self.entries@);
        }
        match self.position(key) {
            Some(i) => {
                let mut entries: Vec<Entry<V>> = Vec::new();
                assert(keys_of(entries@) =~= Seq::<Seq<char>>::empty());
                core::mem::swap(&mut self.entries, &mut entries);
                proof {
                    lemma_map_of_remove(entries@, i as int);
                }
                let entry = entries.remove(i);
                core::mem::swap(&mut self.entries, &mut entries);
                Some(entry.value)
            },
            None => {
                assert(self@ =~= old(self)@.remove(key@));
                None
            },
        }
    }

    /// Takes every binding out of the table.
    pub fn clear(&mut self)
        ensures
            final(self)@ == Map::<Seq<char>, V>::empty(),
    {
        let mut entries: Vec<Entry<V>> = Vec::new();
        assert(keys_of(entries@) =~= Seq::<Seq<char>>::empty());
        core::mem::swap(&mut self.entries, &mut entries);
        assert(self@ =~= Map::<Seq<char>, V>::empty());
    }
}

/// The characters of each value of a map of strings.
pub open spec fn texts(m: Map<Seq<char>, String>) -> Map<Seq<char>, Seq<char>> {
    m.map_values(|s: String| s@)
}

impl StrTable<String> {
    /// A copy of the table.
    pub fn duplicate(&self) -> (copy: Self)
        ensures
            copy@ == self@,
    {
        proof {
            use_type_invariant(self);
        }
        let mut entries: Vec<Entry<String>> = Vec::new();
        let mut i: usize = 0;
        while i < self.entries.len()
            invariant
                i <= self.entries@.len(),
                entries@ == self.entries@.take(i as int),
            decreases self.entries@.len() - i,
        {
            let entry = Entry {
                key: self.entries[i].key.clone(),
                value: self.entries[i].value.clone(),
            };
            assert(self.entries@.take(i + 1) =~= self.entries@.take(i as int).push(entry));
            entries.push(entry);
            i += 1;
        }
        assert(entries@ =~= self.entries@);
        StrTable { entries }
    }

    /// Whether two tables bind the same keys to the same texts.
    pub fn agrees_with(&self, other: &Self) -> (same: bool)
        ensures
            same == (texts(self@) == texts(other@)),
    {
        let n = self.len();
        let m = other.len();
        if n != m {
            assert(texts(self@).dom() =~= self@.dom());
            assert(texts(other@).dom() =~= other@.dom());
            return false;
        }
        let mut i: usize = 0;
        while i < n
            invariant
                i <= n,
                n == self.bindings().len(),
                forall|j: int|
                    0 <= j < i ==> other@.contains_key(#[trigger] self.bindings()[j].key@)
                        && other@[self.bindings()[j].key@]@ == self.bindings()[j].value@,
            decreases n - i,
        {
            let entry = &self.entries[i];
            proof {
                use_type_invariant(self);
                lemma_map_of(self.entries@);
            }
            match other.get(entry.key.as_str()) {
                Some(value) => {
                    if !str_eq(value.as_str(), entry.value.as_str()) {
                        assert(texts(self@)[entry.key@] != texts(other@)[entry.key@]);
                        return false;
                    }
                },
                None => {
                    assert(texts(self@).contains_key(entry.key@));
                    assert(!texts(other@).contains_key(entry.key@));
                    return false;
                },
            }
            i += 1;
        }
        proof {
            lemma_map_of(self.bindings());
            assert forall|k: Seq<char>| self@.contains_key(k) implies other@.contains_key(k)
                && other@[k]@ == self@[k]@ by {
                let j = keys_of(self.bindings()).index_of(k);
                assert(keys_of(self.bindings())[j] == k);
                assert(self.bindings()[j].key@ == k);
            }
            assert(self@.dom().subset_of(other@.dom()));
            vstd::set_lib::lemma_subset_equality(self@.dom(), other@.dom());
            assert(texts(self@) =~= texts(other@));
        }
        true
    }
}

} // verus!
