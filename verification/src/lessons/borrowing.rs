//! Borrowing in depth: iterating by reference, by value and mutably, and a
//! cache that hands out references into itself.
use vstd::prelude::*;

verus! {

/// The length in bytes (UTF-8) of a string with the characters `s`, as
/// `str::len` reports it.
pub open spec fn byte_len(s: Seq<char>) -> usize {
    vstd::utf8::encode_utf8(s).len() as usize
}

/// Consumes the words and returns their lengths in bytes.
pub fn into_lengths(words: Vec<String>) -> (r: Vec<usize>)
    ensures
        r@.len() == words@.len(),
        forall|i: int| 0 <= i < words@.len() ==> r@[i] == byte_len(#[trigger] words@[i]@),
{
    let mut r: Vec<usize> = Vec::new();
    let mut i: usize = 0;
    while i < words.len()
        invariant
            i <= words.len(),
            r@.len() == i,
            forall|j: int| 0 <= j < i ==> r@[j] == byte_len(#[trigger] words@[j]@),
        decreases words.len() - i,
    {
        let n = words[i].as_str().len();
        r.push(n);
        i = i + 1;
    }
    r
}

/// Doubles every number in place.
pub fn double_in_place(numbers: &mut Vec<i32>)
    requires
        forall|i: int|
            0 <= i < old(numbers)@.len() ==> i32::MIN <= 2 * #[trigger] old(numbers)@[i]
                <= i32::MAX,
    ensures
        final(numbers)@.len() == old(numbers)@.len(),
        forall|i: int|
            0 <= i < old(numbers)@.len() ==> #[trigger] final(numbers)@[i] == 2 * old(
                numbers,
            )@[i],
{
    let mut i: usize = 0;
    while i < numbers.len()
        invariant
            i <= numbers.len(),
            numbers@.len() == old(numbers)@.len(),
            forall|j: int| 0 <= j < i ==> #[trigger] numbers@[j] == 2 * old(numbers)@[j],
            forall|j: int| i <= j < numbers@.len() ==> #[trigger] numbers@[j] == old(numbers)@[j],
            forall|j: int|
                0 <= j < old(numbers)@.len() ==> i32::MIN <= 2 * #[trigger] old(numbers)@[j]
                    <= i32::MAX,
        decreases numbers.len() - i,
    {
        let v = numbers[i];
        numbers.set(i, v * 2);
        i = i + 1;
    }
}

/// The value the cache computes for `key`.
pub open spec fn computed(key: Seq<char>) -> Seq<char> {
    "[computed: "@ + key + "]"@
}

/// The map that a list of key/value pairs describes (later pairs win).
pub open spec fn pairs_map(es: Seq<(Seq<char>, Seq<char>)>) -> Map<Seq<char>, Seq<char>>
    decreases es.len(),
{
    if es.len() == 0 {
        Map::empty()
    } else {
        pairs_map(es.drop_last()).insert(es.last().0, es.last().1)
    }
}

/// Stored entries as text.
spec fn pairs_of(store: Seq<(String, String)>) -> Seq<(Seq<char>, Seq<char>)> {
    store.map_values(|e: (String, String)| (e.0@, e.1@))
}

/// The keys of a list of pairs.
spec fn keys_of(ps: Seq<(Seq<char>, Seq<char>)>) -> Seq<Seq<char>> {
    ps.map_values(|e: (Seq<char>, Seq<char>)| e.0)
}

/// No key occurs twice and each value is the one computed for its key.
spec fn pairs_ok(ps: Seq<(Seq<char>, Seq<char>)>) -> bool {
    &&& keys_of(ps).no_duplicates()
    &&& forall|i: int| 0 <= i < ps.len() ==> #[trigger] ps[i].1 == computed(ps[i].0)
}

/// A cache from keys to computed values: a list of pairs that holds each
/// key once, in the order the keys were first asked for.
pub struct Cache {
    store: Vec<(String, String)>,
}

impl Cache {
    /// The stored pairs, as text.
    pub closed spec fn pairs(&self) -> Seq<(Seq<char>, Seq<char>)> {
        pairs_of(self.store@)
    }

    /// The stored keys, in the order they were first asked for.
    pub closed spec fn keys(&self) -> Seq<Seq<char>> {
        keys_of(self.pairs())
    }

    /// Each key is stored once, with the value computed for it.
    #[verifier::type_invariant]
    closed spec fn well_formed(&self) -> bool {
        pairs_ok(self.pairs())
    }
}

impl View for Cache {
    type V = Map<Seq<char>, Seq<char>>;

    closed spec fn view(&self) -> Map<Seq<char>, Seq<char>> {
        pairs_map(self.pairs())
    }
}

proof fn lemma_pairs_map(es: Seq<(Seq<char>, Seq<char>)>)
    requires
        forall|i: int| 0 <= i < es.len() ==> #[trigger] es[i].1 == computed(es[i].0),
    ensures
        forall|k: Seq<char>|
            #[trigger] pairs_map(es).dom().contains(k) <==> (exists|i: int|
                0 <= i < es.len() && es[i].0 == k),
        forall|k: Seq<char>| #[trigger] pairs_map(es).dom().contains(k) ==> pairs_map(es)[k] == computed(k),
        pairs_map(es).dom().finite(),
    decreases es.len(),
{
    if es.len() > 0 {
        let d = es.drop_last();
        assert forall|i: int| 0 <= i < d.len() implies #[trigger] d[i].1 == computed(d[i].0) by {
            assert(d[i] == es[i]);
        }
        lemma_pairs_map(d);
        assert forall|k: Seq<char>|
            #[trigger] pairs_map(es).dom().contains(k) <==> (exists|i: int|
                0 <= i < es.len() && es[i].0 == k) by {
            if exists|i: int| 0 <= i < es.len() && es[i].0 == k {
                let i = choose|i: int| 0 <= i < es.len() && es[i].0 == k;
                if i < es.len() - 1 {
                    assert(d[i] == es[i]);
                }
            }
            if pairs_map(d).dom().contains(k) {
                let i = choose|i: int| 0 <= i < d.len() && d[i].0 == k;
                assert(d[i] == es[i]);
            }
        }
    }
}

/// Asking the cache twice for the same key changes nothing the second time:
/// the value is the one computed for the key and the cache stays as it was.
pub proof fn lemma_cache_second_ask(m: Map<Seq<char>, Seq<char>>, key: Seq<char>)
    ensures
        m.insert(key, computed(key)).insert(key, computed(key)) == m.insert(key, computed(key)),
        m.insert(key, computed(key))[key] == computed(key),
{
    assert(m.insert(key, computed(key)).insert(key, computed(key)) =~= m.insert(
        key,
        computed(key),
    ));
}

impl Cache {
    /// Creates an empty cache.
    pub fn new() -> (r: Self)
        ensures
            r@ == Map::<Seq<char>, Seq<char>>::empty(),
            r.keys().len() == 0,
    {
        let r = Cache { store: Vec::new() };
        assert(r.pairs() =~= Seq::<(Seq<char>, Seq<char>)>::empty());
        r
    }

    /// Returns the cached value for `key`, computing and storing
    /// `[computed: <key>]` first when the key was not asked for before.
    pub fn get_or_compute(&mut self, key: &str) -> (r: &str)
        ensures
            final(self)@ == old(self)@.insert(key@, computed(key@)),
            r@ == computed(key@),
            final(self).keys() == if old(self).keys().contains(key@) {
                old(self).keys()
            } else {
                old(self).keys().push(key@)
            },
    {
        proof {
            use_type_invariant(&*self);
        }
        let mut i: usize = 0;
        while i < self.store.len()
            invariant
                i <= self.store.len(),
                forall|j: int| 0 <= j < i ==> self.keys()[j] != key@,
            decreases self.store.len() - i,
        {
            assert(self.keys()[i as int] == self.store@[i as int].0@);
            if crate::text::str_eq(self.store[i].0.as_str(), key) {
                proof {
                    use_type_invariant(&*self);
                    lemma_pairs_map(self.pairs());
                    assert(self.pairs()[i as int].0 == key@);
                    assert(self.pairs()[i as int].1 == computed(key@));
                    assert(self.pairs()[i as int].1 == self.store@[i as int].1@);
                    assert(self@.dom().contains(key@));
                    assert(self@.insert(key@, computed(key@)) =~= self@);
                    assert(self.keys().contains(key@));
                }
                return self.store[i].1.as_str();
            }
            i = i + 1;
        }
        let mut value = String::from_str("[computed: ");
        value.append(key);
        value.append("]");
        let ghost old_pairs = self.pairs();
        let ghost old_keys = self.keys();
        proof {
            assert(!old_keys.contains(key@)) by {
                if old_keys.contains(key@) {
                    let j = choose|j: int| 0 <= j < old_keys.len() && old_keys[j] == key@;
                    assert(self.keys()[j] != key@);
                }
            }
        }
        let mut store: Vec<(String, String)> = Vec::new();
        std::mem::swap(&mut store, &mut self.store);
        assert(pairs_of(store@) == old_pairs);
        store.push((String::from_str(key), value));
        proof {
            assert(pairs_of(store@) =~= old_pairs.push((key@, computed(key@))));
            assert(old_pairs.push((key@, computed(key@))).drop_last() =~= old_pairs);
            assert(keys_of(pairs_of(store@)) =~= old_keys.push(key@));
            assert forall|i: int| 0 <= i < pairs_of(store@).len() implies #[trigger] pairs_of(
                store@,
            )[i].1 == computed(pairs_of(store@)[i].0) by {
                if i < old_pairs.len() {
                    assert(pairs_of(store@)[i] == old_pairs[i]);
                }
            }
        }
        self.store = store;
        assert(self.pairs() =~= old_pairs.push((key@, computed(key@))));
        assert(self.keys() =~= old_keys.push(key@));
        let last = self.store.len() - 1;
        self.store[last].1.as_str()
    }

    /// The number of cached entries.
    pub fn size(&self) -> (r: usize)
        ensures
            r == self.keys().len(),
            r == self@.dom().len(),
    {
        proof {
            use_type_invariant(self);
            lemma_pairs_map(self.pairs());
            assert(self@.dom() =~= self.keys().to_set()) by {
                assert forall|k: Seq<char>| self@.dom().contains(k) <==> self.keys().contains(k) by {
                    if self.keys().contains(k) {
                        let j = choose|j: int| 0 <= j < self.keys().len() && self.keys()[j] == k;
                        assert(self.pairs()[j].0 == k);
                    }
                    if self@.dom().contains(k) {
                        let j = choose|j: int| 0 <= j < self.pairs().len() && self.pairs()[j].0 == k;
                        assert(self.keys()[j] == k);
                    }
                }
            }
            self.keys().unique_seq_to_set();
        }
        self.store.len()
    }
}

} // verus!
