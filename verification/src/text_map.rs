//! A map from text to values that keeps its entries in ascending order of keys.
use crate::text::{chars_of, same_text};
use vstd::prelude::*;

verus! {

/// The order of texts: by their characters, the first difference deciding; a
/// text comes before every longer one that begins with it.
pub open spec fn text_before(a: Seq<char>, b: Seq<char>) -> bool
    decreases a.len(),
{
    if b.len() == 0 {
        false
    } else if a.len() == 0 {
        true
    } else if a[0] != b[0] {
        a[0] < b[0]
    } else {
        text_before(a.drop_first(), b.drop_first())
    }
}

/// No text comes before itself.
pub proof fn text_before_irreflexive(a: Seq<char>)
    ensures
        !text_before(a, a),
    decreases a.len(),
{
    if a.len() > 0 {
        text_before_irreflexive(a.drop_first());
    }
}

/// The order of texts is transitive.
pub proof fn text_before_transitive(a: Seq<char>, b: Seq<char>, c: Seq<char>)
    requires
        text_before(a, b),
        text_before(b, c),
    ensures
        text_before(a, c),
    decreases a.len(),
{
    if a.len() > 0 && b.len() > 0 && c.len() > 0 && a[0] == b[0] && b[0] == c[0] {
        text_before_transitive(a.drop_first(), b.drop_first(), c.drop_first());
    }
}

/// Of two different texts one comes before the other.
pub proof fn text_before_total(a: Seq<char>, b: Seq<char>)
    ensures
        a == b || text_before(a, b) || text_before(b, a),
    decreases a.len(),
{
    if a.len() == 0 || b.len() == 0 {
        if a.len() == 0 && b.len() == 0 {
            assert(a =~= b);
        }
    } else if a[0] == b[0] {
        text_before_total(a.drop_first(), b.drop_first());
        if a.drop_first() == b.drop_first() {
            assert(a =~= seq![a[0]] + a.drop_first());
            assert(b =~= seq![b[0]] + b.drop_first());
        }
    }
}

/// How a text stands to another in the order of texts.
#[derive(Debug, Clone, Copy, PartialEq, Eq, Structural)]
pub enum Precedence {
    Before,
    Same,
    After,
}

/// How `a` stands to `b` in the order of texts.
pub fn precedence(a: &str, b: &str) -> (p: Precedence)
    ensures
        match p {
            Precedence::Before => text_before(a@, b@),
            Precedence::Same => a@ == b@,
            Precedence::After => text_before(b@, a@),
        },
{
    let left = chars_of(a);
    let right = chars_of(b);
    let mut i: usize = 0;
    proof {
        assert(a@.skip(0) =~= a@);
        assert(b@.skip(0) =~= b@);
    }
    while i < left.len() && i < right.len()
        invariant
            left@ == a@,
            right@ == b@,
            i <= a@.len(),
            i <= b@.len(),
            forall|j: int| 0 <= j < i ==> a@[j] == b@[j],
            text_before(a@, b@) == text_before(a@.skip(i as int), b@.skip(i as int)),
            text_before(b@, a@) == text_before(b@.skip(i as int), a@.skip(i as int)),
        decreases a@.len() - i,
    {
        if left[i] < right[i] {
            return Precedence::Before;
        }
        if right[i] < left[i] {
            return Precedence::After;
        }
        proof {
            assert(a@.skip(i as int).drop_first() =~= a@.skip(i + 1));
            assert(b@.skip(i as int).drop_first() =~= b@.skip(i + 1));
        }
        i += 1;
    }
    if i < right.len() {
        Precedence::Before
    } else if i < left.len() {
        Precedence::After
    } else {
        proof {
            assert(a@ =~= b@);
        }
        Precedence::Same
    }
}

/// Whether the keys ascend, so that each occurs once.
pub open spec fn ascending<V>(entries: Seq<(Seq<char>, V)>) -> bool {
    forall|i: int, j: int|
        #![trigger entries[i], entries[j]]
        0 <= i < j < entries.len() ==> text_before(entries[i].0, entries[j].0)
}

/// The value that belongs to a key, if the key is there.
pub open spec fn lookup<V>(entries: Seq<(Seq<char>, V)>, key: Seq<char>) -> Option<V>
    decreases entries.len(),
{
    if entries.len() == 0 {
        None
    } else if entries.last().0 == key {
        Some(entries.last().1)
    } else {
        lookup(entries.drop_last(), key)
    }
}

/// The entries with the value of a key set, at the key's place in the order.
pub open spec fn put<V>(entries: Seq<(Seq<char>, V)>, key: Seq<char>, value: V) -> Seq<(Seq<char>, V)>
    decreases entries.len(),
{
    if entries.len() == 0 || text_before(entries.last().0, key) {
        entries.push((key, value))
    } else if entries.last().0 == key {
        entries.drop_last().push((key, value))
    } else {
        put(entries.drop_last(), key, value).push(entries.last())
    }
}

/// The entries that a list of pairs leaves when each is put in turn; of two
/// pairs with one key the later counts.
pub open spec fn collected<V>(pairs: Seq<(Seq<char>, V)>) -> Seq<(Seq<char>, V)>
    decreases pairs.len(),
{
    if pairs.len() == 0 {
        Seq::empty()
    } else {
        put(collected(pairs.drop_last()), pairs.last().0, pairs.last().1)
    }
}

/// The entries with a function applied to each value.
pub open spec fn with_values<V, W>(
    entries: Seq<(Seq<char>, V)>,
    f: spec_fn(V) -> W,
) -> Seq<(Seq<char>, W)> {
    entries.map_values(|e: (Seq<char>, V)| (e.0, f(e.1)))
}

/// Putting keeps the keys ascending and adds no key but the one put.
pub proof fn put_keeps_order<V>(entries: Seq<(Seq<char>, V)>, key: Seq<char>, value: V)
    requires
        ascending(entries),
    ensures
        ascending(put(entries, key, value)),
        forall|i: int|
            0 <= i < put(entries, key, value).len() ==> (#[trigger] put(entries, key, value)[i]).0 == key || exists|
                j: int,
            |
                0 <= j < entries.len() && entries[j].0 == put(entries, key, value)[i].0,
    decreases entries.len(),
{
    let result = put(entries, key, value);
    if entries.len() == 0 {
    } else {
        let last = entries.last();
        let rest = entries.drop_last();
        assert(ascending(rest));
        if text_before(last.0, key) {
            assert forall|i: int, j: int|
                #![trigger result[i], result[j]]
                0 <= i < j < result.len() implies text_before(result[i].0, result[j].0) by {
                if j == entries.len() && i < entries.len() - 1 {
                    assert(text_before(entries[i].0, last.0));
                    text_before_transitive(entries[i].0, last.0, key);
                }
            }
        } else if last.0 == key {
        } else {
            text_before_total(last.0, key);
            put_keeps_order(rest, key, value);
            let inner = put(rest, key, value);
            assert forall|i: int, j: int|
                #![trigger result[i], result[j]]
                0 <= i < j < result.len() implies text_before(result[i].0, result[j].0) by {
                if j == inner.len() {
                    assert(result[i] == inner[i]);
                    if inner[i].0 != key {
                        let k = choose|k: int| 0 <= k < rest.len() && rest[k].0 == inner[i].0;
                        assert(text_before(entries[k].0, last.0));
                    }
                } else {
                    assert(result[i] == inner[i] && result[j] == inner[j]);
                }
            }
            assert forall|i: int| 0 <= i < result.len() implies (#[trigger] result[i]).0 == key || exists|j: int|
                0 <= j < entries.len() && entries[j].0 == result[i].0 by {
                if i == inner.len() {
                    assert(entries[entries.len() - 1].0 == result[i].0);
                } else {
                    assert(result[i] == inner[i]);
                    if inner[i].0 != key {
                        let k = choose|k: int| 0 <= k < rest.len() && rest[k].0 == inner[i].0;
                        assert(entries[k].0 == result[i].0);
                    }
                }
            }
        }
    }
}

/// Looking up after putting: the key put has its new value, and every other
/// key the value it had.
pub proof fn lookup_after_put<V>(entries: Seq<(Seq<char>, V)>, key: Seq<char>, value: V, wanted: Seq<char>)
    requires
        ascending(entries),
    ensures
        lookup(put(entries, key, value), wanted) == (if wanted == key {
            Some(value)
        } else {
            lookup(entries, wanted)
        }),
    decreases entries.len(),
{
    let result = put(entries, key, value);
    if entries.len() == 0 {
        assert(result.drop_last() =~= entries);
    } else {
        let last = entries.last();
        let rest = entries.drop_last();
        assert(ascending(rest));
        if text_before(last.0, key) {
            assert(result.drop_last() =~= entries);
        } else if last.0 == key {
            assert(result.drop_last() =~= rest);
        } else {
            lookup_after_put(rest, key, value, wanted);
            assert(result.drop_last() =~= put(rest, key, value));
        }
    }
}

/// Collecting pairs gives ascending keys.
pub proof fn collected_is_ascending<V>(pairs: Seq<(Seq<char>, V)>)
    ensures
        ascending(collected(pairs)),
    decreases pairs.len(),
{
    if pairs.len() > 0 {
        collected_is_ascending(pairs.drop_last());
        put_keeps_order(collected(pairs.drop_last()), pairs.last().0, pairs.last().1);
    }
}

/// Looking up in collected pairs finds what the last pair with the key holds.
pub proof fn lookup_in_collected<V>(pairs: Seq<(Seq<char>, V)>, key: Seq<char>)
    ensures
        lookup(collected(pairs), key) == lookup(pairs, key),
    decreases pairs.len(),
{
    if pairs.len() > 0 {
        lookup_in_collected(pairs.drop_last(), key);
        collected_is_ascending(pairs.drop_last());
        lookup_after_put(collected(pairs.drop_last()), pairs.last().0, pairs.last().1, key);
    }
}

/// A key is found exactly where some entry has it.
pub proof fn lookup_finds_entries<V>(entries: Seq<(Seq<char>, V)>, key: Seq<char>)
    ensures
        lookup(entries, key) is Some <==> exists|i: int| 0 <= i < entries.len() && entries[i].0 == key,
        lookup(entries, key) matches Some(v) ==> exists|i: int|
            0 <= i < entries.len() && entries[i].0 == key && entries[i].1 == v,
    decreases entries.len(),
{
    if entries.len() > 0 {
        let rest = entries.drop_last();
        lookup_finds_entries(rest, key);
        if entries.last().0 == key {
            assert(entries[entries.len() - 1].0 == key);
        } else {
            if lookup(rest, key) is Some {
                let i = choose|i: int| 0 <= i < rest.len() && rest[i].0 == key && rest[i].1 == lookup(rest, key)->0;
                assert(entries[i] == rest[i]);
            }
            if exists|i: int| 0 <= i < entries.len() && entries[i].0 == key {
                let i = choose|i: int| 0 <= i < entries.len() && entries[i].0 == key;
                assert(rest[i].0 == key);
            }
        }
    }
}

/// In ascending entries the value found for a key is that of its entry.
pub proof fn lookup_of_entry<V>(entries: Seq<(Seq<char>, V)>, at: int)
    requires
        ascending(entries),
        0 <= at < entries.len(),
    ensures
        lookup(entries, entries[at].0) == Some(entries[at].1),
    decreases entries.len(),
{
    if at < entries.len() - 1 {
        assert(text_before(entries[at].0, entries[entries.len() - 1].0));
        text_before_irreflexive(entries[at].0);
        lookup_of_entry(entries.drop_last(), at);
    }
}

/// Putting and then applying a function to the values is the same as applying
/// it first.
pub proof fn put_commutes<V, W>(
    entries: Seq<(Seq<char>, V)>,
    key: Seq<char>,
    value: V,
    f: spec_fn(V) -> W,
)
    ensures
        with_values(put(entries, key, value), f) == put(with_values(entries, f), key, f(value)),
    decreases entries.len(),
{
    let mapped = with_values(entries, f);
    if entries.len() == 0 {
        assert(with_values(put(entries, key, value), f) =~= put(mapped, key, f(value)));
    } else {
        put_commutes(entries.drop_last(), key, value, f);
        assert(mapped.drop_last() =~= with_values(entries.drop_last(), f));
        assert(with_values(put(entries, key, value), f) =~= put(mapped, key, f(value)));
    }
}

/// Looking up and then applying a function is the same as applying it first.
pub proof fn lookup_commutes<V, W>(entries: Seq<(Seq<char>, V)>, key: Seq<char>, f: spec_fn(V) -> W)
    ensures
        lookup(with_values(entries, f), key) == (match lookup(entries, key) {
            Some(v) => Some(f(v)),
            None => None,
        }),
    decreases entries.len(),
{
    if entries.len() > 0 {
        lookup_commutes(entries.drop_last(), key, f);
        assert(with_values(entries, f).drop_last() =~= with_values(entries.drop_last(), f));
    }
}

/// A map from text to values, its entries in ascending order of keys.
#[derive(Debug)]
pub struct TextMap<V> {
    entries: Vec<(String, V)>,
}

/// The entries of a map that stands for `entries`.
spec fn entries_of<V>(entries: Seq<(String, V)>) -> Seq<(Seq<char>, V)> {
    entries.map_values(|e: (String, V)| (e.0@, e.1))
}

impl<V> View for TextMap<V> {
    type V = Seq<(Seq<char>, V)>;

    closed spec fn view(&self) -> Seq<(Seq<char>, V)> {
        entries_of(self.entries@)
    }
}

impl<V: Clone> Clone for TextMap<V> {
    fn clone(&self) -> (map: TextMap<V>)
        ensures
            map@.len() == self@.len(),
            forall|i: int|
                0 <= i < map@.len() ==> (#[trigger] map@[i]).0 == self@[i].0 && cloned::<V>(self@[i].1, map@[i].1),
    {
        proof {
            use_type_invariant(self);
        }
        let mut entries: Vec<(String, V)> = Vec::new();
        let mut i: usize = 0;
        while i < self.entries.len()
            invariant
                i <= self.entries@.len(),
                entries@.len() == i,
                forall|j: int|
                    0 <= j < i ==> (#[trigger] entries@[j]).0@ == self.entries@[j].0@ && cloned::<V>(
                        self.entries@[j].1,
                        entries@[j].1,
                    ),
            decreases self.entries@.len() - i,
        {
            let value = self.entries[i].1.clone();
            entries.push((self.entries[i].0.clone(), value));
            i += 1;
        }
        proof {
            assert forall|j: int, k: int|
                #![trigger entries_of(entries@)[j], entries_of(entries@)[k]]
                0 <= j < k < entries@.len() implies text_before(
                entries_of(entries@)[j].0,
                entries_of(entries@)[k].0,
            ) by {
                assert(text_before(entries_of(self.entries@)[j].0, entries_of(self.entries@)[k].0));
                assert(entries@[j].0@ == self.entries@[j].0@);
                assert(entries@[k].0@ == self.entries@[k].0@);
            }
        }
        let map = TextMap { entries };
        proof {
            assert forall|j: int| 0 <= j < map@.len() implies (#[trigger] map@[j]).0 == self@[j].0 && cloned::<V>(
                self@[j].1,
                map@[j].1,
            ) by {
                assert(entries@[j].0@ == self.entries@[j].0@);
            }
        }
        map
    }
}

impl<V> TextMap<V> {
    #[verifier::type_invariant]
    spec fn is_ordered(self) -> bool {
        ascending(entries_of(self.entries@))
    }

    /// A map without entries.
    pub fn new() -> (map: TextMap<V>)
        ensures
            map@ == Seq::<(Seq<char>, V)>::empty(),
    {
        let map = TextMap { entries: Vec::new() };
        proof {
            assert(map@ =~= Seq::<(Seq<char>, V)>::empty());
        }
        map
    }

    /// The number of entries.
    pub fn len(&self) -> (n: usize)
        ensures
            n == self@.len(),
            ascending(self@),
    {
        proof {
            use_type_invariant(self);
        }
        self.entries.len()
    }

    /// The key of the entry at a position.
    pub fn key_at(&self, at: usize) -> (key: &str)
        requires
            at < self@.len(),
        ensures
            key@ == self@[at as int].0,
    {
        self.entries[at].0.as_str()
    }

    /// The value of the entry at a position.
    pub fn value_at(&self, at: usize) -> (value: &V)
        requires
            at < self@.len(),
        ensures
            *value == self@[at as int].1,
    {
        &self.entries[at].1
    }

    /// The value that belongs to a key, if the key is there.
    pub fn get(&self, key: &str) -> (value: Option<&V>)
        ensures
            match value {
                Some(v) => lookup(self@, key@) == Some(*v),
                None => lookup(self@, key@) is None,
            },
    {
        let mut left: usize = self.entries.len();
        proof {
            assert(self@.take(left as int) =~= self@);
        }
        while left > 0
            invariant
                left <= self@.len() == self.entries@.len(),
                lookup(self@, key@) == lookup(self@.take(left as int), key@),
            decreases left,
        {
            proof {
                assert(self@.take(left as int).drop_last() =~= self@.take(left - 1));
            }
            if same_text(self.entries[left - 1].0.as_str(), key) {
                return Some(&self.entries[left - 1].1);
            }
            left -= 1;
        }
        None
    }

    /// Whether the key is there.
    pub fn contains_key(&self, key: &str) -> (b: bool)
        ensures
            b == (lookup(self@, key@) is Some),
    {
        self.get(key).is_some()
    }

    /// Sets the value of a key.
    pub fn insert(&mut self, key: String, value: V)
        ensures
            final(self)@ == put(old(self)@, key@, value),
    {
        proof {
            use_type_invariant(&*self);
        }
        let ghost before = self@;
        let ghost wanted = put(before, key@, value);
        let mut entries: Vec<(String, V)> = Vec::new();
        std::mem::swap(&mut self.entries, &mut entries);
        let mut at: usize = entries.len();
        proof {
            assert(before.take(at as int) =~= before);
            assert(before.skip(at as int) =~= Seq::<(Seq<char>, V)>::empty());
            assert(wanted =~= wanted + before.skip(at as int));
        }
        let mut found = false;
        while at > 0
            invariant_except_break
                !found,
            invariant
                at <= entries@.len() == before.len(),
                before == entries_of(entries@),
                wanted == put(before.take(at as int), key@, value) + before.skip(at as int),
            ensures
                found ==> at > 0 && before[at - 1].0 == key@,
                !found ==> at == 0 || text_before(before[at - 1].0, key@),
            decreases at,
        {
            let ghost front = before.take(at as int);
            let ghost back = before.skip(at as int);
            match precedence(entries[at - 1].0.as_str(), key.as_str()) {
                Precedence::Before => {
                    break ;
                },
                Precedence::Same => {
                    found = true;
                    break ;
                },
                Precedence::After => {
                    proof {
                        assert(front.drop_last() =~= before.take(at - 1));
                        text_before_irreflexive(key@);
                        if text_before(front.last().0, key@) {
                            text_before_transitive(key@, front.last().0, key@);
                        }
                        assert(wanted =~= put(before.take(at - 1), key@, value) + before.skip(at - 1));
                    }
                    at -= 1;
                },
            }
        }
        proof {
            put_keeps_order(before, key@, value);
            if at > 0 {
                text_before_irreflexive(key@);
            }
        }
        let ghost pair = (key@, value);
        if found {
            entries[at - 1] = (key, value);
            proof {
                assert(entries_of(entries@) =~= before.update(at - 1, pair));
                assert(wanted =~= entries_of(entries@));
            }
        } else {
            entries.insert(at, (key, value));
            proof {
                assert(entries_of(entries@) =~= before.insert(at as int, pair));
                assert(wanted =~= entries_of(entries@));
            }
        }
        self.entries = entries;
    }

    /// The map that a list of pairs leaves when each is put in turn.
    pub fn from_pairs(pairs: Vec<(String, V)>) -> (map: TextMap<V>)
        ensures
            map@ == collected(pairs@.map_values(|e: (String, V)| (e.0@, e.1))),
    {
        let ghost all = entries_of(pairs@);
        let mut map: TextMap<V> = TextMap::new();
        let mut rest: Vec<(String, V)> = Vec::new();
        let mut source = pairs;
        while source.len() > 0
            invariant
                rest@.len() + source@.len() == pairs@.len(),
                forall|i: int| 0 <= i < source@.len() ==> source@[i] == pairs@[i],
                forall|i: int| 0 <= i < rest@.len() ==> rest@[i] == pairs@[pairs@.len() - 1 - i],
            decreases source@.len(),
        {
            if let Some(pair) = source.pop() {
                rest.push(pair);
            }
        }
        proof {
            assert(all.take(0) =~= Seq::<(Seq<char>, V)>::empty());
        }
        while rest.len() > 0
            invariant
                rest@.len() <= pairs@.len(),
                all == entries_of(pairs@),
                forall|i: int| 0 <= i < rest@.len() ==> rest@[i] == pairs@[pairs@.len() - 1 - i],
                map@ == collected(all.take(pairs@.len() - rest@.len())),
            decreases rest@.len(),
        {
            let ghost done = pairs@.len() - rest@.len();
            if let Some((key, value)) = rest.pop() {
                map.insert(key, value);
                proof {
                    assert(all.take(done + 1).drop_last() =~= all.take(done));
                    assert(all.take(done + 1).last() == all[done]);
                }
            }
        }
        proof {
            assert(all.take(pairs@.len() as int) =~= all);
        }
        map
    }
}

} // verus!
