//! The memory of a scheme: what it has once answered, it answers again.

use crate::value::Value;
use vstd::prelude::*;

verus! {

/// The map held by the first `n` entries of a list of requests and answers.
pub open spec fn map_of<K: Value, V: Value>(entries: Seq<(K, V)>, n: int) -> Map<
    K::Model,
    V::Model,
>
    decreases n,
{
    if n <= 0 {
        Map::empty()
    } else {
        map_of(entries, n - 1).insert(entries[n - 1].0.model(), entries[n - 1].1.model())
    }
}

/// No two of the entries answer the same request.
pub open spec fn distinct<K: Value, V: Value>(entries: Seq<(K, V)>) -> bool {
    forall|i: int, j: int|
        0 <= i < j < entries.len() ==> (#[trigger] entries[i]).0.model() != (
        #[trigger] entries[j]).0.model()
}

/// A request is in the map of the first `n` entries exactly if one of these
/// entries answers it.
pub proof fn lemma_map_of_domain<K: Value, V: Value>(entries: Seq<(K, V)>, n: int, k: K::Model)
    requires
        0 <= n <= entries.len(),
    ensures
        map_of(entries, n).dom().contains(k) <==> exists|i: int|
            0 <= i < n && (#[trigger] entries[i]).0.model() == k,
    decreases n,
{
    if n > 0 {
        lemma_map_of_domain(entries, n - 1, k);
        if entries[n - 1].0.model() == k {
        } else if map_of(entries, n - 1).dom().contains(k) {
        }
    }
}

/// Where no request occurs twice, the map of the first `n` entries sends the
/// request of entry `i` to the answer of entry `i`.
pub proof fn lemma_map_of_value<K: Value, V: Value>(entries: Seq<(K, V)>, n: int, i: int)
    requires
        0 <= i < n <= entries.len(),
        distinct(entries),
    ensures
        map_of(entries, n).dom().contains(entries[i].0.model()),
        map_of(entries, n)[entries[i].0.model()] == entries[i].1.model(),
    decreases n,
{
    if i < n - 1 {
        lemma_map_of_value(entries, n - 1, i);
    }
}

/// The map of the first `n` entries depends on these entries only.
pub proof fn lemma_map_of_prefix<K: Value, V: Value>(
    entries: Seq<(K, V)>,
    more: Seq<(K, V)>,
    n: int,
)
    requires
        0 <= n <= entries.len(),
        n <= more.len(),
        forall|i: int| 0 <= i < n ==> entries[i] == more[i],
    ensures
        map_of(entries, n) == map_of(more, n),
    decreases n,
{
    if n > 0 {
        lemma_map_of_prefix(entries, more, n - 1);
    }
}

/// Answers that a scheme has given, by the request that each of them answers.
///
/// Entries are only ever added, and a request has at most one answer.
pub struct Storage<K: Value, V: Value> {
    entries: Vec<(K, V)>,
}

impl<K: Value, V: Value> View for Storage<K, V> {
    type V = Map<K::Model, V::Model>;

    closed spec fn view(&self) -> Map<K::Model, V::Model> {
        map_of(self.entries@, self.entries.len() as int)
    }
}

impl<K: Value, V: Value> Storage<K, V> {
    #[verifier::type_invariant]
    spec fn inv(self) -> bool {
        distinct(self.entries@)
    }

    /// The requests in the order in which they were first answered.
    pub closed spec fn requests(&self) -> Seq<K::Model> {
        Seq::new(self.entries.len() as nat, |i: int| self.entries[i].0.model())
    }

    /// A storage without entries.
    pub fn new() -> (out: Self)
        ensures
            out@ == Map::<K::Model, V::Model>::empty(),
            out.requests().len() == 0,
    {
        Storage { entries: Vec::new() }
    }

    /// The number of entries.
    pub fn len(&self) -> (n: usize)
        ensures
            n == self.requests().len(),
    {
        self.entries.len()
    }

    /// The position of the entry for `key`, if there is one.
    fn find(&self, key: &K) -> (at: Option<usize>)
        ensures
            at matches Some(i) ==> i < self.entries.len() && self.entries[i as int].0.model()
                == key.model(),
            at is None ==> forall|i: int|
                0 <= i < self.entries.len() ==> (#[trigger] self.entries[i]).0.model()
                    != key.model(),
    {
        let mut i: usize = 0;
        while i < self.entries.len()
            invariant
                i <= self.entries.len(),
                forall|t: int| 0 <= t < i ==> (#[trigger] self.entries[t]).0.model() != key.model(),
            decreases self.entries.len() - i,
        {
            if self.entries[i].0.equals(key) {
                return Some(i);
            }
            i += 1;
        }
        None
    }

    /// Tells whether `key` has an answer.
    pub fn contains_key(&self, key: &K) -> (yes: bool)
        ensures
            yes <==> self@.dom().contains(key.model()),
    {
        proof {
            use_type_invariant(self);
            lemma_map_of_domain(self.entries@, self.entries.len() as int, key.model());
        }
        self.find(key).is_some()
    }

    /// The answer to `key`, if there is one.
    pub fn get(&self, key: &K) -> (out: Option<&V>)
        ensures
            out is Some <==> self@.dom().contains(key.model()),
            out matches Some(v) ==> v.model() == self@[key.model()],
    {
        proof {
            use_type_invariant(self);
            lemma_map_of_domain(self.entries@, self.entries.len() as int, key.model());
        }
        match self.find(key) {
            Some(i) => {
                proof {
                    lemma_map_of_value(self.entries@, self.entries.len() as int, i as int);
                }
                Some(&self.entries[i].1)
            },
            None => None,
        }
    }

    /// Keeps `value` as the answer to `key`, unless `key` has an answer already.
    /// Tells whether the entry was added.
    pub fn insert(&mut self, key: K, value: V) -> (added: bool)
        ensures
            added <==> !old(self)@.dom().contains(key.model()),
            added ==> final(self)@ == old(self)@.insert(key.model(), value.model()),
            added ==> final(self).requests() == old(self).requests().push(key.model()),
            !added ==> final(self)@ == old(self)@ && final(self).requests() == old(
                self,
            ).requests(),
    {
        proof {
            use_type_invariant(&*self);
            lemma_map_of_domain(self.entries@, self.entries.len() as int, key.model());
        }
        if self.find(&key).is_some() {
            return false;
        }
        let ghost before = self.entries@;
        let mut entries: Vec<(K, V)> = Vec::new();
        core::mem::swap(&mut entries, &mut self.entries);
        entries.push((key, value));
        proof {
            lemma_map_of_prefix(before, entries@, before.len() as int);
        }
        self.entries = entries;
        true
    }

    /// The request of the entry at position `i`.
    pub fn key_at(&self, i: usize) -> (key: &K)
        requires
            i < self.requests().len(),
        ensures
            key.model() == self.requests()[i as int],
            self@.dom().contains(key.model()),
    {
        proof {
            use_type_invariant(self);
            lemma_map_of_value(self.entries@, self.entries.len() as int, i as int);
        }
        &self.entries[i].0
    }

    /// The answer of the entry at position `i`.
    pub fn value_at(&self, i: usize) -> (value: &V)
        requires
            i < self.requests().len(),
        ensures
            self@.dom().contains(self.requests()[i as int]),
            value.model() == self@[self.requests()[i as int]],
    {
        proof {
            use_type_invariant(self);
            lemma_map_of_value(self.entries@, self.entries.len() as int, i as int);
        }
        &self.entries[i].1
    }
}

/// What a scheme that remembers its answers returns for `request` and keeps in
/// its memory, where `fresh` is the answer that it computes if it has none.
pub open spec fn recall<K, V>(memory: Map<K, V>, request: K, fresh: V) -> (Map<K, V>, V) {
    if memory.dom().contains(request) {
        (memory, memory[request])
    } else {
        (memory.insert(request, fresh), fresh)
    }
}

/// A request that is made again gets the answer that it got the first time,
/// whatever would be computed for it the second time, and the memory stays as
/// the first time left it.
pub proof fn lemma_recall_repeats<K, V>(memory: Map<K, V>, request: K, first: V, second: V)
    ensures
        recall(recall(memory, request, first).0, request, second) == recall(
            memory,
            request,
            first,
        ),
{
}

/// A request for which nothing is kept gets the fresh answer, and other
/// requests keep theirs.
pub proof fn lemma_recall_keeps_others<K, V>(memory: Map<K, V>, request: K, fresh: V, other: K)
    requires
        other != request,
        memory.dom().contains(other),
    ensures
        recall(memory, request, fresh).0.dom().contains(other),
        recall(memory, request, fresh).0[other] == memory[other],
{
}

/// Two lists of entries that stand for the same requests and answers, one by
/// one, hold the same map, and no request occurs twice in one of them unless it
/// does in the other.
pub proof fn lemma_copies_hold_the_same_map<K: Value, V: Value>(
    entries: Seq<(K, V)>,
    copies: Seq<(K, V)>,
    n: int,
)
    requires
        0 <= n <= entries.len(),
        n <= copies.len(),
        forall|i: int|
            0 <= i < n ==> (#[trigger] copies[i]).0.model() == entries[i].0.model()
                && copies[i].1.model() == entries[i].1.model(),
    ensures
        map_of(copies, n) == map_of(entries, n),
        entries.len() == n && copies.len() == n && distinct(entries) ==> distinct(copies),
    decreases n,
{
    if n > 0 {
        lemma_copies_hold_the_same_map(entries, copies, n - 1);
    }
}

impl<K: Value, V: Value> Storage<K, V> {
    /// Copies of the entries, in the order in which they were added. A storage
    /// made from them holds what this storage holds.
    pub fn entries(&self) -> (out: Vec<(K, V)>)
        ensures
            distinct(out@),
            map_of(out@, out@.len() as int) == self@,
            out@.len() == self.requests().len(),
            forall|i: int|
                0 <= i < out@.len() ==> (#[trigger] out@[i]).0.model() == self.requests()[i],
    {
        proof {
            use_type_invariant(self);
        }
        let mut out: Vec<(K, V)> = Vec::new();
        let mut i: usize = 0;
        while i < self.entries.len()
            invariant
                i <= self.entries.len(),
                out@.len() == i,
                forall|t: int|
                    0 <= t < i ==> (#[trigger] out@[t]).0.model() == self.entries@[t].0.model()
                        && out@[t].1.model() == self.entries@[t].1.model(),
            decreases self.entries.len() - i,
        {
            out.push((self.entries[i].0.copy(), self.entries[i].1.copy()));
            i += 1;
        }
        proof {
            lemma_copies_hold_the_same_map(self.entries@, out@, out@.len() as int);
        }
        out
    }

    /// The storage that holds `entries`, or nothing where two of them answer the
    /// same request.
    pub fn from_entries(entries: Vec<(K, V)>) -> (out: Option<Self>)
        ensures
            out is Some <==> distinct(entries@),
            out matches Some(s) ==> s@ == map_of(entries@, entries@.len() as int)
                && s.requests().len() == entries@.len() && forall|i: int|
                0 <= i < entries@.len() ==> s.requests()[i] == (#[trigger] entries@[i]).0.model(),
    {
        let mut j: usize = 0;
        while j < entries.len()
            invariant
                j <= entries.len(),
                forall|a: int, b: int|
                    0 <= a < b < j ==> (#[trigger] entries@[a]).0.model() != (
                    #[trigger] entries@[b]).0.model(),
            decreases entries.len() - j,
        {
            let mut i: usize = 0;
            while i < j
                invariant
                    i <= j,
                    j < entries.len(),
                    forall|a: int|
                        0 <= a < i ==> (#[trigger] entries@[a]).0.model()
                            != entries@[j as int].0.model(),
                decreases j - i,
            {
                if entries[i].0.equals(&entries[j].0) {
                    return None;
                }
                i += 1;
            }
            j += 1;
        }
        Some(Storage { entries })
    }
}

} // verus!
