//! Lessons and their shared pipelines: which recognizer a lesson uses, and
//! the registries that let every listener of a language (or voice) share one
//! translation (or synthesis) pipeline.

use vstd::prelude::*;

verus! {

/// The speech recognizer that transcribes a lesson's speaker.
#[derive(Debug, Clone, Copy, PartialEq, Eq, Structural)]
pub enum AsrEngine {
    /// The streaming transcription service of AWS.
    AWS,
    /// The local Whisper model.
    Whisper,
}

/// Whether some entry has `key`.
pub open spec fn has_key<V>(entries: Seq<(String, V)>, key: Seq<char>) -> bool {
    exists|i: int| 0 <= i < entries.len() && (#[trigger] entries[i]).0@ == key
}

/// An index of the entry for `key`.
pub open spec fn index_of_key<V>(entries: Seq<(String, V)>, key: Seq<char>) -> int {
    choose|i: int| 0 <= i < entries.len() && (#[trigger] entries[i]).0@ == key
}

/// No two entries have the same key.
pub open spec fn keys_unique<V>(entries: Seq<(String, V)>) -> bool {
    forall|i: int, j: int|
        0 <= i < entries.len() && 0 <= j < entries.len() && (#[trigger] entries[i]).0@ == (
        #[trigger] entries[j]).0@ ==> i == j
}

/// The map that a list of entries with unique keys stands for.
pub open spec fn map_of_entries<V>(entries: Seq<(String, V)>) -> Map<Seq<char>, V> {
    Map::new(|k: Seq<char>| has_key(entries, k), |k: Seq<char>| entries[index_of_key(entries, k)].1)
}

/// A map from text keys to shared handles: at most one handle per key.
pub struct Registry<V> {
    entries: Vec<(String, V)>,
}

impl<V> View for Registry<V> {
    type V = Map<Seq<char>, V>;

    closed spec fn view(&self) -> Map<Seq<char>, V> {
        map_of_entries(self.entries@)
    }
}

proof fn lemma_lookup<V>(entries: Seq<(String, V)>, i: int)
    requires
        keys_unique(entries),
        0 <= i < entries.len(),
    ensures
        map_of_entries(entries).contains_key(entries[i].0@),
        map_of_entries(entries)[entries[i].0@] == entries[i].1,
{
    let k = entries[i].0@;
    assert(has_key(entries, k));
    let j = index_of_key(entries, k);
    assert(entries[j].0@ == k);
}

impl<V> Registry<V> {
    /// The registry's invariant: no key occurs twice.
    #[verifier::type_invariant]
    spec fn wf(&self) -> bool {
        keys_unique(self.entries@)
    }

    /// An empty registry.
    pub fn new() -> (r: Self)
        ensures
            r@ == Map::<Seq<char>, V>::empty(),
    {
        let r = Registry { entries: Vec::new() };
        assert(r@ =~= Map::<Seq<char>, V>::empty());
        r
    }

    /// The number of keys.
    pub fn len(&self) -> (n: usize)
        ensures
            n == self@.len(),
    {
        proof {
            use_type_invariant(self);
            self.lemma_len();
        }
        self.entries.len()
    }

    proof fn lemma_len(&self)
        requires
            keys_unique(self.entries@),
        ensures
            self@.dom().finite(),
            self@.len() == self.entries@.len(),
        decreases self.entries@.len(),
    {
        let es = self.entries@;
        let keys = es.map_values(|e: (String, V)| e.0@);
        assert(self@.dom() =~= keys.to_set()) by {
            assert forall|k: Seq<char>| self@.dom().contains(k) implies keys.to_set().contains(k) by {
                let i = index_of_key(es, k);
                assert(keys[i] == k);
            }
            assert forall|k: Seq<char>| keys.to_set().contains(k) implies self@.dom().contains(k) by {
                let i = choose|i: int| 0 <= i < keys.len() && keys[i] == k;
                assert(es[i].0@ == k);
            }
        }
        assert(keys.no_duplicates()) by {
            assert forall|i: int, j: int|
                0 <= i < keys.len() && 0 <= j < keys.len() && i != j implies keys[i] != keys[j] by {
                assert(es[i].0@ == keys[i]);
                assert(es[j].0@ == keys[j]);
            }
        }
        keys.unique_seq_to_set();
    }

    /// The position of `key`'s entry, if it has one.
    fn find(&self, key: &String) -> (pos: Option<usize>)
        ensures
            match pos {
                Some(i) => i < self.entries@.len() && self.entries@[i as int].0@ == key@,
                None => !has_key(self.entries@, key@),
            },
    {
        let mut i: usize = 0;
        while i < self.entries.len()
            invariant
                i <= self.entries@.len(),
                forall|j: int| 0 <= j < i ==> (#[trigger] self.entries@[j]).0@ != key@,
            decreases self.entries@.len() - i,
        {
            if self.entries[i].0 == *key {
                return Some(i);
            }
            i = i + 1;
        }
        None
    }

    /// The handle registered under `key`.
    pub fn get(&self, key: &String) -> (v: Option<&V>)
        ensures
            match v {
                Some(h) => self@.contains_key(key@) && self@[key@] == *h,
                None => !self@.contains_key(key@),
            },
    {
        proof {
            use_type_invariant(self);
        }
        match self.find(key) {
            Some(i) => {
                proof {
                    lemma_lookup(self.entries@, i as int);
                }
                Some(&self.entries[i].1)
            },
            None => None,
        }
    }

    /// Registers `value` under `key`, replacing (and returning) any handle
    /// already there; other keys keep their handles.
    pub fn insert(&mut self, key: String, value: V) -> (previous: Option<V>)
        ensures
            final(self)@ == old(self)@.insert(key@, value),
            final(self)@.contains_key(key@),
            final(self)@[key@] == value,
            forall|other: Seq<char>|
                other != key@ ==> (#[trigger] final(self)@.contains_key(other)
                    == old(self)@.contains_key(other)),
            forall|other: Seq<char>|
                other != key@ && #[trigger] old(self)@.contains_key(other) ==> final(self)@[other]
                    == old(self)@[other],
            match previous {
                Some(p) => old(self)@.contains_key(key@) && old(self)@[key@] == p,
                None => !old(self)@.contains_key(key@),
            },
    {
        proof {
            use_type_invariant(&*self);
        }
        let ghost k = key@;
        let ghost old_entries = self.entries@;
        let pos = self.find(&key);
        let mut entries: Vec<(String, V)> = Vec::new();
        std::mem::swap(&mut entries, &mut self.entries);
        let previous = match pos {
            Some(i) => {
                proof {
                    lemma_lookup(old_entries, i as int);
                }
                let (_, p) = entries.remove(i);
                Some(p)
            },
            None => None,
        };
        let ghost mid = entries@;
        assert(!has_key(mid, k)) by {
            if has_key(mid, k) {
                let j = choose|j: int| 0 <= j < mid.len() && (#[trigger] mid[j]).0@ == k;
                match previous {
                    Some(_) => {
                        let i = choose|i: int|
                            0 <= i < old_entries.len() && old_entries[i].0@ == k && mid
                                == old_entries.remove(i);
                        if j < i {
                            assert(mid[j] == old_entries[j]);
                        } else {
                            assert(mid[j] == old_entries[j + 1]);
                        }
                    },
                    None => {
                        assert(mid[j] == old_entries[j]);
                    },
                }
            }
        }
        entries.push((key, value));
        proof {
            let es = entries@;
            assert(forall|j: int| 0 <= j < mid.len() ==> es[j] == mid[j]);
            assert(es[mid.len() as int].0@ == k);
            assert(keys_unique(mid)) by {
                match previous {
                    Some(_) => {
                        let i = choose|i: int|
                            0 <= i < old_entries.len() && old_entries[i].0@ == k && mid
                                == old_entries.remove(i);
                        assert forall|a: int, b: int|
                            0 <= a < mid.len() && 0 <= b < mid.len() && (#[trigger] mid[a]).0@ == (
                            #[trigger] mid[b]).0@ implies a == b by {
                            let a2 = if a < i { a } else { a + 1 };
                            let b2 = if b < i { b } else { b + 1 };
                            assert(mid[a] == old_entries[a2]);
                            assert(mid[b] == old_entries[b2]);
                        }
                    },
                    None => {},
                }
            }
            assert(keys_unique(es)) by {
                assert forall|a: int, b: int|
                    0 <= a < es.len() && 0 <= b < es.len() && (#[trigger] es[a]).0@ == (
                    #[trigger] es[b]).0@ implies a == b by {
                    if a < mid.len() && b < mid.len() {
                        assert(es[a] == mid[a] && es[b] == mid[b]);
                    } else if a < mid.len() {
                        assert(es[a] == mid[a]);
                        assert(has_key(mid, k));
                    } else if b < mid.len() {
                        assert(es[b] == mid[b]);
                        assert(has_key(mid, k));
                    }
                }
            }
            let target = old(self)@.insert(k, value);
            assert forall|q: Seq<char>| #[trigger] map_of_entries(es).contains_key(q)
                == target.contains_key(q) by {
                if q == k {
                    assert(has_key(es, k));
                } else {
                    if has_key(es, q) {
                        let j = choose|j: int| 0 <= j < es.len() && (#[trigger] es[j]).0@ == q;
                        assert(j < mid.len());
                        assert(es[j] == mid[j]);
                        match previous {
                            Some(_) => {
                                let i = choose|i: int|
                                    0 <= i < old_entries.len() && old_entries[i].0@ == k && mid
                                        == old_entries.remove(i);
                                let j2 = if j < i { j } else { j + 1 };
                                assert(mid[j] == old_entries[j2]);
                                assert(has_key(old_entries, q));
                            },
                            None => {
                                assert(has_key(old_entries, q));
                            },
                        }
                    }
                    if has_key(old_entries, q) {
                        let j = choose|j: int|
                            0 <= j < old_entries.len() && (#[trigger] old_entries[j]).0@ == q;
                        match previous {
                            Some(_) => {
                                let i = choose|i: int|
                                    0 <= i < old_entries.len() && old_entries[i].0@ == k && mid
                                        == old_entries.remove(i);
                                assert(j != i);
                                let j2 = if j < i { j } else { j - 1 };
                                assert(mid[j2] == old_entries[j]);
                                assert(es[j2] == mid[j2]);
                                assert(has_key(es, q));
                            },
                            None => {
                                assert(es[j] == mid[j]);
                                assert(has_key(es, q));
                            },
                        }
                    }
                }
            }
            assert forall|q: Seq<char>| #[trigger] map_of_entries(es).contains_key(q) implies map_of_entries(
                es,
            )[q] == target[q] by {
                if q == k {
                    lemma_lookup(es, mid.len() as int);
                } else {
                    let j = choose|j: int| 0 <= j < es.len() && (#[trigger] es[j]).0@ == q;
                    lemma_lookup(es, j);
                    assert(j < mid.len());
                    assert(es[j] == mid[j]);
                    match previous {
                        Some(_) => {
                            let i = choose|i: int|
                                0 <= i < old_entries.len() && old_entries[i].0@ == k && mid
                                    == old_entries.remove(i);
                            let j2 = if j < i { j } else { j + 1 };
                            assert(mid[j] == old_entries[j2]);
                            lemma_lookup(old_entries, j2);
                        },
                        None => {
                            assert(mid[j] == old_entries[j]);
                            lemma_lookup(old_entries, j);
                        },
                    }
                }
            }
            assert(map_of_entries(es) =~= target);
        }
        self.entries = entries;
        previous
    }

    /// One shared pipeline per key: hands out `live`, the pipeline still
    /// running for `key`, when there is one, and leaves the registry as it
    /// is; otherwise runs `start` once, registers under `key` the handle that
    /// it gives to keep, and hands out the pipeline it started.
    pub fn share_or_register<L, F: FnOnce() -> (L, V)>(
        &mut self,
        key: String,
        live: Option<L>,
        start: F,
    ) -> (shared: L)
        requires
            live is None ==> call_requires(start, ()),
        ensures
            match live {
                Some(l) => shared == l && final(self)@ == old(self)@,
                None => exists|kept: V|
                    call_ensures(start, (), (shared, kept)) && final(self)@ == old(self)@.insert(
                        key@,
                        kept,
                    ),
            },
    {
        match live {
            Some(l) => l,
            None => {
                let (l, kept) = start();
                let ghost g = kept;
                let _ = self.insert(key, kept);
                assert(call_ensures(start, (), (l, g)));
                l
            },
        }
    }
}

} // verus!
