//! Values that are kept under a text until a point in time.
use crate::text::{chars_of, equal};
use vstd::prelude::*;

verus! {

/// A map from texts to values, each with the time until which it is good.
/// Times are counted in nanoseconds from a fixed point.
#[derive(Debug)]
pub struct TimedMap<V> {
    entries: Vec<(String, V, u128)>,
}

/// The place of an entry under `key`.
pub closed spec fn is_at<V>(entries: Seq<(String, V, u128)>, key: Seq<char>, i: int) -> bool {
    0 <= i < entries.len() && entries[i].0@ == key
}

/// Whether no two entries are kept under the same text.
pub closed spec fn distinct<V>(entries: Seq<(String, V, u128)>) -> bool {
    forall|i: int, j: int|
        0 <= i < j < entries.len() ==> (#[trigger] entries[i]).0@ != (#[trigger] entries[j]).0@
}

/// The entries as a map.
pub closed spec fn as_map<V>(entries: Seq<(String, V, u128)>) -> Map<Seq<char>, (V, u128)> {
    Map::new(
        |key: Seq<char>| exists|i: int| is_at(entries, key, i),
        |key: Seq<char>|
            {
                let i = choose|i: int| is_at(entries, key, i);
                (entries[i].1, entries[i].2)
            },
    )
}

proof fn lemma_entry<V>(entries: Seq<(String, V, u128)>, i: int)
    requires
        distinct(entries),
        0 <= i < entries.len(),
    ensures
        as_map(entries).contains_key(entries[i].0@),
        as_map(entries)[entries[i].0@] == (entries[i].1, entries[i].2),
{
    let key = entries[i].0@;
    assert(is_at(entries, key, i));
    let j = choose|j: int| is_at(entries, key, j);
    assert(is_at(entries, key, j));
    if j < i {
        assert(entries[j].0@ != entries[i].0@);
    } else if i < j {
        assert(entries[i].0@ != entries[j].0@);
    }
}

proof fn lemma_key<V>(entries: Seq<(String, V, u128)>, key: Seq<char>) -> (i: int)
    requires
        as_map(entries).contains_key(key),
    ensures
        is_at(entries, key, i),
        0 <= i < entries.len(),
        entries[i].0@ == key,
{
    choose|i: int| is_at(entries, key, i)
}

proof fn lemma_purged<V>(
    before: Seq<(String, V, u128)>,
    after: Seq<(String, V, u128)>,
    now: u128,
)
    requires
        distinct(before),
        distinct(after),
        forall|a: int| #![trigger after[a]]
            0 <= a < after.len() ==> after[a].2 > now && exists|b: int|
                0 <= b < before.len() && before[b] == after[a],
        forall|b: int| #![trigger before[b]]
            0 <= b < before.len() && before[b].2 > now ==> exists|a: int|
                0 <= a < after.len() && after[a] == before[b],
    ensures
        as_map(after) == good_at(as_map(before), now),
{
    assert forall|x: Seq<char>| #[trigger] as_map(after).contains_key(x) implies good_at(
        as_map(before),
        now,
    ).contains_key(x) && as_map(after)[x] == as_map(before)[x] by {
        let a = lemma_key(after, x);
        lemma_entry(after, a);
        let b = choose|b: int| 0 <= b < before.len() && before[b] == after[a];
        lemma_entry(before, b);
    }
    assert forall|x: Seq<char>| #[trigger]
        good_at(as_map(before), now).contains_key(x) implies as_map(after).contains_key(x) by {
        let b = lemma_key(before, x);
        lemma_entry(before, b);
        let a = choose|a: int| 0 <= a < after.len() && after[a] == before[b];
        lemma_entry(after, a);
    }
}

impl<V> View for TimedMap<V> {
    type V = Map<Seq<char>, (V, u128)>;

    closed spec fn view(&self) -> Map<Seq<char>, (V, u128)> {
        as_map(self.entries@)
    }
}

impl<V> TimedMap<V> {
    /// Whether no two entries are kept under the same text.
    pub closed spec fn wf(&self) -> bool {
        distinct(self.entries@)
    }

    /// An empty map.
    pub fn new() -> (r: TimedMap<V>)
        ensures
            r.wf(),
            r@ == Map::<Seq<char>, (V, u128)>::empty(),
    {
        let r = TimedMap { entries: Vec::new() };
        assert(r@ == Map::<Seq<char>, (V, u128)>::empty()) by {
            assert forall|key: Seq<char>| !r@.contains_key(key) by {
                if r@.contains_key(key) {
                    let i = lemma_key(r.entries@, key);
                }
            }
        }
        r
    }

    fn place(&self, key: &str) -> (r: Option<usize>)
        requires
            self.wf(),
        ensures
            match r {
                Some(i) => i < self.entries@.len() && self.entries@[i as int].0@ == key@,
                None => !self@.contains_key(key@),
            },
    {
        let want = chars_of(key);
        for i in 0..self.entries.len()
            invariant
                want@ == key@,
                forall|j: int| 0 <= j < i ==> (#[trigger] self.entries@[j]).0@ != key@,
        {
            let found = chars_of(self.entries[i].0.as_str());
            if equal(found.as_slice(), want.as_slice()) {
                return Some(i);
            }
        }
        proof {
            if self@.contains_key(key@) {
                let i = lemma_key(self.entries@, key@);
            }
        }
        None
    }

    /// Keeps `value` under `key` until `until`, in the place of what was kept
    /// there.
    pub fn insert(&mut self, key: String, value: V, until: u128)
        requires
            old(self).wf(),
        ensures
            final(self).wf(),
            final(self)@ == old(self)@.insert(key@, (value, until)),
    {
        let ghost before = self.entries@;
        let ghost k = key@;
        match self.place(key.as_str()) {
            Some(i) => {
                self.entries.set(i, (key, value, until));
                let ghost now = self.entries@;
                proof {
                    assert(distinct(now)) by {
                        assert forall|a: int, b: int| 0 <= a < b < now.len() implies (
                        #[trigger] now[a]).0@ != (#[trigger] now[b]).0@ by {
                            assert(before[a].0@ != before[b].0@);
                        }
                    }
                    assert forall|x: Seq<char>| #[trigger] as_map(now).contains_key(x)
                        == as_map(before).insert(k, (value, until)).contains_key(x) by {
                        if as_map(now).contains_key(x) {
                            let a = lemma_key(now, x);
                            lemma_entry(before, a);
                        }
                        if as_map(before).contains_key(x) {
                            let a = lemma_key(before, x);
                            lemma_entry(now, a);
                        }
                        lemma_entry(now, i as int);
                    }
                    assert forall|x: Seq<char>| as_map(now).contains_key(x) implies #[trigger] as_map(
                        now,
                    )[x] == as_map(before).insert(k, (value, until))[x] by {
                        let a = lemma_key(now, x);
                        lemma_entry(now, a);
                        lemma_entry(before, a);
                        if x == k && a != i {
                            assert(before[a].0@ != before[i as int].0@);
                        }
                    }
                    assert(as_map(now) == as_map(before).insert(k, (value, until)));
                }
            },
            None => {
                self.entries.push((key, value, until));
                let ghost now = self.entries@;
                proof {
                    assert(now.drop_last() == before);
                    assert forall|a: int| 0 <= a < before.len() implies (#[trigger] before[a]).0@
                        != k by {
                        lemma_entry(before, a);
                    }
                    assert(distinct(now)) by {
                        assert forall|a: int, b: int| 0 <= a < b < now.len() implies (
                        #[trigger] now[a]).0@ != (#[trigger] now[b]).0@ by {
                            assert(before[a] == now[a]);
                            if b < before.len() {
                                assert(before[b] == now[b]);
                            }
                        }
                    }
                    assert forall|x: Seq<char>| #[trigger] as_map(now).contains_key(x)
                        == as_map(before).insert(k, (value, until)).contains_key(x) by {
                        if as_map(now).contains_key(x) {
                            let a = lemma_key(now, x);
                            if a < before.len() {
                                lemma_entry(before, a);
                            }
                        }
                        if as_map(before).contains_key(x) {
                            let a = lemma_key(before, x);
                            lemma_entry(now, a);
                        }
                        lemma_entry(now, before.len() as int);
                    }
                    assert forall|x: Seq<char>| as_map(now).contains_key(x) implies #[trigger] as_map(
                        now,
                    )[x] == as_map(before).insert(k, (value, until))[x] by {
                        let a = lemma_key(now, x);
                        lemma_entry(now, a);
                        if a < before.len() {
                            lemma_entry(before, a);
                        }
                    }
                    assert(as_map(now) == as_map(before).insert(k, (value, until)));
                }
            },
        }
    }

    /// What is kept under `key`, if it is still good at the time `now`.
    pub fn get(&self, key: &str, now: u128) -> (r: Option<&V>)
        requires
            self.wf(),
        ensures
            match r {
                Some(v) => self@.contains_key(key@) && self@[key@].1 > now && *v == self@[key@].0,
                None => !self@.contains_key(key@) || self@[key@].1 <= now,
            },
    {
        match self.place(key) {
            Some(i) => {
                proof {
                    lemma_entry(self.entries@, i as int);
                }
                if self.entries[i].2 > now {
                    Some(&self.entries[i].1)
                } else {
                    None
                }
            },
            None => None,
        }
    }

    /// Drops what is no longer good at the time `now`.
    pub fn purge(&mut self, now: u128)
        requires
            old(self).wf(),
        ensures
            final(self).wf(),
            final(self)@ == good_at(old(self)@, now),
    {
        let ghost before = self.entries@;
        let mut kept: Vec<(String, V, u128)> = Vec::new();
        assert(before.take(before.len() as int) == before);
        loop
            invariant
                distinct(before),
                self.entries@.len() <= before.len(),
                self.entries@ == before.take(self.entries@.len() as int),
                distinct(kept@),
                forall|a: int| #![trigger kept@[a]]
                    0 <= a < kept@.len() ==> kept@[a].2 > now && exists|b: int|
                        self.entries@.len() <= b < before.len() && before[b] == kept@[a],
                forall|b: int| #![trigger before[b]]
                    self.entries@.len() <= b < before.len() && before[b].2 > now ==> exists|a: int|
                        0 <= a < kept@.len() && kept@[a] == before[b],
            ensures
                self.entries@.len() == 0,
            decreases self.entries@.len(),
        {
            let ghost left = self.entries@;
            let ghost sofar = kept@;
            match self.entries.pop() {
                None => {
                    break;
                },
                Some(e) => {
                    assert(e == before[left.len() - 1]);
                    if e.2 > now {
                        kept.push(e);
                        proof {
                            let n = left.len() - 1;
                            assert(distinct(kept@)) by {
                                assert forall|a: int, b: int| 0 <= a < b < kept@.len() implies (
                                #[trigger] kept@[a]).0@ != (#[trigger] kept@[b]).0@ by {
                                    assert(kept@[a] == sofar[a]);
                                    if b < sofar.len() {
                                        assert(kept@[b] == sofar[b]);
                                    } else {
                                        let c = choose|c: int|
                                            left.len() <= c < before.len() && before[c] == sofar[a];
                                        assert(before[n].0@ != before[c].0@);
                                    }
                                }
                            }
                            assert forall|a: int| #![trigger kept@[a]]
                                0 <= a < kept@.len() implies kept@[a].2 > now && exists|b: int|
                                    n <= b < before.len() && before[b] == kept@[a] by {
                                if a < sofar.len() {
                                    assert(kept@[a] == sofar[a]);
                                } else {
                                    assert(before[n] == kept@[a]);
                                }
                            }
                            assert forall|b: int| #![trigger before[b]]
                                n <= b < before.len() && before[b].2 > now implies exists|a: int|
                                    0 <= a < kept@.len() && kept@[a] == before[b] by {
                                if b == n {
                                    assert(kept@[sofar.len() as int] == before[b]);
                                } else {
                                    let a = choose|a: int|
                                        0 <= a < sofar.len() && sofar[a] == before[b];
                                    assert(kept@[a] == before[b]);
                                }
                            }
                        }
                    }
                },
            }
        }
        proof {
            lemma_purged(before, kept@, now);
        }
        self.entries = kept;
    }

    /// Drops everything.
    pub fn clear(&mut self)
        ensures
            final(self).wf(),
            final(self)@ == Map::<Seq<char>, (V, u128)>::empty(),
    {
        *self = TimedMap::new();
    }
}

/// The part of a map that is still good at the time `now`.
pub open spec fn good_at<V>(map: Map<Seq<char>, (V, u128)>, now: u128) -> Map<
    Seq<char>,
    (V, u128),
> {
    map.restrict(map.dom().filter(|key: Seq<char>| map[key].1 > now))
}

} // verus!
