//! The in-memory keyspace: arbitrary byte keys and values, each entry with
//! an optional absolute expiry, checked lazily on reads.  The clock is a
//! millisecond instant handed in by the caller.
use vstd::prelude::*;
use vstd::map::*;

verus! {

broadcast use vstd::std_specs::vec::group_vec_axioms;

/// One stored entry: the value, the instant it was written, and an optional
/// lifetime in milliseconds.
pub struct Entry {
    pub value: Vec<u8>,
    pub expiry: Option<u64>,
    pub created_at: u64,
}

/// The shape of an entry.
pub struct EntryModel {
    pub value: Seq<u8>,
    pub expiry: Option<u64>,
    pub created_at: u64,
}

impl View for Entry {
    type V = EntryModel;

    open spec fn view(&self) -> EntryModel {
        EntryModel { value: self.value@, expiry: self.expiry, created_at: self.created_at }
    }
}

/// An entry is expired when its creation instant plus its lifetime lies
/// strictly before now.  An entry without expiry never expires.
pub open spec fn expired(e: EntryModel, now: int) -> bool {
    match e.expiry {
        Option::Some(x) => e.created_at + x < now,
        Option::None => false,
    }
}

impl Entry {
    pub fn is_expired(&self, now: u64) -> (r: bool)
        ensures
            r == expired(self@, now as int),
    {
        match self.expiry {
            Some(x) => {
                if x <= u64::MAX - self.created_at {
                    self.created_at + x < now
                } else {
                    false
                }
            },
            None => false,
        }
    }
}

/// The keyspace as a mathematical map, later pairs overriding earlier ones.
pub open spec fn map_of(s: Seq<(Vec<u8>, Entry)>) -> Map<Seq<u8>, EntryModel>
    decreases s.len(),
{
    if s.len() == 0 {
        Map::empty()
    } else {
        map_of(s.drop_last()).insert(s.last().0@, s.last().1@)
    }
}

/// No key occurs twice.
pub open spec fn keys_unique(s: Seq<(Vec<u8>, Entry)>) -> bool {
    forall|i: int, j: int|
        0 <= i < j < s.len() ==> (#[trigger] s[i]).0@ != (#[trigger] s[j]).0@
}

/// What the association list's map holds: exactly the listed keys, and under
/// unique keys each key maps to its listed entry.
pub proof fn lemma_map_of(s: Seq<(Vec<u8>, Entry)>)
    ensures
        forall|k: Seq<u8>|
            #[trigger] map_of(s).contains_key(k) <==> exists|i: int|
                0 <= i < s.len() && (#[trigger] s[i]).0@ == k,
        keys_unique(s) ==> forall|i: int|
            0 <= i < s.len() ==> map_of(s).contains_key((#[trigger] s[i]).0@) && map_of(s)[s[i].0@]
                == s[i].1@,
    decreases s.len(),
{
    if s.len() > 0 {
        lemma_map_of(s.drop_last());
        assert forall|k: Seq<u8>| #[trigger] map_of(s).contains_key(k) implies exists|i: int|
            0 <= i < s.len() && (#[trigger] s[i]).0@ == k by {
            assert(map_of(s) == map_of(s.drop_last()).insert(s.last().0@, s.last().1@));
            if k == s.last().0@ {
                assert(0 <= s.len() - 1 < s.len() && (s[s.len() - 1]).0@ == k);
            } else {
                assert(map_of(s.drop_last()).contains_key(k));
                let i = choose|i: int| 0 <= i < s.drop_last().len() && (#[trigger] s.drop_last()[
                    i]).0@ == k;
                assert(s.drop_last()[i] == s[i]);
                assert(0 <= i < s.len() && (s[i]).0@ == k);
            }
        }
        assert forall|k: Seq<u8>| (exists|i: int| 0 <= i < s.len() && (#[trigger] s[i]).0@ == k)
            implies #[trigger] map_of(s).contains_key(k) by {
            assert(map_of(s) == map_of(s.drop_last()).insert(s.last().0@, s.last().1@));
            let i = choose|i: int| 0 <= i < s.len() && (#[trigger] s[i]).0@ == k;
            if i < s.len() - 1 {
                assert(s.drop_last()[i] == s[i]);
                assert(0 <= i < s.drop_last().len() && (s.drop_last()[i]).0@ == k);
                assert(map_of(s.drop_last()).contains_key(k));
            } else {
                assert(k == s.last().0@);
            }
        }
        if keys_unique(s) {
            assert(keys_unique(s.drop_last())) by {
                assert(forall|i: int|
                    0 <= i < s.drop_last().len() ==> #[trigger] s.drop_last()[i] == s[i]);
            }
            assert forall|i: int| 0 <= i < s.len() implies map_of(s).contains_key(
                (#[trigger] s[i]).0@,
            ) && map_of(s)[s[i].0@] == s[i].1@ by {
                if i < s.len() - 1 {
                    assert(s.drop_last()[i] == s[i]);
                    assert(s[i].0@ != s.last().0@);
                }
            }
        }
    }
}

/// The keyspace.  Invariant: at most one entry per key.
pub struct Database {
    data: Vec<(Vec<u8>, Entry)>,
}

impl View for Database {
    type V = Map<Seq<u8>, EntryModel>;

    closed spec fn view(&self) -> Map<Seq<u8>, EntryModel> {
        map_of(self.data@)
    }
}

impl Database {
    pub closed spec fn wf(&self) -> bool {
        keys_unique(self.data@)
    }

    pub fn new() -> (r: Database)
        ensures
            r.wf(),
            r@ == Map::<Seq<u8>, EntryModel>::empty(),
    {
        Database { data: Vec::new() }
    }

    /// Index of the entry for `key`, if any.
    fn find(&self, key: &[u8]) -> (r: Option<usize>)
        ensures
            match r {
                Some(i) => i < self.data@.len() && self.data@[i as int].0@ == key@,
                None => forall|i: int|
                    0 <= i < self.data@.len() ==> (#[trigger] self.data@[i]).0@ != key@,
            },
    {
        let mut i: usize = 0;
        while i < self.data.len()
            invariant
                i <= self.data@.len(),
                forall|k: int| 0 <= k < i ==> (#[trigger] self.data@[k]).0@ != key@,
            decreases self.data@.len() - i,
        {
            if crate::strutil::eq_bytes(self.data[i].0.as_slice(), key) {
                return Some(i);
            }
            i = i + 1;
        }
        None
    }

    /// Looks a key up at instant `now`.  A hit on a live entry returns its
    /// value; a hit on an expired entry removes it and misses; a miss leaves
    /// the keyspace alone.
    pub fn get(&mut self, key: Vec<u8>, now: u64) -> (r: Option<Vec<u8>>)
        requires
            old(self).wf(),
        ensures
            final(self).wf(),
            ({
                let m = old(self)@;
                if !m.contains_key(key@) {
                    r is None && final(self)@ == m
                } else if expired(m[key@], now as int) {
                    r is None && final(self)@ == m.remove(key@)
                } else {
                    (r matches Option::Some(v) && v@ == m[key@].value) && final(self)@ == m
                }
            }),
    {
        proof {
            lemma_map_of(self.data@);
        }
        match self.find(key.as_slice()) {
            None => {
                proof {
                    if self@.contains_key(key@) {
                        let i = choose|i: int|
                            0 <= i < self.data@.len() && (#[trigger] self.data@[i]).0@ == key@;
                        assert(false);
                    }
                }
                None
            },
            Some(i) => {
                if self.data[i].1.is_expired(now) {
                    let ghost before = self.data@;
                    self.data.remove(i);
                    proof {
                        lemma_remove_keeps_map(before, i as int);
                    }
                    None
                } else {
                    let value = self.data[i].1.value.clone();
                    Some(value)
                }
            },
        }
    }

    /// Writes a key at instant `now`, replacing any existing entry.
    pub fn set(&mut self, key: Vec<u8>, value: Vec<u8>, expiry: Option<u64>, now: u64)
        requires
            old(self).wf(),
        ensures
            final(self).wf(),
            final(self)@ == old(self)@.insert(
                key@,
                EntryModel { value: value@, expiry, created_at: now },
            ),
    {
        proof {
            lemma_map_of(self.data@);
        }
        match self.find(key.as_slice()) {
            Some(i) => {
                let ghost before = self.data@;
                self.data.remove(i);
                proof {
                    lemma_remove_keeps_map(before, i as int);
                }
            },
            None => {},
        }
        let ghost mid = self.data@;
        let entry = Entry { value, expiry, created_at: now };
        let ghost em = entry@;
        self.data.push((key, entry));
        proof {
            assert(self.data@.drop_last() =~= mid);
            assert(map_of(self.data@) == map_of(mid).insert(self.data@.last().0@, self.data@.last().1@));
            lemma_map_of(mid);
            lemma_map_of(old(self).data@);
            assert(map_of(self.data@) =~= old(self)@.insert(key@, em));
            assert(keys_unique(self.data@)) by {
                lemma_map_of(mid);
                assert(forall|k: int|
                    0 <= k < mid.len() ==> #[trigger] self.data@[k] == mid[k]);
            }
        }
    }
}

/// Removing the entry at `i` removes exactly its key from the map.
pub proof fn lemma_remove_keeps_map(s: Seq<(Vec<u8>, Entry)>, i: int)
    requires
        keys_unique(s),
        0 <= i < s.len(),
    ensures
        keys_unique(s.subrange(0, i) + s.subrange(i + 1, s.len() as int)),
        map_of(s.subrange(0, i) + s.subrange(i + 1, s.len() as int)) == map_of(s).remove(s[i].0@),
{
    let l = s.subrange(0, i) + s.subrange(i + 1, s.len() as int);
    assert(forall|k: int|
        0 <= k < l.len() ==> #[trigger] l[k] == (if k < i {
            s[k]
        } else {
            s[k + 1]
        }));
    assert(keys_unique(l));
    lemma_map_of(s);
    lemma_map_of(l);
    assert forall|k: Seq<u8>| #[trigger] map_of(l).contains_key(k) <==> map_of(s).remove(
        s[i].0@,
    ).contains_key(k) by {
        if map_of(l).contains_key(k) {
            let j = choose|j: int| 0 <= j < l.len() && (#[trigger] l[j]).0@ == k;
            if j < i {
                assert(s[j].0@ == k);
            } else {
                assert(s[j + 1].0@ == k);
            }
        }
        if map_of(s).remove(s[i].0@).contains_key(k) {
            let j = choose|j: int| 0 <= j < s.len() && (#[trigger] s[j]).0@ == k;
            if j < i {
                assert(l[j].0@ == k);
            } else {
                assert(l[j - 1].0@ == k);
            }
        }
    }
    assert forall|k: Seq<u8>| #[trigger] map_of(l).contains_key(k) implies map_of(l)[k] == map_of(
        s,
    ).remove(s[i].0@)[k] by {
        let j = choose|j: int| 0 <= j < l.len() && (#[trigger] l[j]).0@ == k;
        if j < i {
            assert(s[j].0@ == k && l[j].1@ == s[j].1@);
        } else {
            assert(s[j + 1].0@ == k && l[j].1@ == s[j + 1].1@);
        }
    }
    assert(map_of(l) =~= map_of(s).remove(s[i].0@));
}

} // verus!
