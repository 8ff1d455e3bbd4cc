//! An in-memory store of request logs: per key, an ordered list of instants,
//! appended at the tail and popped from the head.
use vstd::prelude::*;

use crate::time::Timestamp;

verus! {

/// Per key, the instants of past requests, oldest first.
pub struct StorageHandler {
    entries: Vec<(String, Vec<Timestamp>)>,
    logs: Ghost<Map<Seq<char>, Seq<Timestamp>>>,
}

impl View for StorageHandler {
    type V = Map<Seq<char>, Seq<Timestamp>>;

    /// The log of each key that has one.
    closed spec fn view(&self) -> Map<Seq<char>, Seq<Timestamp>> {
        self.logs@
    }
}

impl StorageHandler {
    /// The log held for `key`; empty when the key has none.
    pub open spec fn log_of(&self, key: Seq<char>) -> Seq<Timestamp> {
        if self@.contains_key(key) {
            self@[key]
        } else {
            Seq::empty()
        }
    }

    /// Each key has one entry, and the entries hold the logs of the view.
    pub closed spec fn wf(&self) -> bool {
        entries_match(self.entries@, self.logs@)
    }

    /// An empty store.
    pub fn new() -> (r: StorageHandler)
        ensures
            r.wf(),
            r@ == Map::<Seq<char>, Seq<Timestamp>>::empty(),
    {
        StorageHandler { entries: Vec::new(), logs: Ghost(Map::empty()) }
    }

    fn find(&self, key: &String) -> (r: Option<usize>)
        requires
            self.wf(),
        ensures
            match r {
                Some(i) => i < self.entries.len() && self.entries@[i as int].0@ == key@,
                None => !self@.contains_key(key@),
            },
    {
        let mut i: usize = 0;
        while i < self.entries.len()
            invariant
                i <= self.entries.len(),
                forall|j: int| 0 <= j < i ==> (#[trigger] self.entries@[j]).0@ != key@,
            decreases self.entries.len() - i,
        {
            if self.entries[i].0 == *key {
                return Some(i);
            }
            i = i + 1;
        }
        None
    }

    /// The log of `key`, oldest first. Reading changes nothing.
    pub fn get(&self, key: &str) -> (r: Vec<Timestamp>)
        requires
            self.wf(),
        ensures
            r@ == self.log_of(key@),
    {
        let k = key.to_string();
        match self.find(&k) {
            Some(i) => self.entries[i].1.clone(),
            None => Vec::new(),
        }
    }

    /// Adds `val` at the tail of the log of `key`, creating the log if needed.
    pub fn append(&mut self, key: &str, val: Timestamp)
        requires
            old(self).wf(),
        ensures
            final(self).wf(),
            final(self)@ == old(self)@.insert(key@, old(self).log_of(key@).push(val)),
    {
        let k = key.to_string();
        let ghost new_log = self.log_of(key@).push(val);
        match self.find(&k) {
            Some(i) => {
                let ghost e = self.entries@;
                let (name, mut log) = self.entries.remove(i);
                log.push(val);
                self.entries.insert(i, (name, log));
                proof {
                    lemma_update_entry(e, self.logs@, i as int, log);
                    assert(self.entries@ =~= e.update(i as int, (e[i as int].0, log)));
                }
            },
            None => {
                let mut log: Vec<Timestamp> = Vec::new();
                log.push(val);
                proof {
                    lemma_push_entry(self.entries@, self.logs@, k, log);
                }
                self.entries.push((k, log));
            },
        }
        self.logs = Ghost(self.logs@.insert(key@, new_log));
    }

    /// Removes the whole log of `key`.
    pub fn remove_users_past_requests(&mut self, key: &str)
        requires
            old(self).wf(),
        ensures
            final(self).wf(),
            final(self)@ == old(self)@.insert(key@, Seq::empty()),
    {
        let k = key.to_string();
        match self.find(&k) {
            Some(i) => {
                let ghost e = self.entries@;
                let (name, _) = self.entries.remove(i);
                let log: Vec<Timestamp> = Vec::new();
                self.entries.insert(i, (name, log));
                proof {
                    lemma_update_entry(e, self.logs@, i as int, log);
                    assert(self.entries@ =~= e.update(i as int, (e[i as int].0, log)));
                }
            },
            None => {
                let log: Vec<Timestamp> = Vec::new();
                proof {
                    lemma_push_entry(self.entries@, self.logs@, k, log);
                }
                self.entries.push((k, log));
            },
        }
        self.logs = Ghost(self.logs@.insert(key@, Seq::empty()));
    }

    /// Removes the head (oldest) entry of the log of `key`; an empty log stays
    /// empty.
    pub fn pop_oldest_request(&mut self, key: &str)
        requires
            old(self).wf(),
        ensures
            final(self).wf(),
            old(self).log_of(key@).len() == 0 ==> final(self)@ == old(self)@,
            old(self).log_of(key@).len() > 0 ==> final(self)@ == old(self)@.insert(
                key@,
                old(self).log_of(key@).drop_first(),
            ),
    {
        let k = key.to_string();
        match self.find(&k) {
            Some(i) => {
                if self.entries[i].1.len() > 0 {
                    let ghost new_log = self.log_of(key@).drop_first();
                    let ghost e = self.entries@;
                    let (name, mut log) = self.entries.remove(i);
                    log.remove(0);
                    self.entries.insert(i, (name, log));
                    proof {
                        assert(log@ =~= new_log);
                        lemma_update_entry(e, self.logs@, i as int, log);
                        assert(self.entries@ =~= e.update(i as int, (e[i as int].0, log)));
                    }
                    self.logs = Ghost(self.logs@.insert(key@, new_log));
                }
            },
            None => {},
        }
    }
}

/// Each key stands in one entry; the keys of the entries are those of `logs`,
/// and each entry holds the log that `logs` gives its key.
pub closed spec fn entries_match(
    entries: Seq<(String, Vec<Timestamp>)>,
    logs: Map<Seq<char>, Seq<Timestamp>>,
) -> bool {
    &&& forall|i: int, j: int|
        0 <= i < j < entries.len() ==> (#[trigger] entries[i]).0@ != (#[trigger] entries[j]).0@
    &&& forall|i: int|
        0 <= i < entries.len() ==> logs.contains_key((#[trigger] entries[i]).0@) && logs[entries[i].0@]
            == entries[i].1@
    &&& forall|k: Seq<char>|
        #[trigger] logs.contains_key(k) ==> exists|i: int|
            0 <= i < entries.len() && (#[trigger] entries[i]).0@ == k
}

proof fn lemma_update_entry(
    entries: Seq<(String, Vec<Timestamp>)>,
    logs: Map<Seq<char>, Seq<Timestamp>>,
    i: int,
    log: Vec<Timestamp>,
)
    requires
        entries_match(entries, logs),
        0 <= i < entries.len(),
    ensures
        entries_match(entries.update(i, (entries[i].0, log)), logs.insert(entries[i].0@, log@)),
{
    let e2 = entries.update(i, (entries[i].0, log));
    let l2 = logs.insert(entries[i].0@, log@);
    assert forall|k: Seq<char>| #[trigger] l2.contains_key(k) implies exists|j: int|
        0 <= j < e2.len() && (#[trigger] e2[j]).0@ == k by {
        if k == entries[i].0@ {
            assert(e2[i].0@ == k);
        } else {
            assert(logs.contains_key(k));
            let j = choose|j: int| 0 <= j < entries.len() && (#[trigger] entries[j]).0@ == k;
            assert(e2[j].0@ == k);
        }
    }
}

proof fn lemma_push_entry(
    entries: Seq<(String, Vec<Timestamp>)>,
    logs: Map<Seq<char>, Seq<Timestamp>>,
    key: String,
    log: Vec<Timestamp>,
)
    requires
        entries_match(entries, logs),
        !logs.contains_key(key@),
    ensures
        entries_match(entries.push((key, log)), logs.insert(key@, log@)),
{
    let e2 = entries.push((key, log));
    let l2 = logs.insert(key@, log@);
    assert forall|k: Seq<char>| #[trigger] l2.contains_key(k) implies exists|j: int|
        0 <= j < e2.len() && (#[trigger] e2[j]).0@ == k by {
        if k == key@ {
            assert(e2[entries.len() as int].0@ == k);
        } else {
            let j = choose|j: int| 0 <= j < entries.len() && (#[trigger] entries[j]).0@ == k;
            assert(e2[j].0@ == k);
        }
    }
    assert forall|i: int, j: int| 0 <= i < j < e2.len() implies (#[trigger] e2[i]).0@ != (
    #[trigger] e2[j]).0@ by {
        if j == entries.len() {
            assert(logs.contains_key(entries[i].0@));
        }
    }
}

} // verus!
