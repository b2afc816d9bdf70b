use vstd::prelude::*;
use crate::types::{ExperienceType, InteractionIdentifier, UserExperience};

verus! {

/// One stored experience record together with the key it is stored under.
#[derive(Clone, Copy)]
struct ExperienceEntry {
    account_id: u64,
    exp_type: ExperienceType,
    record: UserExperience,
}

/// Experience records keyed by (account, category), at most one per key.
pub struct ExperienceStorage {
    entries: Vec<ExperienceEntry>,
}

impl ExperienceStorage {
    spec fn key_at(self, i: int) -> (u64, ExperienceType) {
        (self.entries@[i].account_id, self.entries@[i].exp_type)
    }

    spec fn has_key(self, k: (u64, ExperienceType)) -> bool {
        exists|i: int| 0 <= i < self.entries@.len() && #[trigger] self.key_at(i) == k
    }

    spec fn index_of(self, k: (u64, ExperienceType)) -> int {
        choose|i: int| 0 <= i < self.entries@.len() && #[trigger] self.key_at(i) == k
    }

    /// No key is stored twice.
    pub closed spec fn wf(self) -> bool {
        forall|i: int, j: int|
            0 <= i < j < self.entries@.len() ==> #[trigger] self.key_at(i) != #[trigger] self.key_at(j)
    }

    proof fn lemma_index_of(self, i: int)
        requires
            self.wf(),
            0 <= i < self.entries@.len(),
        ensures
            self.has_key(self.key_at(i)),
            self.index_of(self.key_at(i)) == i,
    {
        let k = self.key_at(i);
        assert(self.has_key(k));
        let j = self.index_of(k);
        if j < i {
            assert(self.key_at(j) != self.key_at(i));
        } else if i < j {
            assert(self.key_at(i) != self.key_at(j));
        }
    }

    /// Appending a record under a key not yet stored adds exactly that key.
    proof fn lemma_push(self, new: Self, k: (u64, ExperienceType), e: ExperienceEntry)
        requires
            self.wf(),
            !self.view().contains_key(k),
            k == (e.account_id, e.exp_type),
            new.entries@ == self.entries@.push(e),
        ensures
            new.wf(),
            new.view() == self.view().insert(k, e.record),
    {
        let n = self.entries@.len() as int;
        assert(new.key_at(n) == k);
        assert forall|i: int| 0 <= i < n implies #[trigger] new.key_at(i) == self.key_at(i) by {}
        assert forall|i: int, j: int| 0 <= i < j < new.entries@.len() implies
            #[trigger] new.key_at(i) != #[trigger] new.key_at(j) by {
            if j == n {
                if new.key_at(i) == k {
                    assert(self.key_at(i) == k);
                    assert(self.has_key(k));
                }
            } else {
                assert(self.key_at(i) != self.key_at(j));
            }
        }
        assert forall|k2: (u64, ExperienceType)| #[trigger] new.has_key(k2) <==> (self.has_key(k2) || k2 == k) by {
            if new.has_key(k2) {
                let i = choose|i: int| 0 <= i < new.entries@.len() && #[trigger] new.key_at(i) == k2;
                if i < n {
                    assert(self.key_at(i) == k2);
                }
            }
            if self.has_key(k2) {
                let i = choose|i: int| 0 <= i < n && #[trigger] self.key_at(i) == k2;
                assert(new.key_at(i) == k2);
            }
        }
        assert forall|k2: (u64, ExperienceType)| #[trigger] new.has_key(k2) implies
            new.entries@[new.index_of(k2)].record == self.view().insert(k, e.record)[k2] by {
            let i = new.index_of(k2);
            new.lemma_index_of(i);
            if k2 == k {
                new.lemma_index_of(n);
            } else {
                self.lemma_index_of(i);
            }
        }
        assert(new.view() =~= self.view().insert(k, e.record));
    }

    /// Replacing the record at a position, under the same key, changes the
    /// value of that key only.
    proof fn lemma_update(self, new: Self, i: int, e: ExperienceEntry)
        requires
            self.wf(),
            0 <= i < self.entries@.len(),
            self.key_at(i) == (e.account_id, e.exp_type),
            new.entries@ == self.entries@.update(i, e),
        ensures
            new.wf(),
            new.view() == self.view().insert(self.key_at(i), e.record),
    {
        let k = self.key_at(i);
        assert forall|j: int| 0 <= j < self.entries@.len() implies #[trigger] new.key_at(j) == self.key_at(j) by {}
        assert forall|a: int, b: int| 0 <= a < b < new.entries@.len() implies
            #[trigger] new.key_at(a) != #[trigger] new.key_at(b) by {
            assert(self.key_at(a) != self.key_at(b));
        }
        assert forall|k2: (u64, ExperienceType)| #[trigger] new.has_key(k2) <==> self.has_key(k2) by {
            if new.has_key(k2) {
                let j = choose|j: int| 0 <= j < new.entries@.len() && #[trigger] new.key_at(j) == k2;
                assert(self.key_at(j) == k2);
            }
            if self.has_key(k2) {
                let j = choose|j: int| 0 <= j < self.entries@.len() && #[trigger] self.key_at(j) == k2;
                assert(new.key_at(j) == k2);
            }
        }
        self.lemma_index_of(i);
        assert forall|k2: (u64, ExperienceType)| #[trigger] new.has_key(k2) implies
            new.entries@[new.index_of(k2)].record == self.view().insert(k, e.record)[k2] by {
            let j = new.index_of(k2);
            new.lemma_index_of(j);
            self.lemma_index_of(j);
        }
        assert(new.view() =~= self.view().insert(k, e.record));
    }

    /// An empty store.
    pub fn new() -> (r: Self)
        ensures
            r.wf(),
            r@ == Map::<(u64, ExperienceType), UserExperience>::empty(),
    {
        let r = ExperienceStorage { entries: Vec::new() };
        assert(r@ =~= Map::<(u64, ExperienceType), UserExperience>::empty());
        r
    }

    /// The position of the record stored under the key, if there is one.
    fn find(&self, account_id: u64, exp_type: ExperienceType) -> (r: Option<usize>)
        requires
            self.wf(),
        ensures
            match r {
                Some(i) => i < self.entries@.len() && self.key_at(i as int) == (account_id, exp_type),
                None => !self@.contains_key((account_id, exp_type)),
            },
    {
        let mut i: usize = 0;
        while i < self.entries.len()
            invariant
                i <= self.entries@.len(),
                forall|j: int| 0 <= j < i ==> #[trigger] self.key_at(j) != (account_id, exp_type),
            decreases self.entries@.len() - i,
        {
            if self.entries[i].account_id == account_id && self.entries[i].exp_type == exp_type {
                return Some(i);
            }
            i = i + 1;
        }
        None
    }

    /// The record stored under the key, if there is one.
    pub fn get(&self, account_id: u64, exp_type: ExperienceType) -> (r: Option<UserExperience>)
        requires
            self.wf(),
        ensures
            r == (if self@.contains_key((account_id, exp_type)) {
                Some(self@[(account_id, exp_type)])
            } else {
                None
            }),
    {
        match self.find(account_id, exp_type) {
            Some(i) => {
                proof {
                    self.lemma_index_of(i as int);
                }
                Some(self.entries[i].record)
            },
            None => None,
        }
    }

    /// Stores `record` under the key, replacing any record already there.
    pub fn set(&mut self, account_id: u64, exp_type: ExperienceType, record: UserExperience)
        requires
            old(self).wf(),
        ensures
            final(self).wf(),
            final(self)@ == old(self)@.insert((account_id, exp_type), record),
    {
        let entry = ExperienceEntry { account_id, exp_type, record };
        match self.find(account_id, exp_type) {
            Some(i) => {
                let ghost before = *self;
                self.entries.set(i, entry);
                proof {
                    before.lemma_update(*self, i as int, entry);
                }
            },
            None => {
                let ghost before = *self;
                self.entries.push(entry);
                proof {
                    before.lemma_push(*self, (account_id, exp_type), entry);
                }
            },
        }
    }

    /// Stores `record` under the key unless a record is already there;
    /// returns whether it was stored.
    pub fn insert_if_absent(&mut self, account_id: u64, exp_type: ExperienceType, record: UserExperience) -> (r: bool)
        requires
            old(self).wf(),
        ensures
            final(self).wf(),
            r == !old(self)@.contains_key((account_id, exp_type)),
            final(self)@ == (if r {
                old(self)@.insert((account_id, exp_type), record)
            } else {
                old(self)@
            }),
    {
        match self.find(account_id, exp_type) {
            Some(i) => {
                proof {
                    self.lemma_index_of(i as int);
                }
                false
            },
            None => {
                let entry = ExperienceEntry { account_id, exp_type, record };
                let ghost before = *self;
                self.entries.push(entry);
                proof {
                    before.lemma_push(*self, (account_id, exp_type), entry);
                }
                true
            },
        }
    }
}

impl View for ExperienceStorage {
    type V = Map<(u64, ExperienceType), UserExperience>;

    closed spec fn view(&self) -> Map<(u64, ExperienceType), UserExperience> {
        Map::new(|k: (u64, ExperienceType)| self.has_key(k), |k: (u64, ExperienceType)| self.entries@[self.index_of(k)].record)
    }
}

} // verus!

verus! {

/// The set of interactions recorded so far.
pub struct InteractionStorage {
    keys: Vec<InteractionIdentifier>,
}

impl View for InteractionStorage {
    type V = Set<InteractionIdentifier>;

    closed spec fn view(&self) -> Set<InteractionIdentifier> {
        self.keys@.to_set()
    }
}

impl InteractionStorage {
    /// An empty registry.
    pub fn new() -> (r: Self)
        ensures
            r@ == Set::<InteractionIdentifier>::empty(),
    {
        let r = InteractionStorage { keys: Vec::new() };
        assert(r@ =~= Set::<InteractionIdentifier>::empty());
        r
    }

    /// Whether `key` has been recorded.
    pub fn contains(&self, key: &InteractionIdentifier) -> (r: bool)
        ensures
            r == self@.contains(*key),
    {
        let mut i: usize = 0;
        while i < self.keys.len()
            invariant
                i <= self.keys@.len(),
                forall|j: int| 0 <= j < i ==> self.keys@[j] != *key,
            decreases self.keys@.len() - i,
        {
            if self.keys[i] == *key {
                assert(self.keys@.contains(*key));
                return true;
            }
            i = i + 1;
        }
        false
    }

    /// Records `key` unless it is already recorded; returns whether it was
    /// recorded now.
    pub fn insert_if_absent(&mut self, key: InteractionIdentifier) -> (r: bool)
        ensures
            r == !old(self)@.contains(key),
            final(self)@ == old(self)@.insert(key),
    {
        if self.contains(&key) {
            proof {
                assert(old(self)@.insert(key) =~= old(self)@);
            }
            false
        } else {
            let ghost before = self.keys@;
            self.keys.push(key);
            proof {
                assert forall|k: InteractionIdentifier| #[trigger] self.keys@.contains(k) <==> (before.contains(k) || k == key) by {
                    if self.keys@.contains(k) {
                        let j = choose|j: int| 0 <= j < self.keys@.len() && self.keys@[j] == k;
                        if j < before.len() {
                            assert(before[j] == k);
                        }
                    }
                    if before.contains(k) {
                        let j = choose|j: int| 0 <= j < before.len() && before[j] == k;
                        assert(self.keys@[j] == k);
                    }
                    if k == key {
                        assert(self.keys@[before.len() as int] == k);
                    }
                }
                assert(self@ =~= old(self)@.insert(key));
            }
            true
        }
    }
}

} // verus!
