use vstd::prelude::*;

verus! {

/// What a completed publish request answered; replayed to every later
/// request that bears the same key.
#[derive(PartialEq, Eq, Structural, Clone, Copy, Debug)]
pub struct PublishResponse {
    pub status_code: u16,
    pub tasks_created: u64,
}

/// One idempotency key and, once its request completed, the answer given.
pub struct IdempotencyRecord {
    pub key: String,
    pub issue_id: u64,
    pub response: Option<PublishResponse>,
    pub created_at: u64,
}

pub ghost struct RecordView {
    pub key: Seq<char>,
    pub issue_id: nat,
    pub response: Option<PublishResponse>,
    pub created_at: nat,
}

impl View for IdempotencyRecord {
    type V = RecordView;

    open spec fn view(&self) -> RecordView {
        RecordView {
            key: self.key@,
            issue_id: self.issue_id as nat,
            response: self.response,
            created_at: self.created_at as nat,
        }
    }
}

/// What a request learns when it tries to take a key.
#[derive(PartialEq, Eq, Structural, Clone, Copy, Debug)]
pub enum KeyClaim {
    /// The key was new: this request owns it and must run the fan-out.
    Acquired,
    /// An earlier request with this key completed with this answer.
    Cached(PublishResponse),
    /// An earlier request with this key is still running.
    Conflict,
}

pub open spec fn has_key(records: Seq<RecordView>, key: Seq<char>) -> bool {
    exists|i: int| 0 <= i < records.len() && #[trigger] records[i].key == key
}

/// The position of a key that is present (keys are unique).
pub open spec fn key_at(records: Seq<RecordView>, key: Seq<char>) -> int {
    choose|i: int| 0 <= i < records.len() && #[trigger] records[i].key == key
}

pub open spec fn records_wf(records: Seq<RecordView>) -> bool {
    forall|i: int, k: int|
        0 <= i < k < records.len() ==> #[trigger] records[i].key != #[trigger] records[k].key
}

/// What taking `key` answers.
pub open spec fn claim_outcome(records: Seq<RecordView>, key: Seq<char>) -> KeyClaim {
    if !has_key(records, key) {
        KeyClaim::Acquired
    } else {
        match records[key_at(records, key)].response {
            Some(r) => KeyClaim::Cached(r),
            None => KeyClaim::Conflict,
        }
    }
}

/// The records after taking `key`: a new key is recorded, unanswered.
pub open spec fn after_claim(records: Seq<RecordView>, key: Seq<char>, issue_id: nat, now: nat) -> Seq<
    RecordView,
> {
    if !has_key(records, key) {
        records.push(RecordView { key, issue_id, response: None, created_at: now })
    } else {
        records
    }
}

/// The records after answering `key`: only a key still unanswered takes
/// the answer.
pub open spec fn after_finish(records: Seq<RecordView>, key: Seq<char>, response: PublishResponse) -> Seq<
    RecordView,
> {
    if has_key(records, key) && records[key_at(records, key)].response is None {
        let i = key_at(records, key);
        records.update(i, RecordView { response: Some(response), ..records[i] })
    } else {
        records
    }
}

/// Deduplicates publish requests: taking a key is the one step that a
/// single request can win.
pub struct IdempotencyGuard {
    pub records: Vec<IdempotencyRecord>,
}

impl View for IdempotencyGuard {
    type V = Seq<RecordView>;

    open spec fn view(&self) -> Seq<RecordView> {
        self.records@.map_values(|r: IdempotencyRecord| r@)
    }
}

impl IdempotencyGuard {
    pub open spec fn wf(&self) -> bool {
        records_wf(self@)
    }

    pub fn new() -> (r: IdempotencyGuard)
        ensures
            r.wf(),
            r@.len() == 0,
    {
        IdempotencyGuard { records: Vec::new() }
    }

    /// The position of `key`, if it was taken.
    pub fn find_key(&self, key: &String) -> (r: Option<usize>)
        requires
            self.wf(),
        ensures
            r is None <==> !has_key(self@, key@),
            r matches Some(i) ==> i as int == key_at(self@, key@) && i < self@.len(),
    {
        let mut i: usize = 0;
        while i < self.records.len()
            invariant
                self.wf(),
                0 <= i <= self.records.len(),
                forall|k: int| 0 <= k < i ==> self@[k].key != key@,
            decreases self.records.len() - i,
        {
            if self.records[i].key == *key {
                assert(self@[i as int].key == key@);
                let ghost j = key_at(self@, key@);
                assert(self@[j].key == key@);
                proof {
                    if j > i as int {
                        assert(self@[i as int].key != self@[j].key);
                    }
                }
                return Some(i);
            }
            i = i + 1;
        }
        None
    }

    /// Tries to take `key` for a publish of `issue_id`. Only a key never
    /// seen before is taken, and recorded as unanswered; otherwise the
    /// records are unchanged.
    pub fn begin(&mut self, key: String, issue_id: u64, now: u64) -> (r: KeyClaim)
        requires
            old(self).wf(),
        ensures
            final(self).wf(),
            r == claim_outcome(old(self)@, key@),
            final(self)@ == after_claim(old(self)@, key@, issue_id as nat, now as nat),
    {
        match self.find_key(&key) {
            Some(i) => match self.records[i].response {
                Some(resp) => KeyClaim::Cached(resp),
                None => KeyClaim::Conflict,
            },
            None => {
                let ghost before = self@;
                let ghost k = key@;
                self.records.push(IdempotencyRecord { key, issue_id, response: None, created_at: now });
                proof {
                    assert(self@ =~= before.push(
                        RecordView { key: k, issue_id: issue_id as nat, response: None, created_at: now as nat },
                    ));
                }
                KeyClaim::Acquired
            },
        }
    }

    /// Stores the answer of the request that owns `key`. Returns whether the
    /// key was there and still unanswered; a key already answered keeps its
    /// first answer.
    pub fn finish(&mut self, key: &String, response: PublishResponse) -> (r: bool)
        requires
            old(self).wf(),
        ensures
            final(self).wf(),
            r == (has_key(old(self)@, key@) && old(self)@[key_at(old(self)@, key@)].response is None),
            final(self)@ == after_finish(old(self)@, key@, response),
    {
        match self.find_key(key) {
            Some(i) => {
                if self.records[i].response.is_none() {
                    let ghost before = self@;
                    self.records[i].response = Some(response);
                    proof {
                        assert(self@ =~= after_finish(before, key@, response));
                    }
                    true
                } else {
                    false
                }
            },
            None => false,
        }
    }
}

} // verus!
