use vstd::prelude::*;
use crate::error::Error;

verus! {

/// Custom epoch of the identifiers: 2019-01-01 00:00:00 (UTC+8), in Unix milliseconds.
pub const EPOCH_MS: i64 = 1546272000000;
/// Largest sequence number within one millisecond (12 bits).
pub const MAX_SEQUENCE: i64 = 4095;
/// Largest worker id (5 bits).
pub const MAX_WORKER_ID: i64 = 31;
/// Largest datacenter id (5 bits).
pub const MAX_DATACENTER_ID: i64 = 31;
/// Largest millisecond offset from the epoch (41 bits).
pub const MAX_TIMESTAMP_DELTA: i64 = 2199023255551;
/// How often the allocator reads the clock while it waits for the next millisecond.
pub const MAX_CLOCK_POLLS: u64 = u64::MAX;

/// Weight of the millisecond offset: the offset sits above bit 22.
pub const TIMESTAMP_UNIT: i64 = 4194304;
/// Weight of the datacenter id: bits 17 to 21.
pub const DATACENTER_UNIT: i64 = 131072;
/// Weight of the worker id: bits 12 to 16.
pub const WORKER_UNIT: i64 = 4096;

/// The allocator's state as mathematical integers.
pub struct IdState {
    pub sequence: int,
    pub worker_id: int,
    pub datacenter_id: int,
    /// Millisecond of the last identifier issued, or -1 before the first.
    pub last_timestamp: int,
}

/// The identifier packed from a millisecond, the node ids and a sequence number:
/// `[timestamp - epoch | datacenter | worker | sequence]`, the fields in disjoint bits.
pub open spec fn compose_id(timestamp: int, datacenter_id: int, worker_id: int, sequence: int) -> int {
    (timestamp - EPOCH_MS) * TIMESTAMP_UNIT + datacenter_id * DATACENTER_UNIT + worker_id * WORKER_UNIT
        + sequence
}

impl IdState {
    pub open spec fn wf(self) -> bool {
        &&& 0 <= self.worker_id <= MAX_WORKER_ID
        &&& 0 <= self.datacenter_id <= MAX_DATACENTER_ID
        &&& 0 <= self.sequence <= MAX_SEQUENCE
        &&& self.last_timestamp == -1 || EPOCH_MS <= self.last_timestamp <= EPOCH_MS
            + MAX_TIMESTAMP_DELTA
    }

    /// The last identifier issued, or -1 before the first.
    pub open spec fn last_id(self) -> int {
        if self.last_timestamp == -1 {
            -1
        } else {
            compose_id(self.last_timestamp, self.datacenter_id, self.worker_id, self.sequence)
        }
    }
}

/// What issuing an identifier at millisecond `now` does to the state.
pub open spec fn issue_outcome(pre: IdState, now: int) -> Result<IdState, Error> {
    if now < pre.last_timestamp {
        Err(Error::ClockRegression)
    } else if now < EPOCH_MS || now > EPOCH_MS + MAX_TIMESTAMP_DELTA {
        Err(Error::ClockOutOfRange)
    } else if now == pre.last_timestamp {
        if pre.sequence == MAX_SEQUENCE {
            Err(Error::SequenceExhausted)
        } else {
            Ok(IdState { sequence: pre.sequence + 1, ..pre })
        }
    } else {
        Ok(IdState { sequence: 0, last_timestamp: now, ..pre })
    }
}

/// `id` was issued by a step from `pre` to `post`: it is the new last identifier,
/// above every identifier issued before, and the node ids are kept.
pub open spec fn issued(pre: IdState, post: IdState, id: int) -> bool {
    &&& post.worker_id == pre.worker_id
    &&& post.datacenter_id == pre.datacenter_id
    &&& id == post.last_id()
    &&& pre.last_id() < id
}

/// Snowflake-style allocator of time-ordered 64-bit identifiers.
pub struct SnowFlake {
    sequence: i64,
    worker_id: i64,
    datacenter_id: i64,
    last_timestamp: i64,
}

impl View for SnowFlake {
    type V = IdState;

    closed spec fn view(&self) -> IdState {
        IdState {
            sequence: self.sequence as int,
            worker_id: self.worker_id as int,
            datacenter_id: self.datacenter_id as int,
            last_timestamp: self.last_timestamp as int,
        }
    }
}

/// Relies on `std::time::SystemTime::now` and `duration_since(UNIX_EPOCH)`: the wall clock
/// in Unix milliseconds, `None` when it reads before 1970 or beyond `i64`.
#[verifier::external_body]
pub(crate) fn get_timestamp() -> (r: Option<i64>) {
    match std::time::SystemTime::now().duration_since(std::time::UNIX_EPOCH) {
        Ok(d) => i64::try_from(d.as_millis()).ok(),
        Err(_) => None,
    }
}

proof fn lemma_issue_outcome(pre: IdState, now: int)
    requires
        pre.wf(),
    ensures
        issue_outcome(pre, now) matches Ok(post) ==> post.wf() && issued(pre, post, post.last_id()),
        issue_outcome(pre, now) matches Ok(post) ==> 0 <= post.last_id() <= i64::MAX,
{
    if let Ok(post) = issue_outcome(pre, now) {
        assert(0 <= post.datacenter_id * DATACENTER_UNIT <= MAX_DATACENTER_ID * DATACENTER_UNIT);
        assert(0 <= post.worker_id * WORKER_UNIT <= MAX_WORKER_ID * WORKER_UNIT);
        assert(0 <= pre.datacenter_id * DATACENTER_UNIT <= MAX_DATACENTER_ID * DATACENTER_UNIT);
        assert(0 <= pre.worker_id * WORKER_UNIT <= MAX_WORKER_ID * WORKER_UNIT);
    }
}

impl SnowFlake {
    /// An allocator for the node `(worker_id, datacenter_id)`; both ids take 5 bits.
    pub fn new(worker_id: i64, datacenter_id: i64) -> (r: SnowFlake)
        requires
            0 <= worker_id <= MAX_WORKER_ID,
            0 <= datacenter_id <= MAX_DATACENTER_ID,
        ensures
            r@ == (IdState {
                sequence: 0,
                worker_id: worker_id as int,
                datacenter_id: datacenter_id as int,
                last_timestamp: -1,
            }),
            r@.wf(),
    {
        SnowFlake { sequence: 0, worker_id, datacenter_id, last_timestamp: -1 }
    }

    /// Issues the next identifier as if the clock read `now` milliseconds.
    pub fn issue_at(&mut self, now: i64) -> (r: Result<i64, Error>)
        requires
            old(self)@.wf(),
        ensures
            final(self)@.wf(),
            match issue_outcome(old(self)@, now as int) {
                Ok(post) => final(self)@ == post && r == Ok::<i64, Error>(post.last_id() as i64)
                    && issued(old(self)@, post, post.last_id()),
                Err(e) => final(self)@ == old(self)@ && r == Err::<i64, Error>(e),
            },
    {
        proof {
            lemma_issue_outcome(self@, now as int);
        }
        if now < self.last_timestamp {
            return Err(Error::ClockRegression);
        }
        if now < EPOCH_MS || now > EPOCH_MS + MAX_TIMESTAMP_DELTA {
            return Err(Error::ClockOutOfRange);
        }
        if now == self.last_timestamp {
            if self.sequence == MAX_SEQUENCE {
                return Err(Error::SequenceExhausted);
            }
            self.sequence = self.sequence + 1;
        } else {
            self.sequence = 0;
            self.last_timestamp = now;
        }
        proof {
            assert(0 <= self.datacenter_id * DATACENTER_UNIT <= MAX_DATACENTER_ID * DATACENTER_UNIT);
            assert(0 <= self.worker_id * WORKER_UNIT <= MAX_WORKER_ID * WORKER_UNIT);
        }
        Ok((self.last_timestamp - EPOCH_MS) * TIMESTAMP_UNIT + self.datacenter_id * DATACENTER_UNIT
            + self.worker_id * WORKER_UNIT + self.sequence)
    }

    /// Reads the clock until it passes `last_timestamp`.
    fn til_next_millis(&self, last_timestamp: i64) -> (r: Result<i64, Error>)
        ensures
            r matches Ok(t) ==> t > last_timestamp,
    {
        let mut polls: u64 = 0;
        while polls < MAX_CLOCK_POLLS
            decreases MAX_CLOCK_POLLS - polls,
        {
            match get_timestamp() {
                Some(t) => {
                    if t > last_timestamp {
                        return Ok(t);
                    }
                },
                None => {
                    return Err(Error::ClockOutOfRange);
                },
            }
            polls = polls + 1;
        }
        Err(Error::SequenceExhausted)
    }

    /// Issues the next identifier at the current time. When the sequence of the current
    /// millisecond is used up it waits for the next millisecond. A clock that went
    /// backwards is an error, and the state is then left as it was.
    pub fn next_id(&mut self) -> (r: Result<i64, Error>)
        requires
            old(self)@.wf(),
        ensures
            final(self)@.wf(),
            match r {
                Ok(id) => issued(old(self)@, final(self)@, id as int),
                Err(_) => final(self)@ == old(self)@,
            },
    {
        let now = match get_timestamp() {
            Some(t) => t,
            None => {
                return Err(Error::ClockOutOfRange);
            },
        };
        match self.issue_at(now) {
            Err(Error::SequenceExhausted) => {
                match self.til_next_millis(now) {
                    Ok(later) => self.issue_at(later),
                    Err(e) => Err(e),
                }
            },
            other => other,
        }
    }
}

/// Identifiers issued one after another by one allocator strictly increase, so no two
/// of them are equal.
pub proof fn lemma_ids_strictly_increase(states: Seq<IdState>, ids: Seq<int>)
    requires
        states.len() == ids.len() + 1,
        forall|i: int| 0 <= i < ids.len() ==> #[trigger] issued(states[i], states[i + 1], ids[i]),
    ensures
        forall|i: int, j: int| 0 <= i < j < ids.len() ==> ids[i] < ids[j],
{
    assert forall|i: int, j: int| 0 <= i < j < ids.len() implies ids[i] < ids[j] by {
        lemma_last_id_grows(states, ids, i, j - 1);
        assert(issued(states[j], states[j + 1], ids[j]));
    }
}

proof fn lemma_last_id_grows(states: Seq<IdState>, ids: Seq<int>, i: int, k: int)
    requires
        states.len() == ids.len() + 1,
        forall|m: int| 0 <= m < ids.len() ==> #[trigger] issued(states[m], states[m + 1], ids[m]),
        0 <= i <= k < ids.len(),
    ensures
        ids[i] <= states[k + 1].last_id(),
    decreases k - i,
{
    assert(issued(states[k], states[k + 1], ids[k]));
    if k > i {
        lemma_last_id_grows(states, ids, i, k - 1);
    }
}

} // verus!
