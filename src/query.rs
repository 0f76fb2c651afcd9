use vstd::prelude::*;

verus! {

/// Number of timestamp slots in the hardware query set.
pub const MAX_QUERIES: u32 = 4096;

/// Number of dispatches encoded inside one timed compute pass.
pub const COMPUTE_PER_QUERY: u64 = 100;

/// Size in bytes of one resolved timestamp.
pub const TIMESTAMP_BYTES: u64 = 8;

/// Start and end index in the timestamp sample buffer.
#[derive(Debug, Clone, Copy, PartialEq, Eq)]
pub struct QueryPair {
    pub start: u32,
    pub end: u32,
}

/// The first pair of slots of the ring.
pub open spec fn first_pair() -> QueryPair {
    QueryPair { start: 0, end: 1 }
}

/// The cursor may move on only while the next pair still fits inside the ring.
pub open spec fn can_advance(p: QueryPair) -> bool {
    p.end + 2 < MAX_QUERIES
}

/// The pair two slots further on.
pub open spec fn step(p: QueryPair) -> QueryPair {
    QueryPair { start: (p.start + 2) as u32, end: (p.end + 2) as u32 }
}

/// The outcome of one advance of the cursor: the next pair, or nothing when the ring is full.
pub open spec fn advance(p: QueryPair) -> Option<QueryPair> {
    if can_advance(p) {
        Some(step(p))
    } else {
        None
    }
}

/// The cursor after `n` advances from `p`, or nothing if one of them fails.
pub open spec fn advance_times(p: QueryPair, n: nat) -> Option<QueryPair>
    decreases n,
{
    if n == 0 {
        Some(p)
    } else {
        match advance_times(p, (n - 1) as nat) {
            Some(q) => advance(q),
            None => None,
        }
    }
}

/// Total ticks of consecutive (start, end) timestamp pairs: the sum of `end - start`.
pub open spec fn elapsed_ticks(ts: Seq<u64>) -> int
    decreases ts.len(),
{
    if ts.len() < 2 {
        0
    } else {
        elapsed_ticks(ts.subrange(0, ts.len() - 2)) + ts[ts.len() - 1] - ts[ts.len() - 2]
    }
}

/// Every pair of the sequence ends no earlier than it starts.
pub open spec fn pairs_ordered(ts: Seq<u64>) -> bool {
    forall|k: int| 0 <= k && 2 * k + 1 < ts.len() ==> #[trigger] ts[2 * k] <= ts[2 * k + 1]
}

impl QueryPair {
    pub fn first() -> (r: Self)
        ensures
            r == first_pair(),
    {
        QueryPair { start: 0, end: 1 }
    }

    /// Bytes taken by the resolved timestamps of slots `start..=end`.
    pub fn size(&self) -> (r: u64)
        requires
            self.start <= self.end,
        ensures
            r == (self.end - self.start + 1) * TIMESTAMP_BYTES,
    {
        ((self.end - self.start) as u64 + 1) * TIMESTAMP_BYTES
    }

    /// Byte offset of the first slot of the pair.
    pub fn start_address(&self) -> (r: u64)
        ensures
            r == self.start * TIMESTAMP_BYTES,
    {
        self.start as u64 * TIMESTAMP_BYTES
    }

    /// Byte offset just past the last slot of the pair.
    pub fn end_address(&self) -> (r: u64)
        ensures
            r == (self.end + 1) * TIMESTAMP_BYTES,
    {
        (self.end as u64 + 1) * TIMESTAMP_BYTES
    }

    /// The slots `start..end + 1` as a range of query indices.
    pub fn range(&self) -> (r: std::ops::Range<u32>)
        requires
            self.end < u32::MAX,
        ensures
            r.start == self.start,
            r.end == self.end + 1,
    {
        std::ops::Range { start: self.start, end: self.end + 1 }
    }
}

/// Error of an advance of the query cursor past the capacity of the ring.
#[derive(Debug, Clone, Copy, PartialEq, Eq)]
pub enum QueryError {
    /// The ring of timestamp slots is full: the benchmark must be shortened.
    CapacityExceeded,
}

/// The cursor over the ring of timestamp slots: the pair that the next timed pass writes.
#[derive(Debug, Clone, Copy)]
pub struct QueryCursor {
    current: QueryPair,
}

impl View for QueryCursor {
    type V = QueryPair;

    closed spec fn view(&self) -> QueryPair {
        self.current
    }
}

/// A cursor pair sits on an even slot, spans two slots and lies inside the ring.
pub open spec fn pair_in_ring(p: QueryPair) -> bool {
    &&& p.start % 2 == 0
    &&& p.end == p.start + 1
    &&& p.end < MAX_QUERIES
}

impl QueryCursor {
    #[verifier::type_invariant]
    spec fn inv(self) -> bool {
        pair_in_ring(self.current)
    }

    /// A cursor at the first pair of the ring.
    pub fn new() -> (r: Self)
        ensures
            r@ == first_pair(),
    {
        QueryCursor { current: QueryPair::first() }
    }

    pub fn current_query(&self) -> (r: QueryPair)
        ensures
            r == self@,
            pair_in_ring(r),
    {
        proof {
            use_type_invariant(self);
        }
        self.current
    }

    /// Moves the cursor to the next pair, or reports that the ring is full and stays.
    pub fn increment_query(&mut self) -> (r: Result<(), QueryError>)
        ensures
            r is Ok <==> can_advance(old(self)@),
            r is Ok ==> final(self)@ == step(old(self)@),
            r is Err ==> final(self)@ == old(self)@,
    {
        proof {
            use_type_invariant(&*self);
        }
        let pair = self.current;
        if pair.end + 2 >= MAX_QUERIES {
            return Err(QueryError::CapacityExceeded);
        }
        self.current = QueryPair { start: pair.start + 2, end: pair.end + 2 };
        Ok(())
    }

    /// Puts the cursor back at the first pair.
    pub fn reset(&mut self)
        ensures
            final(self)@ == first_pair(),
    {
        self.current = QueryPair::first();
    }

    /// The window of slots written since `start_index`: from it to the end slot of the
    /// last pair that was used, the pair just before the cursor.
    pub fn pass_window(&self, start_index: u32) -> (r: QueryPair)
        requires
            start_index + 2 <= self@.end,
        ensures
            r.start == start_index,
            r.end == self@.end - 2,
    {
        QueryPair { start: start_index, end: self.current.end - 2 }
    }
}

proof fn lemma_elapsed_prefix_monotone(ts: Seq<u64>, i: int, j: int)
    requires
        pairs_ordered(ts),
        0 <= i <= j <= ts.len(),
        i % 2 == 0,
        j % 2 == 0,
    ensures
        elapsed_ticks(ts.subrange(0, i)) <= elapsed_ticks(ts.subrange(0, j)),
    decreases j - i,
{
    if i < j {
        let pj = ts.subrange(0, j);
        assert(pj.subrange(0, j - 2) =~= ts.subrange(0, j - 2));
        let k = (j - 2) / 2;
        assert(2 * k == j - 2);
        assert(ts[2 * k] <= ts[2 * k + 1]);
        lemma_elapsed_prefix_monotone(ts, i, j - 2);
    }
}

/// Ticks elapsed over consecutive (start, end) timestamp pairs, summed.
pub fn hardware_elapsed(timestamps: &[u64]) -> (r: u64)
    requires
        timestamps@.len() % 2 == 0,
        pairs_ordered(timestamps@),
        elapsed_ticks(timestamps@) <= u64::MAX,
    ensures
        r == elapsed_ticks(timestamps@),
{
    let n = timestamps.len();
    let mut elapsed: u64 = 0;
    let mut i: usize = 0;
    while i < n
        invariant
            n == timestamps@.len(),
            n % 2 == 0,
            i % 2 == 0,
            i <= n,
            pairs_ordered(timestamps@),
            elapsed_ticks(timestamps@) <= u64::MAX,
            elapsed == elapsed_ticks(timestamps@.subrange(0, i as int)),
        decreases n - i,
    {
        let ghost ts = timestamps@;
        let k: Ghost<int> = Ghost(i as int / 2);
        assert(2 * k@ == i);
        assert(ts[2 * k@] <= ts[2 * k@ + 1]);
        proof {
            let next = ts.subrange(0, i + 2);
            assert(next.subrange(0, i as int) =~= ts.subrange(0, i as int));
            lemma_elapsed_prefix_monotone(ts, i + 2, n as int);
            assert(ts.subrange(0, n as int) =~= ts);
        }
        elapsed = elapsed + (timestamps[i + 1] - timestamps[i]);
        i = i + 2;
    }
    assert(timestamps@.subrange(0, n as int) =~= timestamps@);
    elapsed
}

/// Ticks elapsed over consecutive (start, end) timestamp pairs, summed; nothing when the
/// timestamps do not form ordered pairs or their total does not fit in 64 bits.
pub fn checked_elapsed(timestamps: &[u64]) -> (r: Option<u64>)
    ensures
        r is Some <==> (timestamps@.len() % 2 == 0 && pairs_ordered(timestamps@)
            && elapsed_ticks(timestamps@) <= u64::MAX),
        r matches Some(v) ==> v == elapsed_ticks(timestamps@),
{
    let n = timestamps.len();
    if n % 2 != 0 {
        return None;
    }
    let mut total: u64 = 0;
    let mut i: usize = 0;
    while i < n
        invariant
            n == timestamps@.len(),
            n % 2 == 0,
            i % 2 == 0,
            i <= n,
            forall|k: int| 0 <= k && 2 * k + 1 < i ==> #[trigger] timestamps@[2 * k] <= timestamps@[2 * k + 1],
            total == elapsed_ticks(timestamps@.subrange(0, i as int)),
        decreases n - i,
    {
        let ghost ts = timestamps@;
        let k: Ghost<int> = Ghost(i as int / 2);
        assert(2 * k@ == i);
        if timestamps[i + 1] < timestamps[i] {
            assert(!pairs_ordered(ts)) by {
                assert(ts[2 * k@] > ts[2 * k@ + 1]);
            }
            return None;
        }
        proof {
            let next = ts.subrange(0, i + 2);
            assert(next.subrange(0, i as int) =~= ts.subrange(0, i as int));
        }
        let delta = timestamps[i + 1] - timestamps[i];
        if total > u64::MAX - delta {
            proof {
                assert(elapsed_ticks(ts.subrange(0, i + 2)) > u64::MAX);
                if pairs_ordered(ts) {
                    lemma_elapsed_prefix_monotone(ts, i + 2, n as int);
                    assert(ts.subrange(0, n as int) =~= ts);
                }
            }
            return None;
        }
        total = total + delta;
        i = i + 2;
    }
    assert(timestamps@.subrange(0, n as int) =~= timestamps@);
    Some(total)
}

/// The value of one measurement: the ticks of a window of timestamp pairs divided by the
/// number of dispatches in each timed pass. Nothing when the timestamps do not form
/// ordered pairs or their total does not fit in 64 bits.
pub fn measured_ticks(timestamps: &[u64]) -> (r: Option<u64>)
    ensures
        r is Some <==> (timestamps@.len() % 2 == 0 && pairs_ordered(timestamps@)
            && elapsed_ticks(timestamps@) <= u64::MAX),
        r matches Some(v) ==> v == elapsed_ticks(timestamps@) / (COMPUTE_PER_QUERY as int),
{
    match checked_elapsed(timestamps) {
        Some(total) => Some(total / COMPUTE_PER_QUERY),
        None => None,
    }
}

proof fn lemma_advance_times_from_first(n: nat)
    requires
        n <= (MAX_QUERIES / 2 - 1) as nat,
    ensures
        advance_times(first_pair(), n) == Some(
            QueryPair { start: (2 * n) as u32, end: (2 * n + 1) as u32 },
        ),
    decreases n,
{
    if n > 0 {
        lemma_advance_times_from_first((n - 1) as nat);
    }
}

/// The ring holds exactly `MAX_QUERIES / 2 - 1` advances from the first pair: each of them
/// succeeds, and one more fails.
pub proof fn lemma_ring_capacity()
    ensures
        advance_times(first_pair(), (MAX_QUERIES / 2 - 1) as nat) is Some,
        advance_times(first_pair(), (MAX_QUERIES / 2) as nat) is None,
        forall|n: nat| n <= MAX_QUERIES / 2 - 1 ==> #[trigger] advance_times(first_pair(), n) is Some,
{
    lemma_advance_times_from_first((MAX_QUERIES / 2 - 1) as nat);
    assert forall|n: nat| n <= MAX_QUERIES / 2 - 1 implies #[trigger] advance_times(
        first_pair(),
        n,
    ) is Some by {
        lemma_advance_times_from_first(n);
    }
    assert(advance_times(first_pair(), (MAX_QUERIES / 2) as nat) == advance(
        QueryPair { start: (MAX_QUERIES - 2) as u32, end: (MAX_QUERIES - 1) as u32 },
    ));
}

} // verus!
