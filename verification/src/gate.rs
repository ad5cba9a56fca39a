//! Bounds on what runs at a time: a queue of message ids of which no more
//! than a fixed number are being fetched at any time, and a gate of
//! permits for calls of which no more than its capacity are under way.

use vstd::prelude::*;

verus! {

/// How many full-message fetches the synchronisation runs at a time.
pub const SYNC_FETCH_LIMIT: usize = 8;

/// How many fetches the prefetch of bodies runs at a time.
pub const PREFETCH_LIMIT: usize = 4;

/// A queue of message ids to fetch, with a count of the fetches that are
/// in flight and the limit that this count never passes.
#[derive(Debug)]
pub struct FanOut {
    queue: Vec<String>,
    started: usize,
    in_flight: usize,
    limit: usize,
}

impl FanOut {
    #[verifier::type_invariant]
    spec fn inv(self) -> bool {
        &&& self.started <= self.queue.len()
        &&& self.in_flight <= self.limit
        &&& self.in_flight <= self.started
    }

    /// The ids to fetch, in the order in which they are started.
    pub closed spec fn queued(&self) -> Seq<Seq<char>> {
        self.queue@.map_values(|s: String| s@)
    }

    /// How many of the ids have been handed out.
    pub closed spec fn started(&self) -> nat {
        self.started as nat
    }

    /// How many fetches are in flight.
    pub closed spec fn in_flight(&self) -> nat {
        self.in_flight as nat
    }

    /// The most fetches that may be in flight.
    pub closed spec fn limit(&self) -> nat {
        self.limit as nat
    }

    /// A queue of `ids` of which at most `limit` are fetched at a time.
    pub fn new(ids: Vec<String>, limit: usize) -> (r: Self)
        ensures
            r.queued() == ids@.map_values(|s: String| s@),
            r.started() == 0,
            r.in_flight() == 0,
            r.limit() == limit,
    {
        FanOut { queue: ids, started: 0, in_flight: 0, limit }
    }

    /// The queue of the synchronisation: at most 8 fetches at a time.
    pub fn for_sync(ids: Vec<String>) -> (r: Self)
        ensures
            r.queued() == ids@.map_values(|s: String| s@),
            r.started() == 0,
            r.in_flight() == 0,
            r.limit() == SYNC_FETCH_LIMIT,
    {
        FanOut::new(ids, SYNC_FETCH_LIMIT)
    }

    /// The queue of the prefetch: at most 4 fetches at a time.
    pub fn for_prefetch(ids: Vec<String>) -> (r: Self)
        ensures
            r.queued() == ids@.map_values(|s: String| s@),
            r.started() == 0,
            r.in_flight() == 0,
            r.limit() == PREFETCH_LIMIT,
    {
        FanOut::new(ids, PREFETCH_LIMIT)
    }

    /// The number of fetches in flight, which is never above the limit.
    pub fn fetches_in_flight(&self) -> (r: usize)
        ensures
            r == self.in_flight(),
            r <= self.limit(),
            r <= self.started() <= self.queued().len(),
    {
        proof {
            use_type_invariant(self);
        }
        self.in_flight
    }

    /// The limit that the fetches in flight never pass.
    pub fn fetch_limit(&self) -> (r: usize)
        ensures
            r == self.limit(),
    {
        self.limit
    }

    /// Whether every id has been handed out and every fetch has ended.
    pub fn is_done(&self) -> (r: bool)
        ensures
            r == (self.started() == self.queued().len() && self.in_flight() == 0),
    {
        self.started == self.queue.len() && self.in_flight == 0
    }

    /// Hands out the next id to fetch and counts the fetch as in flight.
    /// Nothing is handed out while as many fetches as the limit allows are
    /// in flight, nor when the queue is used up.
    pub fn start_next(&mut self) -> (r: Option<String>)
        ensures
            final(self).queued() == old(self).queued(),
            final(self).limit() == old(self).limit(),
            final(self).in_flight() <= final(self).limit(),
            match r {
                Some(id) => {
                    &&& old(self).in_flight() < old(self).limit()
                    &&& old(self).started() < old(self).queued().len()
                    &&& id@ == old(self).queued()[old(self).started() as int]
                    &&& final(self).started() == old(self).started() + 1
                    &&& final(self).in_flight() == old(self).in_flight() + 1
                },
                None => {
                    &&& old(self).in_flight() >= old(self).limit() || old(self).started()
                        >= old(self).queued().len()
                    &&& final(self).started() == old(self).started()
                    &&& final(self).in_flight() == old(self).in_flight()
                },
            },
    {
        proof {
            use_type_invariant(&*self);
        }
        if self.in_flight < self.limit && self.started < self.queue.len() {
            let id = self.queue[self.started].clone();
            self.started = self.started + 1;
            self.in_flight = self.in_flight + 1;
            Some(id)
        } else {
            None
        }
    }

    /// Hands out ids until as many fetches as the limit allows are in
    /// flight or the queue is used up, and counts each as in flight.
    pub fn start_all(&mut self) -> (r: Vec<String>)
        ensures
            final(self).queued() == old(self).queued(),
            final(self).limit() == old(self).limit(),
            final(self).in_flight() <= final(self).limit(),
            final(self).in_flight() == old(self).in_flight() + r.len(),
            final(self).started() == old(self).started() + r.len(),
            final(self).started() <= old(self).queued().len(),
            final(self).started() == old(self).queued().len() || final(self).in_flight()
                == old(self).limit(),
            r@.map_values(|s: String| s@) == old(self).queued().subrange(
                old(self).started() as int,
                final(self).started() as int,
            ),
    {
        proof {
            use_type_invariant(&*self);
        }
        let ghost first = self.started();
        let mut out: Vec<String> = Vec::new();
        proof {
            assert(out@.map_values(|s: String| s@) =~= self.queued().subrange(
                first as int,
                first as int,
            ));
        }
        loop
            invariant
                self.queued() == old(self).queued(),
                self.limit() == old(self).limit(),
                self.in_flight() <= self.limit(),
                self.in_flight() == old(self).in_flight() + out.len(),
                self.started() == first + out.len(),
                first == old(self).started(),
                self.started() <= self.queued().len(),
                out@.map_values(|s: String| s@) == self.queued().subrange(
                    first as int,
                    self.started() as int,
                ),
            ensures
                self.queued() == old(self).queued(),
                self.limit() == old(self).limit(),
                self.in_flight() <= self.limit(),
                self.in_flight() == old(self).in_flight() + out.len(),
                self.started() == first + out.len(),
                self.started() <= self.queued().len(),
                self.started() == self.queued().len() || self.in_flight() == self.limit(),
                out@.map_values(|s: String| s@) == self.queued().subrange(
                    first as int,
                    self.started() as int,
                ),
            decreases self.queued().len() - self.started(),
        {
            let ghost was = out@;
            let ghost at = self.started();
            match self.start_next() {
                Some(id) => {
                    out.push(id);
                    proof {
                        assert(out@.map_values(|s: String| s@) =~= was.map_values(
                            |s: String| s@,
                        ).push(id@));
                        let queued = self.queued();
                        assert(queued.subrange(first as int, at as int + 1) =~= queued.subrange(
                            first as int,
                            at as int,
                        ).push(queued[at as int]));
                    }
                },
                None => {
                    proof {
                        use_type_invariant(&*self);
                    }
                    break ;
                },
            }
        }
        out
    }

    /// Counts one fetch as ended. Without a fetch in flight nothing
    /// changes.
    pub fn complete(&mut self)
        ensures
            final(self).queued() == old(self).queued(),
            final(self).limit() == old(self).limit(),
            final(self).started() == old(self).started(),
            final(self).in_flight() <= final(self).limit(),
            final(self).in_flight() == if old(self).in_flight() > 0 {
                old(self).in_flight() - 1
            } else {
                0
            },
    {
        proof {
            use_type_invariant(&*self);
        }
        if self.in_flight > 0 {
            self.in_flight = self.in_flight - 1;
        }
    }
}

/// A gate of permits: calls that hold a permit are under way, and no more
/// permits are out than its capacity.
#[derive(Debug)]
pub struct Gate {
    capacity: usize,
    held: usize,
}

impl Gate {
    #[verifier::type_invariant]
    spec fn inv(self) -> bool {
        self.held <= self.capacity
    }

    /// How many permits are given out at most.
    pub closed spec fn capacity(&self) -> nat {
        self.capacity as nat
    }

    /// How many permits are out.
    pub closed spec fn held(&self) -> nat {
        self.held as nat
    }

    /// A gate of `capacity` permits, none of them out.
    pub fn new(capacity: usize) -> (r: Self)
        ensures
            r.capacity() == capacity,
            r.held() == 0,
    {
        Gate { capacity, held: 0 }
    }

    /// A gate for the full-message fetches: 8 permits.
    pub fn for_sync() -> (r: Self)
        ensures
            r.capacity() == SYNC_FETCH_LIMIT,
            r.held() == 0,
    {
        Gate::new(SYNC_FETCH_LIMIT)
    }

    /// A gate for the prefetch: 4 permits.
    pub fn for_prefetch() -> (r: Self)
        ensures
            r.capacity() == PREFETCH_LIMIT,
            r.held() == 0,
    {
        Gate::new(PREFETCH_LIMIT)
    }

    /// The number of permits that are out, which is never above the
    /// capacity.
    pub fn permits_held(&self) -> (r: usize)
        ensures
            r == self.held(),
            r <= self.capacity(),
    {
        proof {
            use_type_invariant(self);
        }
        self.held
    }

    /// Takes a permit, if one is left.
    pub fn try_acquire(&mut self) -> (r: bool)
        ensures
            r == (old(self).held() < old(self).capacity()),
            final(self).capacity() == old(self).capacity(),
            final(self).held() == if r {
                old(self).held() + 1
            } else {
                old(self).held()
            },
            final(self).held() <= final(self).capacity(),
    {
        proof {
            use_type_invariant(&*self);
        }
        if self.held < self.capacity {
            self.held = self.held + 1;
            true
        } else {
            false
        }
    }

    /// Gives a permit back. With no permit out nothing changes.
    pub fn release(&mut self)
        ensures
            final(self).capacity() == old(self).capacity(),
            final(self).held() <= final(self).capacity(),
            final(self).held() == if old(self).held() > 0 {
                old(self).held() - 1
            } else {
                0
            },
    {
        proof {
            use_type_invariant(&*self);
        }
        if self.held > 0 {
            self.held = self.held - 1;
        }
    }
}

} // verus!
