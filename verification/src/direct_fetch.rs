//! Direct adaptive-range event fetch from the blockchain provider.
//!
//! The controller walks the block range `[from, to)` in chunks. A chunk
//! that the provider answers advances the cursor by the whole step and lets
//! a previously reduced step grow back (doubling, never above the ceiling);
//! a timeout or query error halves the step and retries the same cursor.
//! The provider's answers arrive as plain values, one per issued query; the
//! driver performs the queries themselves.

use vstd::prelude::*;

use crate::registry::NodeManager;
use crate::types::{SentEvent, SpendEvent};

verus! {

/// The ceiling (and starting value) of the adaptive step.
pub const MAX_STEP: u64 = 1024;

/// The outcome of one bounded provider query.
pub enum QueryOutcome<T> {
    /// The query answered within its timeout with these events (possibly
    /// none).
    Events(Vec<T>),
    /// The query timed out or erred; nothing is known about the range.
    Failed,
}

/// The adaptive controller's state: the next chunk to query is
/// `[from, from + step]`, and the fetch is done once `from` reaches `to`.
pub struct FetchState {
    pub from: u64,
    pub to: u64,
    pub step: u64,
}

/// The step after a success: a reduced step doubles on the way back up,
/// a step at the ceiling stays there.
pub open spec fn step_after_success(step: int) -> int {
    if step < MAX_STEP {
        2 * step
    } else {
        step
    }
}

/// The steps the controller can ever hold: the ceiling and its repeated
/// halvings, down to zero. Doubling a reduced step stays in this set and
/// never passes the ceiling.
pub open spec fn valid_step(step: u64) -> bool {
    step == 0 || step == 1 || step == 2 || step == 4 || step == 8 || step == 16 || step == 32
        || step == 64 || step == 128 || step == 256 || step == 512 || step == MAX_STEP
}

/// The events a fetch accumulates, given the controller's current cursor
/// and step and the remaining query outcomes: successes contribute their
/// events and advance the cursor, failures halve the step, and the fetch
/// ends when the cursor reaches `to` (or the outcomes run out, as when a
/// driver gives up).
pub open spec fn direct_events<T>(
    from: int,
    to: int,
    step: int,
    outcomes: Seq<QueryOutcome<T>>,
) -> Seq<T>
    decreases outcomes.len(),
{
    if from >= to || outcomes.len() == 0 {
        Seq::empty()
    } else {
        match outcomes[0] {
            QueryOutcome::Events(evs) => evs@ + direct_events(
                from + step,
                to,
                step_after_success(step),
                outcomes.drop_first(),
            ),
            QueryOutcome::Failed => direct_events(from, to, step / 2, outcomes.drop_first()),
        }
    }
}

impl FetchState {
    /// A controller about to fetch `[from, to)` at the full step.
    pub fn new(from: u64, to: u64) -> (s: FetchState)
        ensures
            s.from == from,
            s.to == to,
            s.step == MAX_STEP,
    {
        FetchState { from, to, step: MAX_STEP }
    }

    /// The fetch is done once the cursor reaches the end of the range.
    pub fn done(&self) -> (r: bool)
        ensures
            r == (self.from >= self.to),
    {
        self.from >= self.to
    }

    /// The block range of the next query to issue.
    pub fn next_range(&self) -> (r: (u64, u64))
        requires
            self.from + self.step <= u64::MAX,
        ensures
            r.0 == self.from,
            r.1 == self.from + self.step,
    {
        (self.from, self.from + self.step)
    }

    /// The queried chunk answered: advance past it and let a reduced step
    /// grow back toward the ceiling.
    pub fn on_success(&mut self)
        requires
            old(self).from + old(self).step <= u64::MAX,
            old(self).step <= MAX_STEP,
        ensures
            final(self).from == old(self).from + old(self).step,
            final(self).to == old(self).to,
            final(self).step == step_after_success(old(self).step as int),
    {
        self.from = self.from + self.step;
        if self.step < MAX_STEP {
            self.step = 2 * self.step;
        }
    }

    /// The queried chunk timed out or erred: halve the step and retry the
    /// same cursor.
    pub fn on_failure(&mut self)
        ensures
            final(self).from == old(self).from,
            final(self).to == old(self).to,
            final(self).step == old(self).step / 2,
    {
        self.step = self.step / 2;
    }
}

/// Run the adaptive controller over a transcript of query outcomes,
/// accumulating the events of the answered chunks in order.
pub fn run_direct_fetch<T: Copy>(from: u64, to: u64, outcomes: &Vec<QueryOutcome<T>>) -> (r: Vec<
    T,
>)
    requires
        to <= u64::MAX - MAX_STEP,
    ensures
        r@ == direct_events(from as int, to as int, MAX_STEP as int, outcomes@),
{
    let mut st = FetchState::new(from, to);
    let mut events: Vec<T> = Vec::new();
    proof {
        assert(outcomes@.skip(0) =~= outcomes@);
    }
    let mut i: usize = 0;
    loop
        invariant
            i <= outcomes@.len(),
            st.to == to,
            to <= u64::MAX - MAX_STEP,
            valid_step(st.step),
            st.step <= MAX_STEP,
            direct_events(from as int, to as int, MAX_STEP as int, outcomes@) == events@
                + direct_events(
                st.from as int,
                st.to as int,
                st.step as int,
                outcomes@.skip(i as int),
            ),
        ensures
            events@ == direct_events(from as int, to as int, MAX_STEP as int, outcomes@),
        decreases outcomes@.len() - i,
    {
        if st.done() || i >= outcomes.len() {
            proof {
                if i >= outcomes@.len() {
                    assert(outcomes@.skip(i as int) =~= Seq::<QueryOutcome<T>>::empty());
                }
                assert(direct_events(
                    st.from as int,
                    st.to as int,
                    st.step as int,
                    outcomes@.skip(i as int),
                ) =~= Seq::<T>::empty());
                assert(events@ =~= events@ + Seq::<T>::empty());
            }
            break ;
        }
        proof {
            assert(outcomes@.skip(i as int)[0] == outcomes@[i as int]);
            assert(outcomes@.skip(i as int).drop_first() =~= outcomes@.skip(i as int + 1));
        }
        let ghost f = st.from;
        let ghost s = st.step;
        match &outcomes[i] {
            QueryOutcome::Events(evs) => {
                let ghost before = events@;
                let mut j: usize = 0;
                while j < evs.len()
                    invariant
                        j <= evs@.len(),
                        events@ == before + evs@.take(j as int),
                    decreases evs@.len() - j,
                {
                    events.push(evs[j]);
                    proof {
                        assert(evs@.take(j as int + 1) =~= evs@.take(j as int).push(
                            evs@[j as int],
                        ));
                    }
                    j += 1;
                }
                proof {
                    assert(evs@.take(evs@.len() as int) =~= evs@);
                }
                st.on_success();
                proof {
                    assert(direct_events(f as int, to as int, s as int, outcomes@.skip(i as int))
                        == evs@ + direct_events(
                        st.from as int,
                        to as int,
                        st.step as int,
                        outcomes@.skip(i as int + 1),
                    ));
                    assert(events@ + direct_events(
                        st.from as int,
                        to as int,
                        st.step as int,
                        outcomes@.skip(i as int + 1),
                    ) =~= before + direct_events(
                        f as int,
                        to as int,
                        s as int,
                        outcomes@.skip(i as int),
                    ));
                }
            },
            QueryOutcome::Failed => {
                st.on_failure();
                proof {
                    assert(direct_events(f as int, to as int, s as int, outcomes@.skip(i as int))
                        == direct_events(
                        st.from as int,
                        to as int,
                        st.step as int,
                        outcomes@.skip(i as int + 1),
                    ));
                }
            },
        }
        i += 1;
    }
    events
}

impl NodeManager {
    /// Fetch spend events for the block range `[from, to)` directly from
    /// the configured provider, applying the adaptive controller to the
    /// given query outcomes. Without a configured provider the fetch is a
    /// soft no-op yielding no events.
    pub fn get_spend_events(
        &self,
        from: u64,
        to: u64,
        outcomes: &Vec<QueryOutcome<SpendEvent>>,
    ) -> (r: Vec<SpendEvent>)
        requires
            to <= u64::MAX - MAX_STEP,
        ensures
            self.network is Some ==> r@ == direct_events(
                from as int,
                to as int,
                MAX_STEP as int,
                outcomes@,
            ),
            self.network is None ==> r@ == Seq::<SpendEvent>::empty(),
    {
        match self.network {
            Some(_) => run_direct_fetch(from, to, outcomes),
            None => Vec::new(),
        }
    }

    /// Fetch sent events for the block range `[from, to)` directly from
    /// the configured provider; the same controller, run for the other
    /// event kind.
    pub fn get_sent_events(
        &self,
        from: u64,
        to: u64,
        outcomes: &Vec<QueryOutcome<SentEvent>>,
    ) -> (r: Vec<SentEvent>)
        requires
            to <= u64::MAX - MAX_STEP,
        ensures
            self.network is Some ==> r@ == direct_events(
                from as int,
                to as int,
                MAX_STEP as int,
                outcomes@,
            ),
            self.network is None ==> r@ == Seq::<SentEvent>::empty(),
    {
        match self.network {
            Some(_) => run_direct_fetch(from, to, outcomes),
            None => Vec::new(),
        }
    }
}

} // verus!
