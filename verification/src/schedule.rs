//! Bookkeeping of an annealing run.
//!
//! The temperature itself lives with the numeric engine. After each tick
//! the engine says whether the decayed temperature is below its minimum,
//! and the schedule keeps count: how many ticks ran, at which tick the
//! temperature first fell below the minimum, whether the iteration cap is
//! reached, and whether the end of the run has been announced yet.

use vstd::prelude::*;

verus! {

/// The iteration cap of a run that is given none.
pub const DEFAULT_ITERATION_CAP: usize = 400;

/// How a run ended.
#[derive(Clone, Copy, Debug, PartialEq, Eq, Structural)]
pub enum Outcome {
    /// The temperature fell below its minimum, first at tick `tick`.
    Cooled { tick: usize },
    /// All `ticks` allowed ticks ran and the temperature never fell below
    /// its minimum.
    Exhausted { ticks: usize },
}

/// The state of a run, as mathematics.
pub struct ScheduleView {
    /// The most ticks that may run.
    pub cap: nat,
    /// The ticks that ran.
    pub ticks: nat,
    /// The tick after which the temperature was first below its minimum.
    pub settled_at: Option<nat>,
    /// Whether the end of the run has been announced.
    pub announced: bool,
}

impl ScheduleView {
    /// No more ticks ran than allowed, and the run settled at a tick that
    /// ran.
    pub open spec fn wf(self) -> bool {
        &&& self.ticks <= self.cap
        &&& self.settled_at matches Some(t) ==> t < self.ticks
    }

    /// A run of at most `cap` ticks, before its first.
    pub open spec fn fresh(cap: nat) -> ScheduleView {
        ScheduleView { cap, ticks: 0, settled_at: None, announced: false }
    }

    /// The temperature has been below its minimum.
    pub open spec fn settled(self) -> bool {
        self.settled_at is Some
    }

    /// The iteration cap is reached.
    pub open spec fn exhausted(self) -> bool {
        self.ticks >= self.cap
    }

    /// The state after one more tick, whose decayed temperature was below
    /// the minimum if `below`. At the cap nothing changes.
    pub open spec fn record(self, below: bool) -> ScheduleView {
        if self.exhausted() {
            self
        } else {
            ScheduleView {
                ticks: self.ticks + 1,
                settled_at: if self.settled_at is None && below {
                    Some(self.ticks)
                } else {
                    self.settled_at
                },
                ..self
            }
        }
    }

    /// How the run ended, if it did. Cooling goes before exhaustion.
    pub open spec fn outcome(self) -> Option<Outcome> {
        match self.settled_at {
            Some(t) => Some(Outcome::Cooled { tick: t as usize }),
            None => if self.exhausted() {
                Some(Outcome::Exhausted { ticks: self.cap as usize })
            } else {
                None
            },
        }
    }

    /// The state of a fresh run after its engine has reported `events`,
    /// one per attempted tick.
    pub open spec fn run(cap: nat, events: Seq<bool>) -> ScheduleView
        decreases events.len(),
    {
        if events.len() == 0 {
            ScheduleView::fresh(cap)
        } else {
            ScheduleView::run(cap, events.drop_last()).record(events.last())
        }
    }
}

/// Counts the ticks of one run and remembers how it ended.
#[derive(Debug)]
pub struct Schedule {
    cap: usize,
    ticks: usize,
    settled_at: Option<usize>,
    announced: bool,
}

impl View for Schedule {
    type V = ScheduleView;

    closed spec fn view(&self) -> ScheduleView {
        ScheduleView {
            cap: self.cap as nat,
            ticks: self.ticks as nat,
            settled_at: match self.settled_at {
                Some(t) => Some(t as nat),
                None => None,
            },
            announced: self.announced,
        }
    }
}

impl Clone for Schedule {
    /// A second schedule in the same state.
    fn clone(&self) -> (s: Schedule)
        ensures
            s@ == self@,
    {
        proof {
            use_type_invariant(self);
        }
        Schedule {
            cap: self.cap,
            ticks: self.ticks,
            settled_at: self.settled_at,
            announced: self.announced,
        }
    }
}

impl Default for Schedule {
    /// A run of at most `DEFAULT_ITERATION_CAP` ticks, before its first.
    fn default() -> (s: Schedule)
        ensures
            s@ == ScheduleView::fresh(DEFAULT_ITERATION_CAP as nat),
    {
        Schedule::new(DEFAULT_ITERATION_CAP)
    }
}

impl Schedule {
    #[verifier::type_invariant]
    spec fn inv(&self) -> bool {
        self@.wf()
    }

    /// A run of at most `cap` ticks, before its first.
    pub fn new(cap: usize) -> (s: Schedule)
        ensures
            s@ == ScheduleView::fresh(cap as nat),
    {
        Schedule { cap, ticks: 0, settled_at: None, announced: false }
    }

    /// The most ticks that may run.
    pub fn iteration_cap(&self) -> (n: usize)
        ensures
            n == self@.cap,
    {
        self.cap
    }

    /// The ticks that ran; never more than the cap.
    pub fn tick_count(&self) -> (n: usize)
        ensures
            n == self@.ticks,
            n <= self@.cap,
    {
        proof {
            use_type_invariant(self);
        }
        self.ticks
    }

    /// Whether the temperature has been below its minimum.
    pub fn is_settled(&self) -> (b: bool)
        ensures
            b == self@.settled(),
    {
        self.settled_at.is_some()
    }

    /// The tick after which the temperature was first below its minimum.
    pub fn settled_at(&self) -> (r: Option<usize>)
        ensures
            match r {
                Some(t) => self@.settled_at == Some(t as nat) && t < self@.ticks,
                None => self@.settled_at is None,
            },
    {
        proof {
            use_type_invariant(self);
        }
        self.settled_at
    }

    /// Whether another tick may run.
    pub fn should_tick(&self) -> (b: bool)
        ensures
            b == !self@.exhausted(),
    {
        self.ticks < self.cap
    }

    /// Counts one tick, whose decayed temperature was below the minimum if
    /// `below_threshold`, and says whether it was counted. At the cap the
    /// tick is not counted and nothing changes.
    pub fn record(&mut self, below_threshold: bool) -> (counted: bool)
        ensures
            final(self)@ == old(self)@.record(below_threshold),
            final(self)@.wf(),
            counted == !old(self)@.exhausted(),
    {
        proof {
            use_type_invariant(&*self);
        }
        if self.ticks >= self.cap {
            return false;
        }
        let settled_at: Option<usize> = if self.settled_at.is_none() && below_threshold {
            Some(self.ticks)
        } else {
            self.settled_at
        };
        *self = Schedule {
            cap: self.cap,
            ticks: self.ticks + 1,
            settled_at,
            announced: self.announced,
        };
        true
    }

    /// How the run ended, if it did.
    pub fn outcome(&self) -> (r: Option<Outcome>)
        ensures
            r == self@.outcome(),
    {
        match self.settled_at {
            Some(t) => Some(Outcome::Cooled { tick: t }),
            None => if self.ticks >= self.cap {
                Some(Outcome::Exhausted { ticks: self.cap })
            } else {
                None
            },
        }
    }

    /// Hands out the outcome of the run the first time there is one, and
    /// nothing ever after.
    pub fn announce(&mut self) -> (r: Option<Outcome>)
        ensures
            r == if old(self)@.announced {
                None
            } else {
                old(self)@.outcome()
            },
            final(self)@ == (ScheduleView {
                announced: old(self)@.announced || r is Some,
                ..old(self)@
            }),
    {
        proof {
            use_type_invariant(&*self);
        }
        if self.announced {
            return None;
        }
        let r = self.outcome();
        if r.is_some() {
            *self = Schedule {
                cap: self.cap,
                ticks: self.ticks,
                settled_at: self.settled_at,
                announced: true,
            };
        }
        r
    }
}

/// Of the reports made to a fresh run, as many are counted as the cap
/// allows, and the state stays well formed.
pub proof fn lemma_run_counts(cap: nat, events: Seq<bool>)
    ensures
        ScheduleView::run(cap, events).wf(),
        ScheduleView::run(cap, events).cap == cap,
        ScheduleView::run(cap, events).ticks == if events.len() <= cap {
            events.len()
        } else {
            cap
        },
        !ScheduleView::run(cap, events).announced,
    decreases events.len(),
{
    if events.len() > 0 {
        lemma_run_counts(cap, events.drop_last());
    }
}

/// A run settles at the first counted tick that was reported below the
/// minimum, and at no tick if none was.
pub proof fn lemma_settles_at_first_crossing(cap: nat, events: Seq<bool>)
    ensures
        match ScheduleView::run(cap, events).settled_at {
            Some(t) => {
                &&& t < events.len()
                &&& t < cap
                &&& events[t as int]
                &&& forall|j: int| 0 <= j < t ==> !events[j]
            },
            None => forall|j: int| 0 <= j < events.len() && j < cap ==> !events[j],
        },
    decreases events.len(),
{
    if events.len() > 0 {
        let before = events.drop_last();
        lemma_settles_at_first_crossing(cap, before);
        lemma_run_counts(cap, before);
        assert forall|j: int| 0 <= j < before.len() implies before[j] == events[j] by {}
    }
}

/// Once a run has settled, no further report changes the tick at which
/// it did.
pub proof fn lemma_settled_never_reverts(cap: nat, events: Seq<bool>, more: Seq<bool>)
    requires
        ScheduleView::run(cap, events).settled(),
    ensures
        ScheduleView::run(cap, events + more).settled_at == ScheduleView::run(
            cap,
            events,
        ).settled_at,
    decreases more.len(),
{
    if more.len() == 0 {
        assert(events + more =~= events);
    } else {
        lemma_settled_never_reverts(cap, events, more.drop_last());
        assert((events + more).drop_last() =~= events + more.drop_last());
    }
}

} // verus!
