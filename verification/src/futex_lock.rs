//! A mutex on one futex word, as the steps that a thread takes. The word is 0
//! when unlocked, 1 when locked, 2 when locked and perhaps waited for; every
//! contended path sets 2.

use vstd::prelude::*;

verus! {

pub const UNLOCKED: u32 = 0;

pub const LOCKED: u32 = 1;

pub const CONTENDED: u32 = 2;

/// What a thread that takes the lock does next.
#[derive(Clone, Copy, Debug, PartialEq, Eq, Structural)]
pub enum LockStep {
    /// Exchange the word from [`UNLOCKED`] to [`LOCKED`].
    Exchange,
    /// Swap [`CONTENDED`] into the word.
    Swap,
    /// Wait on the word as long as it is [`CONTENDED`].
    Wait,
    /// Nothing: the thread holds the lock.
    Acquired,
}

/// The step after `step`, which saw the value `observed` in the word.
pub open spec fn lock_next(step: LockStep, observed: u32) -> LockStep {
    match step {
        LockStep::Exchange => if observed == UNLOCKED {
            LockStep::Acquired
        } else {
            LockStep::Swap
        },
        LockStep::Swap => if observed == UNLOCKED {
            LockStep::Acquired
        } else {
            LockStep::Wait
        },
        LockStep::Wait => LockStep::Swap,
        LockStep::Acquired => LockStep::Acquired,
    }
}

/// The step after `step`, which saw the value `observed` in the word; what a
/// wait saw makes no difference. The first step is [`LockStep::Exchange`].
pub fn lock(step: LockStep, observed: u32) -> (next: LockStep)
    ensures
        next == lock_next(step, observed),
        step == LockStep::Exchange && observed == 0 ==> next == LockStep::Acquired,
        step == LockStep::Exchange && observed != 0 ==> next == LockStep::Swap,
        step == LockStep::Swap && observed == 0 ==> next == LockStep::Acquired,
        step == LockStep::Swap && observed != 0 ==> next == LockStep::Wait,
        step == LockStep::Wait ==> next == LockStep::Swap,
        step == LockStep::Acquired ==> next == LockStep::Acquired,
{
    match step {
        LockStep::Exchange => if observed == UNLOCKED {
            LockStep::Acquired
        } else {
            LockStep::Swap
        },
        LockStep::Swap => if observed == UNLOCKED {
            LockStep::Acquired
        } else {
            LockStep::Wait
        },
        LockStep::Wait => LockStep::Swap,
        LockStep::Acquired => LockStep::Acquired,
    }
}

/// How many waiters an unlock wakes that found `observed` in the word: one if
/// the lock was contended, else none.
pub open spec fn unlock_wakes(observed: u32) -> Option<i32> {
    if observed == CONTENDED {
        Some(1)
    } else {
        None
    }
}

/// How many waiters are to be woken after the word was swapped to [`UNLOCKED`]
/// and held `observed` before.
pub fn unlock(observed: u32) -> (wake: Option<i32>)
    ensures
        wake == unlock_wakes(observed),
        observed == 2 ==> wake == Some(1i32),
        observed != 2 ==> wake is None,
{
    if observed == CONTENDED {
        Some(1)
    } else {
        None
    }
}

/// Where a thread is with respect to the lock.
pub enum Phase {
    /// It neither holds the lock nor wants it.
    Outside,
    /// It is about to take this step towards the lock, or holds it.
    Locking(LockStep),
    /// The kernel has put it to sleep on the word.
    Asleep,
    /// It has released the lock and is about to wake a waiter.
    Waking,
}

/// The lock and all threads that use it.
pub struct System {
    pub word: u32,
    pub phase: spec_fn(nat) -> Phase,
}

/// One atomic action of the thread `t`.
pub enum Action {
    /// It begins to take the lock.
    Begin { t: nat },
    /// It performs the exchange or the swap that is its next step.
    Touch { t: nat },
    /// It calls the kernel to wait: it falls asleep if the word is still
    /// [`CONTENDED`], and else goes on at once.
    Wait { t: nat },
    /// It is woken without a wake, by a signal for instance.
    Stir { t: nat },
    /// It releases the lock.
    Release { t: nat },
    /// It has the kernel wake one waiter: `woken`, if any is asleep.
    Wake { t: nat, woken: Option<nat> },
}

impl System {
    /// No thread uses the lock.
    pub open spec fn start() -> System {
        System { word: UNLOCKED, phase: |t: nat| Phase::Outside }
    }

    pub open spec fn holds(self, t: nat) -> bool {
        (self.phase)(t) == Phase::Locking(LockStep::Acquired)
    }

    pub open spec fn asleep(self, t: nat) -> bool {
        (self.phase)(t) is Asleep
    }

    /// The thread `t` is going to look at the word again before it sleeps, or to
    /// wake a waiter.
    pub open spec fn active(self, t: nat) -> bool {
        (self.phase)(t) is Waking || (self.phase)(t) == Phase::Locking(LockStep::Swap)
    }

    pub open spec fn moved(self, t: nat, to: Phase) -> System {
        System {
            phase: |u: nat|
                if u == t {
                    to
                } else {
                    (self.phase)(u)
                },
            ..self
        }
    }

    /// Whether `action` can happen now.
    pub open spec fn allows(self, action: Action) -> bool {
        match action {
            Action::Begin { t } => (self.phase)(t) is Outside,
            Action::Touch { t } => (self.phase)(t) == Phase::Locking(LockStep::Exchange) || (
            self.phase)(t) == Phase::Locking(LockStep::Swap),
            Action::Wait { t } => (self.phase)(t) == Phase::Locking(LockStep::Wait),
            Action::Stir { t } => self.asleep(t),
            Action::Release { t } => self.holds(t),
            Action::Wake { t, woken } => (self.phase)(t) is Waking && match woken {
                Some(u) => self.asleep(u),
                None => forall|u: nat| !self.asleep(u),
            },
        }
    }

    /// The system after `action`.
    pub open spec fn after(self, action: Action) -> System {
        match action {
            Action::Begin { t } => self.moved(t, Phase::Locking(LockStep::Exchange)),
            Action::Touch { t } => {
                let step = (self.phase)(t)->Locking_0;
                let word = if step == LockStep::Swap {
                    CONTENDED
                } else if self.word == UNLOCKED {
                    LOCKED
                } else {
                    self.word
                };
                System { word, ..self.moved(t, Phase::Locking(lock_next(step, self.word))) }
            },
            Action::Wait { t } => if self.word == CONTENDED {
                self.moved(t, Phase::Asleep)
            } else {
                self.moved(t, Phase::Locking(lock_next(LockStep::Wait, self.word)))
            },
            Action::Stir { t } => self.moved(
                t,
                Phase::Locking(lock_next(LockStep::Wait, self.word)),
            ),
            Action::Release { t } => System {
                word: UNLOCKED,
                ..self.moved(
                    t,
                    if unlock_wakes(self.word) is Some {
                        Phase::Waking
                    } else {
                        Phase::Outside
                    },
                )
            },
            Action::Wake { t, woken } => {
                let done = self.moved(t, Phase::Outside);
                match woken {
                    Some(u) => done.moved(
                        u,
                        Phase::Locking(lock_next(LockStep::Wait, self.word)),
                    ),
                    None => done,
                }
            },
        }
    }

    /// The word tells whether the lock is held, and nobody sleeps unnoticed.
    pub open spec fn inv(self) -> bool {
        &&& self.word == UNLOCKED || self.word == LOCKED || self.word == CONTENDED
        &&& forall|t: nat, u: nat| self.holds(t) && self.holds(u) ==> t == u
        &&& self.word == UNLOCKED ==> forall|t: nat| !self.holds(t)
        &&& self.word != UNLOCKED ==> exists|t: nat| self.holds(t)
        &&& (exists|t: nat| self.asleep(t)) && self.word != CONTENDED ==> exists|t: nat|
            self.active(t)
    }
}

proof fn lemma_inv_kept(system: System, action: Action)
    requires
        system.inv(),
        system.allows(action),
    ensures
        system.after(action).inv(),
{
    let next = system.after(action);
    match action {
        Action::Begin { t } => {
            assert forall|u: nat| next.holds(u) == system.holds(u) by {}
            assert forall|u: nat| next.asleep(u) == system.asleep(u) by {}
            assert forall|u: nat| next.active(u) == system.active(u) by {}
        },
        Action::Touch { t } => {
            assert forall|u: nat| next.asleep(u) == system.asleep(u) by {}
            assert forall|u: nat| u != t implies next.active(u) == system.active(u) by {}
            assert forall|u: nat| u != t implies next.holds(u) == system.holds(u) by {}
            assert(!system.holds(t));
            if system.word == UNLOCKED {
                assert(next.holds(t));
            } else {
                assert(!next.holds(t));
                let h = choose|h: nat| system.holds(h);
                assert(next.holds(h));
            }
            if next.word != CONTENDED && exists|u: nat| next.asleep(u) {
                let u = choose|u: nat| next.asleep(u);
                assert(system.asleep(u));
                let a = choose|a: nat| system.active(a);
                assert(system.active(a));
                assert(next.active(a));
            }
        },
        Action::Wait { t } => {
            assert forall|u: nat| next.holds(u) == system.holds(u) by {}
            if system.word != UNLOCKED {
                let h = choose|h: nat| system.holds(h);
                assert(next.holds(h));
            }
            if system.word != CONTENDED {
                assert(next.active(t));
            }
        },
        Action::Stir { t } => {
            assert forall|u: nat| next.holds(u) == system.holds(u) by {}
            if system.word != UNLOCKED {
                let h = choose|h: nat| system.holds(h);
                assert(next.holds(h));
            }
            assert(next.active(t));
        },
        Action::Release { t } => {
            assert forall|u: nat| u != t implies next.holds(u) == system.holds(u) by {}
            assert(!next.holds(t));
            if system.word == CONTENDED {
                assert(next.active(t));
            } else if exists|u: nat| next.asleep(u) {
                let u = choose|u: nat| next.asleep(u);
                assert(system.asleep(u));
                let a = choose|a: nat| system.active(a);
                assert(next.active(a));
            }
        },
        Action::Wake { t, woken } => {
            assert forall|u: nat| next.holds(u) == system.holds(u) by {}
            if system.word != UNLOCKED {
                let h = choose|h: nat| system.holds(h);
                assert(next.holds(h));
            }
            match woken {
                Some(u) => {
                    assert(next.active(u));
                },
                None => {
                    assert forall|u: nat| !next.asleep(u) by {
                        assert(!system.asleep(u));
                    }
                },
            }
        },
    }
}

/// The system after `actions`, from the start.
pub open spec fn system_after(actions: Seq<Action>) -> System
    decreases actions.len(),
{
    if actions.len() == 0 {
        System::start()
    } else {
        system_after(actions.drop_last()).after(actions.last())
    }
}

/// Each of `actions` could happen when its turn came.
pub open spec fn possible(actions: Seq<Action>) -> bool
    decreases actions.len(),
{
    actions.len() > 0 ==> possible(actions.drop_last()) && system_after(
        actions.drop_last(),
    ).allows(actions.last())
}

proof fn lemma_inv_reached(actions: Seq<Action>)
    requires
        possible(actions),
    ensures
        system_after(actions).inv(),
    decreases actions.len(),
{
    if actions.len() > 0 {
        lemma_inv_reached(actions.drop_last());
        lemma_inv_kept(system_after(actions.drop_last()), actions.last());
    } else {
        assert(forall|t: nat| !System::start().asleep(t));
    }
}

/// Mutual exclusion: however many threads use the lock, and however their
/// actions interleave, no two of them hold it at once.
pub proof fn law_mutual_exclusion(actions: Seq<Action>, t: nat, u: nat)
    requires
        possible(actions),
        system_after(actions).holds(t),
        system_after(actions).holds(u),
    ensures
        t == u,
{
    lemma_inv_reached(actions);
}

/// No waiter is forgotten: while a thread sleeps, the lock is either held by a
/// thread whose release will wake a waiter, or some thread is about to wake one
/// or to look at the word again itself.
pub proof fn law_no_waiter_is_forgotten(actions: Seq<Action>, sleeper: nat)
    requires
        possible(actions),
        system_after(actions).asleep(sleeper),
    ensures
        (system_after(actions).word == CONTENDED && exists|t: nat| system_after(actions).holds(t))
            || exists|t: nat| system_after(actions).active(t),
{
    lemma_inv_reached(actions);
}

} // verus!
