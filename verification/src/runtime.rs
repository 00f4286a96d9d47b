//! The session runtime: counts what happens to sessions as events arrive.

use crate::ids::{SessionId, WorkspaceId};
use vstd::prelude::*;

verus! {

/// Something that happened to a session, or to the runtime itself.
#[derive(Debug, Eq, PartialEq)]
pub enum ControlEvent {
    SessionStarted { workspace_id: WorkspaceId, session_id: SessionId },
    SessionExited { workspace_id: WorkspaceId, session_id: SessionId, code: i32 },
    Tick,
    Shutdown,
}

/// The std channel receiver, carried opaquely.
#[verifier::external_type_specification]
#[verifier::external_body]
#[verifier::reject_recursive_types(T)]
pub struct ExReceiver<T>(std::sync::mpsc::Receiver<T>);

/// What waiting on the event channel gave.
pub enum Received {
    Event(ControlEvent),
    Timeout,
    Disconnected,
}

/// Waits up to `timeout` for the next event (std `Receiver::recv_timeout`).
/// Nothing is stated of the outcome: it depends on the senders and on time.
#[verifier::external_body]
fn receive(receiver: &std::sync::mpsc::Receiver<ControlEvent>, timeout: std::time::Duration) -> Received {
    match receiver.recv_timeout(timeout) {
        Ok(event) => Received::Event(event),
        Err(std::sync::mpsc::RecvTimeoutError::Timeout) => Received::Timeout,
        Err(std::sync::mpsc::RecvTimeoutError::Disconnected) => Received::Disconnected,
    }
}

/// Counters of the runtime.
#[derive(Clone, Copy, Debug, Default, Eq, PartialEq)]
pub struct RuntimeStats {
    pub active_sessions: usize,
    pub exited_sessions: u64,
    pub ticks: u64,
}

/// The (workspace, session) pairs of a list, by text.
pub open spec fn session_pairs(v: Seq<(WorkspaceId, SessionId)>) -> Set<(Seq<char>, Seq<char>)> {
    Set::new(|p: (Seq<char>, Seq<char>)| exists|i: int| 0 <= i < v.len() && (#[trigger] v[i]).0@ == p.0 && v[i].1@ == p.1)
}

/// No two entries of the list name the same (workspace, session) pair.
pub open spec fn pairs_distinct(v: Seq<(WorkspaceId, SessionId)>) -> bool {
    forall|i: int, j: int|
        0 <= i < j < v.len() ==> !((#[trigger] v[i]).0@ == (#[trigger] v[j]).0@ && v[i].1@ == v[j].1@)
}

/// What applying `event` does, from runtime `before` to `after`: a start
/// adds its (workspace, session) pair, an exit removes it and counts the
/// exit, a tick counts itself, a shutdown changes nothing.
pub open spec fn event_effect(before: SessionRuntime, after: SessionRuntime, event: ControlEvent) -> bool {
    match event {
        ControlEvent::SessionStarted { workspace_id, session_id } => {
            &&& after.active() == before.active().insert((workspace_id@, session_id@))
            &&& after.exited() == before.exited()
            &&& after.ticks() == before.ticks()
        },
        ControlEvent::SessionExited { workspace_id, session_id, .. } => {
            &&& after.active() == before.active().remove((workspace_id@, session_id@))
            &&& after.exited() == before.exited() + 1
            &&& after.ticks() == before.ticks()
        },
        ControlEvent::Tick => {
            &&& after.active() == before.active()
            &&& after.exited() == before.exited()
            &&& after.ticks() == before.ticks() + 1
        },
        ControlEvent::Shutdown => {
            &&& after.active() == before.active()
            &&& after.exited() == before.exited()
            &&& after.ticks() == before.ticks()
        },
    }
}

/// What handling `received` does, from runtime `before` to `after`: an
/// event is applied, a timeout counts as a tick, a closed channel changes
/// nothing.
pub open spec fn outcome_effect(before: SessionRuntime, after: SessionRuntime, received: Received) -> bool {
    match received {
        Received::Event(e) => event_effect(before, after, e),
        Received::Timeout => event_effect(before, after, ControlEvent::Tick),
        Received::Disconnected => after == before,
    }
}

/// Whether the runtime goes on after `received`: not after a shutdown or a
/// closed channel.
pub open spec fn goes_on(received: Received) -> bool {
    match received {
        Received::Event(e) => !(e is Shutdown),
        Received::Timeout => true,
        Received::Disconnected => false,
    }
}

/// The channel gave `outcomes`, one after the other, and handling them took
/// the runtime from `start` to `end` through `states`; every outcome but
/// possibly the last let the runtime go on.
pub open spec fn outcomes_handled(
    start: SessionRuntime,
    end: SessionRuntime,
    outcomes: Seq<Received>,
    states: Seq<SessionRuntime>,
) -> bool {
    &&& states.len() == outcomes.len() + 1
    &&& states[0] == start
    &&& states.last() == end
    &&& forall|i: int|
        0 <= i < outcomes.len() ==> outcome_effect(states[i], states[i + 1], #[trigger] outcomes[i])
    &&& forall|i: int| 0 <= i < outcomes.len() - 1 ==> goes_on(#[trigger] outcomes[i])
}

/// Why a run stopped after `outcomes`, ending at `end`: the last outcome was
/// a shutdown or a closed channel, the exit or tick counter is full, or
/// `u64::MAX` outcomes were handled.
pub open spec fn run_stopped(end: SessionRuntime, outcomes: Seq<Received>) -> bool {
    ||| outcomes.len() > 0 && !goes_on(outcomes.last())
    ||| end.exited() == u64::MAX
    ||| end.ticks() == u64::MAX
    ||| outcomes.len() == u64::MAX
}

/// Tracks the active sessions, how many have exited and how many ticks
/// have passed.
#[derive(Debug)]
pub struct SessionRuntime {
    active_sessions: Vec<(WorkspaceId, SessionId)>,
    exited_sessions: u64,
    ticks: u64,
}

impl SessionRuntime {
    #[verifier::type_invariant]
    spec fn well_formed(&self) -> bool {
        pairs_distinct(self.active_sessions@)
    }

    /// The active (workspace, session) pairs.
    pub closed spec fn active(&self) -> Set<(Seq<char>, Seq<char>)> {
        session_pairs(self.active_sessions@)
    }

    /// How many sessions have exited.
    pub closed spec fn exited(&self) -> u64 {
        self.exited_sessions
    }

    /// How many ticks have passed.
    pub closed spec fn ticks(&self) -> u64 {
        self.ticks
    }

    /// The counters: the number of active pairs, exits and ticks.
    pub fn stats(&self) -> (r: RuntimeStats)
        ensures
            r.active_sessions == self.active().len(),
            r.exited_sessions == self.exited(),
            r.ticks == self.ticks(),
            self.active().finite(),
    {
        proof {
            use_type_invariant(self);
            lemma_pairs_len(self.active_sessions@);
        }
        RuntimeStats {
            active_sessions: self.active_sessions.len(),
            exited_sessions: self.exited_sessions,
            ticks: self.ticks,
        }
    }

    /// Applies one event: a start adds the pair, an exit removes it and
    /// counts the exit, a tick counts itself. Returns whether the runtime
    /// should go on, which is false only for a shutdown.
    pub fn apply(&mut self, event: ControlEvent) -> (r: bool)
        requires
            old(self).exited() < u64::MAX,
            old(self).ticks() < u64::MAX,
        ensures
            r == !(event is Shutdown),
            event_effect(*old(self), *final(self), event),
    {
        proof {
            use_type_invariant(&*self);
        }
        match event {
            ControlEvent::SessionStarted { workspace_id, session_id } => {
                let found = self.find(&workspace_id, &session_id);
                if found.is_none() {
                    let ghost old_v = self.active_sessions@;
                    let ghost p = (workspace_id@, session_id@);
                    let mut v = self.take_active();
                    v.push((workspace_id, session_id));
                    proof {
                        assert(pairs_distinct(v@)) by {
                            assert forall|i: int, j: int| 0 <= i < j < v@.len() implies !((
                            #[trigger] v@[i]).0@ == (#[trigger] v@[j]).0@ && v@[i].1@ == v@[j].1@) by {
                                if j < old_v.len() {
                                    assert(v@[i] == old_v[i] && v@[j] == old_v[j]);
                                } else {
                                    assert(v@[i] == old_v[i]);
                                }
                            }
                        }
                        assert(session_pairs(v@) =~= session_pairs(old_v).insert(p)) by {
                            assert forall|q: (Seq<char>, Seq<char>)| #[trigger] session_pairs(v@).contains(q) implies session_pairs(old_v).insert(p).contains(q) by {
                                let i = choose|i: int| 0 <= i < v@.len() && (#[trigger] v@[i]).0@ == q.0 && v@[i].1@ == q.1;
                                if i < old_v.len() {
                                    assert(old_v[i] == v@[i]);
                                }
                            }
                            assert forall|q: (Seq<char>, Seq<char>)| #[trigger] session_pairs(old_v).insert(p).contains(q) implies session_pairs(v@).contains(q) by {
                                if q == p {
                                    assert(v@[old_v.len() as int].0@ == q.0);
                                } else {
                                    let i = choose|i: int| 0 <= i < old_v.len() && (#[trigger] old_v[i]).0@ == q.0 && old_v[i].1@ == q.1;
                                    assert(v@[i] == old_v[i]);
                                }
                            }
                        }
                    }
                    self.active_sessions = v;
                } else {
                    proof {
                        let i = found->0 as int;
                        assert(session_pairs(self.active_sessions@).contains((workspace_id@, session_id@))) by {
                            assert(self.active_sessions@[i].0@ == workspace_id@);
                        }
                        assert(session_pairs(self.active_sessions@).insert((workspace_id@, session_id@)) =~= session_pairs(self.active_sessions@));
                    }
                }
                true
            },
            ControlEvent::SessionExited { workspace_id, session_id, code: _ } => {
                let found = self.find(&workspace_id, &session_id);
                match found {
                    Some(i) => {
                        let ghost old_v = self.active_sessions@;
                        let ghost p = (workspace_id@, session_id@);
                        let mut v = self.take_active();
                        v.remove(i);
                        proof {
                            assert(pairs_distinct(v@)) by {
                                assert forall|a: int, b: int| 0 <= a < b < v@.len() implies !((
                                #[trigger] v@[a]).0@ == (#[trigger] v@[b]).0@ && v@[a].1@ == v@[b].1@) by {
                                    if b < i {
                                        assert(v@[a] == old_v[a] && v@[b] == old_v[b]);
                                    } else if a < i {
                                        assert(v@[a] == old_v[a] && v@[b] == old_v[b + 1]);
                                    } else {
                                        assert(v@[a] == old_v[a + 1] && v@[b] == old_v[b + 1]);
                                    }
                                }
                            }
                            assert(session_pairs(v@) =~= session_pairs(old_v).remove(p)) by {
                                assert forall|q: (Seq<char>, Seq<char>)| #[trigger] session_pairs(v@).contains(q) implies session_pairs(old_v).remove(p).contains(q) by {
                                    let a = choose|a: int| 0 <= a < v@.len() && (#[trigger] v@[a]).0@ == q.0 && v@[a].1@ == q.1;
                                    let b = if a < i { a } else { a + 1 };
                                    assert(v@[a] == old_v[b]);
                                    if q == p {
                                        assert(b != i);
                                        if b < i {
                                            assert(!((old_v[b]).0@ == (old_v[i as int]).0@ && old_v[b].1@ == old_v[i as int].1@));
                                        } else {
                                            assert(!((old_v[i as int]).0@ == (old_v[b]).0@ && old_v[i as int].1@ == old_v[b].1@));
                                        }
                                    }
                                }
                                assert forall|q: (Seq<char>, Seq<char>)| #[trigger] session_pairs(old_v).remove(p).contains(q) implies session_pairs(v@).contains(q) by {
                                    let a = choose|a: int| 0 <= a < old_v.len() && (#[trigger] old_v[a]).0@ == q.0 && old_v[a].1@ == q.1;
                                    assert(a != i);
                                    if a < i {
                                        assert(v@[a] == old_v[a]);
                                    } else {
                                        assert(v@[a - 1] == old_v[a]);
                                    }
                                }
                            }
                        }
                        self.active_sessions = v;
                    },
                    None => {
                        proof {
                            assert(session_pairs(self.active_sessions@).remove((workspace_id@, session_id@)) =~= session_pairs(self.active_sessions@));
                        }
                    },
                }
                self.exited_sessions = self.exited_sessions + 1;
                true
            },
            ControlEvent::Tick => {
                self.ticks = self.ticks + 1;
                true
            },
            ControlEvent::Shutdown => false,
        }
    }

    /// Handles what the channel gave: an event is applied, a timeout counts
    /// as a tick, a closed channel stops the runtime. Returns whether to go
    /// on.
    pub fn handle(&mut self, received: Received) -> (r: bool)
        requires
            old(self).exited() < u64::MAX,
            old(self).ticks() < u64::MAX,
        ensures
            match received {
                Received::Event(e) => r == !(e is Shutdown) && event_effect(*old(self), *final(self), e),
                Received::Timeout => r && event_effect(*old(self), *final(self), ControlEvent::Tick),
                Received::Disconnected => !r && *final(self) == *old(self),
            },
    {
        match received {
            Received::Event(event) => self.apply(event),
            Received::Timeout => {
                self.apply(ControlEvent::Tick);
                true
            },
            Received::Disconnected => false,
        }
    }

    /// Applies events from `receiver` until a shutdown or a closed channel,
    /// counting a tick whenever `tick_interval` passes without an event,
    /// and returns the counters. The runtime goes through what the channel
    /// gave, in order, a tick standing for each timeout, and stops at the
    /// first shutdown or at a closed channel. It also stops, rather than
    /// overflow, when the exit or tick counter is full, and after `u64::MAX`
    /// waits.
    pub fn run_blocking(
        &mut self,
        receiver: &std::sync::mpsc::Receiver<ControlEvent>,
        tick_interval: std::time::Duration,
    ) -> (r: RuntimeStats)
        ensures
            r.active_sessions == final(self).active().len(),
            r.exited_sessions == final(self).exited(),
            r.ticks == final(self).ticks(),
            exists|outcomes: Seq<Received>, states: Seq<SessionRuntime>|
                #[trigger] outcomes_handled(*old(self), *final(self), outcomes, states) && run_stopped(
                    *final(self),
                    outcomes,
                ),
            final(self).exited() >= old(self).exited(),
            final(self).ticks() >= old(self).ticks(),
    {
        let ghost start = *self;
        let ghost mut outcomes: Seq<Received> = Seq::empty();
        let ghost mut states: Seq<SessionRuntime> = seq![*self];
        let mut budget: u64 = u64::MAX;
        while budget > 0
            invariant_except_break
                forall|i: int| 0 <= i < outcomes.len() ==> goes_on(#[trigger] outcomes[i]),
                outcomes.len() + budget == u64::MAX,
            invariant
                start == *old(self),
                outcomes_handled(start, *self, outcomes, states),
                self.exited() >= old(self).exited(),
                self.ticks() >= old(self).ticks(),
            ensures
                outcomes_handled(start, *self, outcomes, states),
                run_stopped(*self, outcomes),
                self.exited() >= old(self).exited(),
                self.ticks() >= old(self).ticks(),
            decreases budget,
        {
            if self.exited_sessions == u64::MAX || self.ticks == u64::MAX {
                break;
            }
            let received = receive(receiver, tick_interval);
            let ghost got = received;
            let ghost before = *self;
            let go = self.handle(received);
            proof {
                lemma_outcomes_push(start, before, *self, outcomes, states, got);
                outcomes = outcomes.push(got);
                states = states.push(*self);
            }
            if !go {
                break;
            }
            budget = budget - 1;
        }
        self.stats()
    }

    /// The position of the pair (`workspace_id`, `session_id`), if active.
    fn find(&self, workspace_id: &WorkspaceId, session_id: &SessionId) -> (r: Option<usize>)
        ensures
            r matches Some(i) ==> i < self.active_sessions@.len() && self.active_sessions@[i as int].0@
                == workspace_id@ && self.active_sessions@[i as int].1@ == session_id@,
            r is None ==> !self.active().contains((workspace_id@, session_id@)),
    {
        let mut i: usize = 0;
        while i < self.active_sessions.len()
            invariant
                i <= self.active_sessions@.len(),
                forall|j: int|
                    0 <= j < i ==> !((#[trigger] self.active_sessions@[j]).0@ == workspace_id@
                        && self.active_sessions@[j].1@ == session_id@),
            decreases self.active_sessions.len() - i,
        {
            let pair = &self.active_sessions[i];
            if crate::text::str_eq(pair.0.as_str(), workspace_id.as_str()) && crate::text::str_eq(
                pair.1.as_str(),
                session_id.as_str(),
            ) {
                return Some(i);
            }
            i += 1;
        }
        None
    }

    /// Takes the active pairs out, leaving none.
    fn take_active(&mut self) -> (r: Vec<(WorkspaceId, SessionId)>)
        ensures
            r@ == old(self).active_sessions@,
            pairs_distinct(r@),
            final(self).active_sessions@ == Seq::<(WorkspaceId, SessionId)>::empty(),
            final(self).exited_sessions == old(self).exited_sessions,
            final(self).ticks == old(self).ticks,
    {
        proof {
            use_type_invariant(&*self);
        }
        let mut v: Vec<(WorkspaceId, SessionId)> = Vec::new();
        std::mem::swap(&mut v, &mut self.active_sessions);
        v
    }
}

impl Default for SessionRuntime {
    fn default() -> (r: Self)
        ensures
            r.active() == Set::<(Seq<char>, Seq<char>)>::empty(),
            r.exited() == 0,
            r.ticks() == 0,
    {
        let r = SessionRuntime { active_sessions: Vec::new(), exited_sessions: 0, ticks: 0 };
        assert(session_pairs(r.active_sessions@) =~= Set::<(Seq<char>, Seq<char>)>::empty());
        r
    }
}

/// Handling one more outcome, after outcomes that all let the runtime go
/// on, extends the run.
proof fn lemma_outcomes_push(
    start: SessionRuntime,
    mid: SessionRuntime,
    end: SessionRuntime,
    outcomes: Seq<Received>,
    states: Seq<SessionRuntime>,
    received: Received,
)
    requires
        outcomes_handled(start, mid, outcomes, states),
        forall|i: int| 0 <= i < outcomes.len() ==> goes_on(#[trigger] outcomes[i]),
        outcome_effect(mid, end, received),
    ensures
        outcomes_handled(start, end, outcomes.push(received), states.push(end)),
{
    let os = outcomes.push(received);
    let ss = states.push(end);
    assert forall|i: int| 0 <= i < os.len() implies outcome_effect(ss[i], ss[i + 1], #[trigger] os[i]) by {
        if i < outcomes.len() {
            assert(os[i] == outcomes[i]);
            assert(ss[i] == states[i]);
            assert(ss[i + 1] == states[i + 1]);
        }
    }
    assert forall|i: int| 0 <= i < os.len() - 1 implies goes_on(#[trigger] os[i]) by {
        assert(os[i] == outcomes[i]);
    }
}

/// A list of distinct pairs has as many entries as the set of its pairs.
proof fn lemma_pairs_len(v: Seq<(WorkspaceId, SessionId)>)
    requires
        pairs_distinct(v),
    ensures
        session_pairs(v).finite(),
        session_pairs(v).len() == v.len(),
    decreases v.len(),
{
    if v.len() == 0 {
        assert(session_pairs(v) =~= Set::<(Seq<char>, Seq<char>)>::empty());
    } else {
        let w = v.drop_last();
        let p = (v.last().0@, v.last().1@);
        assert(pairs_distinct(w)) by {
            assert forall|i: int, j: int| 0 <= i < j < w.len() implies !((#[trigger] w[i]).0@ == (#[trigger] w[j]).0@ && w[i].1@ == w[j].1@) by {
                assert(w[i] == v[i] && w[j] == v[j]);
            }
        }
        lemma_pairs_len(w);
        assert(!session_pairs(w).contains(p)) by {
            if session_pairs(w).contains(p) {
                let i = choose|i: int| 0 <= i < w.len() && (#[trigger] w[i]).0@ == p.0 && w[i].1@ == p.1;
                assert(v[i] == w[i]);
                assert(!((v[i]).0@ == (v[v.len() - 1]).0@ && v[i].1@ == v[v.len() - 1].1@));
            }
        }
        assert(session_pairs(v) =~= session_pairs(w).insert(p)) by {
            assert forall|q: (Seq<char>, Seq<char>)| #[trigger] session_pairs(v).contains(q) implies session_pairs(w).insert(p).contains(q) by {
                let i = choose|i: int| 0 <= i < v.len() && (#[trigger] v[i]).0@ == q.0 && v[i].1@ == q.1;
                if i < w.len() {
                    assert(w[i] == v[i]);
                }
            }
            assert forall|q: (Seq<char>, Seq<char>)| #[trigger] session_pairs(w).insert(p).contains(q) implies session_pairs(v).contains(q) by {
                if q == p {
                    assert(v[v.len() - 1].0@ == q.0);
                } else {
                    let i = choose|i: int| 0 <= i < w.len() && (#[trigger] w[i]).0@ == q.0 && w[i].1@ == q.1;
                    assert(v[i] == w[i]);
                }
            }
        }
    }
}


/// A session that starts and then exits leaves the active sessions as they
/// were before it started, when it was not active then, and counts one
/// exit.
pub proof fn lemma_start_then_exit(
    before: SessionRuntime,
    started: SessionRuntime,
    exited: SessionRuntime,
    workspace_id: WorkspaceId,
    session_id: SessionId,
    code: i32,
)
    requires
        !before.active().contains((workspace_id@, session_id@)),
        event_effect(before, started, ControlEvent::SessionStarted { workspace_id, session_id }),
        event_effect(started, exited, ControlEvent::SessionExited { workspace_id, session_id, code }),
    ensures
        exited.active() == before.active(),
        exited.exited() == before.exited() + 1,
        exited.ticks() == before.ticks(),
{
    assert(before.active().insert((workspace_id@, session_id@)).remove((workspace_id@, session_id@))
        =~= before.active());
}

} // verus!
