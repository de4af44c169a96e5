//! The per-match coordination protocol, from the coordinator's side: a
//! create command is validated; a started match walks every actor once
//! per turn, in the order supplied at creation, for `max_turns` turns;
//! each recorded turn appends one turn event to the match's log; the
//! match completes exactly once, either after the last turn or early.

use crate::commands::CreateMatch;
use crate::commands::MatchState;
use crate::commands::TakeTurn;
use crate::events::ArenaEvent;
use crate::events::EndCause;
use crate::events::GameEvent;
use crate::events::MatchEvent;
use vstd::arithmetic::div_mod::lemma_fundamental_div_mod_converse;
use vstd::prelude::*;

verus! {

/// Why a `CreateMatch` command was rejected. Rejection is synchronous
/// and publishes no event; the caller may retry with corrected input.
#[derive(Debug, Clone, Copy, PartialEq, Eq, Structural)]
pub enum CreateMatchError {
    DuplicateMatchId,
    EmptyActors,
    DuplicateActor,
    ZeroBoardHeight,
    ZeroBoardWidth,
    ZeroMaxTurns,
    ZeroApsPerTurn,
}

/// No two participants are the same.
pub open spec fn actors_unique(actors: Seq<Seq<char>>) -> bool {
    forall|i: int, j: int| 0 <= i < j < actors.len() ==> actors[i] != actors[j]
}

/// The id is already taken by an active match.
pub open spec fn id_active(id: Seq<char>, active: Seq<Seq<char>>) -> bool {
    exists|i: int| 0 <= i < active.len() && active[i] == id
}

/// Everything a create command must satisfy before a match may start.
pub open spec fn create_valid(cm: crate::commands::CreateMatchView, active: Seq<Seq<char>>) -> bool {
    &&& !id_active(cm.match_id, active)
    &&& cm.actors.len() > 0
    &&& actors_unique(cm.actors)
    &&& cm.board_height > 0
    &&& cm.board_width > 0
    &&& cm.max_turns > 0
    &&& cm.aps_per_turn > 0
}

/// The answer validation gives, with the first failing check named in a
/// fixed order of checks.
pub open spec fn validate_create_spec(
    cm: crate::commands::CreateMatchView,
    active: Seq<Seq<char>>,
) -> Result<(), CreateMatchError> {
    if id_active(cm.match_id, active) {
        Err(CreateMatchError::DuplicateMatchId)
    } else if cm.actors.len() == 0 {
        Err(CreateMatchError::EmptyActors)
    } else if !actors_unique(cm.actors) {
        Err(CreateMatchError::DuplicateActor)
    } else if cm.board_height == 0 {
        Err(CreateMatchError::ZeroBoardHeight)
    } else if cm.board_width == 0 {
        Err(CreateMatchError::ZeroBoardWidth)
    } else if cm.max_turns == 0 {
        Err(CreateMatchError::ZeroMaxTurns)
    } else if cm.aps_per_turn == 0 {
        Err(CreateMatchError::ZeroApsPerTurn)
    } else {
        Ok(())
    }
}

/// Validates a create command against the ids of the currently active
/// matches: ok exactly when the id is fresh, the actor list is non-empty
/// and duplicate-free, and every numeric parameter is positive.
pub fn validate_create(cm: &CreateMatch, active_ids: &Vec<String>) -> (r: Result<
    (),
    CreateMatchError,
>)
    ensures
        r == validate_create_spec(cm@, active_ids.deep_view()),
        r is Ok <==> create_valid(cm@, active_ids.deep_view()),
{
    let ghost active = active_ids.deep_view();
    let mut i: usize = 0;
    while i < active_ids.len()
        invariant
            i <= active_ids.len(),
            active == active_ids.deep_view(),
            active.len() == active_ids@.len(),
            forall|j: int| 0 <= j < active.len() ==> active[j] == active_ids@[j]@,
            forall|j: int| 0 <= j < i ==> active[j] != cm.match_id@,
        decreases active_ids.len() - i,
    {
        if active_ids[i] == cm.match_id {
            assert(active[i as int] == cm@.match_id);
            assert(id_active(cm@.match_id, active));
            return Err(CreateMatchError::DuplicateMatchId);
        }
        i += 1;
    }
    assert(!id_active(cm@.match_id, active));
    if cm.actors.len() == 0 {
        return Err(CreateMatchError::EmptyActors);
    }
    let ghost actors = cm.actors.deep_view();
    let n = cm.actors.len();
    let mut a: usize = 0;
    while a < n
        invariant
            a <= n,
            n > 0,
            active == active_ids.deep_view(),
            !id_active(cm@.match_id, active),
            actors == cm.actors.deep_view(),
            actors.len() == n,
            n == cm.actors@.len(),
            forall|j: int| 0 <= j < actors.len() ==> actors[j] == cm.actors@[j]@,
            forall|i2: int, j2: int| 0 <= i2 < j2 < a ==> actors[i2] != actors[j2],
        decreases n - a,
    {
        let mut b: usize = 0;
        while b < a
            invariant
                b <= a < n,
                n > 0,
                active == active_ids.deep_view(),
                !id_active(cm@.match_id, active),
                actors == cm.actors.deep_view(),
                actors.len() == n,
                n == cm.actors@.len(),
                forall|j: int| 0 <= j < actors.len() ==> actors[j] == cm.actors@[j]@,
                forall|j: int| 0 <= j < b ==> actors[j] != actors[a as int],
            decreases a - b,
        {
            if cm.actors[b] == cm.actors[a] {
                assert(actors[b as int] == actors[a as int]);
                assert(!actors_unique(actors));
                return Err(CreateMatchError::DuplicateActor);
            }
            b += 1;
        }
        a += 1;
    }
    assert(actors_unique(actors));
    if cm.board_height == 0 {
        return Err(CreateMatchError::ZeroBoardHeight);
    }
    if cm.board_width == 0 {
        return Err(CreateMatchError::ZeroBoardWidth);
    }
    if cm.max_turns == 0 {
        return Err(CreateMatchError::ZeroMaxTurns);
    }
    if cm.aps_per_turn == 0 {
        return Err(CreateMatchError::ZeroApsPerTurn);
    }
    Ok(())
}

/// The round-robin schedule of a whole match: entry `k` names the actor
/// and the 1-based turn of the `k`-th turn event the match emits.
pub open spec fn turn_schedule(actors: Seq<Seq<char>>, max_turns: u32) -> Seq<(Seq<char>, u32)> {
    Seq::new(
        (actors.len() * max_turns) as nat,
        |k: int| (actors[k % actors.len() as int], (1 + k / actors.len() as int) as u32),
    )
}

/// In the schedule every actor acts exactly once per turn: for an actor
/// standing at index `a`, its `t`-th appearance is the entry at
/// `(t - 1) * n + a`, carrying exactly turn `t`. Per actor the turn
/// numbers therefore run 1, 2, ..., `max_turns`, with no gaps.
pub proof fn lemma_schedule_turns_have_no_gaps(
    actors: Seq<Seq<char>>,
    max_turns: u32,
    a: int,
    t: u32,
)
    requires
        0 <= a < actors.len(),
        1 <= t <= max_turns,
    ensures
        turn_schedule(actors, max_turns)[(t - 1) * actors.len() + a] == (actors[a], t),
{
    let n = actors.len() as int;
    let ti = t as int;
    let p = (ti - 1) * n + a;
    assert(0 <= p < n * (max_turns as int)) by (nonlinear_arith)
        requires
            1 <= ti <= max_turns as int,
            0 <= a < n,
            p == (ti - 1) * n + a,
    ;
    lemma_fundamental_div_mod_converse(p, n, ti - 1, a);
}

/// Clones a list of actor names.
fn clone_actors(v: &Vec<String>) -> (r: Vec<String>)
    ensures
        r@ == v@,
{
    let mut r: Vec<String> = Vec::new();
    let mut i: usize = 0;
    while i < v.len()
        invariant
            i <= v@.len(),
            r@ == v@.take(i as int),
        decreases v@.len() - i,
    {
        r.push(v[i].clone());
        assert(r@ =~= v@.take(i + 1));
        i += 1;
    }
    assert(v@.take(v@.len() as int) =~= v@);
    r
}

/// One match, from the coordinator's perspective. The ghost log records
/// the actor and turn of every turn event emitted so far; it is always a
/// prefix of the round-robin schedule.
pub struct MatchCoordinator {
    pub match_id: String,
    pub actors: Vec<String>,
    pub board_height: u32,
    pub board_width: u32,
    pub max_turns: u32,
    pub aps_per_turn: u32,
    pub turn: u32,
    pub next_actor: usize,
    pub completed: bool,
    pub completion_emitted: bool,
    pub emitted: Ghost<Seq<(Seq<char>, u32)>>,
}

impl MatchCoordinator {
    /// The 1-based turn currently being played.
    pub open spec fn spec_turn(self) -> u32 {
        self.turn
    }

    /// The index of the actor whose turn event is emitted next.
    pub open spec fn spec_next_actor(self) -> int {
        self.next_actor as int
    }

    /// Whether the match has completed; a completed match is final.
    pub open spec fn spec_completed(self) -> bool {
        self.completed
    }

    /// Whether the one `MatchCompleted` event has been handed out.
    pub open spec fn spec_completion_emitted(self) -> bool {
        self.completion_emitted
    }

    /// The log of (actor, turn) pairs emitted so far.
    pub open spec fn log(self) -> Seq<(Seq<char>, u32)> {
        self.emitted@
    }

    /// Well-formedness: the parameters are those of a valid create
    /// command, and the log is the prefix of the schedule that the
    /// progress counters describe.
    pub open spec fn wf(self) -> bool {
        let n = self.actors.deep_view().len();
        &&& n > 0
        &&& self.max_turns > 0
        &&& actors_unique(self.actors.deep_view())
        &&& self.log() == turn_schedule(self.actors.deep_view(), self.max_turns).take(
            self.log().len() as int,
        )
        &&& self.log().len() <= n * self.max_turns
        &&& (self.completion_emitted ==> self.completed)
        &&& (!self.completed ==> {
            &&& 1 <= self.turn <= self.max_turns
            &&& self.next_actor < n
            &&& self.log().len() == (self.turn - 1) * n + self.next_actor
        })
    }

    /// Starts a match from a create command: validation failures are
    /// returned as errors and nothing is emitted; on success the new
    /// coordinator stands at turn 1 before the first actor, and the one
    /// `MatchStarted` event to publish on the public subject is handed
    /// back.
    pub fn new(cm: &CreateMatch, active_ids: &Vec<String>, start_time: i64) -> (r: Result<
        (MatchCoordinator, ArenaEvent),
        CreateMatchError,
    >)
        ensures
            (match r {
                Ok((c, ev)) => {
                    &&& validate_create_spec(cm@, active_ids.deep_view()) is Ok
                    &&& c.wf()
                    &&& !c.spec_completed()
                    &&& !c.spec_completion_emitted()
                    &&& c.spec_turn() == 1
                    &&& c.spec_next_actor() == 0
                    &&& c.log() == Seq::<(Seq<char>, u32)>::empty()
                    &&& c.match_id@ == cm.match_id@
                    &&& c.actors.deep_view() == cm.actors.deep_view()
                    &&& c.board_height == cm.board_height
                    &&& c.board_width == cm.board_width
                    &&& c.max_turns == cm.max_turns
                    &&& c.aps_per_turn == cm.aps_per_turn
                    &&& ev@ == (crate::events::ArenaEventView::MatchStarted {
                        match_id: cm.match_id@,
                        actors: cm.actors.deep_view(),
                        board_height: cm.board_height,
                        board_width: cm.board_width,
                        start_time: start_time,
                    })
                },
                Err(e) => Err::<(), CreateMatchError>(e) == validate_create_spec(
                    cm@,
                    active_ids.deep_view(),
                ),
            }),
            r is Ok <==> create_valid(cm@, active_ids.deep_view()),
    {
        match validate_create(cm, active_ids) {
            Err(e) => Err(e),
            Ok(()) => {
                let actors = clone_actors(&cm.actors);
                let c = MatchCoordinator {
                    match_id: cm.match_id.clone(),
                    actors,
                    board_height: cm.board_height,
                    board_width: cm.board_width,
                    max_turns: cm.max_turns,
                    aps_per_turn: cm.aps_per_turn,
                    turn: 1,
                    next_actor: 0,
                    completed: false,
                    completion_emitted: false,
                    emitted: Ghost(Seq::empty()),
                };
                let ev = ArenaEvent::MatchStarted {
                    match_id: cm.match_id.clone(),
                    actors: clone_actors(&cm.actors),
                    board_height: cm.board_height,
                    board_width: cm.board_width,
                    start_time,
                };
                proof {
                    assert(c.log() =~= turn_schedule(c.actors.deep_view(), c.max_turns).take(0));
                }
                Ok((c, ev))
            },
        }
    }

    /// The take-turn command to publish next on the match subject, or
    /// nothing when the match has completed. The command names the actor
    /// whose reply the coordinator awaits before any other actor moves,
    /// and carries the full current state for it.
    pub fn next_take_turn(&self, state: MatchState) -> (r: Option<TakeTurn>)
        requires
            self.wf(),
        ensures
            (match r {
                Some(tt) => {
                    &&& !self.spec_completed()
                    &&& tt.actor@ == self.actors.deep_view()[self.spec_next_actor()]
                    &&& tt.match_id@ == self.match_id@
                    &&& tt.turn == self.spec_turn()
                    &&& tt.state@ == state@
                },
                None => self.spec_completed(),
            }),
    {
        if self.completed {
            None
        } else {
            Some(
                TakeTurn {
                    actor: self.actors[self.next_actor].clone(),
                    match_id: self.match_id.clone(),
                    turn: self.turn,
                    state,
                },
            )
        }
    }

    /// Records the outcome of the pending actor-turn: appends exactly one
    /// entry to the log, hands back the turn event to publish on the
    /// match subject, and advances to the next actor of the round, the
    /// next round, or completion after the last actor of the last turn.
    /// A turn whose reply timed out is recorded the same way, with the
    /// event the engine chose for the forfeited turn: the match makes
    /// progress without that actor's reply.
    pub fn record_turn(&mut self, turn_event: GameEvent) -> (ev: MatchEvent)
        requires
            old(self).wf(),
            !old(self).spec_completed(),
        ensures
            final(self).wf(),
            ev@ == (crate::events::MatchEventView::TurnEvent {
                actor: old(self).actors.deep_view()[old(self).spec_next_actor()],
                match_id: old(self).match_id@,
                turn: old(self).spec_turn(),
                turn_event: turn_event@,
            }),
            final(self).log() == old(self).log().push(
                (old(self).actors.deep_view()[old(self).spec_next_actor()], old(self).spec_turn()),
            ),
            final(self).match_id@ == old(self).match_id@,
            final(self).actors.deep_view() == old(self).actors.deep_view(),
            final(self).spec_completion_emitted() == old(self).spec_completion_emitted(),
            final(self).max_turns == old(self).max_turns,
            final(self).aps_per_turn == old(self).aps_per_turn,
            final(self).board_height == old(self).board_height,
            final(self).board_width == old(self).board_width,
            // the match completes exactly when the last actor of the
            // last turn has been recorded
            final(self).spec_completed() <==> (old(self).spec_turn() == old(self).max_turns
                && old(self).spec_next_actor() + 1 == old(self).actors.deep_view().len()),
            !final(self).spec_completed() ==> {
                &&& (old(self).spec_next_actor() + 1 < old(self).actors.deep_view().len()
                    ==> final(self).spec_turn() == old(self).spec_turn()
                        && final(self).spec_next_actor() == old(self).spec_next_actor() + 1)
                &&& (old(self).spec_next_actor() + 1 == old(self).actors.deep_view().len()
                    ==> final(self).spec_turn() == old(self).spec_turn() + 1
                        && final(self).spec_next_actor() == 0)
            },
    {
        let ghost n = self.actors.deep_view().len() as int;
        let ghost sched = turn_schedule(self.actors.deep_view(), self.max_turns);
        let ghost p = self.log().len() as int;
        let actor = self.actors[self.next_actor].clone();
        let ev = MatchEvent::TurnEvent {
            actor,
            match_id: self.match_id.clone(),
            turn: self.turn,
            turn_event,
        };
        proof {
            let t = self.turn as int;
            let na = self.next_actor as int;
            let mt = self.max_turns as int;
            assert(p < n * mt) by (nonlinear_arith)
                requires
                    1 <= t <= mt,
                    0 <= na < n,
                    p == (t - 1) * n + na,
            ;
            lemma_fundamental_div_mod_converse(p, n, t - 1, na);
            assert(sched[p] == (self.actors.deep_view()[na], self.turn));
        }
        self.emitted = Ghost(
            self.emitted@.push((self.actors@[self.next_actor as int]@, self.turn)),
        );
        proof {
            assert(self.emitted@ =~= sched.take(p + 1));
        }
        let len = self.actors.len();
        if self.next_actor < len - 1 {
            self.next_actor = self.next_actor + 1;
        } else if self.turn < self.max_turns {
            self.next_actor = 0;
            self.turn = self.turn + 1;
            proof {
                let t = old(self).turn as int;
                assert(p + 1 == t * n) by (nonlinear_arith)
                    requires
                        n >= 1,
                        p == (t - 1) * n + (n - 1),
                ;
            }
        } else {
            self.completed = true;
        }
        ev
    }

    /// Completes the match, whether because the schedule ran out or
    /// because an external end condition aborts the match early. Hands
    /// back the `MatchCompleted` event to publish on the public subject.
    /// It is emitted exactly once: a coordinator whose completion event
    /// is out can never hand out another, and afterwards no further
    /// take-turn command exists.
    pub fn complete(&mut self, cause: EndCause, time: i64) -> (ev: ArenaEvent)
        requires
            old(self).wf(),
            !old(self).spec_completion_emitted(),
        ensures
            final(self).wf(),
            final(self).spec_completed(),
            final(self).spec_completion_emitted(),
            final(self).log() == old(self).log(),
            final(self).match_id@ == old(self).match_id@,
            ev@ == (crate::events::ArenaEventView::MatchCompleted {
                match_id: old(self).match_id@,
                cause: cause@,
                time: time,
            }),
    {
        self.completed = true;
        self.completion_emitted = true;
        ArenaEvent::MatchCompleted { match_id: self.match_id.clone(), cause, time }
    }

    /// The emitted log never outruns the schedule, and a match whose log
    /// has full length has emitted exactly the round-robin schedule: for
    /// `actors = [a, b]` and `max_turns = 2` that is
    /// `(a,1), (b,1), (a,2), (b,2)`, in that order.
    pub proof fn lemma_full_log_is_schedule(self)
        requires
            self.wf(),
            self.log().len() == self.actors.deep_view().len() * self.max_turns,
        ensures
            self.log() == turn_schedule(self.actors.deep_view(), self.max_turns),
    {
        let sched = turn_schedule(self.actors.deep_view(), self.max_turns);
        assert(self.log() =~= sched);
    }
}

} // verus!
