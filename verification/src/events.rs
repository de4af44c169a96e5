use vstd::prelude::*;
use vstd::string::StringExecFns;

verus! {

/// Subject of the public arena feed, used when no match id is given.
pub open spec fn public_events_subject() -> Seq<char> {
    "wasmdome.public.arena.events"@
}

/// Subject of the event feed of one match: the match id stands between
/// a fixed prefix and a fixed suffix.
pub open spec fn match_events_subject(match_id: Seq<char>) -> Seq<char> {
    "wasmdome.match."@ + match_id + ".events"@
}

/// The subject a message about the given logical channel is routed to.
pub open spec fn events_subject_spec(match_id: Option<Seq<char>>) -> Seq<char> {
    match match_id {
        Some(id) => match_events_subject(id),
        None => public_events_subject(),
    }
}

/// Maps a logical feed to a concrete bus subject: the fixed public feed
/// when no match id is given, the per-match feed otherwise. Pure and
/// stateless, so publishers and subscribers compute the same subject.
pub fn events_subject(match_id: Option<&str>) -> (s: String)
    ensures
        (match match_id {
            Some(id) => s@ == events_subject_spec(Some(id@)),
            None => s@ == events_subject_spec(None::<Seq<char>>),
        }),
{
    match match_id {
        Some(id) => {
            let mut s = String::from_str("wasmdome.match.");
            s.append(id);
            s.append(".events");
            s
        },
        None => String::from_str("wasmdome.public.arena.events"),
    }
}

/// Distinct match ids are routed to distinct per-match subjects: the
/// prefix and suffix around the id have fixed lengths, so the id can be
/// recovered from the subject.
pub proof fn lemma_events_subject_injective(a: Seq<char>, b: Seq<char>)
    requires
        events_subject_spec(Some(a)) == events_subject_spec(Some(b)),
    ensures
        a == b,
{
    let p = "wasmdome.match."@;
    let q = ".events"@;
    assert(p + a + q == p + b + q);
    assert((p + a + q).len() == p.len() + a.len() + q.len());
    assert((p + b + q).len() == p.len() + b.len() + q.len());
    assert(a.len() == b.len());
    assert forall|i: int| 0 <= i < a.len() implies a[i] == b[i] by {
        assert((p + a + q)[p.len() + i] == a[i]);
        assert((p + b + q)[p.len() + i] == b[i]);
    }
    assert(a =~= b);
}

/// The public feed subject does not depend on anything: with no match id
/// the router always answers the one fixed subject.
pub proof fn lemma_events_subject_public_fixed()
    ensures
        events_subject_spec(None::<Seq<char>>) == "wasmdome.public.arena.events"@,
{
}

/// Why a match ended, as the engine reports it: the turn limit was
/// reached with the given survivors, or one mech won outright.
#[derive(Debug, Clone, PartialEq, Eq)]
pub enum EndCause {
    MaxTurnsCompleted { survivors: Vec<String> },
    MechVictory(String),
}

/// The mathematical content of an `EndCause`.
pub enum EndCauseView {
    MaxTurnsCompleted { survivors: Seq<Seq<char>> },
    MechVictory(Seq<char>),
}

impl View for EndCause {
    type V = EndCauseView;

    open spec fn view(&self) -> EndCauseView {
        match self {
            EndCause::MaxTurnsCompleted { survivors } => EndCauseView::MaxTurnsCompleted {
                survivors: survivors.deep_view(),
            },
            EndCause::MechVictory(winner) => EndCauseView::MechVictory(winner@),
        }
    }
}

impl EndCauseView {
    /// Every string is short enough for its length prefix on the wire.
    pub open spec fn wf(self) -> bool {
        match self {
            EndCauseView::MaxTurnsCompleted { survivors } => survivors.len() <= u64::MAX
                && (forall|i: int| 0 <= i < survivors.len()
                    ==> #[trigger] survivors[i].len() <= u64::MAX),
            EndCauseView::MechVictory(winner) => winner.len() <= u64::MAX,
        }
    }
}

/// A per-turn outcome computed by the game engine. The engine's event is
/// opaque to this layer and is carried verbatim, as the bytes the engine
/// serialized it to.
#[derive(Debug, Clone, PartialEq, Eq)]
pub struct GameEvent {
    pub payload: Vec<u8>,
}

impl View for GameEvent {
    type V = Seq<u8>;

    open spec fn view(&self) -> Seq<u8> {
        self.payload@
    }
}

/// Public lifecycle events of the arena, published on the public subject.
/// Timestamps are seconds since the Unix epoch.
#[derive(Debug, Clone, PartialEq, Eq)]
pub enum ArenaEvent {
    MechConnected { actor: String, name: String, avatar: String, team: String, time: i64 },
    MechDisconnected { actor: String, time: i64 },
    MatchStarted {
        match_id: String,
        actors: Vec<String>,
        board_height: u32,
        board_width: u32,
        start_time: i64,
    },
    MatchCompleted { match_id: String, cause: EndCause, time: i64 },
}

/// The mathematical content of an `ArenaEvent`.
pub enum ArenaEventView {
    MechConnected { actor: Seq<char>, name: Seq<char>, avatar: Seq<char>, team: Seq<char>, time: i64 },
    MechDisconnected { actor: Seq<char>, time: i64 },
    MatchStarted {
        match_id: Seq<char>,
        actors: Seq<Seq<char>>,
        board_height: u32,
        board_width: u32,
        start_time: i64,
    },
    MatchCompleted { match_id: Seq<char>, cause: EndCauseView, time: i64 },
}

impl View for ArenaEvent {
    type V = ArenaEventView;

    open spec fn view(&self) -> ArenaEventView {
        match self {
            ArenaEvent::MechConnected { actor, name, avatar, team, time } =>
                ArenaEventView::MechConnected {
                    actor: actor@, name: name@, avatar: avatar@, team: team@, time: *time,
                },
            ArenaEvent::MechDisconnected { actor, time } => ArenaEventView::MechDisconnected {
                actor: actor@, time: *time,
            },
            ArenaEvent::MatchStarted { match_id, actors, board_height, board_width, start_time } =>
                ArenaEventView::MatchStarted {
                    match_id: match_id@,
                    actors: actors.deep_view(),
                    board_height: *board_height,
                    board_width: *board_width,
                    start_time: *start_time,
                },
            ArenaEvent::MatchCompleted { match_id, cause, time } => ArenaEventView::MatchCompleted {
                match_id: match_id@, cause: cause@, time: *time,
            },
        }
    }
}

impl ArenaEventView {
    /// Every string and list is short enough for its length prefix.
    pub open spec fn wf(self) -> bool {
        match self {
            ArenaEventView::MechConnected { actor, name, avatar, team, .. } =>
                actor.len() <= u64::MAX && name.len() <= u64::MAX && avatar.len() <= u64::MAX
                    && team.len() <= u64::MAX,
            ArenaEventView::MechDisconnected { actor, .. } => actor.len() <= u64::MAX,
            ArenaEventView::MatchStarted { match_id, actors, .. } => match_id.len() <= u64::MAX
                && actors.len() <= u64::MAX
                && (forall|i: int| 0 <= i < actors.len()
                    ==> #[trigger] actors[i].len() <= u64::MAX),
            ArenaEventView::MatchCompleted { match_id, cause, .. } => match_id.len() <= u64::MAX
                && cause.wf(),
        }
    }
}

/// Per-match events: the append-only log downstream systems replay.
#[derive(Debug, Clone, PartialEq, Eq)]
pub enum MatchEvent {
    TurnEvent { actor: String, match_id: String, turn: u32, turn_event: GameEvent },
}

/// The mathematical content of a `MatchEvent`.
pub enum MatchEventView {
    TurnEvent { actor: Seq<char>, match_id: Seq<char>, turn: u32, turn_event: Seq<u8> },
}

impl View for MatchEvent {
    type V = MatchEventView;

    open spec fn view(&self) -> MatchEventView {
        match self {
            MatchEvent::TurnEvent { actor, match_id, turn, turn_event } => MatchEventView::TurnEvent {
                actor: actor@, match_id: match_id@, turn: *turn, turn_event: turn_event@,
            },
        }
    }
}

impl MatchEventView {
    /// Every string and the payload are short enough for their prefixes.
    pub open spec fn wf(self) -> bool {
        match self {
            MatchEventView::TurnEvent { actor, match_id, turn_event, .. } =>
                actor.len() <= u64::MAX && match_id.len() <= u64::MAX
                    && turn_event.len() <= u64::MAX,
        }
    }
}

/// The connection and disconnection entries of one actor, in the order
/// the log holds them: `true` for a connection, `false` for a
/// disconnection.
pub open spec fn connection_entries(log: Seq<(Seq<char>, bool)>, a: Seq<char>) -> Seq<bool>
    decreases log.len(),
{
    if log.len() == 0 {
        Seq::empty()
    } else {
        connection_entries(log.drop_last(), a) + (if log.last().0 == a {
            seq![log.last().1]
        } else {
            Seq::empty()
        })
    }
}

/// One actor's entries alternate, starting with a connection: never two
/// connections or two disconnections in a row.
pub open spec fn alternation_ok(s: Seq<bool>) -> bool {
    &&& (forall|i: int| 0 <= i < s.len() - 1 ==> #[trigger] s[i] != s[i + 1])
    &&& (s.len() > 0 ==> s[0] == true)
}

/// Tracks which actors are connected and emits the lifecycle events of
/// the public feed. The ghost log records, for every emitted event, the
/// actor and whether it was a connection; per actor the log always
/// alternates, starting with a connection.
pub struct ConnectionTracker {
    pub connected: Vec<String>,
    pub log: Ghost<Seq<(Seq<char>, bool)>>,
}

impl ConnectionTracker {
    /// The actor is currently connected.
    pub open spec fn is_connected(self, a: Seq<char>) -> bool {
        exists|i: int| 0 <= i < self.connected@.len() && self.connected@[i]@ == a
    }

    /// Well-formedness: the connected list has no duplicates, every
    /// actor's entries alternate starting with a connection, and an
    /// actor is in the connected list exactly when its last entry is a
    /// connection.
    pub open spec fn wf(self) -> bool {
        &&& (forall|i: int, j: int| 0 <= i < j < self.connected@.len()
            ==> self.connected@[i]@ != self.connected@[j]@)
        &&& (forall|a: Seq<char>| alternation_ok(#[trigger] connection_entries(self.log@, a)))
        &&& (forall|a: Seq<char>| #![trigger connection_entries(self.log@, a)]
            self.is_connected(a) <==> (connection_entries(self.log@, a).len() > 0
                && connection_entries(self.log@, a).last() == true))
    }

    /// A fresh tracker with nothing connected and an empty log.
    pub fn new() -> (r: ConnectionTracker)
        ensures
            r.connected@ == Seq::<String>::empty(),
            r.log@ == Seq::<(Seq<char>, bool)>::empty(),
            r.wf(),
    {
        let r = ConnectionTracker { connected: Vec::new(), log: Ghost(Seq::empty()) };
        proof {
            assert forall|a: Seq<char>| alternation_ok(
                #[trigger] connection_entries(r.log@, a),
            ) by {
                assert(connection_entries(r.log@, a) =~= Seq::<bool>::empty());
            }
            assert forall|a: Seq<char>| #![trigger connection_entries(r.log@, a)]
                r.is_connected(a) <==> (connection_entries(r.log@, a).len() > 0
                    && connection_entries(r.log@, a).last() == true) by {
                assert(connection_entries(r.log@, a) =~= Seq::<bool>::empty());
                assert(!r.is_connected(a));
            }
        }
        r
    }

    /// Emits `MechConnected` for an actor that is not connected; for one
    /// that already is, emits nothing and changes nothing, so the
    /// actor's entries keep alternating.
    pub fn mech_connected(
        &mut self,
        actor: String,
        name: String,
        avatar: String,
        team: String,
        time: i64,
    ) -> (r: Option<ArenaEvent>)
        requires
            old(self).wf(),
        ensures
            final(self).wf(),
            r is Some <==> !old(self).is_connected(actor@),
            (r matches Some(ev) ==> {
                &&& ev@ == (ArenaEventView::MechConnected {
                    actor: actor@,
                    name: name@,
                    avatar: avatar@,
                    team: team@,
                    time: time,
                })
                &&& final(self).log@ == old(self).log@.push((actor@, true))
                &&& final(self).is_connected(actor@)
            }),
            r is None ==> *final(self) == *old(self),
    {
        let mut i: usize = 0;
        while i < self.connected.len()
            invariant
                old(self).wf(),
                *self == *old(self),
                i <= self.connected@.len(),
                forall|j: int| 0 <= j < i ==> self.connected@[j]@ != actor@,
            decreases self.connected@.len() - i,
        {
            if self.connected[i] == actor {
                assert(self.connected@[i as int]@ == actor@);
                assert(self.is_connected(actor@));
                return None;
            }
            i += 1;
        }
        assert(!self.is_connected(actor@));
        let ghost log0 = self.log@;
        let ghost conn0 = self.connected@;
        let ghost a0 = actor@;
        self.connected.push(actor.clone());
        self.log = Ghost(self.log@.push((a0, true)));
        proof {
            let conn1 = self.connected@;
            assert(conn1[conn1.len() - 1]@ == a0);
            assert forall|x: int, y: int| 0 <= x < y < conn1.len() implies
                conn1[x]@ != conn1[y]@ by {
                if y < conn0.len() {
                } else {
                    assert(conn1[y]@ == a0);
                    assert(conn0[x]@ != a0);
                }
            }
            assert forall|b: Seq<char>| alternation_ok(
                #[trigger] connection_entries(self.log@, b),
            ) by {
                lemma_entries_push(log0, (a0, true), b);
                if b == a0 {
                    lemma_alternation_push(connection_entries(log0, a0), true);
                }
            }
            assert forall|b: Seq<char>| #![trigger connection_entries(self.log@, b)]
                self.is_connected(b) <==> (connection_entries(self.log@, b).len() > 0
                    && connection_entries(self.log@, b).last() == true) by {
                lemma_entries_push(log0, (a0, true), b);
                if b == a0 {
                    assert(self.is_connected(a0)) by {
                        assert(conn1[conn1.len() - 1]@ == a0);
                    }
                    assert(connection_entries(self.log@, a0).last() == true);
                } else {
                    assert(self.is_connected(b) <==> old(self).is_connected(b)) by {
                        if self.is_connected(b) {
                            let w = choose|i: int|
                                0 <= i < conn1.len() && conn1[i]@ == b;
                            assert(w < conn0.len() && conn0[w]@ == b);
                        }
                        if old(self).is_connected(b) {
                            let w = choose|i: int|
                                0 <= i < conn0.len() && conn0[i]@ == b;
                            assert(conn1[w]@ == b);
                        }
                    }
                }
            }
        }
        Some(ArenaEvent::MechConnected { actor, name, avatar, team, time })
    }

    /// Emits `MechDisconnected` for a connected actor; for one that is
    /// not connected, emits nothing and changes nothing.
    pub fn mech_disconnected(&mut self, actor: String, time: i64) -> (r: Option<ArenaEvent>)
        requires
            old(self).wf(),
        ensures
            final(self).wf(),
            r is Some <==> old(self).is_connected(actor@),
            (r matches Some(ev) ==> {
                &&& ev@ == (ArenaEventView::MechDisconnected { actor: actor@, time: time })
                &&& final(self).log@ == old(self).log@.push((actor@, false))
                &&& !final(self).is_connected(actor@)
            }),
            r is None ==> *final(self) == *old(self),
    {
        let mut i: usize = 0;
        while i < self.connected.len()
            invariant
                old(self).wf(),
                *self == *old(self),
                i <= self.connected@.len(),
                forall|j: int| 0 <= j < i ==> self.connected@[j]@ != actor@,
            decreases self.connected@.len() - i,
        {
            if self.connected[i] == actor {
                assert(self.connected@[i as int]@ == actor@);
                assert(self.is_connected(actor@));
                let ghost a0 = actor@;
                let ghost k = i as int;
                let ghost log0 = self.log@;
                let ghost conn0 = self.connected@;
                self.connected.remove(i);
                self.log = Ghost(self.log@.push((a0, false)));
                proof {
                    let conn1 = self.connected@;
                    // a0 stood only at k, so it is gone now
                    assert forall|j: int| 0 <= j < conn0.len() && j != k implies
                        conn0[j]@ != a0 by {
                        if j < k {
                        } else {
                            assert(conn0[k]@ != conn0[j]@);
                        }
                    }
                    assert(conn1.len() == conn0.len() - 1);
                    assert forall|j: int| 0 <= j < conn1.len() implies
                        (conn1[j] == if j < k { conn0[j] } else { conn0[j + 1] }) by {
                        assert(conn1 == conn0.remove(k));
                    }
                    assert forall|x: int, y: int| 0 <= x < y < conn1.len() implies
                        conn1[x]@ != conn1[y]@ by {
                        let x0: int = if x < k { x } else { x + 1 };
                        let y0: int = if y < k { y } else { y + 1 };
                        assert(conn1[x] == conn0[x0] && conn1[y] == conn0[y0]);
                        assert(conn0[x0]@ != conn0[y0]@);
                    }
                    assert(!self.is_connected(a0)) by {
                        if self.is_connected(a0) {
                            let w = choose|j: int| 0 <= j < conn1.len() && conn1[j]@ == a0;
                            let w0: int = if w < k { w } else { w + 1 };
                            assert(conn0[w0]@ == a0 && w0 != k);
                        }
                    }
                    assert forall|b: Seq<char>| alternation_ok(
                        #[trigger] connection_entries(self.log@, b),
                    ) by {
                        lemma_entries_push(log0, (a0, false), b);
                        if b == a0 {
                            lemma_alternation_push(connection_entries(log0, a0), false);
                        }
                    }
                    assert forall|b: Seq<char>| #![trigger connection_entries(self.log@, b)]
                        self.is_connected(b) <==> (connection_entries(self.log@, b).len() > 0
                            && connection_entries(self.log@, b).last() == true) by {
                        lemma_entries_push(log0, (a0, false), b);
                        if b == a0 {
                            assert(connection_entries(self.log@, a0).last() == false);
                        } else {
                            assert(self.is_connected(b) <==> old(self).is_connected(b)) by {
                                if self.is_connected(b) {
                                    let w = choose|j: int|
                                        0 <= j < conn1.len() && conn1[j]@ == b;
                                    let w0: int = if w < k { w } else { w + 1 };
                                    assert(conn0[w0]@ == b);
                                }
                                if old(self).is_connected(b) {
                                    let w = choose|j: int|
                                        0 <= j < conn0.len() && conn0[j]@ == b;
                                    assert(w != k);
                                    let w1: int = if w < k { w } else { w - 1 };
                                    assert(conn1[w1]@ == b);
                                }
                            }
                        }
                    }
                }
                return Some(ArenaEvent::MechDisconnected { actor, time });
            }
            i += 1;
        }
        assert(!self.is_connected(actor@));
        None
    }
}

/// How one more log entry changes one actor's connection entries: it
/// extends the entries of its own actor and leaves every other actor's
/// entries unchanged.
pub proof fn lemma_entries_push(log: Seq<(Seq<char>, bool)>, e: (Seq<char>, bool), a: Seq<char>)
    ensures
        connection_entries(log.push(e), a) == (if e.0 == a {
            connection_entries(log, a).push(e.1)
        } else {
            connection_entries(log, a)
        }),
{
    assert(log.push(e).drop_last() =~= log);
    assert(log.push(e).last() == e);
    if e.0 == a {
        assert(connection_entries(log.push(e), a) =~= connection_entries(log, a).push(e.1));
    } else {
        assert(connection_entries(log.push(e), a) =~= connection_entries(log, a));
    }
}

/// An alternating history stays alternating when extended with a
/// connection after a disconnection (or at the start), or with a
/// disconnection after a connection.
pub proof fn lemma_alternation_push(s: Seq<bool>, v: bool)
    requires
        alternation_ok(s),
        v == true ==> s.len() == 0 || s.last() == false,
        v == false ==> s.len() > 0 && s.last() == true,
    ensures
        alternation_ok(s.push(v)),
{
    let s2 = s.push(v);
    assert forall|i: int| 0 <= i < s2.len() - 1 implies #[trigger] s2[i] != s2[i + 1] by {
        if i < s.len() - 1 {
            assert(s2[i] == s[i] && s2[i + 1] == s[i + 1]);
        } else {
            assert(i == s.len() - 1);
            assert(s2[i] == s.last() && s2[i + 1] == v);
        }
    }
    if s.len() > 0 {
        assert(s2[0] == s[0]);
    } else {
        assert(s2[0] == v);
    }
}

} // verus!
