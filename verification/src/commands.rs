use crate::MechInfo;
use crate::MechInfoView;
use vstd::prelude::*;
use vstd::string::StringExecFns;

verus! {

/// Fixed internal control-channel subject, used exclusively for
/// arena control commands, never for match-scoped traffic.
pub fn arena_control_subject() -> (s: String)
    ensures
        s@ == "wasmdome.internal.arena.control"@,
{
    String::from_str("wasmdome.internal.arena.control")
}

/// The full current match state the engine hands an actor for its turn.
/// Opaque to this layer and carried verbatim, as the bytes the engine
/// serialized it to.
#[derive(Debug, Clone, PartialEq, Eq)]
pub struct MatchState {
    pub payload: Vec<u8>,
}

impl View for MatchState {
    type V = Seq<u8>;

    open spec fn view(&self) -> Seq<u8> {
        self.payload@
    }
}

/// One intended action of an actor for a turn. Opaque to this layer and
/// carried verbatim, as the bytes the engine serialized it to.
#[derive(Debug, Clone, PartialEq, Eq)]
pub struct MechCommand {
    pub payload: Vec<u8>,
}

impl View for MechCommand {
    type V = Seq<u8>;

    open spec fn view(&self) -> Seq<u8> {
        self.payload@
    }
}

impl DeepView for MechCommand {
    type V = Seq<u8>;

    open spec fn deep_view(&self) -> Seq<u8> {
        self.payload@
    }
}

/// Signals the desire to create a new match.
#[derive(Debug, Clone, PartialEq, Eq)]
pub struct CreateMatch {
    pub match_id: String,
    pub actors: Vec<String>,
    pub board_height: u32,
    pub board_width: u32,
    pub max_turns: u32,
    pub aps_per_turn: u32,
}

/// The mathematical content of a `CreateMatch`.
pub struct CreateMatchView {
    pub match_id: Seq<char>,
    pub actors: Seq<Seq<char>>,
    pub board_height: u32,
    pub board_width: u32,
    pub max_turns: u32,
    pub aps_per_turn: u32,
}

impl View for CreateMatch {
    type V = CreateMatchView;

    open spec fn view(&self) -> CreateMatchView {
        CreateMatchView {
            match_id: self.match_id@,
            actors: self.actors.deep_view(),
            board_height: self.board_height,
            board_width: self.board_width,
            max_turns: self.max_turns,
            aps_per_turn: self.aps_per_turn,
        }
    }
}

impl CreateMatchView {
    /// Every string and list is short enough for its length prefix.
    pub open spec fn wf(self) -> bool {
        self.match_id.len() <= u64::MAX && self.actors.len() <= u64::MAX
            && (forall|i: int| 0 <= i < self.actors.len()
                ==> #[trigger] self.actors[i].len() <= u64::MAX)
    }
}

/// A command published on the internal control subject.
#[derive(Debug, Clone, PartialEq, Eq)]
pub enum ArenaControlCommand {
    StartMatch(CreateMatch),
    QueryMechs,
}

/// The mathematical content of an `ArenaControlCommand`.
pub enum ArenaControlCommandView {
    StartMatch(CreateMatchView),
    QueryMechs,
}

impl View for ArenaControlCommand {
    type V = ArenaControlCommandView;

    open spec fn view(&self) -> ArenaControlCommandView {
        match self {
            ArenaControlCommand::StartMatch(cm) => ArenaControlCommandView::StartMatch(cm@),
            ArenaControlCommand::QueryMechs => ArenaControlCommandView::QueryMechs,
        }
    }
}

impl ArenaControlCommandView {
    pub open spec fn wf(self) -> bool {
        match self {
            ArenaControlCommandView::StartMatch(cm) => cm.wf(),
            ArenaControlCommandView::QueryMechs => true,
        }
    }
}

/// Sent on a match subject to tell a given mech to take its turn. The
/// response should acknowledge with the commands performed by that mech.
#[derive(Debug, Clone, PartialEq, Eq)]
pub struct TakeTurn {
    pub actor: String,
    pub match_id: String,
    pub turn: u32,
    pub state: MatchState,
}

/// The mathematical content of a `TakeTurn`.
pub struct TakeTurnView {
    pub actor: Seq<char>,
    pub match_id: Seq<char>,
    pub turn: u32,
    pub state: Seq<u8>,
}

impl View for TakeTurn {
    type V = TakeTurnView;

    open spec fn view(&self) -> TakeTurnView {
        TakeTurnView {
            actor: self.actor@,
            match_id: self.match_id@,
            turn: self.turn,
            state: self.state@,
        }
    }
}

impl TakeTurnView {
    pub open spec fn wf(self) -> bool {
        self.actor.len() <= u64::MAX && self.match_id.len() <= u64::MAX
            && self.state.len() <= u64::MAX
    }
}

/// The actor's reply to `TakeTurn`: its intended actions for that turn,
/// in the execution order the engine must honor.
#[derive(Debug, Clone, PartialEq, Eq)]
pub struct TakeTurnResponse {
    pub commands: Vec<MechCommand>,
}

/// The mathematical content of a `TakeTurnResponse`.
pub struct TakeTurnResponseView {
    pub commands: Seq<Seq<u8>>,
}

impl View for TakeTurnResponse {
    type V = TakeTurnResponseView;

    open spec fn view(&self) -> TakeTurnResponseView {
        TakeTurnResponseView { commands: self.commands.deep_view() }
    }
}

impl TakeTurnResponseView {
    pub open spec fn wf(self) -> bool {
        self.commands.len() <= u64::MAX
            && (forall|i: int| 0 <= i < self.commands.len()
                ==> #[trigger] self.commands[i].len() <= u64::MAX)
    }
}

/// Snapshot of the currently known mechs; set semantics, carried as an
/// ordered sequence.
#[derive(Debug, Clone, PartialEq, Eq)]
pub struct MechQueryResponse {
    pub mechs: Vec<MechInfo>,
}

/// The mathematical content of a `MechQueryResponse`.
pub struct MechQueryResponseView {
    pub mechs: Seq<MechInfoView>,
}

impl View for MechQueryResponse {
    type V = MechQueryResponseView;

    open spec fn view(&self) -> MechQueryResponseView {
        MechQueryResponseView { mechs: self.mechs@.map_values(|m: MechInfo| m@) }
    }
}

impl MechQueryResponseView {
    pub open spec fn wf(self) -> bool {
        self.mechs.len() <= u64::MAX
            && (forall|i: int| 0 <= i < self.mechs.len() ==> (#[trigger] self.mechs[i]).wf())
    }
}

} // verus!
