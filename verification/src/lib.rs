//! The message contract of a distributed, event-sourced arena game:
//! actor processes ("mechs") compete in timed matches coordinated over a
//! topic-based publish/subscribe bus. This crate fixes the catalog of
//! message shapes and their wire encoding (`codec`), the mapping from
//! logical channels to bus subjects (`events`, `commands`), the
//! turn-taking and event-ordering rules of a match (`coordination`),
//! the two-step credential exchange (`tools`), and the records a
//! scheduler keeps of planned matches (`scheduler`).

use vstd::prelude::*;

pub mod codec;
pub mod commands;
pub mod coordination;
pub mod events;
pub mod scheduler;
pub mod tools;

verus! {

/// Fixed RPC operation name that transports layer onto the take-turn
/// exchange; a constant, never derived from match data.
pub const OP_TAKE_TURN: &'static str = "wdTakeTurn";

/// Identity of a connected actor, issued once on connection and
/// referenced by `id` in every later message.
#[derive(Debug, Clone, PartialEq, Eq)]
pub struct MechInfo {
    pub name: String,
    pub avatar: String,
    pub team: String,
    pub id: String,
}

/// The mathematical content of a `MechInfo`.
pub struct MechInfoView {
    pub name: Seq<char>,
    pub avatar: Seq<char>,
    pub team: Seq<char>,
    pub id: Seq<char>,
}

impl View for MechInfo {
    type V = MechInfoView;

    open spec fn view(&self) -> MechInfoView {
        MechInfoView {
            name: self.name@,
            avatar: self.avatar@,
            team: self.team@,
            id: self.id@,
        }
    }
}

impl MechInfoView {
    /// Every field is short enough for its length prefix on the wire.
    pub open spec fn wf(self) -> bool {
        self.name.len() <= u64::MAX && self.avatar.len() <= u64::MAX
            && self.team.len() <= u64::MAX && self.id.len() <= u64::MAX
    }
}

} // verus!
