use vstd::prelude::*;

verus! {

/// Planning parameters of a match scheduled for future execution.
/// `match_start` is an absolute timestamp, seconds since the Unix epoch.
#[derive(Debug, Clone, PartialEq, Eq, Structural)]
pub struct MatchScheduleEntry {
    pub max_actors: u32,
    pub board_height: u32,
    pub board_width: u32,
    pub max_turns: u32,
    pub match_start: i64,
}

impl MatchScheduleEntry {
    /// A planned match is due once its start time is no longer in the
    /// future: the scheduler should then promote it to a create command.
    pub fn is_due(&self, now: i64) -> (due: bool)
        ensures
            due == (self.match_start <= now),
    {
        self.match_start <= now
    }
}

/// Names one scheduled match.
#[derive(Debug, Clone, PartialEq, Eq)]
pub struct MatchIdentifier {
    pub match_id: String,
}

impl View for MatchIdentifier {
    type V = Seq<char>;

    open spec fn view(&self) -> Seq<char> {
        self.match_id@
    }
}

/// The persisted record of a planned match, keyed by its unique id.
#[derive(Debug, Clone, PartialEq, Eq)]
pub struct StoredMatch {
    pub match_id: String,
    pub entry: MatchScheduleEntry,
    pub aps_per_turn: u32,
}

/// The mathematical content of a `StoredMatch`.
pub struct StoredMatchView {
    pub match_id: Seq<char>,
    pub entry: MatchScheduleEntry,
    pub aps_per_turn: u32,
}

impl View for StoredMatch {
    type V = StoredMatchView;

    open spec fn view(&self) -> StoredMatchView {
        StoredMatchView {
            match_id: self.match_id@,
            entry: self.entry,
            aps_per_turn: self.aps_per_turn,
        }
    }
}

impl StoredMatchView {
    pub open spec fn wf(self) -> bool {
        self.match_id.len() <= u64::MAX
    }
}

} // verus!
