//! The normalised match snapshot that every feed adapter produces, and its
//! mathematical view.

use vstd::prelude::*;

verus! {

/// A competing team. `score` is `None` where the feed gives no number; a
/// missing number never becomes zero.
#[derive(Debug)]
pub struct Team {
    pub id: String,
    pub name: String,
    pub score: Option<u64>,
}

/// One cricket innings.
#[derive(Debug)]
pub struct Innings {
    pub id: String,
    pub runs: u32,
    pub wickets: Option<u8>,
    pub overs: String,
    pub declared: bool,
}

/// Where a match stands. `Unknown` is reported whenever the feed does not
/// say: a missing status never reads as scheduled or final.
#[derive(Clone, Copy, PartialEq, Eq, Structural, Debug)]
pub enum MatchState {
    Live,
    Finished,
    Scheduled,
    Unknown,
}

/// What only the cricket adapter reports: the innings marked as batting, and
/// the feed the snapshot came from.
#[derive(Debug)]
pub struct CricinfoDetail {
    pub active_innings_id: Option<String>,
    pub source: String,
}

/// One match of a normalised snapshot.
#[derive(Debug)]
pub struct Match {
    pub id: String,
    pub sport: String,
    pub name: String,
    pub state: MatchState,
    pub detail: String,
    pub start: String,
    pub teams: Vec<Team>,
    pub innings: Vec<Innings>,
    pub cricinfo: Option<CricinfoDetail>,
}

pub struct TeamView {
    pub id: Seq<char>,
    pub name: Seq<char>,
    pub score: Option<u64>,
}

pub struct InningsView {
    pub id: Seq<char>,
    pub runs: u32,
    pub wickets: Option<u8>,
    pub overs: Seq<char>,
    pub declared: bool,
}

pub struct CricinfoDetailView {
    pub active_innings_id: Option<Seq<char>>,
    pub source: Seq<char>,
}

pub struct MatchView {
    pub id: Seq<char>,
    pub sport: Seq<char>,
    pub name: Seq<char>,
    pub state: MatchState,
    pub detail: Seq<char>,
    pub start: Seq<char>,
    pub teams: Seq<TeamView>,
    pub innings: Seq<InningsView>,
    pub cricinfo: Option<CricinfoDetailView>,
}

impl DeepView for Team {
    type V = TeamView;

    open spec fn deep_view(&self) -> TeamView {
        TeamView { id: self.id@, name: self.name@, score: self.score }
    }
}

impl DeepView for Innings {
    type V = InningsView;

    open spec fn deep_view(&self) -> InningsView {
        InningsView {
            id: self.id@,
            runs: self.runs,
            wickets: self.wickets,
            overs: self.overs@,
            declared: self.declared,
        }
    }
}

impl DeepView for CricinfoDetail {
    type V = CricinfoDetailView;

    open spec fn deep_view(&self) -> CricinfoDetailView {
        CricinfoDetailView {
            active_innings_id: self.active_innings_id.deep_view(),
            source: self.source@,
        }
    }
}

impl DeepView for Match {
    type V = MatchView;

    open spec fn deep_view(&self) -> MatchView {
        MatchView {
            id: self.id@,
            sport: self.sport@,
            name: self.name@,
            state: self.state,
            detail: self.detail@,
            start: self.start@,
            teams: self.teams.deep_view(),
            innings: self.innings.deep_view(),
            cricinfo: match self.cricinfo {
                Some(c) => Some(c.deep_view()),
                None => None,
            },
        }
    }
}

/// The name of a match state in the snapshot format.
pub open spec fn state_name(s: MatchState) -> Seq<char> {
    match s {
        MatchState::Live => "live"@,
        MatchState::Finished => "finished"@,
        MatchState::Scheduled => "scheduled"@,
        MatchState::Unknown => "unknown"@,
    }
}

impl MatchState {
    /// The state's name in the snapshot format (see `state_name`).
    pub fn as_str(&self) -> (r: &'static str)
        ensures
            r@ == state_name(*self),
    {
        match self {
            MatchState::Live => "live",
            MatchState::Finished => "finished",
            MatchState::Scheduled => "scheduled",
            MatchState::Unknown => "unknown",
        }
    }
}

} // verus!
