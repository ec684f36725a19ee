use vstd::prelude::*;

verus! {

// The play-log rows and the dashboard figures, as the rest of the
// application exchanges them. Creating, reading and updating them is plain
// row-at-a-time storage work, done by the caller; the types live here so
// the library speaks in them.

/// The link from an executable name to the game it runs.
#[derive(Debug, Clone)]
pub struct ExecutableDetails {
    pub name: String,
    pub game_id: i32,
}

/// The figures the dashboard shows for one date range.
#[derive(Debug, Clone)]
pub struct DashboardStatistics {
    pub total_minutes_played: i32,
    pub total_games_played: i32,
    pub total_games_completed: i32,
}

/// One stored play-log row.
#[derive(Debug, Clone)]
pub struct Log {
    pub id: i32,
    pub created_at: String,
    pub updated_at: String,
    pub start_date: String,
    pub end_date: String,
    pub rating: i32,
    pub notes: String,
    pub status: String,
    pub minutes_played: i32,
    pub game_id: i32,
}

/// What a new play-log row is created from.
#[derive(Debug, Clone)]
pub struct LogData {
    pub game_id: i32,
    pub start_date: String,
    pub end_date: String,
    pub rating: i32,
    pub notes: String,
    pub status: String,
    pub minutes_played: i32,
}

pub ghost struct LogDataV {
    pub game_id: i32,
    pub start_date: Seq<char>,
    pub end_date: Seq<char>,
    pub rating: i32,
    pub notes: Seq<char>,
    pub status: Seq<char>,
    pub minutes_played: i32,
}

impl View for LogData {
    type V = LogDataV;

    open spec fn view(&self) -> LogDataV {
        LogDataV {
            game_id: self.game_id,
            start_date: self.start_date@,
            end_date: self.end_date@,
            rating: self.rating,
            notes: self.notes@,
            status: self.status@,
            minutes_played: self.minutes_played,
        }
    }
}

impl DeepView for LogData {
    type V = LogDataV;

    open spec fn deep_view(&self) -> LogDataV {
        self.view()
    }
}

/// What an existing play-log row is updated from.
#[derive(Debug, Clone)]
pub struct LogUpdateData {
    pub id: i32,
    pub start_date: String,
    pub end_date: String,
    pub rating: i32,
    pub notes: String,
    pub status: String,
    pub minutes_played: i32,
}

} // verus!
