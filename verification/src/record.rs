//! The record data model: one leaderboard entry with every field optional,
//! since the upstream API may omit any of them.

use vstd::prelude::*;

verus! {

/// Spec-level image of a record: each textual field is a sequence of
/// characters, each numeric field a machine integer.
pub struct RecordView {
    pub id: Option<u64>,
    pub steam_id: Option<Seq<char>>,
    pub player_name: Option<Seq<char>>,
    pub map_id: Option<u64>,
    pub map_name: Option<Seq<char>>,
    pub stage: Option<u64>,
    pub mode: Option<Seq<char>>,
    pub time: Option<Seq<char>>,
    pub teleports: Option<u64>,
    pub server_id: Option<u64>,
    pub server_name: Option<Seq<char>>,
    pub points: Option<u64>,
    pub replay_id: Option<u64>,
    pub created_on: Option<Seq<char>>,
    pub updated_on: Option<Seq<char>>,
}

/// One leaderboard record as fetched from the upstream API.
///
/// Textual fields are held as character sequences; the timing value is held
/// as the decimal text the upstream reported, so that persisting it keeps it
/// bit for bit.
#[derive(Debug, Clone, PartialEq)]
pub struct Record {
    pub id: Option<u64>,
    pub steam_id: Option<Vec<char>>,
    pub player_name: Option<Vec<char>>,
    pub map_id: Option<u64>,
    pub map_name: Option<Vec<char>>,
    pub stage: Option<u64>,
    pub mode: Option<Vec<char>>,
    pub time: Option<Vec<char>>,
    pub teleports: Option<u64>,
    pub server_id: Option<u64>,
    pub server_name: Option<Vec<char>>,
    pub points: Option<u64>,
    pub replay_id: Option<u64>,
    pub created_on: Option<Vec<char>>,
    pub updated_on: Option<Vec<char>>,
}

pub open spec fn opt_text_view(o: Option<Vec<char>>) -> Option<Seq<char>> {
    match o {
        Option::None => Option::None,
        Option::Some(v) => Option::Some(v@),
    }
}

impl View for Record {
    type V = RecordView;

    open spec fn view(&self) -> RecordView {
        RecordView {
            id: self.id,
            steam_id: opt_text_view(self.steam_id),
            player_name: opt_text_view(self.player_name),
            map_id: self.map_id,
            map_name: opt_text_view(self.map_name),
            stage: self.stage,
            mode: opt_text_view(self.mode),
            time: opt_text_view(self.time),
            teleports: self.teleports,
            server_id: self.server_id,
            server_name: opt_text_view(self.server_name),
            points: self.points,
            replay_id: self.replay_id,
            created_on: opt_text_view(self.created_on),
            updated_on: opt_text_view(self.updated_on),
        }
    }
}

} // verus!
