use vstd::prelude::*;

use crate::model::{after_join, board_inv, join_result, mission_inv, MissionState};
use crate::status::MissionStatus;

verus! {

/// What the snapshot provider reports of one live mission.
#[derive(Clone, Copy, Debug, PartialEq, Eq, Structural)]
pub struct MissionSnapshot {
    pub id: i32,
    pub chief_id: i32,
    pub status: MissionStatus,
    pub max_crew: i32,
    /// The number of memberships at the instant of the read.
    pub crew_count: i64,
}

/// A transient failure of the persistence layer: nothing was read or written.
#[derive(Clone, Copy, Debug, PartialEq, Eq, Structural)]
pub struct StorageUnavailable;

/// Why the atomic insert of a membership refused to write.
#[derive(Clone, Copy, Debug, PartialEq, Eq, Structural)]
pub enum InsertError {
    /// The pair is already recorded.
    AlreadyMember,
    /// The mission holds its full crew at the instant of the insert.
    CapacityExceeded,
    /// The pair cannot be written in the mission's current state: the
    /// mission is gone or not open, or the brawler is its chief.
    Conflict,
    /// The persistence layer failed transiently.
    Unavailable,
}

/// Why the delete of a membership refused to write.
#[derive(Clone, Copy, Debug, PartialEq, Eq, Structural)]
pub enum DeleteError {
    /// No such membership is recorded.
    NotMember,
    /// The mission is gone or not open at the instant of the delete.
    Conflict,
    /// The persistence layer failed transiently.
    Unavailable,
}

/// `s` is a faithful snapshot of live mission `s.id` on `board`.
pub open spec fn snapshot_of(board: Map<i32, MissionState>, s: MissionSnapshot) -> bool {
    &&& board.contains_key(s.id)
    &&& s.chief_id == board[s.id].chief_id
    &&& s.status == board[s.id].status
    &&& s.max_crew == board[s.id].max_crew
    &&& s.crew_count == board[s.id].crew.len()
}

/// The outcome of the atomic insert: status, ownership, uniqueness and
/// capacity are all checked at the one instant of the write.
pub open spec fn insert_result(board: Map<i32, MissionState>, m: i32, b: i32) -> Result<(), InsertError> {
    if !board.contains_key(m) || board[m].status != MissionStatus::Open || b == board[m].chief_id {
        Err(InsertError::Conflict)
    } else if board[m].crew.contains(b) {
        Err(InsertError::AlreadyMember)
    } else if board[m].crew.len() >= board[m].max_crew {
        Err(InsertError::CapacityExceeded)
    } else {
        Ok(())
    }
}

/// The board after the atomic insert.
pub open spec fn after_insert(board: Map<i32, MissionState>, m: i32, b: i32) -> Map<i32, MissionState> {
    if insert_result(board, m, b) is Ok {
        board.insert(m, MissionState { crew: board[m].crew.insert(b), ..board[m] })
    } else {
        board
    }
}

/// The outcome of the delete, checked at the one instant of the write.
pub open spec fn delete_result(board: Map<i32, MissionState>, m: i32, b: i32) -> Result<(), DeleteError> {
    if !board.contains_key(m) || board[m].status != MissionStatus::Open {
        Err(DeleteError::Conflict)
    } else if !board[m].crew.contains(b) {
        Err(DeleteError::NotMember)
    } else {
        Ok(())
    }
}

/// The board after the delete.
pub open spec fn after_delete(board: Map<i32, MissionState>, m: i32, b: i32) -> Map<i32, MissionState> {
    if delete_result(board, m, b) is Ok {
        board.insert(m, MissionState { crew: board[m].crew.remove(b), ..board[m] })
    } else {
        board
    }
}

/// Durable storage of missions and crew memberships.
///
/// Every operation is atomic: it either fails with `Unavailable` and changes
/// nothing, or it acts on the board exactly as the spec functions above say.
pub trait CrewStore {
    /// The live missions, by id, with their crews.
    spec fn board(&self) -> Map<i32, MissionState>;

    /// True of a store whose operations never fail transiently.
    spec fn always_available() -> bool;

    /// Reads a live mission; `None` when it does not exist or was soft-deleted.
    fn fetch(&self, mission_id: i32) -> (r: Result<Option<MissionSnapshot>, StorageUnavailable>)
        ensures
            match r {
                Ok(Some(s)) => s.id == mission_id && snapshot_of(self.board(), s),
                Ok(None) => !self.board().contains_key(mission_id),
                Err(_) => !Self::always_available(),
            },
    ;

    /// Whether `brawler_id` crews live mission `mission_id`.
    fn is_crew_member(&self, mission_id: i32, brawler_id: i32) -> (r: Result<bool, StorageUnavailable>)
        ensures
            match r {
                Ok(x) => x == (self.board().contains_key(mission_id)
                    && self.board()[mission_id].crew.contains(brawler_id)),
                Err(_) => !Self::always_available(),
            },
    ;

    /// Atomically records the membership if the mission admits it.
    fn insert(&mut self, mission_id: i32, brawler_id: i32) -> (r: Result<(), InsertError>)
        requires
            board_inv(old(self).board()),
        ensures
            r == Err::<(), InsertError>(InsertError::Unavailable) ==> {
                &&& !Self::always_available()
                &&& final(self).board() == old(self).board()
            },
            r != Err::<(), InsertError>(InsertError::Unavailable) ==> {
                &&& r == insert_result(old(self).board(), mission_id, brawler_id)
                &&& final(self).board() == after_insert(old(self).board(), mission_id, brawler_id)
            },
    ;

    /// Atomically removes the membership if the mission admits it.
    fn delete(&mut self, mission_id: i32, brawler_id: i32) -> (r: Result<(), DeleteError>)
        requires
            board_inv(old(self).board()),
        ensures
            r == Err::<(), DeleteError>(DeleteError::Unavailable) ==> {
                &&& !Self::always_available()
                &&& final(self).board() == old(self).board()
            },
            r != Err::<(), DeleteError>(DeleteError::Unavailable) ==> {
                &&& r == delete_result(old(self).board(), mission_id, brawler_id)
                &&& final(self).board() == after_delete(old(self).board(), mission_id, brawler_id)
            },
    ;
}

/// The atomic insert keeps the board's invariants, whatever the pre-check saw.
pub proof fn lemma_insert_preserves_inv(board: Map<i32, MissionState>, m: i32, b: i32)
    requires
        board_inv(board),
    ensures
        board_inv(after_insert(board, m, b)),
{
    if insert_result(board, m, b) is Ok {
        let nb = after_insert(board, m, b);
        assert forall|k: i32| #[trigger] nb.contains_key(k) implies mission_inv(nb[k]) by {
            if k == m {
                assert(mission_inv(board[m]));
            }
        }
    }
}

/// Where the join's checks all pass, the atomic insert succeeds and has the
/// same effect as the join.
pub proof fn lemma_insert_agrees_with_join(board: Map<i32, MissionState>, m: i32, b: i32)
    requires
        join_result(board, m, b) is Ok,
    ensures
        insert_result(board, m, b) is Ok,
        after_insert(board, m, b) == after_join(board, m, b),
{
}

} // verus!
