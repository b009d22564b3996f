use vstd::prelude::*;

use crate::status::{JoinError, LeaveError, MissionStatus};

verus! {

/// The abstract state of one live (not soft-deleted) mission.
pub struct MissionState {
    pub chief_id: i32,
    pub status: MissionStatus,
    pub max_crew: i32,
    /// The brawlers that currently crew the mission.
    pub crew: Set<i32>,
}

/// The invariants that every live mission satisfies.
pub open spec fn mission_inv(s: MissionState) -> bool {
    &&& s.max_crew > 0
    &&& s.crew.finite()
    &&& s.crew.len() <= s.max_crew
    &&& !s.crew.contains(s.chief_id)
}

/// The invariants of a whole board: a map from mission id to live mission.
pub open spec fn board_inv(board: Map<i32, MissionState>) -> bool {
    forall|m: i32| #[trigger] board.contains_key(m) ==> mission_inv(board[m])
}

/// The outcome of `join(m, b)` on a board, checks taken in their fixed order.
pub open spec fn join_result(board: Map<i32, MissionState>, m: i32, b: i32) -> Result<(), JoinError> {
    if !board.contains_key(m) {
        Err(JoinError::NotFound)
    } else if b == board[m].chief_id {
        Err(JoinError::SelfJoinForbidden)
    } else if board[m].crew.contains(b) {
        Err(JoinError::AlreadyMember)
    } else if board[m].status != MissionStatus::Open {
        Err(JoinError::NotJoinable)
    } else if board[m].crew.len() >= board[m].max_crew {
        Err(JoinError::MissionFull)
    } else {
        Ok(())
    }
}

/// The board after `join(m, b)`: one more member on success, else unchanged.
pub open spec fn after_join(board: Map<i32, MissionState>, m: i32, b: i32) -> Map<i32, MissionState> {
    if join_result(board, m, b) is Ok {
        board.insert(m, MissionState { crew: board[m].crew.insert(b), ..board[m] })
    } else {
        board
    }
}

/// The outcome of `leave(m, b)` on a board.
pub open spec fn leave_result(board: Map<i32, MissionState>, m: i32, b: i32) -> Result<(), LeaveError> {
    if !board.contains_key(m) {
        Err(LeaveError::NotFound)
    } else if board[m].status != MissionStatus::Open {
        Err(LeaveError::NotLeavable)
    } else if !board[m].crew.contains(b) {
        Err(LeaveError::NotAMember)
    } else {
        Ok(())
    }
}

/// The board after `leave(m, b)`: one member fewer on success, else unchanged.
pub open spec fn after_leave(board: Map<i32, MissionState>, m: i32, b: i32) -> Map<i32, MissionState> {
    if leave_result(board, m, b) is Ok {
        board.insert(m, MissionState { crew: board[m].crew.remove(b), ..board[m] })
    } else {
        board
    }
}

} // verus!
