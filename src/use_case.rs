use vstd::prelude::*;

use crate::model::{after_join, after_leave, board_inv, join_result, leave_result, MissionState};
use crate::status::{JoinError, LeaveError};
use crate::store::{
    lemma_insert_agrees_with_join, lemma_insert_preserves_inv, CrewStore, DeleteError, InsertError,
};

verus! {

/// The admission engine: decides join and leave requests against a store.
///
/// The engine holds no state of its own. It reads a snapshot to fail fast
/// with a precise error, then leaves the authoritative decision to the
/// store's atomic insert or delete.
pub struct CrewOperationUseCase<S: CrewStore> {
    store: S,
}

impl<S: CrewStore> CrewOperationUseCase<S> {
    /// The board held by the underlying store.
    pub closed spec fn board(&self) -> Map<i32, MissionState> {
        self.store.board()
    }

    /// An engine over `store`.
    pub fn new(store: S) -> (r: Self)
        ensures
            r.board() == store.board(),
    {
        CrewOperationUseCase { store }
    }

    /// The underlying store.
    pub fn store(&self) -> (r: &S)
        ensures
            r.board() == self.board(),
    {
        &self.store
    }

    /// Gives the underlying store back.
    pub fn into_store(self) -> (r: S)
        ensures
            r.board() == self.board(),
    {
        self.store
    }

    /// Adds `brawler_id` to the crew of `mission_id`.
    ///
    /// Unless the store fails transiently, the outcome is `join_result` and
    /// the board becomes `after_join`; on a transient failure nothing changes.
    pub fn join(&mut self, mission_id: i32, brawler_id: i32) -> (r: Result<(), JoinError>)
        requires
            board_inv(old(self).board()),
        ensures
            board_inv(final(self).board()),
            r == Err::<(), JoinError>(JoinError::StorageUnavailable) ==> {
                &&& !S::always_available()
                &&& final(self).board() == old(self).board()
            },
            r != Err::<(), JoinError>(JoinError::StorageUnavailable) ==> {
                &&& r == join_result(old(self).board(), mission_id, brawler_id)
                &&& final(self).board() == after_join(old(self).board(), mission_id, brawler_id)
            },
    {
        let snapshot = match self.store.fetch(mission_id) {
            Ok(Some(s)) => s,
            Ok(None) => {
                return Err(JoinError::NotFound);
            },
            Err(_) => {
                return Err(JoinError::StorageUnavailable);
            },
        };
        if snapshot.chief_id == brawler_id {
            return Err(JoinError::SelfJoinForbidden);
        }
        match self.store.is_crew_member(mission_id, brawler_id) {
            Ok(true) => {
                return Err(JoinError::AlreadyMember);
            },
            Ok(false) => {},
            Err(_) => {
                return Err(JoinError::StorageUnavailable);
            },
        }
        if !snapshot.status.is_open() {
            return Err(JoinError::NotJoinable);
        }
        if snapshot.crew_count >= snapshot.max_crew as i64 {
            return Err(JoinError::MissionFull);
        }
        proof {
            lemma_insert_agrees_with_join(self.store.board(), mission_id, brawler_id);
            lemma_insert_preserves_inv(self.store.board(), mission_id, brawler_id);
        }
        // The insert re-checks capacity and uniqueness atomically; a race
        // lost since the snapshot surfaces as the same error as a pre-check.
        match self.store.insert(mission_id, brawler_id) {
            Ok(()) => Ok(()),
            Err(InsertError::CapacityExceeded) => Err(JoinError::MissionFull),
            Err(InsertError::AlreadyMember) => Err(JoinError::AlreadyMember),
            Err(InsertError::Conflict) => Err(JoinError::AlreadyMember),
            Err(InsertError::Unavailable) => Err(JoinError::StorageUnavailable),
        }
    }

    /// Removes `brawler_id` from the crew of `mission_id`.
    ///
    /// Unless the store fails transiently, the outcome is `leave_result` and
    /// the board becomes `after_leave`; on a transient failure nothing changes.
    pub fn leave(&mut self, mission_id: i32, brawler_id: i32) -> (r: Result<(), LeaveError>)
        requires
            board_inv(old(self).board()),
        ensures
            board_inv(final(self).board()),
            r == Err::<(), LeaveError>(LeaveError::StorageUnavailable) ==> {
                &&& !S::always_available()
                &&& final(self).board() == old(self).board()
            },
            r != Err::<(), LeaveError>(LeaveError::StorageUnavailable) ==> {
                &&& r == leave_result(old(self).board(), mission_id, brawler_id)
                &&& final(self).board() == after_leave(old(self).board(), mission_id, brawler_id)
            },
    {
        let snapshot = match self.store.fetch(mission_id) {
            Ok(Some(s)) => s,
            Ok(None) => {
                return Err(LeaveError::NotFound);
            },
            Err(_) => {
                return Err(LeaveError::StorageUnavailable);
            },
        };
        if !snapshot.status.is_open() {
            return Err(LeaveError::NotLeavable);
        }
        proof {
            crate::laws::lemma_leave_preserves_inv(self.store.board(), mission_id, brawler_id);
        }
        match self.store.delete(mission_id, brawler_id) {
            Ok(()) => Ok(()),
            Err(DeleteError::NotMember) => Err(LeaveError::NotAMember),
            Err(DeleteError::Conflict) => Err(LeaveError::NotLeavable),
            Err(DeleteError::Unavailable) => Err(LeaveError::StorageUnavailable),
        }
    }
}

} // verus!
