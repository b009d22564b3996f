use vstd::prelude::*;

verus! {

/// Lifecycle status of a mission. Only `Open` admits joins and leaves.
#[derive(Clone, Copy, Debug, PartialEq, Eq, Structural)]
pub enum MissionStatus {
    Open,
    InProgress,
    Completed,
    Cancelled,
}

impl MissionStatus {
    /// True exactly for `Open`.
    pub fn is_open(&self) -> (r: bool)
        ensures
            r == (*self == MissionStatus::Open),
    {
        match self {
            MissionStatus::Open => true,
            _ => false,
        }
    }
}

/// Why a join request was refused.
#[derive(Clone, Copy, Debug, PartialEq, Eq, Structural)]
pub enum JoinError {
    /// The mission does not exist or was soft-deleted.
    NotFound,
    /// The brawler is the mission's chief.
    SelfJoinForbidden,
    /// The brawler already crews the mission.
    AlreadyMember,
    /// The mission is not open.
    NotJoinable,
    /// The mission already holds its full crew.
    MissionFull,
    /// The persistence layer failed transiently.
    StorageUnavailable,
}

/// Why a leave request was refused.
#[derive(Clone, Copy, Debug, PartialEq, Eq, Structural)]
pub enum LeaveError {
    /// The mission does not exist or was soft-deleted.
    NotFound,
    /// The mission is not open.
    NotLeavable,
    /// The brawler does not crew the mission.
    NotAMember,
    /// The persistence layer failed transiently.
    StorageUnavailable,
}

} // verus!
