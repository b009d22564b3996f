use crew_admission::{
    CrewBoard, CrewOperationUseCase, CrewStore, DeleteError, InsertError, JoinError, LeaveError,
    MissionSnapshot, MissionStatus, PostError,
};

fn board_with(missions: &[(i32, i32, MissionStatus, i32)]) -> CrewOperationUseCase<CrewBoard> {
    let mut board = CrewBoard::new();
    for &(id, chief, status, max) in missions {
        assert_eq!(board.post_mission(id, chief, status, max), Ok(()));
    }
    CrewOperationUseCase::new(board)
}

#[test]
fn capacity_two_join_leave_rejoin() {
    let mut uc = board_with(&[(1, 99, MissionStatus::Open, 2)]);
    assert_eq!(uc.join(1, 10), Ok(()));
    assert_eq!(uc.store().count(1), 1);
    assert_eq!(uc.join(1, 11), Ok(()));
    assert_eq!(uc.store().count(1), 2);
    assert_eq!(uc.join(1, 12), Err(JoinError::MissionFull));
    assert_eq!(uc.store().count(1), 2);
    assert_eq!(uc.leave(1, 10), Ok(()));
    assert_eq!(uc.store().count(1), 1);
    assert_eq!(uc.join(1, 12), Ok(()));
    assert_eq!(uc.store().count(1), 2);
}

#[test]
fn chief_join_is_forbidden() {
    let mut uc = board_with(&[(2, 5, MissionStatus::Open, 3)]);
    assert_eq!(uc.join(2, 5), Err(JoinError::SelfJoinForbidden));
    assert_eq!(uc.store().count(2), 0);
}

#[test]
fn chief_join_forbidden_on_full_closed_mission() {
    let mut uc = board_with(&[(2, 5, MissionStatus::Open, 1)]);
    assert_eq!(uc.join(2, 6), Ok(()));
    let mut board = uc.into_store();
    assert!(board.set_status(2, MissionStatus::Completed));
    let mut uc = CrewOperationUseCase::new(board);
    assert_eq!(uc.join(2, 5), Err(JoinError::SelfJoinForbidden));
}

#[test]
fn completed_mission_rejects_join_and_leave() {
    let mut uc = board_with(&[(3, 1, MissionStatus::Completed, 4)]);
    assert_eq!(uc.join(3, 20), Err(JoinError::NotJoinable));
    assert_eq!(uc.leave(3, 20), Err(LeaveError::NotLeavable));
}

#[test]
fn member_cannot_leave_mission_in_progress() {
    let mut uc = board_with(&[(4, 1, MissionStatus::Open, 4)]);
    assert_eq!(uc.join(4, 30), Ok(()));
    let mut board = uc.into_store();
    assert!(board.set_status(4, MissionStatus::InProgress));
    let mut uc = CrewOperationUseCase::new(board);
    assert_eq!(uc.leave(4, 30), Err(LeaveError::NotLeavable));
    assert_eq!(uc.store().count(4), 1);
    let mut board = uc.into_store();
    assert!(board.set_status(4, MissionStatus::Cancelled));
    let mut uc = CrewOperationUseCase::new(board);
    assert_eq!(uc.leave(4, 30), Err(LeaveError::NotLeavable));
}

#[test]
fn join_leave_join_round_trip() {
    let mut uc = board_with(&[(5, 1, MissionStatus::Open, 1)]);
    assert_eq!(uc.join(5, 40), Ok(()));
    assert_eq!(uc.leave(5, 40), Ok(()));
    assert_eq!(uc.join(5, 40), Ok(()));
    assert_eq!(uc.store().count(5), 1);
}

#[test]
fn many_joins_never_exceed_capacity() {
    let mut uc = board_with(&[(6, 1, MissionStatus::Open, 3)]);
    let mut ok = 0;
    for b in 100..110 {
        match uc.join(6, b) {
            Ok(()) => ok += 1,
            Err(e) => assert_eq!(e, JoinError::MissionFull),
        }
    }
    assert_eq!(ok, 3);
    assert_eq!(uc.store().count(6), 3);
}

#[test]
fn repeated_join_of_one_brawler_succeeds_once() {
    let mut uc = board_with(&[(7, 1, MissionStatus::Open, 5)]);
    assert_eq!(uc.join(7, 50), Ok(()));
    assert_eq!(uc.join(7, 50), Err(JoinError::AlreadyMember));
    assert_eq!(uc.join(7, 50), Err(JoinError::AlreadyMember));
    assert_eq!(uc.store().count(7), 1);
}

#[test]
fn unknown_or_deleted_mission_is_not_found() {
    let mut uc = board_with(&[(8, 1, MissionStatus::Open, 2)]);
    assert_eq!(uc.join(9, 2), Err(JoinError::NotFound));
    assert_eq!(uc.leave(9, 2), Err(LeaveError::NotFound));
    assert_eq!(uc.join(8, 2), Ok(()));
    let mut board = uc.into_store();
    assert!(board.soft_delete(8));
    assert!(!board.soft_delete(8));
    assert!(!board.set_status(8, MissionStatus::Open));
    assert_eq!(board.count(8), 0);
    let mut uc = CrewOperationUseCase::new(board);
    assert_eq!(uc.join(8, 3), Err(JoinError::NotFound));
    assert_eq!(uc.leave(8, 2), Err(LeaveError::NotFound));
}

#[test]
fn leave_without_membership_is_not_a_member() {
    let mut uc = board_with(&[(10, 1, MissionStatus::Open, 2)]);
    assert_eq!(uc.leave(10, 2), Err(LeaveError::NotAMember));
    assert_eq!(uc.join(10, 2), Ok(()));
    assert_eq!(uc.leave(10, 2), Ok(()));
    assert_eq!(uc.leave(10, 2), Err(LeaveError::NotAMember));
}

#[test]
fn posting_rejects_duplicates_and_bad_capacity() {
    let mut board = CrewBoard::new();
    assert_eq!(board.post_mission(1, 1, MissionStatus::Open, 0), Err(PostError::InvalidCapacity));
    assert_eq!(board.post_mission(1, 1, MissionStatus::Open, -3), Err(PostError::InvalidCapacity));
    assert_eq!(board.post_mission(1, 1, MissionStatus::Open, 1), Ok(()));
    assert_eq!(board.post_mission(1, 2, MissionStatus::Open, 1), Err(PostError::DuplicateId));
    assert!(board.soft_delete(1));
    assert_eq!(board.post_mission(1, 2, MissionStatus::Open, 1), Err(PostError::DuplicateId));
}

#[test]
fn store_snapshot_reports_mission_and_count() {
    let mut board = CrewBoard::new();
    assert_eq!(board.post_mission(11, 3, MissionStatus::Open, 4), Ok(()));
    assert_eq!(board.insert(11, 7), Ok(()));
    assert_eq!(
        board.fetch(11),
        Ok(Some(MissionSnapshot {
            id: 11,
            chief_id: 3,
            status: MissionStatus::Open,
            max_crew: 4,
            crew_count: 1,
        }))
    );
    assert_eq!(board.fetch(12), Ok(None));
    assert_eq!(board.is_crew_member(11, 7), Ok(true));
    assert_eq!(board.is_crew_member(11, 8), Ok(false));
    assert_eq!(board.is_crew_member(12, 7), Ok(false));
}

#[test]
fn store_insert_rechecks_everything_atomically() {
    let mut board = CrewBoard::new();
    assert_eq!(board.post_mission(13, 3, MissionStatus::Open, 1), Ok(()));
    assert_eq!(board.insert(13, 3), Err(InsertError::Conflict));
    assert_eq!(board.insert(14, 1), Err(InsertError::Conflict));
    assert_eq!(board.insert(13, 4), Ok(()));
    assert_eq!(board.insert(13, 4), Err(InsertError::AlreadyMember));
    assert_eq!(board.insert(13, 5), Err(InsertError::CapacityExceeded));
    assert_eq!(board.count(13), 1);
    assert!(board.set_status(13, MissionStatus::Completed));
    assert_eq!(board.insert(13, 6), Err(InsertError::Conflict));
}

#[test]
fn store_delete_outcomes() {
    let mut board = CrewBoard::new();
    assert_eq!(board.post_mission(15, 3, MissionStatus::Open, 3), Ok(()));
    assert_eq!(board.insert(15, 4), Ok(()));
    assert_eq!(board.insert(15, 5), Ok(()));
    assert_eq!(board.delete(15, 6), Err(DeleteError::NotMember));
    assert_eq!(board.delete(16, 4), Err(DeleteError::Conflict));
    assert_eq!(board.delete(15, 4), Ok(()));
    assert_eq!(board.is_crew_member(15, 4), Ok(false));
    assert_eq!(board.is_crew_member(15, 5), Ok(true));
    assert_eq!(board.count(15), 1);
    assert!(board.set_status(15, MissionStatus::InProgress));
    assert_eq!(board.delete(15, 5), Err(DeleteError::Conflict));
}

#[test]
fn status_is_open_only_for_open() {
    assert!(MissionStatus::Open.is_open());
    assert!(!MissionStatus::InProgress.is_open());
    assert!(!MissionStatus::Completed.is_open());
    assert!(!MissionStatus::Cancelled.is_open());
}
