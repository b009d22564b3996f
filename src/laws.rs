use vstd::prelude::*;

use crate::model::{after_join, after_leave, board_inv, join_result, leave_result, mission_inv, MissionState};
use crate::status::{JoinError, LeaveError, MissionStatus};

verus! {

/// The outcomes of a run of join requests for mission `m`, taken one after
/// the other. Concurrent requests are serialised by the store's atomic
/// insert, so every concurrent execution is one such run.
pub open spec fn join_run(board: Map<i32, MissionState>, m: i32, bs: Seq<i32>) -> Seq<Result<(), JoinError>>
    decreases bs.len(),
{
    if bs.len() == 0 {
        Seq::empty()
    } else {
        seq![join_result(board, m, bs[0])] + join_run(after_join(board, m, bs[0]), m, bs.drop_first())
    }
}

/// The board after a run of join requests for mission `m`.
pub open spec fn board_after_joins(board: Map<i32, MissionState>, m: i32, bs: Seq<i32>) -> Map<i32, MissionState>
    decreases bs.len(),
{
    if bs.len() == 0 {
        board
    } else {
        board_after_joins(after_join(board, m, bs[0]), m, bs.drop_first())
    }
}

/// How many of the outcomes are successes.
pub open spec fn successes(rs: Seq<Result<(), JoinError>>) -> nat
    decreases rs.len(),
{
    if rs.len() == 0 {
        0
    } else {
        (if rs[0] is Ok { 1nat } else { 0nat }) + successes(rs.drop_first())
    }
}

/// A join keeps every invariant of the board: capacity, uniqueness of
/// membership, and a chief never crewing their own mission.
pub proof fn lemma_join_preserves_inv(board: Map<i32, MissionState>, m: i32, b: i32)
    requires
        board_inv(board),
    ensures
        board_inv(after_join(board, m, b)),
        after_join(board, m, b).dom() == board.dom(),
{
    if join_result(board, m, b) is Ok {
        let nb = after_join(board, m, b);
        assert(board_inv(nb)) by {
            assert forall|k: i32| #[trigger] nb.contains_key(k) implies mission_inv(nb[k]) by {
                if k == m {
                    assert(board.contains_key(m));
                    assert(mission_inv(board[m]));
                }
            }
        }
        assert(nb.dom() =~= board.dom());
    }
}

/// A leave keeps every invariant of the board.
pub proof fn lemma_leave_preserves_inv(board: Map<i32, MissionState>, m: i32, b: i32)
    requires
        board_inv(board),
    ensures
        board_inv(after_leave(board, m, b)),
        after_leave(board, m, b).dom() == board.dom(),
{
    if leave_result(board, m, b) is Ok {
        let nb = after_leave(board, m, b);
        assert(board_inv(nb)) by {
            assert forall|k: i32| #[trigger] nb.contains_key(k) implies mission_inv(nb[k]) by {
                if k == m {
                    assert(board.contains_key(m));
                    assert(mission_inv(board[m]));
                }
            }
        }
        assert(nb.dom() =~= board.dom());
    }
}

/// A chief's request to join their own mission always fails with
/// `SelfJoinForbidden`, whatever the mission's status and crew.
pub proof fn lemma_chief_cannot_join(board: Map<i32, MissionState>, m: i32)
    requires
        board.contains_key(m),
    ensures
        join_result(board, m, board[m].chief_id) == Err::<(), JoinError>(JoinError::SelfJoinForbidden),
        after_join(board, m, board[m].chief_id) == board,
{
}

/// A leave from a mission that is not open always fails with `NotLeavable`,
/// even for a current member, and changes nothing.
pub proof fn lemma_closed_mission_not_leavable(board: Map<i32, MissionState>, m: i32, b: i32)
    requires
        board.contains_key(m),
        board[m].status != MissionStatus::Open,
    ensures
        leave_result(board, m, b) == Err::<(), LeaveError>(LeaveError::NotLeavable),
        after_leave(board, m, b) == board,
{
}

/// Once a join of `b` has succeeded, another join of `b` fails with
/// `AlreadyMember` and leaves the board as it is: no second membership.
pub proof fn lemma_second_join_rejected(board: Map<i32, MissionState>, m: i32, b: i32)
    requires
        board_inv(board),
        join_result(board, m, b) is Ok,
    ensures
        join_result(after_join(board, m, b), m, b) == Err::<(), JoinError>(JoinError::AlreadyMember),
        after_join(after_join(board, m, b), m, b) == after_join(board, m, b),
{
}

/// Join, then leave, then join again all succeed, and the leave undoes the
/// first join exactly: nothing left behind blocks a new join.
pub proof fn lemma_join_leave_join(board: Map<i32, MissionState>, m: i32, b: i32)
    requires
        board_inv(board),
        join_result(board, m, b) is Ok,
    ensures
        leave_result(after_join(board, m, b), m, b) is Ok,
        after_leave(after_join(board, m, b), m, b) == board,
        join_result(after_leave(after_join(board, m, b), m, b), m, b) is Ok,
{
    let b1 = after_join(board, m, b);
    let s = board[m];
    assert(s.crew.insert(b).remove(b) =~= s.crew);
    let b2 = after_leave(b1, m, b);
    assert(b2[m] == s);
    assert(b2 =~= board);
}

/// A run of join requests yields one outcome per request.
pub proof fn lemma_join_run_len(board: Map<i32, MissionState>, m: i32, bs: Seq<i32>)
    ensures
        join_run(board, m, bs).len() == bs.len(),
    decreases bs.len(),
{
    if bs.len() > 0 {
        lemma_join_run_len(after_join(board, m, bs[0]), m, bs.drop_first());
    }
}

/// However many join requests arrive for mission `m`, and in whatever order
/// the store serialises them, successes never take its crew past
/// `max_crew`. On an open mission, every request that is not the chief's
/// either succeeds or fails with `MissionFull` or `AlreadyMember`.
pub proof fn lemma_joins_within_capacity(board: Map<i32, MissionState>, m: i32, bs: Seq<i32>)
    requires
        board_inv(board),
        board.contains_key(m),
    ensures
        join_run(board, m, bs).len() == bs.len(),
        successes(join_run(board, m, bs)) + board[m].crew.len() <= board[m].max_crew,
        board_after_joins(board, m, bs)[m].crew.len() == board[m].crew.len() + successes(join_run(board, m, bs)),
        board[m].status == MissionStatus::Open && (forall|i: int| 0 <= i < bs.len() ==> bs[i] != board[m].chief_id)
            ==> forall|i: int| 0 <= i < bs.len() ==> {
            let r = #[trigger] join_run(board, m, bs)[i];
            r is Ok || r == Err::<(), JoinError>(JoinError::MissionFull) || r == Err::<(), JoinError>(JoinError::AlreadyMember)
        },
    decreases bs.len(),
{
    lemma_join_run_len(board, m, bs);
    if bs.len() > 0 {
        let b0 = bs[0];
        let nb = after_join(board, m, b0);
        let rest = bs.drop_first();
        lemma_join_preserves_inv(board, m, b0);
        assert(mission_inv(board[m]));
        assert(nb.contains_key(m));
        assert(nb[m].chief_id == board[m].chief_id);
        assert(forall|i: int| 0 <= i < rest.len() ==> rest[i] == bs[i + 1]);
        lemma_joins_within_capacity(nb, m, rest);
        let rs = join_run(board, m, bs);
        let tail = join_run(nb, m, rest);
        assert(rs == seq![join_result(board, m, b0)] + tail);
        assert(rs.drop_first() =~= tail);
        if join_result(board, m, b0) is Ok {
            assert(!board[m].crew.contains(b0));
            assert(nb[m].crew.len() == board[m].crew.len() + 1);
        }
        if board[m].status == MissionStatus::Open && (forall|i: int| 0 <= i < bs.len() ==> bs[i] != board[m].chief_id) {
            assert forall|i: int| 0 <= i < bs.len() implies {
                let r = #[trigger] join_run(board, m, bs)[i];
                r is Ok || r == Err::<(), JoinError>(JoinError::MissionFull) || r == Err::<(), JoinError>(JoinError::AlreadyMember)
            } by {
                if i > 0 {
                    assert(rs[i] == tail[i - 1]);
                }
            }
        }
    }
}

/// While `b` crews mission `m`, every further join of `b` fails with
/// `AlreadyMember`.
proof fn lemma_member_stays(board: Map<i32, MissionState>, m: i32, bs: Seq<i32>, b: i32)
    requires
        board_inv(board),
        board.contains_key(m),
        board[m].crew.contains(b),
    ensures
        forall|j: int| 0 <= j < bs.len() && bs[j] == b ==> #[trigger] join_run(board, m, bs)[j]
            == Err::<(), JoinError>(JoinError::AlreadyMember),
    decreases bs.len(),
{
    lemma_join_run_len(board, m, bs);
    if bs.len() > 0 {
        let nb = after_join(board, m, bs[0]);
        let rest = bs.drop_first();
        lemma_join_preserves_inv(board, m, bs[0]);
        assert(mission_inv(board[m]));
        assert(nb[m].crew.contains(b));
        lemma_member_stays(nb, m, rest, b);
        let rs = join_run(board, m, bs);
        let tail = join_run(nb, m, rest);
        assert forall|j: int| 0 <= j < bs.len() && bs[j] == b implies #[trigger] join_run(board, m, bs)[j]
            == Err::<(), JoinError>(JoinError::AlreadyMember) by {
            if j > 0 {
                assert(rest[j - 1] == bs[j]);
                assert(rs[j] == tail[j - 1]);
            }
        }
    }
}

/// In any run of join requests without a leave between them, at most one
/// join of a given brawler succeeds: after a success, each later join of
/// the same brawler fails with `AlreadyMember`.
pub proof fn lemma_one_success_per_brawler(board: Map<i32, MissionState>, m: i32, bs: Seq<i32>, b: i32)
    requires
        board_inv(board),
    ensures
        forall|i: int, j: int|
            0 <= i < j < bs.len() && bs[i] == b && bs[j] == b && (#[trigger] join_run(board, m, bs)[i]) is Ok
                ==> #[trigger] join_run(board, m, bs)[j] == Err::<(), JoinError>(JoinError::AlreadyMember),
    decreases bs.len(),
{
    lemma_join_run_len(board, m, bs);
    if bs.len() > 0 {
        let nb = after_join(board, m, bs[0]);
        let rest = bs.drop_first();
        lemma_join_preserves_inv(board, m, bs[0]);
        lemma_one_success_per_brawler(nb, m, rest, b);
        let rs = join_run(board, m, bs);
        let tail = join_run(nb, m, rest);
        if bs[0] == b && join_result(board, m, b) is Ok {
            lemma_member_stays(nb, m, rest, b);
        }
        assert forall|i: int, j: int|
            0 <= i < j < bs.len() && bs[i] == b && bs[j] == b && (#[trigger] join_run(board, m, bs)[i]) is Ok
                implies #[trigger] join_run(board, m, bs)[j] == Err::<(), JoinError>(JoinError::AlreadyMember) by {
            assert(rest[j - 1] == bs[j]);
            assert(rs[j] == tail[j - 1]);
            if i > 0 {
                assert(rest[i - 1] == bs[i]);
                assert(rs[i] == tail[i - 1]);
            }
        }
    }
}

} // verus!
