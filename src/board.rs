use vstd::prelude::*;

use crate::model::{board_inv, mission_inv, MissionState};
use crate::status::MissionStatus;
use crate::store::{
    after_delete, after_insert, delete_result, insert_result, snapshot_of, CrewStore, DeleteError,
    InsertError, MissionSnapshot, StorageUnavailable,
};

verus! {

/// A mission as the lifecycle collaborator records it.
#[derive(Clone, Copy, Debug, PartialEq, Eq, Structural)]
struct MissionRecord {
    pub id: i32,
    pub chief_id: i32,
    pub status: MissionStatus,
    pub max_crew: i32,
    /// Soft-delete marker: a deleted mission is invisible to the engine.
    pub deleted: bool,
}

/// One mission and the brawlers that crew it.
struct MissionEntry {
    record: MissionRecord,
    crew: Vec<i32>,
}

/// Why a mission could not be posted.
#[derive(Clone, Copy, Debug, PartialEq, Eq, Structural)]
pub enum PostError {
    /// A mission with this id was posted before, deleted or not.
    DuplicateId,
    /// The crew limit is not positive.
    InvalidCapacity,
}

/// The abstract state of one stored mission.
spec fn entry_state(e: MissionEntry) -> MissionState {
    MissionState {
        chief_id: e.record.chief_id,
        status: e.record.status,
        max_crew: e.record.max_crew,
        crew: e.crew@.to_set(),
    }
}

spec fn live_at(es: Seq<MissionEntry>, i: int, m: i32) -> bool {
    0 <= i < es.len() && es[i].record.id == m && !es[i].record.deleted
}

/// Ids are unique, no membership row is repeated, and each mission's crew
/// respects its limit and excludes its chief.
spec fn entries_wf(es: Seq<MissionEntry>) -> bool {
    &&& forall|i: int, j: int|
        0 <= i < es.len() && 0 <= j < es.len() && i != j ==> #[trigger] es[i].record.id != #[trigger] es[j].record.id
    &&& forall|i: int|
        0 <= i < es.len() ==> (#[trigger] es[i]).crew@.no_duplicates() && mission_inv(entry_state(es[i]))
}

/// The live missions among `es`, by id.
spec fn entries_board(es: Seq<MissionEntry>) -> Map<i32, MissionState> {
    Map::new(
        |m: i32| exists|i: int| live_at(es, i, m),
        |m: i32| entry_state(es[choose|i: int| live_at(es, i, m)]),
    )
}

/// Every id among `es`, deleted or not.
spec fn entries_ids(es: Seq<MissionEntry>) -> Set<i32> {
    Set::new(|m: i32| exists|i: int| 0 <= i < es.len() && es[i].record.id == m)
}

proof fn lemma_board_at(es: Seq<MissionEntry>, i: int)
    requires
        entries_wf(es),
        0 <= i < es.len(),
    ensures
        entries_board(es).contains_key(es[i].record.id) == !es[i].record.deleted,
        !es[i].record.deleted ==> entries_board(es)[es[i].record.id] == entry_state(es[i]),
{
    let m = es[i].record.id;
    if !es[i].record.deleted {
        assert(live_at(es, i, m));
        let j = choose|j: int| live_at(es, j, m);
        assert(live_at(es, j, m));
        assert(j == i);
    } else {
        assert forall|j: int| !live_at(es, j, m) by {
            if 0 <= j < es.len() && j != i {
                assert(es[i].record.id != es[j].record.id);
            }
        }
    }
}

proof fn lemma_absent(es: Seq<MissionEntry>, m: i32)
    requires
        forall|i: int| 0 <= i < es.len() ==> es[i].record.id != m,
    ensures
        !entries_board(es).contains_key(m),
        !entries_ids(es).contains(m),
{
}

/// Replacing entry `i` by one with the same id changes only that mission.
proof fn lemma_board_update(es: Seq<MissionEntry>, i: int, e: MissionEntry)
    requires
        entries_wf(es),
        entries_wf(es.update(i, e)),
        0 <= i < es.len(),
        e.record.id == es[i].record.id,
    ensures
        entries_board(es.update(i, e)) == (if e.record.deleted {
            entries_board(es).remove(e.record.id)
        } else {
            entries_board(es).insert(e.record.id, entry_state(e))
        }),
        entries_ids(es.update(i, e)) == entries_ids(es),
{
    let es2 = es.update(i, e);
    let m = e.record.id;
    let want = if e.record.deleted {
        entries_board(es).remove(m)
    } else {
        entries_board(es).insert(m, entry_state(e))
    };
    lemma_board_at(es2, i);
    assert forall|k: i32| #[trigger] entries_board(es2).contains_key(k) == want.contains_key(k) by {
        if k != m {
            if entries_board(es2).contains_key(k) {
                let j = choose|j: int| live_at(es2, j, k);
                assert(live_at(es2, j, k));
                assert(j != i);
                assert(live_at(es, j, k));
            }
            if entries_board(es).contains_key(k) {
                let j = choose|j: int| live_at(es, j, k);
                assert(live_at(es, j, k));
                assert(j != i);
                assert(live_at(es2, j, k));
            }
        }
    }
    assert forall|k: i32| #[trigger] entries_board(es2).contains_key(k) implies entries_board(es2)[k] == want[k] by {
        if k != m {
            let j = choose|j: int| live_at(es2, j, k);
            assert(live_at(es2, j, k));
            lemma_board_at(es2, j);
            lemma_board_at(es, j);
        }
    }
    assert(entries_board(es2) =~= want);
    assert forall|k: i32| #[trigger] entries_ids(es2).contains(k) == entries_ids(es).contains(k) by {
        if entries_ids(es2).contains(k) {
            let j = choose|j: int| 0 <= j < es2.len() && es2[j].record.id == k;
            assert(0 <= j < es.len() && es[j].record.id == k);
        }
        if entries_ids(es).contains(k) {
            let j = choose|j: int| 0 <= j < es.len() && es[j].record.id == k;
            assert(0 <= j < es2.len() && es2[j].record.id == k);
        }
    }
    assert(entries_ids(es2) =~= entries_ids(es));
}

/// Appending a live entry with a fresh id adds exactly that mission.
proof fn lemma_board_push(es: Seq<MissionEntry>, e: MissionEntry)
    requires
        entries_wf(es),
        entries_wf(es.push(e)),
        !e.record.deleted,
    ensures
        entries_board(es.push(e)) == entries_board(es).insert(e.record.id, entry_state(e)),
        entries_ids(es.push(e)) == entries_ids(es).insert(e.record.id),
{
    let es2 = es.push(e);
    let m = e.record.id;
    let want = entries_board(es).insert(m, entry_state(e));
    let n = es.len() as int;
    lemma_board_at(es2, n);
    assert forall|k: i32| #[trigger] entries_board(es2).contains_key(k) == want.contains_key(k) by {
        if k != m {
            if entries_board(es2).contains_key(k) {
                let j = choose|j: int| live_at(es2, j, k);
                assert(live_at(es2, j, k));
                assert(live_at(es, j, k));
            }
            if entries_board(es).contains_key(k) {
                let j = choose|j: int| live_at(es, j, k);
                assert(live_at(es, j, k));
                assert(live_at(es2, j, k));
            }
        }
    }
    assert forall|k: i32| #[trigger] entries_board(es2).contains_key(k) implies entries_board(es2)[k] == want[k] by {
        if k != m {
            let j = choose|j: int| live_at(es2, j, k);
            assert(live_at(es2, j, k));
            lemma_board_at(es2, j);
            lemma_board_at(es, j);
        }
    }
    assert(entries_board(es2) =~= want);
    assert forall|k: i32| #[trigger] entries_ids(es2).contains(k) == entries_ids(es).insert(m).contains(k) by {
        if entries_ids(es2).contains(k) && k != m {
            let j = choose|j: int| 0 <= j < es2.len() && es2[j].record.id == k;
            assert(0 <= j < es.len() && es[j].record.id == k);
        }
        if entries_ids(es).contains(k) {
            let j = choose|j: int| 0 <= j < es.len() && es[j].record.id == k;
            assert(0 <= j < es2.len() && es2[j].record.id == k);
        }
        if k == m {
            assert(0 <= n < es2.len() && es2[n].record.id == k);
        }
    }
    assert(entries_ids(es2) =~= entries_ids(es).insert(m));
}

/// The position of `b` in `crew`, if any.
fn crew_position(crew: &Vec<i32>, b: i32) -> (r: Option<usize>)
    ensures
        match r {
            Some(j) => j < crew@.len() && crew@[j as int] == b,
            None => !crew@.contains(b),
        },
{
    let mut j: usize = 0;
    while j < crew.len()
        invariant
            j <= crew@.len(),
            forall|k: int| 0 <= k < j ==> crew@[k] != b,
        decreases crew@.len() - j,
    {
        if crew[j] == b {
            return Some(j);
        }
        j = j + 1;
    }
    None
}

/// An in-memory crew store. Each operation runs under `&mut self`, so it is
/// atomic: no other request can interleave between its check and its write.
pub struct CrewBoard {
    entries: Vec<MissionEntry>,
}

impl CrewBoard {
    #[verifier::type_invariant]
    spec fn wf(self) -> bool {
        entries_wf(self.entries@)
    }

    /// Every id ever posted, deleted missions included.
    pub closed spec fn ids(&self) -> Set<i32> {
        entries_ids(self.entries@)
    }

    /// An empty board.
    pub fn new() -> (r: Self)
        ensures
            r.board() == Map::<i32, MissionState>::empty(),
            board_inv(r.board()),
            r.ids() == Set::<i32>::empty(),
    {
        let r = CrewBoard { entries: Vec::new() };
        assert(entries_board(r.entries@) =~= Map::<i32, MissionState>::empty());
        assert(entries_ids(r.entries@) =~= Set::<i32>::empty());
        r
    }

    /// Posts a new mission with an empty crew.
    pub fn post_mission(&mut self, id: i32, chief_id: i32, status: MissionStatus, max_crew: i32) -> (r: Result<
        (),
        PostError,
    >)
        ensures
            r == (if max_crew <= 0 {
                Err(PostError::InvalidCapacity)
            } else if old(self).ids().contains(id) {
                Err(PostError::DuplicateId)
            } else {
                Ok::<(), PostError>(())
            }),
            r is Ok ==> final(self).board() == old(self).board().insert(
                id,
                (MissionState { chief_id, status, max_crew, crew: Set::empty() }),
            ) && final(self).ids() == old(self).ids().insert(id),
            r is Err ==> final(self).board() == old(self).board() && final(self).ids() == old(self).ids(),
            board_inv(final(self).board()),
    {
        proof {
            use_type_invariant(&*self);
        }
        let ghost es0 = self.entries@;
        if max_crew <= 0 {
            return Err(PostError::InvalidCapacity);
        }
        match self.find(id) {
            Some(i) => {
                proof {
                    assert(0 <= i < es0.len() && es0[i as int].record.id == id);
                }
                return Err(PostError::DuplicateId);
            },
            None => {
                proof {
                    lemma_absent(es0, id);
                }
            },
        }
        let e = MissionEntry {
            record: MissionRecord { id, chief_id, status, max_crew, deleted: false },
            crew: Vec::new(),
        };
        proof {
            assert(e.crew@.to_set() =~= Set::<i32>::empty());
            let es1 = es0.push(e);
            assert forall|p: int, q: int|
                0 <= p < es1.len() && 0 <= q < es1.len() && p != q implies #[trigger] es1[p].record.id
                != #[trigger] es1[q].record.id by {
                if p < es0.len() && q < es0.len() {
                    assert(es0[p].record.id != es0[q].record.id);
                }
            }
            assert(entries_wf(es1));
            lemma_board_push(es0, e);
        }
        let mut entries = self.take_entries();
        entries.push(e);
        self.entries = entries;
        Ok(())
    }

    /// Sets the status of a live mission; false when there is none.
    pub fn set_status(&mut self, id: i32, status: MissionStatus) -> (r: bool)
        ensures
            r == old(self).board().contains_key(id),
            final(self).board() == (if r {
                old(self).board().insert(id, MissionState { status, ..old(self).board()[id] })
            } else {
                old(self).board()
            }),
            final(self).ids() == old(self).ids(),
            board_inv(final(self).board()),
    {
        proof {
            use_type_invariant(&*self);
        }
        let ghost es0 = self.entries@;
        let i = match self.find(id) {
            None => {
                proof {
                    lemma_absent(es0, id);
                }
                return false;
            },
            Some(i) => i,
        };
        proof {
            lemma_board_at(es0, i as int);
        }
        if self.entries[i].record.deleted {
            return false;
        }
        let mut entries = self.take_entries();
        entries[i].record.status = status;
        proof {
            assert(entries@ == es0.update(i as int, entries@[i as int]));
            assert(entries_wf(entries@)) by {
                assert forall|p: int, q: int|
                    0 <= p < entries@.len() && 0 <= q < entries@.len() && p != q implies #[trigger] entries@[p].record.id
                    != #[trigger] entries@[q].record.id by {
                    assert(es0[p].record.id != es0[q].record.id);
                }
                assert forall|p: int| 0 <= p < entries@.len() implies (#[trigger] entries@[p]).crew@.no_duplicates()
                    && mission_inv(entry_state(entries@[p])) by {
                    assert(mission_inv(entry_state(es0[p])));
                }
            }
            lemma_board_update(es0, i as int, entries@[i as int]);
        }
        self.entries = entries;
        true
    }

    /// Soft-deletes a live mission; false when there is none.
    pub fn soft_delete(&mut self, id: i32) -> (r: bool)
        ensures
            r == old(self).board().contains_key(id),
            final(self).board() == old(self).board().remove(id),
            final(self).ids() == old(self).ids(),
            board_inv(final(self).board()),
    {
        proof {
            use_type_invariant(&*self);
        }
        let ghost es0 = self.entries@;
        let i = match self.find(id) {
            None => {
                proof {
                    lemma_absent(es0, id);
                    assert(entries_board(es0).remove(id) =~= entries_board(es0));
                }
                return false;
            },
            Some(i) => i,
        };
        proof {
            lemma_board_at(es0, i as int);
        }
        if self.entries[i].record.deleted {
            proof {
                assert(entries_board(es0).remove(id) =~= entries_board(es0));
            }
            return false;
        }
        let mut entries = self.take_entries();
        entries[i].record.deleted = true;
        proof {
            assert(entries@ == es0.update(i as int, entries@[i as int]));
            assert(entries_wf(entries@)) by {
                assert forall|p: int, q: int|
                    0 <= p < entries@.len() && 0 <= q < entries@.len() && p != q implies #[trigger] entries@[p].record.id
                    != #[trigger] entries@[q].record.id by {
                    assert(es0[p].record.id != es0[q].record.id);
                }
                assert forall|p: int| 0 <= p < entries@.len() implies (#[trigger] entries@[p]).crew@.no_duplicates()
                    && mission_inv(entry_state(entries@[p])) by {
                    assert(mission_inv(entry_state(es0[p])));
                }
            }
            lemma_board_update(es0, i as int, entries@[i as int]);
        }
        self.entries = entries;
        true
    }

    /// The crew size of a live mission; 0 when there is none.
    pub fn count(&self, id: i32) -> (r: usize)
        ensures
            r == (if self.board().contains_key(id) {
                self.board()[id].crew.len()
            } else {
                0
            }),
    {
        proof {
            use_type_invariant(self);
        }
        match self.find(id) {
            None => {
                proof {
                    lemma_absent(self.entries@, id);
                }
                0
            },
            Some(i) => {
                proof {
                    lemma_board_at(self.entries@, i as int);
                    self.entries@[i as int].crew@.unique_seq_to_set();
                }
                if self.entries[i].record.deleted {
                    0
                } else {
                    self.entries[i].crew.len()
                }
            },
        }
    }

    /// Moves the entries out, leaving an empty board behind until they are
    /// put back.
    fn take_entries(&mut self) -> (r: Vec<MissionEntry>)
        ensures
            r@ == old(self).entries@,
    {
        let mut r: Vec<MissionEntry> = Vec::new();
        std::mem::swap(&mut self.entries, &mut r);
        r
    }

    /// The position of mission `id`, deleted or not.
    fn find(&self, id: i32) -> (r: Option<usize>)
        ensures
            match r {
                Some(i) => i < self.entries@.len() && self.entries@[i as int].record.id == id,
                None => forall|i: int| 0 <= i < self.entries@.len() ==> self.entries@[i].record.id != id,
            },
    {
        let mut i: usize = 0;
        while i < self.entries.len()
            invariant
                i <= self.entries@.len(),
                forall|k: int| 0 <= k < i ==> self.entries@[k].record.id != id,
            decreases self.entries@.len() - i,
        {
            if self.entries[i].record.id == id {
                return Some(i);
            }
            i = i + 1;
        }
        None
    }
}

impl CrewStore for CrewBoard {
    closed spec fn board(&self) -> Map<i32, MissionState> {
        entries_board(self.entries@)
    }

    open spec fn always_available() -> bool {
        true
    }

    fn fetch(&self, mission_id: i32) -> (r: Result<Option<MissionSnapshot>, StorageUnavailable>) {
        proof {
            use_type_invariant(self);
        }
        match self.find(mission_id) {
            None => {
                proof {
                    lemma_absent(self.entries@, mission_id);
                }
                Ok(None)
            },
            Some(i) => {
                proof {
                    lemma_board_at(self.entries@, i as int);
                }
                let rec = self.entries[i].record;
                if rec.deleted {
                    Ok(None)
                } else {
                    proof {
                        self.entries@[i as int].crew@.unique_seq_to_set();
                    }
                    let n = self.entries[i].crew.len();
                    Ok(
                        Some(
                            MissionSnapshot {
                                id: rec.id,
                                chief_id: rec.chief_id,
                                status: rec.status,
                                max_crew: rec.max_crew,
                                crew_count: n as i64,
                            },
                        ),
                    )
                }
            },
        }
    }

    fn is_crew_member(&self, mission_id: i32, brawler_id: i32) -> (r: Result<bool, StorageUnavailable>) {
        proof {
            use_type_invariant(self);
        }
        match self.find(mission_id) {
            None => {
                proof {
                    lemma_absent(self.entries@, mission_id);
                }
                Ok(false)
            },
            Some(i) => {
                proof {
                    lemma_board_at(self.entries@, i as int);
                }
                if self.entries[i].record.deleted {
                    Ok(false)
                } else {
                    let found = crew_position(&self.entries[i].crew, brawler_id);
                    Ok(found.is_some())
                }
            },
        }
    }

    fn insert(&mut self, mission_id: i32, brawler_id: i32) -> (r: Result<(), InsertError>) {
        proof {
            use_type_invariant(&*self);
        }
        let ghost es0 = self.entries@;
        let i = match self.find(mission_id) {
            None => {
                proof {
                    lemma_absent(es0, mission_id);
                }
                return Err(InsertError::Conflict);
            },
            Some(i) => i,
        };
        proof {
            lemma_board_at(es0, i as int);
        }
        let rec = self.entries[i].record;
        if rec.deleted || !rec.status.is_open() || brawler_id == rec.chief_id {
            return Err(InsertError::Conflict);
        }
        if crew_position(&self.entries[i].crew, brawler_id).is_some() {
            return Err(InsertError::AlreadyMember);
        }
        let ghost crew0 = es0[i as int].crew@;
        proof {
            crew0.unique_seq_to_set();
        }
        if self.entries[i].crew.len() >= rec.max_crew as usize {
            return Err(InsertError::CapacityExceeded);
        }
        proof {
            let c1 = crew0.push(brawler_id);
            assert forall|p: int, q: int| 0 <= p < c1.len() && 0 <= q < c1.len() && p != q implies c1[p]
                != c1[q] by {
                if q == crew0.len() {
                    assert(crew0.contains(crew0[p]));
                } else if p == crew0.len() {
                    assert(crew0.contains(crew0[q]));
                }
            }
            assert(c1.no_duplicates());
            c1.unique_seq_to_set();
            crew0.lemma_push_to_set_commute(brawler_id);
        }
        let mut entries = self.take_entries();
        entries[i].crew.push(brawler_id);
        proof {
            assert(entries@ == es0.update(i as int, entries@[i as int]));
            lemma_board_update(es0, i as int, entries@[i as int]);
        }
        self.entries = entries;
        Ok(())
    }

    fn delete(&mut self, mission_id: i32, brawler_id: i32) -> (r: Result<(), DeleteError>) {
        proof {
            use_type_invariant(&*self);
        }
        let ghost es0 = self.entries@;
        let i = match self.find(mission_id) {
            None => {
                proof {
                    lemma_absent(es0, mission_id);
                }
                return Err(DeleteError::Conflict);
            },
            Some(i) => i,
        };
        proof {
            lemma_board_at(es0, i as int);
        }
        let rec = self.entries[i].record;
        if rec.deleted || !rec.status.is_open() {
            return Err(DeleteError::Conflict);
        }
        let j = match crew_position(&self.entries[i].crew, brawler_id) {
            None => {
                return Err(DeleteError::NotMember);
            },
            Some(j) => j,
        };
        let ghost crew0 = es0[i as int].crew@;
        proof {
            let c1 = crew0.remove(j as int);
            assert forall|p: int, q: int| 0 <= p < c1.len() && 0 <= q < c1.len() && p != q implies c1[p]
                != c1[q] by {
                let p0 = if p < j { p } else { p + 1 };
                let q0 = if q < j { q } else { q + 1 };
                assert(c1[p] == crew0[p0] && c1[q] == crew0[q0]);
            }
            assert(c1.no_duplicates());
            c1.unique_seq_to_set();
            crew0.unique_seq_to_set();
            assert forall|x: i32| #[trigger] c1.to_set().contains(x) == crew0.to_set().remove(brawler_id).contains(
                x,
            ) by {
                if c1.contains(x) {
                    let p = choose|p: int| 0 <= p < c1.len() && c1[p] == x;
                    let p0 = if p < j { p } else { p + 1 };
                    assert(c1[p] == crew0[p0]);
                    assert(crew0.contains(x));
                }
                if crew0.contains(x) && x != brawler_id {
                    let k = choose|k: int| 0 <= k < crew0.len() && crew0[k] == x;
                    assert(k != j);
                    let k1 = if k < j { k } else { k - 1 };
                    assert(c1[k1] == x);
                    assert(c1.contains(x));
                }
            }
            assert(c1.to_set() =~= crew0.to_set().remove(brawler_id));
        }
        let mut entries = self.take_entries();
        entries[i].crew.remove(j);
        proof {
            assert(entries@ == es0.update(i as int, entries@[i as int]));
            lemma_board_update(es0, i as int, entries@[i as int]);
        }
        self.entries = entries;
        Ok(())
    }
}

} // verus!
