use crew_admission::ProfileStats;

#[test]
fn completed_counts_add_chief_and_crew() {
    let s = ProfileStats::from_counts(4, 7, 2, 3);
    assert_eq!(
        s,
        ProfileStats {
            created_count: 4,
            joined_count: 7,
            completed_count: 5,
        }
    );
}

#[test]
fn empty_profile_is_all_zero() {
    let s = ProfileStats::from_counts(0, 0, 0, 0);
    assert_eq!(s.created_count, 0);
    assert_eq!(s.joined_count, 0);
    assert_eq!(s.completed_count, 0);
}
