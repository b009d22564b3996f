use vstd::prelude::*;

verus! {

/// A brawler's mission counts, as shown on their profile.
#[derive(Clone, Copy, Debug, PartialEq, Eq, Structural)]
pub struct ProfileStats {
    /// Live missions the brawler posted as chief.
    pub created_count: i64,
    /// Missions the brawler crews.
    pub joined_count: i64,
    /// Live completed missions, as chief or as crew.
    pub completed_count: i64,
}

impl ProfileStats {
    /// Combines the counts read from storage; a completed mission counts
    /// once whether the brawler led it or crewed it.
    pub fn from_counts(
        created_count: i64,
        joined_count: i64,
        completed_as_chief: i64,
        completed_as_crew: i64,
    ) -> (r: ProfileStats)
        requires
            i64::MIN <= completed_as_chief + completed_as_crew <= i64::MAX,
        ensures
            r.created_count == created_count,
            r.joined_count == joined_count,
            r.completed_count == completed_as_chief + completed_as_crew,
    {
        ProfileStats { created_count, joined_count, completed_count: completed_as_chief + completed_as_crew }
    }
}

} // verus!
