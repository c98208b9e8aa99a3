//! What the persistence gateway writes: contribution counts are upserted on
//! the natural key (repository, identity), replacing rather than adding up.

use vstd::prelude::*;

verus! {

/// A contributor as read back from the store, with its count for one
/// repository.
pub struct ContributorDetail {
    pub id: i64,
    pub login: String,
    pub name: Option<String>,
    pub contributions: i32,
    pub location: Option<String>,
}

/// The write that brings a stored contribution count to a fetched one.
#[derive(Debug, PartialEq, Eq, Structural)]
pub enum ContributionWrite {
    /// No record for the pair yet: create one.
    Insert { contributions: i32 },
    /// A record with another count: replace the count.
    Update { from: i32, to: i32 },
    /// The record already holds the count.
    Unchanged,
}

/// The write for a pair whose stored count is `existing`, if any.
pub open spec fn contribution_write_for(existing: Option<i32>, contributions: i32) -> ContributionWrite {
    match existing {
        None => ContributionWrite::Insert { contributions },
        Some(c) => if c == contributions {
            ContributionWrite::Unchanged
        } else {
            ContributionWrite::Update { from: c, to: contributions }
        },
    }
}

/// Decides how to store a fetched count against the stored one.
pub fn plan_contribution_write(existing: Option<i32>, contributions: i32) -> (r: ContributionWrite)
    ensures
        r == contribution_write_for(existing, contributions),
{
    match existing {
        None => ContributionWrite::Insert { contributions },
        Some(c) => {
            if c == contributions {
                ContributionWrite::Unchanged
            } else {
                ContributionWrite::Update { from: c, to: contributions }
            }
        },
    }
}

/// The contribution table, keyed by (repository, identity), after a write.
pub open spec fn apply_contribution_write(
    table: Map<(int, int), i32>,
    key: (int, int),
    w: ContributionWrite,
) -> Map<(int, int), i32> {
    match w {
        ContributionWrite::Insert { contributions } => table.insert(key, contributions),
        ContributionWrite::Update { from: _, to } => table.insert(key, to),
        ContributionWrite::Unchanged => table,
    }
}

/// The table after storing `contributions` for `key`.
pub open spec fn upsert_contribution(table: Map<(int, int), i32>, key: (int, int), contributions: i32) -> Map<
    (int, int),
    i32,
> {
    let existing = if table.contains_key(key) { Some(table[key]) } else { None };
    apply_contribution_write(table, key, contribution_write_for(existing, contributions))
}

/// Storing a count sets that pair's count and leaves every other pair as
/// it was.
pub proof fn law_upsert_sets_count(table: Map<(int, int), i32>, key: (int, int), contributions: i32)
    ensures
        upsert_contribution(table, key, contributions).contains_key(key),
        upsert_contribution(table, key, contributions)[key] == contributions,
        upsert_contribution(table, key, contributions).remove(key) == table.remove(key),
{
    assert(upsert_contribution(table, key, contributions).remove(key) =~= table.remove(key));
}

/// Storing the same count twice has the effect of storing it once; storing
/// another count replaces the first rather than adding to it.
pub proof fn law_upsert_idempotent_and_replacing(
    table: Map<(int, int), i32>,
    key: (int, int),
    first: i32,
    second: i32,
)
    ensures
        upsert_contribution(upsert_contribution(table, key, first), key, first) == upsert_contribution(
            table,
            key,
            first,
        ),
        upsert_contribution(upsert_contribution(table, key, first), key, second) == upsert_contribution(
            table,
            key,
            second,
        ),
        upsert_contribution(upsert_contribution(table, key, first), key, second)[key] == second,
{
    let once = upsert_contribution(table, key, first);
    assert(once.contains_key(key) && once[key] == first);
    assert(upsert_contribution(once, key, first) =~= once);
    assert(upsert_contribution(once, key, second) =~= upsert_contribution(table, key, second));
}

} // verus!
