//! Schema-migration bookkeeping.
//!
//! Each migration has a version label. The contract records which versions
//! have run; a migration pass runs exactly the versions not yet recorded, in
//! order. Running a migration against the host's storage is the shell's
//! business; the decision which versions to run, and each migration's state
//! transform, live here.

pub mod migration_2024_12_03_001;
pub mod migration_2024_12_10_001;

use vstd::prelude::*;
use vstd::string::StringExecFns;

verus! {

/// The labels of all known migrations, oldest first.
pub open spec fn spec_all_versions() -> Seq<Seq<char>> {
    seq!["2024_12_03_001"@, "2024_12_10_001"@]
}

/// The versions not yet recorded in `run`, oldest first.
pub open spec fn spec_versions_to_run(run: Seq<Seq<char>>) -> Seq<Seq<char>> {
    let first = if crate::state::ordered::occurs(run, "2024_12_03_001"@) {
        Seq::<Seq<char>>::empty()
    } else {
        seq!["2024_12_03_001"@]
    };
    let second = if crate::state::ordered::occurs(run, "2024_12_10_001"@) {
        Seq::<Seq<char>>::empty()
    } else {
        seq!["2024_12_10_001"@]
    };
    first + second
}

/// Whether `needle` is one of the strings of `haystack`.
fn vec_contains_str(haystack: &Vec<String>, needle: &String) -> (r: bool)
    ensures
        r == crate::state::ordered::occurs(
            haystack@.map_values(|s: String| s@),
            needle@,
        ),
{
    let ghost m = haystack@.map_values(|s: String| s@);
    let mut i: usize = 0;
    while i < haystack.len()
        invariant
            i <= m.len(),
            m == haystack@.map_values(|s: String| s@),
            m.len() == haystack@.len(),
            forall|j: int| 0 <= j < i ==> m[j] != needle@,
        decreases haystack.len() - i,
    {
        if haystack[i] == *needle {
            proof {
                assert(m[i as int] == needle@);
                assert(crate::state::ordered::occurs(m, needle@));
            }
            return true;
        }
        i = i + 1;
    }
    false
}

/// The labels of all known migrations, oldest first.
pub fn all_migration_version() -> (r: Vec<String>)
    ensures
        r@.map_values(|s: String| s@) == spec_all_versions(),
{
    proof {
        reveal_strlit("2024_12_03_001");
        reveal_strlit("2024_12_10_001");
    }
    let mut r: Vec<String> = Vec::new();
    r.push(String::from_str("2024_12_03_001"));
    r.push(String::from_str("2024_12_10_001"));
    proof {
        assert(r@.map_values(|s: String| s@) =~= spec_all_versions());
    }
    r
}

/// The versions a migration pass must still run, given the versions already
/// recorded: exactly those not recorded, oldest first.
pub fn versions_to_run(schema_migration_versions: &Vec<String>) -> (r: Vec<String>)
    ensures
        r@.map_values(|s: String| s@) == spec_versions_to_run(
            schema_migration_versions@.map_values(|s: String| s@),
        ),
{
    proof {
        reveal_strlit("2024_12_03_001");
        reveal_strlit("2024_12_10_001");
    }
    let mut r: Vec<String> = Vec::new();
    let first = String::from_str("2024_12_03_001");
    let second = String::from_str("2024_12_10_001");
    if !vec_contains_str(schema_migration_versions, &first) {
        r.push(first);
    }
    if !vec_contains_str(schema_migration_versions, &second) {
        r.push(second);
    }
    proof {
        assert(r@.map_values(|s: String| s@) =~= spec_versions_to_run(
            schema_migration_versions@.map_values(|s: String| s@),
        ));
    }
    r
}

} // verus!
