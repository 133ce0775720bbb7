//! Counters by bucket number, kept in a hash map with the Fx hasher.

use vstd::prelude::*;
use fxhash::FxHashMap;

verus! {

/// Makes the hasher of the `fxhash` crate known by name. Nothing is said
/// of what it holds.
#[verifier::external_type_specification]
#[verifier::external_body]
pub struct ExFxHasher(fxhash::FxHasher);

/// Makes the standard builder of default hashers known by name. Nothing
/// is said of what it holds.
#[verifier::external_type_specification]
#[verifier::external_body]
#[verifier::reject_recursive_types(H)]
pub struct ExBuildHasherDefault<H>(core::hash::BuildHasherDefault<H>);

/// The count that a map of counters holds for a bucket: zero for a bucket
/// that it has no entry for.
pub open spec fn count_at(counts: Map<i64, i64>, bucket: int) -> int {
    if i64::MIN <= bucket <= i64::MAX && counts.contains_key(bucket as i64) {
        counts[bucket as i64] as int
    } else {
        0
    }
}

/// Calls `FxHashMap::default`: a map without entries.
#[verifier::external_body]
pub(crate) fn counts_new() -> (res: FxHashMap<i64, i64>)
    ensures
        res@ == (Map::<i64, i64>::empty()),
{
    FxHashMap::default()
}

/// Calls `HashMap::get` on a map with the Fx hasher: the value stored
/// under `bucket`, if there is one.
#[verifier::external_body]
pub(crate) fn counts_get(counts: &FxHashMap<i64, i64>, bucket: i64) -> (found: Option<i64>)
    ensures
        found == (if counts@.contains_key(bucket) {
            Some(counts@[bucket])
        } else {
            None
        }),
{
    counts.get(&bucket).copied()
}

/// Calls `HashMap::insert` on a map with the Fx hasher: afterwards the map
/// holds `count` under `bucket` and is otherwise unchanged.
#[verifier::external_body]
pub(crate) fn counts_insert(counts: &mut FxHashMap<i64, i64>, bucket: i64, count: i64)
    ensures
        final(counts)@ == old(counts)@.insert(bucket, count),
{
    counts.insert(bucket, count);
}

/// The count stored for `bucket`, zero if none is.
pub fn count_of(counts: &FxHashMap<i64, i64>, bucket: i64) -> (count: i64)
    ensures
        count == count_at(counts@, bucket as int),
{
    match counts_get(counts, bucket) {
        Some(count) => count,
        None => 0,
    }
}

/// Adds one to the count stored for `bucket`.
pub fn bump(counts: &mut FxHashMap<i64, i64>, bucket: i64)
    requires
        count_at(old(counts)@, bucket as int) < i64::MAX,
    ensures
        count_at(final(counts)@, bucket as int) == count_at(old(counts)@, bucket as int) + 1,
        forall|other: int|
            other != bucket ==> count_at(final(counts)@, other) == count_at(old(counts)@, other),
{
    let before = count_of(counts, bucket);
    counts_insert(counts, bucket, before + 1);
}

} // verus!
