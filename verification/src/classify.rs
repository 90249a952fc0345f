//! Fixed classifications of a few special set numbers: packs, unreleased
//! sets, and accessory sets. The membership lists are part of the library's
//! rules and are written out literally.
use vstd::prelude::*;
use crate::strutil::str_eq;

verus! {

/// Set numbers that stand for multi-set packs.
pub open spec fn spec_is_pack(k: Seq<char>) -> bool {
    ||| k == "1507-1"@
    ||| k == "1510-1"@
    ||| k == "1616-1"@
    ||| k == "1969-2"@
    ||| k == "1977-1"@
    ||| k == "1983-1"@
    ||| k == "1999-1"@
}

/// Set numbers of sets that were never released.
pub open spec fn spec_is_unreleased(k: Seq<char>) -> bool {
    k == "1526-1"@
}

/// Set numbers that stand for accessory collections.
pub open spec fn spec_is_accessories(k: Seq<char>) -> bool {
    k == "6921-1"@
}

/// Whether the set number names a multi-set pack.
pub fn is_pack(key: &str) -> (r: bool)
    ensures
        r == spec_is_pack(key@),
{
    str_eq(key, "1507-1") || str_eq(key, "1510-1") || str_eq(key, "1616-1") || str_eq(
        key,
        "1969-2",
    ) || str_eq(key, "1977-1") || str_eq(key, "1983-1") || str_eq(key, "1999-1")
}

/// Whether the set number names an unreleased set.
pub fn is_unreleased(key: &str) -> (r: bool)
    ensures
        r == spec_is_unreleased(key@),
{
    str_eq(key, "1526-1")
}

/// Whether the set number names an accessory collection.
pub fn is_accessories(key: &str) -> (r: bool)
    ensures
        r == spec_is_accessories(key@),
{
    str_eq(key, "6921-1")
}

} // verus!
