//! The least version of macOS that has process taps.

use vstd::prelude::*;

use crate::types::{Error, ErrorView};

verus! {

/// Major number of the least version.
pub const MIN_MAJOR: i64 = 14;

/// Minor number of the least version.
pub const MIN_MINOR: i64 = 4;

/// Whether a version is not before another one.
pub open spec fn not_before(major: int, minor: int, min_major: int, min_minor: int) -> bool {
    major > min_major || (major == min_major && minor >= min_minor)
}

/// Whether a version has process taps.
pub fn meets_min_version(major: i64, minor: i64) -> (res: bool)
    ensures
        res == not_before(major as int, minor as int, 14, 4),
{
    major > MIN_MAJOR || (major == MIN_MAJOR && minor >= MIN_MINOR)
}

/// Checks that the running version has process taps.
pub fn ensure_process_tap_supported(major: i64, minor: i64) -> (res: Result<(), Error>)
    ensures
        if not_before(major as int, minor as int, 14, 4) {
            res is Ok
        } else {
            res matches Err(e) && e@ == ErrorView::UnsupportedOsVersion
        },
{
    if meets_min_version(major, minor) {
        Ok(())
    } else {
        Err(Error::UnsupportedOsVersion)
    }
}

/// What a version has, every later one has.
pub proof fn lemma_later_versions_have_it(major: int, minor: int, later_major: int, later_minor: int)
    requires
        not_before(major, minor, 14, 4),
        not_before(later_major, later_minor, major, minor),
    ensures
        not_before(later_major, later_minor, 14, 4),
{
}

/// Versions are in the order of their major numbers, and of their minor ones within a major one.
pub proof fn lemma_order_of_versions(major: int, minor: int, other_major: int, other_minor: int)
    ensures
        major > other_major ==> not_before(major, minor, other_major, other_minor),
        major < other_major ==> !not_before(major, minor, other_major, other_minor),
        major == other_major ==> (not_before(major, minor, other_major, other_minor) <==> minor
            >= other_minor),
{
}

} // verus!
