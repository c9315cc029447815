//! The least Windows build that has process loopback.

use vstd::prelude::*;

use crate::text::{join3, signed_decimal, to_signed_decimal};
use crate::types::{Error, ErrorView};

verus! {

/// The least build.
pub const MIN_PROCESS_LOOPBACK_BUILD: u32 = 20_348;

/// Whether a build has process loopback.
pub fn process_loopback_supported(build: u32) -> (res: bool)
    ensures
        res == (build >= 20_348),
{
    build >= MIN_PROCESS_LOOPBACK_BUILD
}

/// Checks that the running build has process loopback, given the answer to asking for it: the
/// build, or the status where it could not be had.
pub fn ensure_process_loopback_supported(build: Result<u32, i32>) -> (res: Result<(), Error>)
    ensures
        match build {
            Ok(b) => if b >= 20_348 {
                res is Ok
            } else {
                res matches Err(e) && e@ == ErrorView::UnsupportedOsVersion
            },
            Err(status) => res matches Err(e) && e@ == ErrorView::Backend(
                "RtlGetVersion failed (NTSTATUS "@ + signed_decimal(status as int) + ")"@,
            ),
        },
{
    match build {
        Ok(b) => {
            if process_loopback_supported(b) {
                Ok(())
            } else {
                Err(Error::UnsupportedOsVersion)
            }
        },
        Err(status) => Err(
            Error::Backend(
                join3(
                    "RtlGetVersion failed (NTSTATUS ",
                    to_signed_decimal(status as i64).as_str(),
                    ")",
                ),
            ),
        ),
    }
}

} // verus!
