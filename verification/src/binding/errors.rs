//! Errors as the script sees them: a status and a reason.

use vstd::prelude::*;

use crate::text::join3;
use crate::vad::error::VadError;

verus! {

/// Status of an error.
#[derive(Clone, Copy, Debug, PartialEq, Eq, Structural)]
pub enum Status {
    /// The caller passed something that cannot be used.
    InvalidArg,
    /// Anything else.
    GenericFailure,
}

/// An error as the script sees it.
#[derive(Debug, PartialEq, Eq)]
pub struct NapiError {
    /// Its status.
    pub status: Status,
    /// Its reason.
    pub reason: String,
}

impl NapiError {
    /// Whether it has this status and this reason.
    pub open spec fn is(self, status: Status, reason: Seq<char>) -> bool {
        self.status == status && self.reason@ == reason
    }

    /// An error.
    pub fn new(status: Status, reason: &str) -> (res: NapiError)
        ensures
            res.is(status, reason@),
    {
        NapiError { status, reason: reason.to_owned() }
    }
}

/// The error for a failure of the library, under the text that is shown for it.
pub fn to_napi_err(shown: &str) -> (res: NapiError)
    ensures
        res.is(Status::GenericFailure, shown@),
{
    NapiError::new(Status::GenericFailure, shown)
}

/// The error for a failure of the detector: a setting that cannot be used is the fault of the
/// caller, anything else is not.
pub fn vad_err(err: &VadError) -> (res: NapiError)
    ensures
        res.is(
            if err@ is InvalidConfig {
                Status::InvalidArg
            } else {
                Status::GenericFailure
            },
            err@.shown(),
        ),
{
    let status: Status = match err {
        VadError::InvalidConfig(_) => Status::InvalidArg,
        _ => Status::GenericFailure,
    };
    NapiError { status, reason: err.message() }
}

/// What can go wrong in noise suppression.
#[derive(Debug, PartialEq, Eq)]
pub enum DenoiseError {
    /// So many channels cannot be processed.
    InvalidChannels(u16),
    /// The samples are no whole frames.
    InvalidLength(u64),
}

/// The error for a failure of noise suppression, under the text that is shown for it: it is
/// always the fault of the caller.
pub fn denoise_err(_err: &DenoiseError, shown: &str) -> (res: NapiError)
    ensures
        res.is(Status::InvalidArg, shown@),
{
    NapiError::new(Status::InvalidArg, shown)
}

/// What can go wrong in encoding.
#[derive(Debug, PartialEq, Eq)]
pub enum EncodeError {
    /// The parameters cannot be used.
    Unsupported(String),
    /// Writing failed.
    Io(String),
    /// The encoder failed.
    Encoder(String),
}

/// The error for a failure of encoding, under the text that is shown for it: parameters that
/// cannot be used are the fault of the caller, anything else is not.
pub fn encode_err(err: &EncodeError, shown: &str) -> (res: NapiError)
    ensures
        res.is(
            if *err is Unsupported {
                Status::InvalidArg
            } else {
                Status::GenericFailure
            },
            shown@,
        ),
{
    let status: Status = match err {
        EncodeError::Unsupported(_) => Status::InvalidArg,
        _ => Status::GenericFailure,
    };
    NapiError::new(status, shown)
}

/// The error for a choice that is not offered: what was to be chosen, the choice as it is shown,
/// and what is offered.
pub fn unknown_choice(what: &str, shown: &str, offered: &str) -> (res: NapiError)
    ensures
        res.is(Status::InvalidArg, what@ + shown@ + offered@),
{
    NapiError { status: Status::InvalidArg, reason: join3(what, shown, offered) }
}

/// An error has the status and the reason that are said of it.
pub proof fn lemma_error_has_status_and_reason(e: NapiError, status: Status, reason: Seq<char>)
    ensures
        e.is(status, reason) <==> e.status == status && e.reason@ == reason,
{
}

} // verus!
