//! Setting how busy a model's workers may be. The thresholds are fractions, which are given by rank
//! and written elsewhere.
use crate::http::service::errors::{BAD_REQUEST, NOT_FOUND};
use crate::ranks::ONE_RANK;
use crate::text::{join, surround};
use vstd::prelude::*;

verus! {

/// A threshold that a request asks for: its rank, and how it is written.
#[derive(Debug, Clone)]
pub struct RequestedThreshold {
    pub rank: i64,
    pub text: String,
}

impl RequestedThreshold {
    /// Whether the threshold lies between zero and one.
    pub open spec fn in_range(self) -> bool {
        0 <= self.rank <= ONE_RANK
    }
}

/// Why a threshold was not set.
#[derive(Debug, Clone)]
pub struct ErrorResponse {
    pub error: String,
}

/// An error and the status that it is answered with.
#[derive(Debug, Clone)]
pub struct ThresholdError {
    pub status: u16,
    pub body: ErrorResponse,
}

/// Refuses a threshold that is out of range. A request without one asks for the current one.
pub fn check_threshold(requested: &Option<RequestedThreshold>) -> (checked: Result<
    (),
    ThresholdError,
>)
    ensures
        match checked {
            Ok(()) => requested matches Some(threshold) ==> threshold.in_range(),
            Err(error) => {
                &&& requested matches Some(threshold) && !threshold.in_range()
                &&& error.status == BAD_REQUEST
                &&& error.body.error@ == "Threshold must be between 0.0 and 1.0, got "@
                    + requested->Some_0.text@
            },
        },
{
    match requested {
        Some(threshold) => if threshold.rank >= 0 && threshold.rank <= ONE_RANK {
            Ok(())
        } else {
            Err(
                ThresholdError {
                    status: BAD_REQUEST,
                    body: ErrorResponse {
                        error: join(
                            "Threshold must be between 0.0 and 1.0, got ",
                            threshold.text.as_str(),
                        ),
                    },
                },
            )
        },
        None => Ok(()),
    }
}

/// Answers for a threshold that was looked up, or set: a model that has none after one was to be
/// set is not known.
pub fn check_stored(model: &str, requested: bool, stored: bool) -> (checked: Result<
    (),
    ThresholdError,
>)
    ensures
        match checked {
            Ok(()) => !requested || stored,
            Err(error) => {
                &&& requested && !stored
                &&& error.status == NOT_FOUND
                &&& error.body.error@ == "Model '"@ + model@
                    + "' not found. Thresholds can only be set for discovered models."@
            },
        },
{
    if requested && !stored {
        return Err(
            ThresholdError {
                status: NOT_FOUND,
                body: ErrorResponse {
                    error: surround(
                        "Model '",
                        model,
                        "' not found. Thresholds can only be set for discovered models.",
                    ),
                },
            },
        );
    }
    Ok(())
}

} // verus!
