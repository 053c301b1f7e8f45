//! The decisions of the two endpoints that set this node's price and its
//! metric factor. The routing service is told first; the settings take the
//! new value only after it has accepted.

use vstd::prelude::*;

verus! {

/// The highest price that the routing service takes.
pub const MAX_LOCAL_FEE: u32 = 999_999_999;

/// The step at which the routing service could not be told.
#[derive(Debug, Clone, Copy, PartialEq, Eq, Structural)]
pub enum BabelFailure {
    /// No socket to the routing service could be made.
    Stream,
    /// The routing service did not take the connection.
    Connection,
    /// The routing service did not take the new value.
    Request,
}

/// What an endpoint answers.
#[derive(Debug, Clone, Copy, PartialEq, Eq)]
pub enum Reply {
    /// The routing service could not be told: an internal server error with
    /// this message, and the settings stay as they are.
    BabelFailed { error: &'static str },
    /// The routing service has the new value and the settings take it too;
    /// with a warning where the value is zero.
    Accepted { warning: Option<&'static str> },
}

/// Whether `new_fee` can be asked of the routing service at all.
pub fn local_fee_allowed(new_fee: u32) -> (allowed: bool)
    ensures
        allowed == (new_fee <= MAX_LOCAL_FEE),
{
    new_fee <= MAX_LOCAL_FEE
}

/// The message for a failure to set the price.
pub open spec fn local_fee_error(failure: BabelFailure) -> Seq<char> {
    match failure {
        BabelFailure::Stream => "Could not create a socket for connecting to Babel"@,
        BabelFailure::Connection => "Could not connect to Babel"@,
        BabelFailure::Request => "Failed to ask Babel to set the proposed fee"@,
    }
}

/// The message for a failure to set the metric factor.
pub open spec fn metric_factor_error(failure: BabelFailure) -> Seq<char> {
    match failure {
        BabelFailure::Stream => "Could not create a socket for connecting to Babel"@,
        BabelFailure::Connection => "Could not connect to Babel"@,
        BabelFailure::Request => "Failed to ask Babel to set the proposed factor"@,
    }
}

/// The warning for a price of zero.
pub open spec fn free_bandwidth_warning() -> Seq<char> {
    "THIS NODE IS GIVING BANDWIDTH AWAY FOR FREE. PLEASE SET local_fee TO A NON-ZERO VALUE TO DISABLE THIS WARNING."@
}

/// The warning for a metric factor of zero.
pub open spec fn route_quality_warning() -> Seq<char> {
    "THIS NODE DOESN'T PAY ATTENTION TO ROUTE QUALITY - IT'LL CHOOSE THE CHEAPEST ROUTE EVEN IF IT'S THE WORST LINK AROUND. PLEASE SET metric_factor TO A NON-ZERO VALUE TO DISABLE THIS WARNING."@
}

/// Whether `reply` is the answer to a request to set `value`: `failed` is
/// the text of the failure where the routing service could not be told, and
/// `warning` the text that goes with a value of zero.
pub open spec fn is_reply(
    reply: Reply,
    value: u32,
    failed: Option<Seq<char>>,
    warning: Seq<char>,
) -> bool {
    match failed {
        Some(message) => reply matches Reply::BabelFailed { error: text } && text@ == message,
        None => reply matches Reply::Accepted { warning: given } && (if value == 0 {
            given matches Some(text) && text@ == warning
        } else {
            given is None
        }),
    }
}

/// Why a request is refused before the routing service is asked.
#[derive(Debug, Clone, Copy, PartialEq, Eq, Structural)]
pub enum FeeError {
    /// The price is above what the routing service takes.
    TooHigh,
}

impl FeeError {
    /// The text of the error.
    pub open spec fn text(self) -> Seq<char> {
        "Price is too high due to babel bug!"@
    }

    /// The text of the error.
    pub fn message(&self) -> (m: &'static str)
        ensures
            m@ == self.text(),
    {
        "Price is too high due to babel bug!"
    }
}

/// Answers a request to set this node's price to `new_fee`. A price that is
/// not allowed is refused, whatever `babel` holds: the routing service is not
/// to be asked about it. Else `babel` says how telling the routing service
/// went.
pub fn set_local_fee(new_fee: u32, babel: Result<(), BabelFailure>) -> (r: Result<
    Reply,
    FeeError,
>)
    ensures
        new_fee > MAX_LOCAL_FEE ==> r == Err::<Reply, FeeError>(FeeError::TooHigh),
        new_fee <= MAX_LOCAL_FEE ==> r is Ok && is_reply(
            r->Ok_0,
            new_fee,
            match babel {
                Err(failure) => Some(local_fee_error(failure)),
                Ok(()) => None,
            },
            free_bandwidth_warning(),
        ),
{
    if !local_fee_allowed(new_fee) {
        return Err(FeeError::TooHigh);
    }
    Ok(
        match babel {
            Err(BabelFailure::Stream) => Reply::BabelFailed {
                error: "Could not create a socket for connecting to Babel",
            },
            Err(BabelFailure::Connection) => Reply::BabelFailed {
                error: "Could not connect to Babel",
            },
            Err(BabelFailure::Request) => Reply::BabelFailed {
                error: "Failed to ask Babel to set the proposed fee",
            },
            Ok(()) => if new_fee == 0 {
                Reply::Accepted {
                    warning: Some(
                        "THIS NODE IS GIVING BANDWIDTH AWAY FOR FREE. PLEASE SET local_fee TO A NON-ZERO VALUE TO DISABLE THIS WARNING.",
                    ),
                }
            } else {
                Reply::Accepted { warning: None }
            },
        },
    )
}

/// Answers a request to set this node's metric factor to `new_factor`,
/// after the routing service was told, or could not be.
pub fn set_metric_factor(new_factor: u32, babel: Result<(), BabelFailure>) -> (reply: Reply)
    ensures
        is_reply(
            reply,
            new_factor,
            match babel {
                Err(failure) => Some(metric_factor_error(failure)),
                Ok(()) => None,
            },
            route_quality_warning(),
        ),
{
    match babel {
        Err(BabelFailure::Stream) => Reply::BabelFailed {
            error: "Could not create a socket for connecting to Babel",
        },
        Err(BabelFailure::Connection) => Reply::BabelFailed { error: "Could not connect to Babel" },
        Err(BabelFailure::Request) => Reply::BabelFailed {
            error: "Failed to ask Babel to set the proposed factor",
        },
        Ok(()) => if new_factor == 0 {
            Reply::Accepted {
                warning: Some(
                    "THIS NODE DOESN'T PAY ATTENTION TO ROUTE QUALITY - IT'LL CHOOSE THE CHEAPEST ROUTE EVEN IF IT'S THE WORST LINK AROUND. PLEASE SET metric_factor TO A NON-ZERO VALUE TO DISABLE THIS WARNING.",
                ),
            }
        } else {
            Reply::Accepted { warning: None }
        },
    }
}

} // verus!
