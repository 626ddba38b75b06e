//! The outcome of handing one message to the server for delivery.
use vstd::prelude::*;

verus! {

/// How delivery to one recipient went.
#[derive(Clone, Copy, Debug, PartialEq, Eq, Structural)]
pub enum DeliveryStatus {
    Success,
    Failure,
    NotFound,
    TemporaryFailure,
}

impl DeliveryStatus {
    /// The process exit code that a failed delivery stands for (the
    /// `sysexits` codes: no permission, no such user, try again later);
    /// none for a success.
    pub open spec fn exit_code_spec(self) -> Option<i32> {
        match self {
            DeliveryStatus::Success => None,
            DeliveryStatus::Failure => Some(77),
            DeliveryStatus::NotFound => Some(67),
            DeliveryStatus::TemporaryFailure => Some(75),
        }
    }

    /// The exit code that a failed delivery stands for.
    pub fn exit_code(&self) -> (r: Option<i32>)
        ensures
            r == self.exit_code_spec(),
    {
        match self {
            DeliveryStatus::Success => None,
            DeliveryStatus::Failure => Some(77),
            DeliveryStatus::NotFound => Some(67),
            DeliveryStatus::TemporaryFailure => Some(75),
        }
    }
}

/// The first recipient whose delivery failed, with the exit code it stands
/// for; none when every delivery succeeded.
pub fn first_failure(statuses: &Vec<DeliveryStatus>) -> (r: Option<(usize, i32)>)
    ensures
        match r {
            Some((i, code)) => i < statuses.len() && statuses[i as int].exit_code_spec() == Some(
                code,
            ) && forall|j: int| 0 <= j < i ==> statuses[j] == DeliveryStatus::Success,
            None => forall|j: int| 0 <= j < statuses.len() ==> statuses[j] == DeliveryStatus::Success,
        },
{
    let mut i: usize = 0;
    while i < statuses.len()
        invariant
            i <= statuses.len(),
            forall|j: int| 0 <= j < i ==> statuses[j] == DeliveryStatus::Success,
        decreases statuses.len() - i,
    {
        match statuses[i].exit_code() {
            Some(code) => {
                return Some((i, code));
            },
            None => {},
        }
        i = i + 1;
    }
    None
}

} // verus!
