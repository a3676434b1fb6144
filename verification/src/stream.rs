//! Streams and events: the per-thread stream's identifier and the status
//! an event query reports.

use vstd::prelude::*;
use std::cmp::Ordering;
use crate::error::HipError;

verus! {

/// The handle value HIP uses for the per-thread default stream
/// (`hipStreamPerThread`).
pub const HIP_STREAM_PER_THREAD: u64 = 2;

/// The HIP status code of an event that has not completed yet
/// (`hipErrorNotReady`).
pub const HIP_ERROR_NOT_READY: u32 = 600;

/// Identifier of a stream.
pub type HipStreamId = u64;

/// The identifier of the current stream. HIP has no stream-id query, so
/// the per-thread stream's handle value serves as its identifier.
pub fn current_stream_id() -> (r: Result<HipStreamId, HipError>)
    ensures
        r matches Ok(id) && id == HIP_STREAM_PER_THREAD,
{
    Ok(HIP_STREAM_PER_THREAD)
}

/// The state of an event.
#[derive(Debug)]
pub enum HipEventStatus {
    Completed,
    NotReady,
    Error(HipError),
}

/// Rank of a status in the order `Completed < NotReady < Error`.
pub open spec fn status_rank(s: HipEventStatus) -> int {
    match s {
        HipEventStatus::Completed => 0,
        HipEventStatus::NotReady => 1,
        HipEventStatus::Error(_) => 2,
    }
}

/// Two statuses are equal when both are `Completed` or both are
/// `NotReady`; an `Error` equals nothing, not even another `Error`.
pub open spec fn status_eq(a: HipEventStatus, b: HipEventStatus) -> bool {
    (a is Completed && b is Completed) || (a is NotReady && b is NotReady)
}

/// The comparison of two statuses by rank.
pub open spec fn status_order(a: HipEventStatus, b: HipEventStatus) -> Ordering {
    if status_rank(a) < status_rank(b) {
        Ordering::Less
    } else if status_rank(a) == status_rank(b) {
        Ordering::Equal
    } else {
        Ordering::Greater
    }
}

/// The status order is a total preorder: every status is `Equal` to
/// itself, swapping the operands reverses the answer, and `Less` is
/// transitive; `Completed < NotReady < Error`. Equality holds only between
/// two `Completed` or two `NotReady`.
pub proof fn law_status_order(a: HipEventStatus, b: HipEventStatus, c: HipEventStatus)
    ensures
        status_order(a, a) == Ordering::Equal,
        status_order(a, b) == Ordering::Less <==> status_order(b, a) == Ordering::Greater,
        status_order(a, b) == Ordering::Equal <==> status_order(b, a) == Ordering::Equal,
        status_order(a, b) == Ordering::Less && status_order(b, c) == Ordering::Less ==> status_order(a, c)
            == Ordering::Less,
        status_order(HipEventStatus::Completed, HipEventStatus::NotReady) == Ordering::Less,
        b is Error && !(a is Error) ==> status_order(a, b) == Ordering::Less,
        status_eq(a, b) ==> status_order(a, b) == Ordering::Equal,
        a is Error ==> !status_eq(a, b),
{
}

impl HipEventStatus {
    /// The status an event query answered with `code`: `Completed` for
    /// success, `NotReady` for `hipErrorNotReady`, and otherwise the error
    /// for `code` with the name and description the runtime gives for it.
    pub fn from_query_code(code: u32, name: String, message: String) -> (s: HipEventStatus)
        ensures
            code == 0 ==> s is Completed,
            code == HIP_ERROR_NOT_READY ==> s is NotReady,
            code != 0 && code != HIP_ERROR_NOT_READY ==> (s matches HipEventStatus::Error(e) && e.code
                == code && e.name@ == name@ && e.message@ == message@),
    {
        if code == 0 {
            HipEventStatus::Completed
        } else if code == HIP_ERROR_NOT_READY {
            HipEventStatus::NotReady
        } else {
            HipEventStatus::Error(HipError::new(code, name, message))
        }
    }

    /// Whether this status equals `Completed`.
    pub fn is_completed(&self) -> (b: bool)
        ensures
            b == status_eq(*self, HipEventStatus::Completed),
    {
        *self == HipEventStatus::Completed
    }

    /// The total order `Completed < NotReady < Error`, in which all errors
    /// rank the same.
    pub fn cmp_status(&self, other: &Self) -> (o: Ordering)
        ensures
            o == status_order(*self, *other),
    {
        let a: u8 = match self {
            HipEventStatus::Completed => 0,
            HipEventStatus::NotReady => 1,
            HipEventStatus::Error(_) => 2,
        };
        let b: u8 = match other {
            HipEventStatus::Completed => 0,
            HipEventStatus::NotReady => 1,
            HipEventStatus::Error(_) => 2,
        };
        if a < b {
            Ordering::Less
        } else if a == b {
            Ordering::Equal
        } else {
            Ordering::Greater
        }
    }
}

impl PartialEq for HipEventStatus {
    fn eq(&self, other: &Self) -> (r: bool) {
        match (self, other) {
            (HipEventStatus::Completed, HipEventStatus::Completed) => true,
            (HipEventStatus::NotReady, HipEventStatus::NotReady) => true,
            _ => false,
        }
    }
}

impl vstd::std_specs::cmp::PartialEqSpecImpl for HipEventStatus {
    open spec fn obeys_eq_spec() -> bool {
        true
    }

    open spec fn eq_spec(&self, other: &Self) -> bool {
        status_eq(*self, *other)
    }
}

impl Eq for HipEventStatus {

}

impl PartialOrd for HipEventStatus {
    fn partial_cmp(&self, other: &Self) -> (r: Option<Ordering>) {
        Some(self.cmp_status(other))
    }
}

impl vstd::std_specs::cmp::PartialOrdSpecImpl for HipEventStatus {
    open spec fn obeys_partial_cmp_spec() -> bool {
        true
    }

    open spec fn partial_cmp_spec(&self, other: &Self) -> Option<Ordering> {
        Some(status_order(*self, *other))
    }
}

} // verus!
