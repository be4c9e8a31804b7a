//! Control-plane handlers: what each request does to the shared cells and
//! what it answers.

use vstd::prelude::*;
use crate::interval::Interval;
use crate::message::Message;

verus! {

/// The answer to a control-plane request.
#[derive(Clone, Copy, Debug, PartialEq, Eq, Structural)]
pub enum Reply {
    /// Success with an empty body.
    Done,
    /// Success with the device identity as the body.
    Device(u128),
    /// The request body was malformed.
    BadRequest,
    /// A shared cell could not be acquired.
    InternalError,
    /// The operation is recognised but not supported yet.
    NotImplemented,
}

pub open spec fn spec_status_code(r: Reply) -> u16 {
    match r {
        Reply::Done => 200,
        Reply::Device(_) => 200,
        Reply::BadRequest => 400,
        Reply::InternalError => 500,
        Reply::NotImplemented => 501,
    }
}

impl Reply {
    /// The HTTP status code of the reply.
    pub fn status_code(&self) -> (r: u16)
        ensures
            r == spec_status_code(*self),
    {
        match self {
            Reply::Done => 200,
            Reply::Device(_) => 200,
            Reply::BadRequest => 400,
            Reply::InternalError => 500,
            Reply::NotImplemented => 501,
        }
    }
}

/// What the interval-update request does: the cell after it, and the reply.
/// `payload` is the body read as seconds and nanoseconds, `None` where it is
/// not shaped as a duration.
pub open spec fn spec_update_interval(current: Interval, payload: Option<(u64, u32)>) -> (
    Interval,
    Reply,
) {
    match payload {
        Some((secs, nanos)) => if secs + nanos / 1_000_000_000 <= u64::MAX {
            (
                Interval {
                    secs: (secs + nanos / 1_000_000_000) as u64,
                    nanos: (nanos % 1_000_000_000) as u32,
                },
                Reply::Done,
            )
        } else {
            (current, Reply::BadRequest)
        },
        None => (current, Reply::BadRequest),
    }
}

/// Replaces the interval with a well-formed duration and answers `Done`; a
/// malformed one leaves the interval as it was and answers `BadRequest`.
pub fn update_interval(duration: &mut Interval, payload: Option<(u64, u32)>) -> (r: Reply)
    ensures
        (*final(duration), r) == spec_update_interval(*old(duration), payload),
        old(duration).wf() ==> final(duration).wf(),
{
    match payload {
        Some((secs, nanos)) => match Interval::from_parts(secs, nanos) {
            Some(d) => {
                *duration = d;
                Reply::Done
            },
            None => Reply::BadRequest,
        },
        None => Reply::BadRequest,
    }
}

pub open spec fn spec_device_reply(message: Message) -> Reply {
    Reply::Device(message.device_uuid)
}

/// The device identity of the base message.
pub fn get_device_uuid(message: &Message) -> (r: Reply)
    ensures
        r == spec_device_reply(*message),
{
    Reply::Device(message.device_uuid)
}

/// Replacing the base message is not supported: a well-formed request is
/// answered `NotImplemented`, a malformed one `BadRequest`, and the message
/// is left as it was either way.
pub fn update_message(message: &mut Message, payload_ok: bool) -> (r: Reply)
    ensures
        *final(message) == *old(message),
        r == if payload_ok {
            Reply::NotImplemented
        } else {
            Reply::BadRequest
        },
{
    if payload_ok {
        Reply::NotImplemented
    } else {
        Reply::BadRequest
    }
}

/// Replacing the argument list is not supported: the request is answered
/// `NotImplemented` and the message is left as it was.
pub fn update_args(message: &mut Message, new_args: Vec<String>) -> (r: Reply)
    ensures
        *final(message) == *old(message),
        r == Reply::NotImplemented,
{
    Reply::NotImplemented
}

} // verus!

verus! {

/// A malformed duration leaves the interval as it was and is answered with a
/// client error.
pub proof fn lemma_malformed_interval_kept(current: Interval, payload: Option<(u64, u32)>)
    requires
        payload matches Some((secs, nanos)) ==> secs + nanos / 1_000_000_000 > u64::MAX,
    ensures
        spec_update_interval(current, payload) == (current, Reply::BadRequest),
        spec_status_code(spec_update_interval(current, payload).1) == 400,
{
}

} // verus!
