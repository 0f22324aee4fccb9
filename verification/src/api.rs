//! Request planning for the transport layer.
//!
//! The transport hands a request's plain values in; these functions validate
//! them — message cap first, then the channel name — and resolve the target
//! recipients, so that invalid input never reaches storage or delivery. The
//! transport then performs the deliveries and tallies them with
//! [`crate::dispatch::dispatch_report`].

use vstd::prelude::*;

use crate::channel::{valid_channel, validate_channel_name};
use crate::registry::{is_recipient, recipients_in, Registry};

verus! {

/// Why a request was rejected before any lookup or delivery was attempted.
#[derive(Debug, PartialEq, Eq)]
pub enum InputError {
    EmptyMessage,
    MessageTooLong,
    InvalidChannelName,
}

/// Longest accepted message, in characters.
pub const MAX_MESSAGE_LEN: usize = 1000;

/// The message fits the cap.
pub open spec fn message_within_cap(m: Seq<char>) -> bool {
    m.len() <= MAX_MESSAGE_LEN
}

/// Plans a send-to-channel request: rejects an oversize message, then an
/// invalid channel name, and otherwise resolves the channel's recipients.
/// A channel with no subscribers yields an empty target list — the caller
/// then makes no delivery call at all.
pub fn plan_channel_send(reg: &Registry, channel: &str, message: &str) -> (r: Result<
    Vec<i64>,
    InputError,
>)
    ensures
        !message_within_cap(message@) ==> r is Err && r->Err_0 == InputError::MessageTooLong,
        message_within_cap(message@) && !valid_channel(channel@) ==> r is Err && r->Err_0
            == InputError::InvalidChannelName,
        message_within_cap(message@) && valid_channel(channel@) ==> r is Ok && r->Ok_0@
            == recipients_in(reg@, channel@),
{
    if message.unicode_len() > MAX_MESSAGE_LEN {
        return Err(InputError::MessageTooLong);
    }
    if !validate_channel_name(channel) {
        return Err(InputError::InvalidChannelName);
    }
    Ok(reg.recipients_of(channel))
}

/// Plans a broadcast-to-all request: rejects an empty message, then an
/// oversize one, and otherwise resolves the distinct recipients over every
/// channel.
pub fn plan_broadcast(reg: &Registry, message: &str) -> (r: Result<Vec<i64>, InputError>)
    ensures
        message@.len() == 0 ==> r is Err && r->Err_0 == InputError::EmptyMessage,
        message@.len() > 0 && !message_within_cap(message@) ==> r is Err && r->Err_0
            == InputError::MessageTooLong,
        message@.len() > 0 && message_within_cap(message@) ==> {
            &&& r is Ok
            &&& forall|x: i64| r->Ok_0@.contains(x) <==> is_recipient(reg@, x)
            &&& forall|i: int, j: int| 0 <= i < j < r->Ok_0@.len() ==> r->Ok_0@[i] != r->Ok_0@[j]
        },
{
    if message.is_empty() {
        return Err(InputError::EmptyMessage);
    }
    if message.unicode_len() > MAX_MESSAGE_LEN {
        return Err(InputError::MessageTooLong);
    }
    Ok(reg.all_recipients())
}

} // verus!
