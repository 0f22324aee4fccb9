//! Decisions of the conversational front-end.
//!
//! A long-lived poll loop receives subscribe and unsubscribe commands from
//! recipients and answers each with a reply. The loop, its transport and the
//! rendering of replies into text belong to the application; the decision —
//! which registry mutation a command performs and which reply its outcome
//! earns — is made here.

use vstd::prelude::*;

use crate::channel::valid_channel;
use crate::registry::{
    contains_pair, inserted_at, removed_at, Registry, SubscribeOutcome, UnsubscribeOutcome,
};

verus! {

/// A command a recipient can issue, carrying the channel name it names.
#[derive(Debug, PartialEq, Eq)]
pub enum BotCommand {
    Subscribe(String),
    Unsubscribe(String),
}

/// The reply a command earns.
#[derive(Debug, PartialEq, Eq)]
pub enum BotReply {
    InvalidChannelName,
    Subscribed,
    AlreadySubscribed,
    Unsubscribed,
    NotSubscribed,
}

/// Applies one command from `recipient` to the registry, at time `now`, and
/// picks the reply: an invalid name is reported without touching the rows, a
/// duplicate subscribe earns `AlreadySubscribed`, an unsubscribe without a
/// matching row earns `NotSubscribed`, and the successful cases mutate the
/// registry exactly as `subscribe` and `unsubscribe` do.
pub fn handle_command(reg: &mut Registry, recipient: i64, cmd: &BotCommand, now: i64) -> (r:
    BotReply)
    requires
        old(reg).wf(),
    ensures
        final(reg).wf(),
        cmd matches BotCommand::Subscribe(c) ==> {
            &&& !valid_channel(c@) ==> r == BotReply::InvalidChannelName && final(reg)@ == old(
                reg,
            )@
            &&& valid_channel(c@) && contains_pair(old(reg)@, recipient, c@) ==> r
                == BotReply::AlreadySubscribed && final(reg)@ == old(reg)@
            &&& valid_channel(c@) && !contains_pair(old(reg)@, recipient, c@) ==> r
                == BotReply::Subscribed && contains_pair(final(reg)@, recipient, c@) && exists|
                i: int,
            | inserted_at(old(reg)@, final(reg)@, i, recipient, c@, now)
        },
        cmd matches BotCommand::Unsubscribe(c) ==> {
            &&& !valid_channel(c@) ==> r == BotReply::InvalidChannelName && final(reg)@ == old(
                reg,
            )@
            &&& valid_channel(c@) && !contains_pair(old(reg)@, recipient, c@) ==> r
                == BotReply::NotSubscribed && final(reg)@ == old(reg)@
            &&& valid_channel(c@) && contains_pair(old(reg)@, recipient, c@) ==> r
                == BotReply::Unsubscribed && !contains_pair(final(reg)@, recipient, c@) && exists|
                i: int,
            | removed_at(old(reg)@, final(reg)@, i, recipient, c@)
        },
{
    match cmd {
        BotCommand::Subscribe(c) => {
            match reg.subscribe(recipient, c.as_str(), now) {
                SubscribeOutcome::Subscribed => BotReply::Subscribed,
                SubscribeOutcome::AlreadySubscribed => BotReply::AlreadySubscribed,
                SubscribeOutcome::InvalidChannelName => BotReply::InvalidChannelName,
            }
        },
        BotCommand::Unsubscribe(c) => {
            match reg.unsubscribe(recipient, c.as_str()) {
                UnsubscribeOutcome::Removed => BotReply::Unsubscribed,
                UnsubscribeOutcome::NotSubscribed => BotReply::NotSubscribed,
                UnsubscribeOutcome::InvalidChannelName => BotReply::InvalidChannelName,
            }
        },
    }
}

} // verus!
