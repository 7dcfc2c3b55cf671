//! The rules of the gardener, which drops subscribers that the bot can no
//! longer reach.

use vstd::prelude::*;
use crate::data::Database;
use crate::telebot::objects::{Chat, ChatMember};

verus! {

/// The seconds between two rounds of the gardener: one day.
pub const PRUNE_INTERVAL_SECS: u64 = 24 * 60 * 60;

/// Whether the membership of the bot in a chat is looked up: it is in
/// groups, supergroups and channels.
pub fn needs_membership_check(chat: &Chat) -> (r: bool)
    ensures
        r == chat.spec_has_members(),
{
    chat.has_members()
}

/// Drops `subscriber` where the bot has left its chat or was removed from
/// it. Returns whether the subscriber was dropped.
pub fn prune_subscriber(db: &mut Database, subscriber: i64, me: &ChatMember) -> (pruned: bool)
    ensures
        pruned == me.spec_is_gone(),
        final(db)@ == (if pruned {
            old(db)@.without(subscriber)
        } else {
            old(db)@
        }),
{
    if me.is_gone() {
        db.delete_subscriber(subscriber);
        true
    } else {
        false
    }
}

} // verus!
