//! Objects that the messaging service answers with.

use vstd::prelude::*;
use crate::text::text_eq;

verus! {

/// A user or a bot.
#[derive(Debug, Clone, PartialEq, Eq)]
pub struct User {
    pub id: i64,
    pub first_name: String,
    pub last_name: Option<String>,
    pub username: Option<String>,
    pub language_code: Option<String>,
}

/// A chat.
#[derive(Debug, Clone, PartialEq, Eq)]
pub struct Chat {
    pub id: i64,
    pub kind: String,
    pub title: Option<String>,
    pub username: Option<String>,
    pub first_name: Option<String>,
    pub last_name: Option<String>,
    pub all_members_are_administrators: Option<bool>,
}

/// A special entity in the text of a message: a hashtag, a user name, an
/// address.
#[derive(Debug, Clone, PartialEq, Eq)]
pub struct MessageEntity {
    pub kind: String,
    pub offset: i64,
    pub length: i64,
    pub url: Option<String>,
    pub user: Option<User>,
}

/// One member of a chat.
#[derive(Debug, Clone, PartialEq, Eq)]
pub struct ChatMember {
    pub user: User,
    pub status: String,
}

/// Why a request was refused, as far as the service says how to go on.
#[derive(Debug, Clone, Copy, PartialEq, Eq)]
pub struct ResponseParameters {
    pub migrate_to_chat_id: Option<i64>,
    pub retry_after: Option<i64>,
}

impl Chat {
    /// Whether the chat has members beside the bot and one user: it is a
    /// group, a supergroup or a channel.
    pub open spec fn spec_has_members(&self) -> bool {
        self.kind@ == "group"@ || self.kind@ == "supergroup"@ || self.kind@ == "channel"@
    }

    /// Whether the chat has members beside the bot and one user.
    pub fn has_members(&self) -> (r: bool)
        ensures
            r == self.spec_has_members(),
    {
        text_eq(self.kind.as_str(), "group") || text_eq(self.kind.as_str(), "supergroup")
            || text_eq(self.kind.as_str(), "channel")
    }
}

impl ChatMember {
    /// Whether the member is no longer in the chat: it has left or was
    /// removed.
    pub open spec fn spec_is_gone(&self) -> bool {
        self.status@ == "left"@ || self.status@ == "kicked"@
    }

    /// Whether the member is no longer in the chat.
    pub fn is_gone(&self) -> (r: bool)
        ensures
            r == self.spec_is_gone(),
    {
        text_eq(self.status.as_str(), "left") || text_eq(self.status.as_str(), "kicked")
    }
}

} // verus!
