//! Core engine of a feed-to-chat notifier: the subscription store and its
//! update differ, the feed parser, the polling schedule and the delivery rules.

pub mod text;
pub mod xml;
pub mod feed;
pub mod data;
pub mod client;
pub mod fetcher;
pub mod messages;
pub mod gardener;
pub mod commands;
pub mod options;
pub mod errors;
pub mod utlis;
pub mod telebot;
