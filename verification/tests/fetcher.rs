use std::collections::HashSet;

use rssbot::data::{Database, Feed, Timestamp};
use rssbot::feed::{Item, Rss};
use rssbot::fetcher::{
    after_send, chat_is_unavailable, enqueue_all, feed_interval, format_item, items_messages, on_fetch_failure,
    outcome_of, record_failure, Delivery, FailureAction, FetchQueue, Scheduled, SendOutcome,
    Throttle,
    GIVE_UP_AFTER_SECS,
};
use rssbot::gardener::{needs_membership_check, prune_subscriber};
use rssbot::telebot::error::Error;
use rssbot::telebot::objects::{Chat, ChatMember, ResponseParameters, User};

const URL: &str = "http://example.com/feed.xml";

fn feed_of(ids: &[&str]) -> Rss {
    Rss {
        title: "Title".into(),
        link: "http://example.com".into(),
        source: None,
        ttl: None,
        items: ids
            .iter()
            .map(|id| Item { title: Some(id.to_uppercase()), link: None, id: Some(id.to_string()) })
            .collect(),
    }
}

fn at(secs: u64) -> Timestamp {
    Timestamp { secs_since_epoch: secs, nanos_since_epoch: 0 }
}

fn refused(description: &str, migrate: Option<i64>, retry: Option<u64>) -> SendOutcome {
    SendOutcome::Refused {
        description: description.into(),
        migrate_to_chat_id: migrate,
        retry_after: retry,
    }
}

fn queued(link: &str) -> Feed {
    Feed { link: link.into(), ..Feed::default() }
}

#[test]
fn unavailable_chats_are_known_by_the_description() {
    assert!(chat_is_unavailable("Forbidden: bot was blocked by the user"));
    assert!(chat_is_unavailable("Bad Request: chat not found"));
    assert!(chat_is_unavailable("Bad Request: have no rights to send a message"));
    assert!(chat_is_unavailable("Bad Request: need administrator rights in the channel chat"));
    assert!(!chat_is_unavailable("Too Many Requests: retry after 5"));
    assert!(!chat_is_unavailable("forbidden"));
    assert!(!chat_is_unavailable(""));
}

#[test]
fn intervals_are_clamped_and_staggered() {
    assert_eq!(feed_interval(None, 300, 43200), 299);
    assert_eq!(feed_interval(Some(1), 300, 43200), 299);
    assert_eq!(feed_interval(Some(5), 300, 43200), 299);
    assert_eq!(feed_interval(Some(10), 300, 43200), 599);
    assert_eq!(feed_interval(Some(720), 300, 43200), 43199);
    assert_eq!(feed_interval(Some(100000), 300, 43200), 43199);
    assert_eq!(feed_interval(Some(u32::MAX), 1, u32::MAX), u32::MAX as u64 - 1);
    assert_eq!(feed_interval(Some(1), 600, 300), 299);
    assert_eq!(feed_interval(None, 1, 1), 0);
}

#[test]
fn throttle_spreads_workers_over_the_interval() {
    let mut throttle = Throttle::new(3);
    let turns: Vec<usize> = (0..7).map(|_| throttle.acquire().n).collect();
    assert_eq!(turns, vec![0, 1, 2, 0, 1, 2, 0]);
    throttle.release();
    throttle.release();
    assert_eq!(throttle.acquire().n, 2);
}

#[test]
fn a_feed_is_queued_once() {
    let mut queue = FetchQueue::new();
    assert!(queue.enqueue(queued("a")));
    assert!(queue.enqueue(queued("b")));
    assert!(!queue.enqueue(queued("a")));
    assert_eq!(queue.take("a").map(|f| f.link), Some("a".to_string()));
    assert!(queue.take("a").is_none());
    assert!(queue.enqueue(queued("a")));
    assert_eq!(queue.take("b").map(|f| f.link), Some("b".to_string()));
    assert!(queue.take("c").is_none());
}

#[test]
fn five_day_outage() {
    let mut db = Database::create();
    db.subscribe(42, URL, &feed_of(&["a"]));
    let start = 1_000_000;
    // the first failure after a success starts the clock
    assert_eq!(record_failure(&mut db, URL, at(start)), FailureAction::Wait);
    assert_eq!(db.all_feeds()[0].down_time, Some(at(start)));
    assert_eq!(record_failure(&mut db, URL, at(start + 3600)), FailureAction::Wait);
    assert_eq!(record_failure(&mut db, URL, at(start + GIVE_UP_AFTER_SECS)), FailureAction::Wait);
    assert_eq!(db.all_feeds()[0].down_time, Some(at(start)));
    // after five days exactly one notice is due, and the clock is cleared
    assert_eq!(
        record_failure(&mut db, URL, at(start + GIVE_UP_AFTER_SECS + 1)),
        FailureAction::GiveUp
    );
    assert_eq!(db.all_feeds()[0].down_time, None);
    assert_eq!(
        record_failure(&mut db, URL, at(start + GIVE_UP_AFTER_SECS + 2)),
        FailureAction::Wait
    );
    assert_eq!(db.all_feeds()[0].down_time, Some(at(start + GIVE_UP_AFTER_SECS + 2)));
    // a feed that is gone is left alone
    assert_eq!(record_failure(&mut db, "http://gone.example.com/", at(5)), FailureAction::Stop);
}

#[test]
fn failure_actions() {
    assert_eq!(GIVE_UP_AFTER_SECS, 432000);
    assert_eq!(on_fetch_failure(None), FailureAction::Stop);
    assert_eq!(on_fetch_failure(Some(0)), FailureAction::Wait);
    assert_eq!(on_fetch_failure(Some(432000)), FailureAction::Wait);
    assert_eq!(on_fetch_failure(Some(432001)), FailureAction::GiveUp);
}

#[test]
fn chat_migration() {
    let mut db = Database::create();
    db.subscribe(42, URL, &feed_of(&["a"]));
    let next = after_send(&mut db, 42, 1, &refused("Bad Request: group chat was upgraded", Some(100), None));
    assert_eq!(next, Delivery::Retry { subscriber: 100, delay_secs: 0 });
    assert!(!db.is_subscribed(42, URL));
    assert!(db.is_subscribed(100, URL));
    assert_eq!(after_send(&mut db, 100, 2, &SendOutcome::Sent), Delivery::Done);
    assert_eq!(db.all_feeds()[0].subscribers, HashSet::from([100]));
}

#[test]
fn unreachable_subscriber() {
    let mut db = Database::create();
    db.subscribe(42, URL, &feed_of(&["a"]));
    db.subscribe(43, URL, &feed_of(&["a"]));
    let next = after_send(&mut db, 42, 1, &refused("Forbidden: bot was kicked", Some(7), Some(3)));
    assert_eq!(next, Delivery::Done);
    let feeds = db.all_feeds();
    assert_eq!(feeds.len(), 1);
    assert_eq!(feeds[0].subscribers, HashSet::from([43]));
    let next = after_send(&mut db, 43, 1, &refused("Bad Request: chat not found", None, None));
    assert_eq!(next, Delivery::Done);
    assert!(db.all_feeds().is_empty());
}

#[test]
fn rate_limit_and_retry_budget() {
    let mut db = Database::create();
    db.subscribe(42, URL, &feed_of(&["a"]));
    let busy = refused("Too Many Requests: retry after 5", None, Some(5));
    assert_eq!(after_send(&mut db, 42, 1, &busy), Delivery::Retry { subscriber: 42, delay_secs: 5 });
    assert_eq!(after_send(&mut db, 42, 2, &busy), Delivery::Retry { subscriber: 42, delay_secs: 5 });
    assert_eq!(after_send(&mut db, 42, 3, &busy), Delivery::Done);
    // on the last attempt a moved chat is still taken note of
    assert_eq!(after_send(&mut db, 42, 3, &refused("moved", Some(100), None)), Delivery::Done);
    assert!(db.is_subscribed(100, URL));
    assert_eq!(after_send(&mut db, 100, 1, &refused("Bad Request: message is too long", None, None)), Delivery::Surface);
    assert_eq!(after_send(&mut db, 100, 1, &SendOutcome::Failed), Delivery::Surface);
    assert!(db.is_subscribed(100, URL));
}

#[test]
fn failed_requests_are_read() {
    let parameters = ResponseParameters { migrate_to_chat_id: Some(-100), retry_after: Some(9) };
    assert_eq!(
        outcome_of(Error::Telegram(400, "moved".into(), Some(parameters))),
        refused("moved", Some(-100), Some(9))
    );
    let parameters = ResponseParameters { migrate_to_chat_id: None, retry_after: Some(-1) };
    assert_eq!(
        outcome_of(Error::Telegram(429, "busy".into(), Some(parameters))),
        refused("busy", None, Some(0))
    );
    assert_eq!(outcome_of(Error::Telegram(403, "Forbidden".into(), None)), refused("Forbidden", None, None));
    assert_eq!(outcome_of(Error::Unknown), SendOutcome::Failed);
    assert_eq!(outcome_of(Error::Json("bad".into())), SendOutcome::Failed);
    assert_eq!(outcome_of(Error::TokioCurl("down".into())), SendOutcome::Failed);
    assert_eq!(outcome_of(Error::Utf8Decode), SendOutcome::Failed);
}

#[test]
fn new_items_make_one_html_message() {
    let mut db = Database::create();
    db.subscribe(42, URL, &feed_of(&["a", "b", "c"]));
    let mut poll = feed_of(&["d", "a", "b", "c"]);
    poll.items[0].title = Some("D & <more>".into());
    poll.items[0].link = Some("http://example.com/d?x=\"1\"".into());
    let updates = db.update(URL, poll);
    assert_eq!(updates.len(), 1);
    match &updates[0] {
        rssbot::data::FeedUpdate::Items(items) => {
            let msgs = items_messages("Title <1>", URL, items);
            assert_eq!(
                msgs,
                vec![
                    "<b>Title &lt;1&gt;</b>\n<a href=\"http://example.com/d?x=&quot;1&quot;\">D &amp; &lt;more&gt;</a>"
                        .to_string()
                ]
            );
        }
        _ => panic!("items expected"),
    }
}

#[test]
fn an_item_without_title_or_link_shows_the_feed() {
    let item = Item { title: None, link: None, id: None };
    assert_eq!(format_item(&item, "Feed", "http://f/"), "<a href=\"http://f/\">Feed</a>");
}

#[test]
fn gardener_drops_chats_the_bot_has_left() {
    let chat = |kind: &str| Chat {
        id: 1,
        kind: kind.into(),
        title: None,
        username: None,
        first_name: None,
        last_name: None,
        all_members_are_administrators: None,
    };
    assert!(needs_membership_check(&chat("group")));
    assert!(needs_membership_check(&chat("supergroup")));
    assert!(needs_membership_check(&chat("channel")));
    assert!(!needs_membership_check(&chat("private")));

    let me = |status: &str| ChatMember {
        user: User { id: 9, first_name: "bot".into(), last_name: None, username: None, language_code: None },
        status: status.into(),
    };
    let mut db = Database::create();
    db.subscribe(-5, URL, &feed_of(&[]));
    db.subscribe(-6, URL, &feed_of(&[]));
    assert!(!prune_subscriber(&mut db, -5, &me("administrator")));
    assert!(!prune_subscriber(&mut db, -5, &me("member")));
    assert!(db.is_subscribed(-5, URL));
    assert!(prune_subscriber(&mut db, -5, &me("left")));
    assert!(!db.is_subscribed(-5, URL));
    assert!(prune_subscriber(&mut db, -6, &me("kicked")));
    assert!(db.all_feeds().is_empty());
}

#[test]
fn a_tick_queues_what_does_not_wait() {
    let mut queue = FetchQueue::new();
    assert!(queue.enqueue(queued("b")));
    let mut slow = queued("c");
    slow.ttl = Some(60);
    let feeds = vec![queued("a"), queued("b"), slow, queued("a")];
    let scheduled = enqueue_all(&mut queue, &feeds, 300, 43200);
    assert_eq!(
        scheduled,
        vec![
            Scheduled { link: "a".into(), delay_secs: 299 },
            Scheduled { link: "c".into(), delay_secs: 3599 },
        ]
    );
    assert!(enqueue_all(&mut queue, &feeds, 300, 43200).is_empty());
    assert!(queue.take("a").is_some());
    assert_eq!(
        enqueue_all(&mut queue, &feeds, 300, 43200),
        vec![Scheduled { link: "a".into(), delay_secs: 299 }]
    );
}
