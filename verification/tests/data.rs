use std::collections::hash_map::DefaultHasher;
use std::collections::HashSet;
use std::hash::{Hash, Hasher};

use rssbot::data::{
    gen_hash, gen_item_hash, Database, Feed, FeedUpdate, Size64Hasher, Timestamp,
};
use rssbot::feed::{Item, Rss};

fn item(id: &str) -> Item {
    Item { title: Some(id.to_uppercase()), link: Some(format!("http://example.com/{}", id)), id: Some(id.into()) }
}

fn poll(title: &str, ids: &[&str]) -> Rss {
    Rss {
        title: title.into(),
        link: "http://example.com".into(),
        source: None,
        ttl: Some(30),
        items: ids.iter().map(|id| item(id)).collect(),
    }
}

fn at(secs: u64) -> Timestamp {
    Timestamp { secs_since_epoch: secs, nanos_since_epoch: 0 }
}

const URL: &str = "http://example.com/feed.xml";

fn sorted(mut v: Vec<i64>) -> Vec<i64> {
    v.sort();
    v
}

fn links(feeds: &[Feed]) -> Vec<String> {
    let mut v: Vec<String> = feeds.iter().map(|f| f.link.clone()).collect();
    v.sort();
    v
}

#[test]
fn size64hasher() {
    let mut h = Size64Hasher::default();
    h.write_i64(-42);
    assert_eq!(h.finish(), -42i64 as u64);
}

#[test]
fn size64hasher_takes_one_integer() {
    let mut h = Size64Hasher::new();
    assert_eq!(h.finish(), 0);
    h.write_u64(42);
    assert_eq!(h.finish(), 42);
    let mut h = Size64Hasher::new();
    h.write_i64(i64::MIN);
    assert_eq!(h.finish(), 1u64 << 63);
    let mut h = Size64Hasher::new();
    h.write_i64(7);
    assert_eq!(h.finish(), 7);
}

#[test]
fn hash_is_that_of_the_default_hasher() {
    let mut h = DefaultHasher::default();
    URL.hash(&mut h);
    assert_eq!(gen_hash(URL), h.finish());
    assert_ne!(gen_hash("a"), gen_hash("b"));
    assert_eq!(gen_hash("a"), gen_hash("a"));
}

#[test]
fn fingerprint_is_the_id_or_title_and_link() {
    let with_id = Item { title: Some("t".into()), link: Some("l".into()), id: Some("id".into()) };
    assert_eq!(gen_item_hash(&with_id), gen_hash("id"));
    let without_id = Item { title: Some("t".into()), link: Some("l".into()), id: None };
    assert_eq!(gen_item_hash(&without_id), gen_hash("tl"));
    let only_link = Item { title: None, link: Some("l".into()), id: None };
    assert_eq!(gen_item_hash(&only_link), gen_hash("l"));
    let nothing = Item { title: None, link: None, id: None };
    assert_eq!(gen_item_hash(&nothing), gen_hash(""));
}

#[test]
fn fresh_subscribe() {
    let mut db = Database::create();
    assert!(db.all_feeds().is_empty());
    assert!(db.all_subscribers().is_empty());
    assert!(!db.is_subscribed(42, URL));
    assert!(db.subscribed_feeds(42).is_none());

    assert!(db.subscribe(42, URL, &poll("Title", &["a", "b", "c"])));
    assert!(db.is_subscribed(42, URL));
    let feeds = db.subscribed_feeds(42).unwrap();
    assert_eq!(feeds.len(), 1);
    assert_eq!(feeds[0].link, URL);
    assert_eq!(feeds[0].title, "Title");
    assert_eq!(feeds[0].ttl, Some(30));
    assert_eq!(feeds[0].down_time, None);
    assert_eq!(feeds[0].subscribers, HashSet::from([42]));
    assert_eq!(feeds[0].hash_list, vec![gen_hash("a"), gen_hash("b"), gen_hash("c")]);
    assert_eq!(db.all_subscribers(), vec![42]);

    // the items that were there at the subscription are not delivered
    assert!(db.update(URL, poll("Title", &["a", "b", "c"])).is_empty());
}

#[test]
fn subscribing_twice_changes_nothing() {
    let mut db = Database::create();
    assert!(db.subscribe(42, URL, &poll("Title", &["a"])));
    assert!(!db.subscribe(42, URL, &poll("Other", &["b"])));
    let feeds = db.all_feeds();
    assert_eq!(feeds.len(), 1);
    assert_eq!(feeds[0].title, "Title");
    assert_eq!(feeds[0].hash_list, vec![gen_hash("a")]);
}

#[test]
fn second_subscriber_joins_the_stored_feed() {
    let mut db = Database::create();
    assert!(db.subscribe(1, URL, &poll("Title", &["a"])));
    assert!(db.subscribe(2, URL, &poll("Later", &["b"])));
    let feeds = db.all_feeds();
    assert_eq!(feeds.len(), 1);
    assert_eq!(feeds[0].title, "Title");
    assert_eq!(feeds[0].subscribers, HashSet::from([1, 2]));
    assert_eq!(sorted(db.all_subscribers()), vec![1, 2]);
}

#[test]
fn new_item_arrival() {
    let mut db = Database::create();
    db.subscribe(42, URL, &poll("Title", &["a", "b", "c"]));
    let updates = db.update(URL, poll("Title", &["d", "a", "b", "c"]));
    assert_eq!(updates.len(), 1);
    match &updates[0] {
        FeedUpdate::Items(items) => assert_eq!(items, &vec![item("d")]),
        FeedUpdate::Title(_) => panic!("no title change"),
    }
    let feeds = db.all_feeds();
    assert_eq!(
        feeds[0].hash_list,
        vec![gen_hash("d"), gen_hash("a"), gen_hash("b"), gen_hash("c")]
    );
    // nothing is delivered twice
    assert!(db.update(URL, poll("Title", &["d", "a", "b", "c"])).is_empty());
}

#[test]
fn title_change() {
    let mut db = Database::create();
    db.subscribe(42, URL, &poll("Title", &["a", "b", "c"]));
    let updates = db.update(URL, poll("Title2", &["a", "b", "c"]));
    assert_eq!(updates.len(), 1);
    assert!(matches!(&updates[0], FeedUpdate::Title(t) if t == "Title2"));
    assert_eq!(db.all_feeds()[0].title, "Title2");
}

#[test]
fn items_come_before_the_title() {
    let mut db = Database::create();
    db.subscribe(42, URL, &poll("Title", &["a"]));
    let updates = db.update(URL, poll("Title2", &["c", "b", "a"]));
    assert_eq!(updates.len(), 2);
    match &updates[0] {
        FeedUpdate::Items(items) => assert_eq!(items, &vec![item("c"), item("b")]),
        FeedUpdate::Title(_) => panic!("items first"),
    }
    assert!(matches!(&updates[1], FeedUpdate::Title(t) if t == "Title2"));
}

#[test]
fn window_is_cut_to_twice_the_poll() {
    let mut db = Database::create();
    db.subscribe(42, URL, &poll("Title", &["a", "b", "c", "d", "e"]));
    db.update(URL, poll("Title", &["x", "a"]));
    assert_eq!(
        db.all_feeds()[0].hash_list,
        vec![gen_hash("x"), gen_hash("a"), gen_hash("b"), gen_hash("c")]
    );
    db.update(URL, poll("Title", &["x"]));
    assert_eq!(db.all_feeds()[0].hash_list, vec![gen_hash("x"), gen_hash("a")]);
    db.update(URL, poll("Title", &[]));
    assert!(db.all_feeds()[0].hash_list.is_empty());
}

#[test]
fn update_takes_over_the_interval_and_clears_the_clock() {
    let mut db = Database::create();
    db.subscribe(42, URL, &poll("Title", &["a"]));
    assert_eq!(db.get_or_update_down_time(URL, at(100)), Some(0));
    let mut next = poll("Title", &["a"]);
    next.ttl = None;
    assert!(db.update(URL, next).is_empty());
    let feeds = db.all_feeds();
    assert_eq!(feeds[0].ttl, None);
    assert_eq!(feeds[0].down_time, None);
}

#[test]
fn update_of_an_unknown_feed_does_nothing() {
    let mut db = Database::create();
    assert!(db.update(URL, poll("Title", &["a"])).is_empty());
    assert!(db.all_feeds().is_empty());
}

#[test]
fn unsubscribe_returns_the_feed_and_drops_what_is_empty() {
    let mut db = Database::create();
    db.subscribe(1, URL, &poll("Title", &["a"]));
    db.subscribe(2, URL, &poll("Title", &["a"]));
    db.subscribe(2, "http://other.example.com/", &poll("Other", &[]));
    assert!(db.unsubscribe(3, URL).is_none());
    assert!(db.unsubscribe(1, "http://other.example.com/").is_none());

    let feed = db.unsubscribe(1, URL).unwrap();
    assert_eq!(feed.link, URL);
    assert_eq!(feed.title, "Title");
    assert_eq!(feed.subscribers, HashSet::from([2]));
    assert!(!db.is_subscribed(1, URL));
    assert!(db.subscribed_feeds(1).is_none());
    assert_eq!(db.all_subscribers(), vec![2]);
    assert_eq!(db.all_feeds().len(), 2);

    let feed = db.unsubscribe(2, URL).unwrap();
    assert!(feed.subscribers.is_empty());
    assert_eq!(links(&db.all_feeds()), vec!["http://other.example.com/".to_string()]);
    assert!(db.unsubscribe(2, URL).is_none());
}

#[test]
fn delete_subscriber_leaves_every_feed() {
    let mut db = Database::create();
    db.subscribe(1, "http://a.example.com/", &poll("A", &[]));
    db.subscribe(1, "http://b.example.com/", &poll("B", &[]));
    db.subscribe(2, "http://b.example.com/", &poll("B", &[]));
    db.delete_subscriber(1);
    assert_eq!(db.all_subscribers(), vec![2]);
    let feeds = db.all_feeds();
    assert_eq!(links(&feeds), vec!["http://b.example.com/".to_string()]);
    assert_eq!(feeds[0].subscribers, HashSet::from([2]));
    db.delete_subscriber(7);
    assert_eq!(db.all_subscribers(), vec![2]);
}

#[test]
fn update_subscriber_moves_every_subscription() {
    let mut db = Database::create();
    db.subscribe(42, "http://a.example.com/", &poll("A", &[]));
    db.subscribe(42, "http://b.example.com/", &poll("B", &[]));
    db.subscribe(100, "http://c.example.com/", &poll("C", &[]));
    db.subscribe(100, "http://b.example.com/", &poll("B", &[]));
    db.update_subscriber(42, 100);
    assert_eq!(db.all_subscribers(), vec![100]);
    assert!(!db.is_subscribed(42, "http://a.example.com/"));
    assert!(db.is_subscribed(100, "http://a.example.com/"));
    assert!(db.is_subscribed(100, "http://b.example.com/"));
    assert!(db.is_subscribed(100, "http://c.example.com/"));
    for feed in db.all_feeds() {
        assert_eq!(feed.subscribers, HashSet::from([100]));
    }
    db.update_subscriber(1, 2);
    db.update_subscriber(100, 100);
    assert_eq!(db.all_subscribers(), vec![100]);
    assert_eq!(db.subscribed_feeds(100).unwrap().len(), 3);
}

#[test]
fn indexes_agree_and_no_feed_is_without_subscriber() {
    let mut db = Database::create();
    let urls = ["http://a.example.com/", "http://b.example.com/", "http://c.example.com/"];
    for (s, url) in [(1, 0), (1, 1), (2, 1), (3, 2), (2, 2)] {
        db.subscribe(s, urls[url], &poll("T", &[]));
    }
    db.unsubscribe(3, urls[2]);
    db.unsubscribe(1, urls[0]);
    db.update_subscriber(2, 9);
    let feeds = db.all_feeds();
    for feed in &feeds {
        assert!(feed.subscribers.len() >= 1);
        for s in &feed.subscribers {
            assert!(db.is_subscribed(*s, &feed.link));
            assert!(links(&db.subscribed_feeds(*s).unwrap()).contains(&feed.link));
        }
    }
    for s in db.all_subscribers() {
        for feed in db.subscribed_feeds(s).unwrap() {
            assert!(feed.subscribers.contains(&s));
            assert!(links(&feeds).contains(&feed.link));
        }
    }
    assert_eq!(links(&feeds), vec![urls[1].to_string(), urls[2].to_string()]);
}

#[test]
fn down_time_counts_from_the_first_failure() {
    let mut db = Database::create();
    assert_eq!(db.get_or_update_down_time(URL, at(5)), None);
    db.subscribe(42, URL, &poll("Title", &[]));
    assert_eq!(db.get_or_update_down_time(URL, at(1000)), Some(0));
    assert_eq!(db.all_feeds()[0].down_time, Some(at(1000)));
    assert_eq!(db.get_or_update_down_time(URL, at(1060)), Some(60));
    assert_eq!(db.get_or_update_down_time(URL, at(900)), Some(0));
    assert_eq!(db.all_feeds()[0].down_time, Some(at(1000)));
    db.reset_down_time(URL);
    assert_eq!(db.all_feeds()[0].down_time, None);
    assert_eq!(db.get_or_update_down_time(URL, at(2000)), Some(0));
    db.reset_down_time("http://unknown.example.com/");
}

#[test]
fn seconds_between_two_times() {
    let early = Timestamp { secs_since_epoch: 10, nanos_since_epoch: 900_000_000 };
    let late = Timestamp { secs_since_epoch: 12, nanos_since_epoch: 100_000_000 };
    assert_eq!(late.secs_since(&early), 1);
    assert_eq!(early.secs_since(&late), 0);
    assert_eq!(late.secs_since(&late), 0);
    let later = Timestamp { secs_since_epoch: 12, nanos_since_epoch: 900_000_000 };
    assert_eq!(later.secs_since(&early), 2);
}

#[test]
fn reloading_a_snapshot_gives_the_store_back() {
    let mut db = Database::create();
    let urls = ["http://a.example.com/", "http://b.example.com/", "http://c.example.com/"];
    for (s, url) in [(1, 0), (1, 1), (2, 1), (3, 2), (2, 2)] {
        db.subscribe(s, urls[url], &poll("T", &["x", "y"]));
    }
    db.unsubscribe(3, urls[2]);
    db.get_or_update_down_time(urls[1], at(77));
    let snapshot = db.all_feeds();
    let reloaded = Database::from_feeds(snapshot);
    assert_eq!(sorted(db.reload().all_subscribers()), sorted(db.all_subscribers()));
    assert_eq!(links(&db.reload().all_feeds()), links(&db.all_feeds()));

    assert_eq!(sorted(reloaded.all_subscribers()), sorted(db.all_subscribers()));
    let mut before = db.all_feeds();
    let mut after = reloaded.all_feeds();
    before.sort_by(|a, b| a.link.cmp(&b.link));
    after.sort_by(|a, b| a.link.cmp(&b.link));
    assert_eq!(before.len(), after.len());
    for (a, b) in before.iter().zip(after.iter()) {
        assert_eq!(a.link, b.link);
        assert_eq!(a.title, b.title);
        assert_eq!(a.down_time, b.down_time);
        assert_eq!(a.subscribers, b.subscribers);
        assert_eq!(a.ttl, b.ttl);
        assert_eq!(a.hash_list, b.hash_list);
    }
    for s in db.all_subscribers() {
        assert_eq!(
            links(&db.subscribed_feeds(s).unwrap()),
            links(&reloaded.subscribed_feeds(s).unwrap())
        );
    }
}

#[test]
fn loading_drops_dead_feeds_and_lets_the_later_record_win() {
    let dead = Feed { link: "http://dead.example.com/".into(), ..Feed::default() };
    let first = Feed {
        link: URL.into(),
        title: "first".into(),
        subscribers: HashSet::from([1, 2]),
        ..Feed::default()
    };
    let second = Feed {
        link: URL.into(),
        title: "second".into(),
        subscribers: HashSet::from([2, 3]),
        ..Feed::default()
    };
    let db = Database::from_feeds(vec![dead, first, second]);
    let feeds = db.all_feeds();
    assert_eq!(feeds.len(), 1);
    assert_eq!(feeds[0].title, "second");
    assert_eq!(sorted(db.all_subscribers()), vec![2, 3]);
    assert!(!db.is_subscribed(1, URL));
    assert!(db.is_subscribed(2, URL));
    assert!(db.is_subscribed(3, URL));
    assert!(Database::from_feeds(vec![]).all_feeds().is_empty());
}
