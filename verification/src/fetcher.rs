//! The decisions of the poller: when a feed is due, how requests are spread
//! out, what a failed fetch leads to, and how a message is brought to each
//! subscriber.

use vstd::prelude::*;
use crate::data::{
    feed_views, spec_gen_hash, Database, DatabaseView, Feed, FeedView, Timestamp,
};
use crate::feed::{Item, ItemView, item_views};
use crate::messages::{escape_html, join_lines, split_lines, string_views, Escape};
use crate::telebot::error::Error;
use crate::text::{contains, spec_contains, text_eq};

verus! {

/// The seconds of continuous failure after which the subscribers of a feed
/// are told about it: five days.
pub const GIVE_UP_AFTER_SECS: u64 = 5 * 24 * 60 * 60;

/// The number of times a message is sent to one subscriber at most.
pub const MAX_ATTEMPTS: u32 = 3;

/// Whether the description of an error says that a chat cannot be reached.
pub open spec fn spec_chat_is_unavailable(s: Seq<char>) -> bool {
    spec_contains(s, "Forbidden"@) || spec_contains(s, "chat not found"@) || spec_contains(
        s,
        "have no rights"@,
    ) || spec_contains(s, "need administrator rights"@)
}

/// Whether the description of an error says that a chat cannot be reached.
pub fn chat_is_unavailable(s: &str) -> (r: bool)
    ensures
        r == spec_chat_is_unavailable(s@),
{
    contains(s, "Forbidden") || contains(s, "chat not found") || contains(s, "have no rights")
        || contains(s, "need administrator rights")
}

/// The seconds of the polling interval that a feed asks for, kept between
/// the shortest and the longest interval.
pub open spec fn clamped_interval(ttl: Option<u32>, min_interval: u32, max_interval: u32) -> int {
    let asked: int = match ttl {
        Some(minutes) => minutes * 60,
        None => 0,
    };
    let raised = if asked < min_interval {
        min_interval as int
    } else {
        asked
    };
    if raised > max_interval {
        max_interval as int
    } else {
        raised
    }
}

/// The delay in seconds after which a feed is fetched again: its interval,
/// kept between the shortest and the longest one, less one second, so that
/// it comes due just before a tick of the scheduler.
pub fn feed_interval(ttl: Option<u32>, min_interval: u32, max_interval: u32) -> (delay: u64)
    requires
        min_interval >= 1,
        max_interval >= 1,
    ensures
        delay == clamped_interval(ttl, min_interval, max_interval) - 1,
{
    let asked: u64 = match ttl {
        Some(minutes) => minutes as u64 * 60,
        None => 0,
    };
    let raised: u64 = if asked < min_interval as u64 {
        min_interval as u64
    } else {
        asked
    };
    let kept: u64 = if raised > max_interval as u64 {
        max_interval as u64
    } else {
        raised
    };
    kept - 1
}

/// Spreads requests over the seconds of one interval.
#[derive(Debug)]
pub struct Throttle {
    pieces: usize,
    counter: usize,
}

/// The turn of one worker: the seconds it waits before its request.
#[derive(Debug, PartialEq, Eq)]
#[must_use]
pub struct Opportunity {
    pub n: usize,
}

impl Throttle {
    #[verifier::type_invariant]
    spec fn inv(self) -> bool {
        self.pieces >= 1
    }

    /// The number of seconds over which requests are spread.
    pub closed spec fn pieces(&self) -> usize {
        self.pieces
    }

    /// The number of turns that were taken and not yet given back, counted
    /// modulo the range of `usize`.
    pub closed spec fn counter(&self) -> usize {
        self.counter
    }

    /// A throttle that spreads requests over `pieces` seconds.
    pub fn new(pieces: usize) -> (t: Throttle)
        requires
            pieces >= 1,
        ensures
            t.pieces() == pieces,
            t.counter() == 0,
    {
        Throttle { pieces, counter: 0 }
    }

    /// Takes a turn: the worker waits as many seconds as the count of open
    /// turns leaves when it is divided by the number of pieces.
    pub fn acquire(&mut self) -> (turn: Opportunity)
        ensures
            turn.n == old(self).counter() % old(self).pieces(),
            turn.n < old(self).pieces(),
            final(self).pieces() == old(self).pieces(),
            final(self).counter() == (if old(self).counter() == usize::MAX {
                0int
            } else {
                old(self).counter() + 1
            }),
    {
        proof {
            use_type_invariant(&*self);
        }
        let n = self.counter % self.pieces;
        self.counter = self.counter.wrapping_add(1);
        Opportunity { n }
    }

    /// Gives a turn back when its worker is done.
    pub fn release(&mut self)
        ensures
            final(self).pieces() == old(self).pieces(),
            final(self).counter() == (if old(self).counter() == 0 {
                usize::MAX as int
            } else {
                old(self).counter() - 1
            }),
    {
        proof {
            use_type_invariant(&*self);
        }
        self.counter = self.counter.wrapping_sub(1);
    }
}

/// The links of a list of feeds.
pub open spec fn feed_links(feeds: Seq<FeedView>) -> Seq<Seq<char>> {
    feeds.map_values(|f: FeedView| f.link)
}

/// The position at which the feed with the given link stands in a list.
fn position_of(feeds: &Vec<Feed>, link: &str) -> (r: Option<usize>)
    ensures
        match r {
            Some(i) => i < feeds.len() && feeds[i as int]@.link == link@,
            None => !feed_links(feed_views(feeds@)).contains(link@),
        },
{
    let mut i: usize = 0;
    while i < feeds.len()
        invariant
            i <= feeds.len(),
            forall|j: int| 0 <= j < i ==> feed_links(feed_views(feeds@))[j] != link@,
        decreases feeds.len() - i,
    {
        if text_eq(feeds[i].link.as_str(), link) {
            return Some(i);
        }
        i = i + 1;
    }
    None
}

/// The feeds that wait for their next fetch, each link once.
#[derive(Debug)]
pub struct FetchQueue {
    feeds: Vec<Feed>,
}

impl FetchQueue {
    #[verifier::type_invariant]
    spec fn inv(self) -> bool {
        feed_links(feed_views(self.feeds@)).no_duplicates()
    }

    /// The feeds that wait, in the order in which they were queued.
    pub closed spec fn waiting(&self) -> Seq<FeedView> {
        feed_views(self.feeds@)
    }

    /// A queue in which nothing waits.
    pub fn new() -> (q: FetchQueue)
        ensures
            q.waiting().len() == 0,
    {
        FetchQueue { feeds: Vec::new() }
    }

    /// No link waits twice.
    pub fn each_link_once(&self)
        ensures
            feed_links(self.waiting()).no_duplicates(),
    {
        proof {
            use_type_invariant(self);
        }
    }

    /// Queues a feed unless its link waits already. Returns whether it was
    /// queued.
    pub fn enqueue(&mut self, feed: Feed) -> (queued: bool)
        ensures
            queued == !feed_links(old(self).waiting()).contains(feed@.link),
            final(self).waiting() == (if queued {
                old(self).waiting().push(feed@)
            } else {
                old(self).waiting()
            }),
    {
        proof {
            use_type_invariant(&*self);
        }
        let mut feeds: Vec<Feed> = Vec::new();
        std::mem::swap(&mut feeds, &mut self.feeds);
        let ghost before = feed_views(feeds@);
        let queued = match position_of(&feeds, feed.link.as_str()) {
            Some(i) => {
                assert(feed_links(before)[i as int] == feed@.link);
                false
            },
            None => {
                feeds.push(feed);
                proof {
                    assert(feed_views(feeds@) =~= before.push(feed@));
                    assert(feed_links(feed_views(feeds@)) =~= feed_links(before).push(feed@.link));
                }
                true
            },
        };
        self.feeds = feeds;
        queued
    }

    /// Takes the feed with the given link out of the queue, when it is due.
    pub fn take(&mut self, link: &str) -> (due: Option<Feed>)
        ensures
            due is Some == feed_links(old(self).waiting()).contains(link@),
            match due {
                Some(feed) => exists|i: int|
                    {
                        &&& 0 <= i < old(self).waiting().len()
                        &&& old(self).waiting()[i] == feed@
                        &&& feed@.link == link@
                        &&& final(self).waiting() == old(self).waiting().remove(i)
                    },
                None => final(self).waiting() == old(self).waiting(),
            },
    {
        proof {
            use_type_invariant(&*self);
        }
        let mut feeds: Vec<Feed> = Vec::new();
        std::mem::swap(&mut feeds, &mut self.feeds);
        let ghost before = feed_views(feeds@);
        let ghost mut at: int = 0;
        let due = match position_of(&feeds, link) {
            Some(i) => {
                let feed = feeds.remove(i);
                proof {
                    at = i as int;
                    let after = feed_views(feeds@);
                    assert(before[at] == feed@);
                    assert(after =~= before.remove(i as int));
                    assert(feed_links(after) =~= feed_links(before).remove(i as int));
                    assert(feed_links(before)[i as int] == link@);
                    assert forall|a: int, b: int|
                        0 <= a < after.len() && 0 <= b < after.len() && a != b implies feed_links(
                        after,
                    )[a] != feed_links(after)[b] by {
                        let a0 = if a < i { a } else { a + 1 };
                        let b0 = if b < i { b } else { b + 1 };
                        assert(feed_links(before)[a0] != feed_links(before)[b0]);
                    }
                }
                Some(feed)
            },
            None => None,
        };
        self.feeds = feeds;
        proof {
            if due is Some {
                assert(self.waiting() == old(self).waiting().remove(at));
            }
        }
        due
    }
}

/// A feed that was queued: its link, and the seconds after which it is due.
#[derive(Debug, PartialEq, Eq)]
pub struct Scheduled {
    pub link: String,
    pub delay_secs: u64,
}

/// What a [`Scheduled`] holds.
pub struct ScheduledView {
    pub link: Seq<char>,
    pub delay_secs: u64,
}

impl View for Scheduled {
    type V = ScheduledView;

    open spec fn view(&self) -> ScheduledView {
        ScheduledView { link: self.link@, delay_secs: self.delay_secs }
    }
}

/// The views of a list of queued feeds.
pub open spec fn scheduled_views(list: Seq<Scheduled>) -> Seq<ScheduledView> {
    list.map_values(|s: Scheduled| s@)
}

/// The queue after a tick of the scheduler has offered it every stored
/// feed in turn: a feed whose link waits already is passed by.
pub open spec fn queue_after_tick(waiting: Seq<FeedView>, feeds: Seq<FeedView>) -> Seq<FeedView>
    decreases feeds.len(),
{
    if feeds.len() == 0 {
        waiting
    } else {
        let before = queue_after_tick(waiting, feeds.drop_last());
        if feed_links(before).contains(feeds.last().link) {
            before
        } else {
            before.push(feeds.last())
        }
    }
}

/// The feeds that a tick of the scheduler queues, each with the delay that
/// its interval gives.
pub open spec fn scheduled_by_tick(
    waiting: Seq<FeedView>,
    feeds: Seq<FeedView>,
    min_interval: u32,
    max_interval: u32,
) -> Seq<ScheduledView>
    decreases feeds.len(),
{
    if feeds.len() == 0 {
        seq![]
    } else {
        let earlier = scheduled_by_tick(waiting, feeds.drop_last(), min_interval, max_interval);
        let before = queue_after_tick(waiting, feeds.drop_last());
        if feed_links(before).contains(feeds.last().link) {
            earlier
        } else {
            earlier.push(
                ScheduledView {
                    link: feeds.last().link,
                    delay_secs: (clamped_interval(feeds.last().ttl, min_interval, max_interval)
                        - 1) as u64,
                },
            )
        }
    }
}

/// One tick of the scheduler: offers every stored feed to the queue and
/// returns those that were queued, each with the delay after which it is
/// due.
pub fn enqueue_all(queue: &mut FetchQueue, feeds: &Vec<Feed>, min_interval: u32, max_interval: u32) -> (r:
    Vec<Scheduled>)
    requires
        min_interval >= 1,
        max_interval >= 1,
    ensures
        final(queue).waiting() == queue_after_tick(old(queue).waiting(), feed_views(feeds@)),
        scheduled_views(r@) == scheduled_by_tick(
            old(queue).waiting(),
            feed_views(feeds@),
            min_interval,
            max_interval,
        ),
{
    let ghost views = feed_views(feeds@);
    let ghost start = queue.waiting();
    let mut scheduled: Vec<Scheduled> = Vec::new();
    let mut i: usize = 0;
    while i < feeds.len()
        invariant
            i <= feeds.len(),
            min_interval >= 1,
            max_interval >= 1,
            views == feed_views(feeds@),
            queue.waiting() == queue_after_tick(start, views.take(i as int)),
            scheduled_views(scheduled@) == scheduled_by_tick(
                start,
                views.take(i as int),
                min_interval,
                max_interval,
            ),
        decreases feeds.len() - i,
    {
        let feed = feeds[i].clone();
        let delay_secs = feed_interval(feed.ttl, min_interval, max_interval);
        let link = feed.link.clone();
        let ghost listed = scheduled_views(scheduled@);
        proof {
            assert(views.take(i + 1).drop_last() =~= views.take(i as int));
            assert(views.take(i + 1).last() == feeds[i as int]@);
        }
        if queue.enqueue(feed) {
            scheduled.push(Scheduled { link, delay_secs });
            proof {
                assert(scheduled_views(scheduled@) =~= listed.push(
                    ScheduledView { link: link@, delay_secs },
                ));
            }
        }
        i = i + 1;
    }
    proof {
        assert(views.take(feeds.len() as int) =~= views);
    }
    scheduled
}

/// What follows a failed fetch.
#[derive(Debug, Clone, Copy, PartialEq, Eq)]
pub enum FailureAction {
    /// The feed is no longer stored: nothing is done.
    Stop,
    /// The feed is fetched again at its next turn, and nobody is told.
    Wait,
    /// The feed has been failing for too long: its subscribers are told.
    GiveUp,
}

/// What follows a failed fetch of a feed that has been failing for
/// `down_time` seconds, or that is no longer stored.
pub open spec fn spec_failure_action(down_time: Option<u64>) -> FailureAction {
    match down_time {
        None => FailureAction::Stop,
        Some(secs) => if secs > GIVE_UP_AFTER_SECS {
            FailureAction::GiveUp
        } else {
            FailureAction::Wait
        },
    }
}

/// Decides what follows a failed fetch.
pub fn on_fetch_failure(down_time: Option<u64>) -> (action: FailureAction)
    ensures
        action == spec_failure_action(down_time),
{
    match down_time {
        None => FailureAction::Stop,
        Some(secs) => if secs > GIVE_UP_AFTER_SECS {
            FailureAction::GiveUp
        } else {
            FailureAction::Wait
        },
    }
}

/// Takes note of a failed fetch at the time `now`. The first failure after
/// a success starts the failure clock of the feed. A feed that has been
/// failing for more than five days has its clock cleared and its
/// subscribers told.
pub fn record_failure(db: &mut Database, rss_link: &str, now: Timestamp) -> (action: FailureAction)
    ensures
        ({
            let id = spec_gen_hash(rss_link@);
            let before = old(db)@;
            if !before.feeds.contains_key(id) {
                action == FailureAction::Stop && final(db)@ == before
            } else {
                match before.feeds[id].down_time {
                    None => action == FailureAction::Wait && final(db)@ == before.with_feed(
                        id,
                        (FeedView { down_time: Some(now), ..before.feeds[id] }),
                    ),
                    Some(since) => if now.spec_secs_since(since) > GIVE_UP_AFTER_SECS {
                        action == FailureAction::GiveUp && final(db)@ == before.with_feed(
                            id,
                            (FeedView { down_time: None, ..before.feeds[id] }),
                        )
                    } else {
                        action == FailureAction::Wait && final(db)@ == before
                    },
                }
            }
        }),
{
    let down_time = db.get_or_update_down_time(rss_link, now);
    let action = on_fetch_failure(down_time);
    match action {
        FailureAction::GiveUp => {
            db.reset_down_time(rss_link);
        },
        _ => {},
    }
    action
}

/// How an attempt to send a message ended.
#[derive(Debug, PartialEq, Eq)]
pub enum SendOutcome {
    /// The message was sent.
    Sent,
    /// The messaging service refused the request: its description, the chat
    /// that this one has moved to, and the seconds to wait before the next
    /// request.
    Refused { description: String, migrate_to_chat_id: Option<i64>, retry_after: Option<u64> },
    /// Any other failure.
    Failed,
}

/// What follows an attempt to send a message.
#[derive(Debug, Clone, Copy, PartialEq, Eq)]
pub enum Delivery {
    /// Nothing more is sent to this subscriber.
    Done,
    /// The message is sent again, to `subscriber`, after `delay_secs`
    /// seconds.
    Retry { subscriber: i64, delay_secs: u64 },
    /// The failure is reported, and nothing more is sent to this
    /// subscriber.
    Surface,
}

/// What a refusal asks for, by its first trait that applies.
pub enum Refusal {
    /// The chat cannot be reached.
    Unavailable,
    /// The chat has moved.
    Migrated(i64),
    /// The service is busy for a number of seconds.
    Busy(u64),
    /// Nothing that calls for a remedy.
    Other,
}

/// What a refusal asks for: a chat that cannot be reached comes before a
/// chat that has moved, and that before a wait.
pub open spec fn spec_refusal(
    description: Seq<char>,
    migrate_to_chat_id: Option<i64>,
    retry_after: Option<u64>,
) -> Refusal {
    if spec_chat_is_unavailable(description) {
        Refusal::Unavailable
    } else if migrate_to_chat_id is Some {
        Refusal::Migrated(migrate_to_chat_id->0)
    } else if retry_after is Some {
        Refusal::Busy(retry_after->0)
    } else {
        Refusal::Other
    }
}

/// What follows the attempt number `attempt` to send a message to
/// `subscriber`.
pub open spec fn spec_delivery(
    subscriber: i64,
    attempt: u32,
    description: Seq<char>,
    migrate_to_chat_id: Option<i64>,
    retry_after: Option<u64>,
) -> Delivery {
    match spec_refusal(description, migrate_to_chat_id, retry_after) {
        Refusal::Unavailable => Delivery::Done,
        Refusal::Migrated(to) => if attempt < MAX_ATTEMPTS {
            Delivery::Retry { subscriber: to, delay_secs: 0 }
        } else {
            Delivery::Done
        },
        Refusal::Busy(delay) => if attempt < MAX_ATTEMPTS {
            Delivery::Retry { subscriber, delay_secs: delay }
        } else {
            Delivery::Done
        },
        Refusal::Other => Delivery::Surface,
    }
}

/// The store after a refusal: a subscriber that cannot be reached is
/// deleted, one that has moved is renamed.
pub open spec fn store_after_refusal(
    db: DatabaseView,
    subscriber: i64,
    description: Seq<char>,
    migrate_to_chat_id: Option<i64>,
    retry_after: Option<u64>,
) -> DatabaseView {
    match spec_refusal(description, migrate_to_chat_id, retry_after) {
        Refusal::Unavailable => db.without(subscriber),
        Refusal::Migrated(to) => db.renamed(subscriber, to),
        _ => db,
    }
}

/// Decides what follows the attempt number `attempt`, counted from one, to
/// send a message to `subscriber`, and brings the store up to date.
pub fn after_send(db: &mut Database, subscriber: i64, attempt: u32, outcome: &SendOutcome) -> (next:
    Delivery)
    ensures
        match outcome {
            SendOutcome::Sent => next == Delivery::Done && final(db)@ == old(db)@,
            SendOutcome::Failed => next == Delivery::Surface && final(db)@ == old(db)@,
            SendOutcome::Refused { description, migrate_to_chat_id, retry_after } => {
                &&& next == spec_delivery(
                    subscriber,
                    attempt,
                    description@,
                    *migrate_to_chat_id,
                    *retry_after,
                )
                &&& final(db)@ == store_after_refusal(
                    old(db)@,
                    subscriber,
                    description@,
                    *migrate_to_chat_id,
                    *retry_after,
                )
            },
        },
{
    match outcome {
        SendOutcome::Sent => Delivery::Done,
        SendOutcome::Failed => Delivery::Surface,
        SendOutcome::Refused { description, migrate_to_chat_id, retry_after } => {
            if chat_is_unavailable(description.as_str()) {
                db.delete_subscriber(subscriber);
                Delivery::Done
            } else {
                match migrate_to_chat_id {
                    Some(to) => {
                        db.update_subscriber(subscriber, *to);
                        if attempt < MAX_ATTEMPTS {
                            Delivery::Retry { subscriber: *to, delay_secs: 0 }
                        } else {
                            Delivery::Done
                        }
                    },
                    None => match retry_after {
                        Some(delay) => {
                            if attempt < MAX_ATTEMPTS {
                                Delivery::Retry { subscriber, delay_secs: *delay }
                            } else {
                                Delivery::Done
                            }
                        },
                        None => Delivery::Surface,
                    },
                }
            }
        },
    }
}

/// The head of a message about new items: the title of the feed in bold.
pub open spec fn items_head(feed_title: Seq<char>) -> Seq<char> {
    "<b>"@ + escape_html(feed_title) + "</b>"@
}

/// The line of one new item: its title as a link to it. An item without a
/// title shows that of the feed, one without a link leads to the feed.
pub open spec fn item_line(item: ItemView, feed_title: Seq<char>, feed_link: Seq<char>) -> Seq<
    char,
> {
    let title = match item.title {
        Some(title) => title,
        None => feed_title,
    };
    let link = match item.link {
        Some(link) => link,
        None => feed_link,
    };
    "<a href=\""@ + escape_html(link) + "\">"@ + escape_html(title) + "</a>"@
}

/// The messages that tell of new items of a feed.
pub open spec fn spec_items_messages(
    feed_title: Seq<char>,
    feed_link: Seq<char>,
    items: Seq<ItemView>,
) -> Seq<Seq<char>> {
    split_lines(
        items_head(feed_title),
        items.map_values(|i: ItemView| item_line(i, feed_title, feed_link)),
    )
}

/// Writes the line of one new item.
pub fn format_item(item: &Item, feed_title: &str, feed_link: &str) -> (line: String)
    ensures
        line@ == item_line(item@, feed_title@, feed_link@),
{
    let title = match &item.title {
        Some(title) => title.as_str(),
        None => feed_title,
    };
    let link = match &item.link {
        Some(link) => link.as_str(),
        None => feed_link,
    };
    let mut line = "<a href=\"".to_owned();
    line.append(Escape(link).to_string().as_str());
    line.append("\">");
    line.append(Escape(title).to_string().as_str());
    line.append("</a>");
    line
}

/// Writes the messages that tell of new items of a feed.
pub fn items_messages(feed_title: &str, feed_link: &str, items: &Vec<Item>) -> (msgs: Vec<String>)
    ensures
        string_views(msgs@) == spec_items_messages(feed_title@, feed_link@, item_views(items@)),
{
    let mut head = "<b>".to_owned();
    head.append(Escape(feed_title).to_string().as_str());
    head.append("</b>");
    let mut lines: Vec<String> = Vec::new();
    let mut i: usize = 0;
    while i < items.len()
        invariant
            i <= items.len(),
            lines.len() == i,
            forall|j: int|
                0 <= j < i ==> (#[trigger] lines[j])@ == item_line(
                    items[j]@,
                    feed_title@,
                    feed_link@,
                ),
        decreases items.len() - i,
    {
        lines.push(format_item(&items[i], feed_title, feed_link));
        i = i + 1;
    }
    proof {
        assert(string_views(lines@) =~= item_views(items@).map_values(
            |i: ItemView| item_line(i, feed_title@, feed_link@),
        ));
    }
    join_lines(head, &lines)
}

/// How a failed request to send a message counts: a refusal of the service
/// with what it says about the chat, or a failure of any other kind.
pub open spec fn spec_outcome_of(error: Error) -> SendOutcome {
    match error {
        Error::Telegram(_, description, parameters) => SendOutcome::Refused {
            description,
            migrate_to_chat_id: match parameters {
                Some(p) => p.migrate_to_chat_id,
                None => None,
            },
            retry_after: match parameters {
                Some(p) => match p.retry_after {
                    Some(secs) => if secs >= 0 {
                        Some(secs as u64)
                    } else {
                        Some(0u64)
                    },
                    None => None,
                },
                None => None,
            },
        },
        _ => SendOutcome::Failed,
    }
}

/// Reads the failure of a request to send a message.
pub fn outcome_of(error: Error) -> (outcome: SendOutcome)
    ensures
        outcome == spec_outcome_of(error),
{
    match error {
        Error::Telegram(_, description, parameters) => {
            let (migrate_to_chat_id, retry_after) = match parameters {
                Some(p) => (
                    p.migrate_to_chat_id,
                    match p.retry_after {
                        Some(secs) => if secs >= 0 {
                            Some(secs as u64)
                        } else {
                            Some(0u64)
                        },
                        None => None,
                    },
                ),
                None => (None, None),
            };
            SendOutcome::Refused { description, migrate_to_chat_id, retry_after }
        },
        _ => SendOutcome::Failed,
    }
}

} // verus!
