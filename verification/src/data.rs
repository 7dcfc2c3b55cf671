//! The subscription store: feeds, their subscribers, and the index from each
//! subscriber to the feeds it follows.

use std::collections::hash_map::DefaultHasher;
use std::collections::HashMap;
use std::collections::HashSet;
use std::hash::Hash;
use std::hash::Hasher;
use vstd::prelude::*;
use vstd::std_specs::hash::DefaultHasherAdditionalSpecFns;
use vstd::std_specs::iter::IteratorSpec;
use crate::feed::{item_views, Item, ItemView, Rss, RssView};

verus! {

broadcast use vstd::std_specs::hash::group_hash_axioms;

/// What hashing a string feeds into a hasher.
pub uninterp spec fn str_hash_writes(s: Seq<char>) -> Seq<Seq<u8>>;

/// `<str as Hash>::hash`: feeds the string into the hasher. The writes it
/// makes depend on the string alone.
#[verifier::external_body]
fn hash_str(s: &str, state: &mut DefaultHasher)
    ensures
        final(state)@ == old(state)@ + str_hash_writes(s@),
{
    s.hash(state)
}

/// The 64-bit hash of a string under the standard library's default hasher.
pub open spec fn spec_gen_hash(s: Seq<char>) -> u64 {
    DefaultHasher::spec_finish(str_hash_writes(s))
}

/// Hashes a string with the standard library's default hasher.
pub fn gen_hash(s: &str) -> (h: u64)
    ensures
        h == spec_gen_hash(s@),
{
    let mut hasher = DefaultHasher::new();
    hash_str(s, &mut hasher);
    assert(hasher@ =~= str_hash_writes(s@));
    hasher.finish()
}

/// The text of an optional string, empty where there is none.
pub open spec fn text_or_empty(o: Option<Seq<char>>) -> Seq<char> {
    match o {
        Some(s) => s,
        None => Seq::empty(),
    }
}

/// The fingerprint of an item: the hash of its id, or, where it has none, of
/// its title followed by its link.
pub open spec fn item_fingerprint(item: ItemView) -> u64 {
    match item.id {
        Some(id) => spec_gen_hash(id),
        None => spec_gen_hash(text_or_empty(item.title) + text_or_empty(item.link)),
    }
}

/// The fingerprints of a sequence of items, in order.
pub open spec fn fingerprints(items: Seq<ItemView>) -> Seq<u64> {
    items.map_values(|i: ItemView| item_fingerprint(i))
}

/// Computes the fingerprint of an item.
pub fn gen_item_hash(item: &Item) -> (h: u64)
    ensures
        h == item_fingerprint(item@),
{
    match &item.id {
        Some(id) => gen_hash(id.as_str()),
        None => {
            let mut s = String::new();
            match &item.title {
                Some(t) => s.append(t.as_str()),
                None => {},
            }
            match &item.link {
                Some(l) => s.append(l.as_str()),
                None => {},
            }
            assert(s@ =~= text_or_empty(item@.title) + text_or_empty(item@.link));
            gen_hash(s.as_str())
        },
    }
}

/// The fingerprints of a list of items.
fn item_hashes(items: &Vec<Item>) -> (r: Vec<u64>)
    ensures
        r@ == fingerprints(item_views(items@)),
{
    let mut out: Vec<u64> = Vec::new();
    let mut i: usize = 0;
    while i < items.len()
        invariant
            i <= items.len(),
            out.len() == i,
            forall|j: int| 0 <= j < i ==> out[j] == item_fingerprint(items[j]@),
        decreases items.len() - i,
    {
        out.push(gen_item_hash(&items[i]));
        i = i + 1;
    }
    assert(out@ =~= fingerprints(item_views(items@)));
    out
}

/// A point in time, counted from the Unix epoch.
#[derive(Debug, Clone, Copy, PartialEq, Eq)]
pub struct Timestamp {
    pub secs_since_epoch: u64,
    pub nanos_since_epoch: u32,
}

impl Timestamp {
    /// Whether `self` is not later than `other`.
    pub open spec fn not_after(self, other: Timestamp) -> bool {
        self.secs_since_epoch < other.secs_since_epoch || (self.secs_since_epoch
            == other.secs_since_epoch && self.nanos_since_epoch <= other.nanos_since_epoch)
    }

    /// The whole seconds from `earlier` to `self`; zero where `earlier` is
    /// the later of the two.
    pub open spec fn spec_secs_since(self, earlier: Timestamp) -> nat {
        if earlier.not_after(self) {
            if self.nanos_since_epoch < earlier.nanos_since_epoch {
                (self.secs_since_epoch - earlier.secs_since_epoch - 1) as nat
            } else {
                (self.secs_since_epoch - earlier.secs_since_epoch) as nat
            }
        } else {
            0
        }
    }

    /// The whole seconds that passed from `earlier` to `self`.
    pub fn secs_since(&self, earlier: &Timestamp) -> (d: u64)
        ensures
            d == self.spec_secs_since(*earlier),
    {
        if self.secs_since_epoch < earlier.secs_since_epoch {
            0
        } else if self.secs_since_epoch == earlier.secs_since_epoch {
            0
        } else if self.nanos_since_epoch < earlier.nanos_since_epoch {
            self.secs_since_epoch - earlier.secs_since_epoch - 1
        } else {
            self.secs_since_epoch - earlier.secs_since_epoch
        }
    }
}

/// A feed as the store keeps it.
#[derive(Debug, Default)]
pub struct Feed {
    pub link: String,
    pub title: String,
    pub down_time: Option<Timestamp>,
    pub subscribers: HashSet<i64>,
    pub ttl: Option<u32>,
    pub hash_list: Vec<u64>,
}

/// What a [`Feed`] holds.
pub struct FeedView {
    pub link: Seq<char>,
    pub title: Seq<char>,
    pub down_time: Option<Timestamp>,
    pub subscribers: Set<i64>,
    pub ttl: Option<u32>,
    pub hash_list: Seq<u64>,
}

impl View for Feed {
    type V = FeedView;

    open spec fn view(&self) -> FeedView {
        FeedView {
            link: self.link@,
            title: self.title@,
            down_time: self.down_time,
            subscribers: self.subscribers@,
            ttl: self.ttl,
            hash_list: self.hash_list@,
        }
    }
}

/// The members of a set of chat ids, each once, in no particular order.
pub fn set_members(s: &HashSet<i64>) -> (r: Vec<i64>)
    ensures
        r@.no_duplicates(),
        r@.to_set() == s@,
{
    let mut out: Vec<i64> = Vec::new();
    for k in it: s.iter()
        invariant
            out@ == it.seq().take(it.index()).unref(),
    {
        out.push(*k);
    }
    proof {
        let all = vstd::std_specs::hash::spec_hash_keys_iter(s).remaining();
        assert(all.take(all.len() as int) =~= all);
        assert(out@ =~= all.unref());
    }
    out
}

/// The members of a set of feed ids, each once, in no particular order.
pub fn feed_ids(s: &HashSet<u64>) -> (r: Vec<u64>)
    ensures
        r@.no_duplicates(),
        r@.to_set() == s@,
{
    let mut out: Vec<u64> = Vec::new();
    for k in it: s.iter()
        invariant
            out@ == it.seq().take(it.index()).unref(),
    {
        out.push(*k);
    }
    proof {
        let all = vstd::std_specs::hash::spec_hash_keys_iter(s).remaining();
        assert(all.take(all.len() as int) =~= all);
        assert(out@ =~= all.unref());
    }
    out
}

/// Copies a set of chat ids.
pub fn clone_set(s: &HashSet<i64>) -> (r: HashSet<i64>)
    ensures
        r@ == s@,
{
    let members = set_members(s);
    let mut out: HashSet<i64> = HashSet::new();
    let mut i: usize = 0;
    while i < members.len()
        invariant
            i <= members.len(),
            out@ == members@.take(i as int).to_set(),
        decreases members.len() - i,
    {
        out.insert(members[i]);
        proof {
            assert(members@.take(i + 1) =~= members@.take(i as int).push(members[i as int]));
            vstd::seq_lib::seq_to_set_is_finite(members@.take(i as int));
            assert(members@.take(i + 1).to_set() =~= members@.take(i as int).to_set().insert(
                members[i as int],
            )) by {
                lemma_to_set_push(members@.take(i as int), members[i as int]);
            }
        }
        i = i + 1;
    }
    assert(members@.take(members.len() as int) =~= members@);
    out
}

/// The members of a sequence with one more pushed are its members and that one.
pub proof fn lemma_to_set_push<A>(s: Seq<A>, a: A)
    ensures
        s.push(a).to_set() =~= s.to_set().insert(a),
{
    assert forall|x: A| s.push(a).to_set().contains(x) <==> s.to_set().insert(a).contains(x) by {
        if s.push(a).contains(x) {
            let i = choose|i: int| 0 <= i < s.push(a).len() && s.push(a)[i] == x;
            if i < s.len() {
                assert(s[i] == x);
            }
        }
        if s.contains(x) {
            let i = choose|i: int| 0 <= i < s.len() && s[i] == x;
            assert(s.push(a)[i] == x);
        }
        if x == a {
            assert(s.push(a)[s.len() as int] == a);
        }
    }
}

impl Clone for Feed {
    fn clone(&self) -> (r: Self)
        ensures
            r@ == self@,
    {
        Feed {
            link: self.link.clone(),
            title: self.title.clone(),
            down_time: self.down_time,
            subscribers: clone_set(&self.subscribers),
            ttl: self.ttl,
            hash_list: self.hash_list.clone(),
        }
    }
}

/// A hub that announces updates of a feed: where it calls back, and the
/// secret it signs with.
#[derive(Debug, Clone, Default, PartialEq, Eq)]
pub struct Hub {
    pub callback: String,
    pub secret: String,
}

/// One change that an update of a feed found.
#[derive(Debug)]
pub enum FeedUpdate {
    /// The entries that were not seen before, in source order.
    Items(Vec<Item>),
    /// The new title of the feed.
    Title(String),
}

/// What a [`FeedUpdate`] holds.
pub enum FeedUpdateView {
    Items(Seq<ItemView>),
    Title(Seq<char>),
}

impl View for FeedUpdate {
    type V = FeedUpdateView;

    open spec fn view(&self) -> FeedUpdateView {
        match self {
            FeedUpdate::Items(items) => FeedUpdateView::Items(item_views(items@)),
            FeedUpdate::Title(title) => FeedUpdateView::Title(title@),
        }
    }
}

/// The views of a list of updates.
pub open spec fn update_views(updates: Seq<FeedUpdate>) -> Seq<FeedUpdateView> {
    updates.map_values(|u: FeedUpdate| u@)
}

/// The items of a poll whose fingerprint the window does not hold, in
/// source order.
pub open spec fn new_items(window: Seq<u64>, items: Seq<ItemView>) -> Seq<ItemView> {
    items.filter(|i: ItemView| !window.contains(item_fingerprint(i)))
}

/// The window after a poll: the fingerprints of the new items, then the old
/// window in its order, cut to twice the number of items of the poll.
pub open spec fn next_window(window: Seq<u64>, items: Seq<ItemView>) -> Seq<u64> {
    let all = fingerprints(new_items(window, items)) + window;
    if all.len() <= 2 * items.len() {
        all
    } else {
        all.take(2 * items.len() as int)
    }
}

/// The changes that a poll brings to a stored feed: its new items, if there
/// are any, then its new title, if it has changed.
pub open spec fn spec_updates(feed: FeedView, rss: RssView) -> Seq<FeedUpdateView> {
    let fresh = new_items(feed.hash_list, rss.items);
    let items = if fresh.len() > 0 {
        seq![FeedUpdateView::Items(fresh)]
    } else {
        seq![]
    };
    let title = if rss.title != feed.title {
        seq![FeedUpdateView::Title(rss.title)]
    } else {
        seq![]
    };
    items + title
}

impl FeedView {
    /// The record made for a link at its first subscription: the parsed
    /// title and interval, a window of every parsed item, no subscriber yet.
    pub open spec fn fresh(link: Seq<char>, rss: RssView) -> FeedView {
        FeedView {
            link,
            title: rss.title,
            down_time: None,
            subscribers: Set::empty(),
            ttl: rss.ttl,
            hash_list: fingerprints(rss.items),
        }
    }

    pub open spec fn with_subscribers(self, subscribers: Set<i64>) -> FeedView {
        FeedView { subscribers, ..self }
    }

    /// The stored feed after a poll: title and interval as parsed, the
    /// failure clock cleared, the window moved on.
    pub open spec fn refreshed(self, rss: RssView) -> FeedView {
        FeedView {
            title: rss.title,
            ttl: rss.ttl,
            down_time: None,
            hash_list: next_window(self.hash_list, rss.items),
            ..self
        }
    }
}

/// Whether `window` holds `hash`.
fn window_contains(window: &Vec<u64>, hash: u64) -> (b: bool)
    ensures
        b == window@.contains(hash),
{
    let mut i: usize = 0;
    while i < window.len()
        invariant
            i <= window.len(),
            forall|j: int| 0 <= j < i ==> window[j] != hash,
        decreases window.len() - i,
    {
        if window[i] == hash {
            return true;
        }
        i = i + 1;
    }
    false
}

/// The new items of a poll with their fingerprints, and the window that
/// follows.
fn diff_items(window: &Vec<u64>, items: &Vec<Item>) -> (r: (Vec<Item>, Vec<u64>))
    ensures
        item_views(r.0@) == new_items(window@, item_views(items@)),
        r.1@ == next_window(window@, item_views(items@)),
{
    let ghost polled = item_views(items@);
    let ghost is_new = |i: ItemView| !window@.contains(item_fingerprint(i));
    let mut fresh: Vec<Item> = Vec::new();
    let mut hashes: Vec<u64> = Vec::new();
    let mut i: usize = 0;
    proof {
        reveal(Seq::filter);
    }
    while i < items.len()
        invariant
            i <= items.len(),
            polled == item_views(items@),
            is_new == |i: ItemView| !window@.contains(item_fingerprint(i)),
            item_views(fresh@) == polled.take(i as int).filter(is_new),
            hashes@ == fingerprints(item_views(fresh@)),
            fresh.len() <= i,
        decreases items.len() - i,
    {
        let hash = gen_item_hash(&items[i]);
        proof {
            reveal(Seq::filter);
            assert(polled.take(i + 1).drop_last() =~= polled.take(i as int));
            assert(polled.take(i + 1).last() == items[i as int]@);
        }
        if !window_contains(window, hash) {
            let ghost before = item_views(fresh@);
            fresh.push(items[i].clone());
            hashes.push(hash);
            proof {
                assert(item_views(fresh@) =~= before.push(items[i as int]@));
                assert(hashes@ =~= fingerprints(item_views(fresh@)));
            }
        }
        i = i + 1;
    }
    proof {
        assert(polled.take(items.len() as int) =~= polled);
    }
    let room: u128 = 2 * (items.len() as u128) - (hashes.len() as u128);
    let ghost news = hashes@;
    let mut j: usize = 0;
    while j < window.len() && (j as u128) < room
        invariant
            j <= window.len(),
            j <= room,
            room == 2 * items.len() - news.len(),
            hashes@ == news + window@.take(j as int),
        decreases window.len() - j,
    {
        hashes.push(window[j]);
        proof {
            assert(window@.take(j + 1) =~= window@.take(j as int).push(window[j as int]));
        }
        j = j + 1;
    }
    proof {
        let all = news + window@;
        if j == window.len() {
            assert(window@.take(j as int) =~= window@);
            assert(hashes@ =~= all);
        } else {
            assert(all.take(2 * items.len() as int) =~= news + window@.take(j as int));
        }
        assert(polled.len() == items.len());
        assert(hashes@ =~= next_window(window@, polled));
    }
    (fresh, hashes)
}

/// The views of a list of feeds.
pub open spec fn feed_views(feeds: Seq<Feed>) -> Seq<FeedView> {
    feeds.map_values(|f: Feed| f@)
}

/// The keys under which the feeds of a list are kept.
pub open spec fn feed_keys(feeds: Seq<Feed>) -> Seq<u64> {
    feeds.map_values(|f: Feed| spec_gen_hash(f@.link))
}

/// `feeds` lists the feeds of `store` with the keys `keys`, each once.
pub open spec fn lists(feeds: Seq<Feed>, keys: Set<u64>, store: Map<u64, FeedView>) -> bool {
    &&& feed_keys(feeds).no_duplicates()
    &&& feed_keys(feeds).to_set() == keys
    &&& forall|i: int|
        0 <= i < feeds.len() ==> store.contains_key(#[trigger] feed_keys(feeds)[i]) && feeds[i]@
            == store[feed_keys(feeds)[i]]
}

/// What a [`Database`] holds: the feeds by the hash of their link, and for
/// each subscriber the hashes of the feeds it follows.
pub struct DatabaseView {
    pub feeds: Map<u64, FeedView>,
    pub subscribers: Map<i64, Set<u64>>,
}

impl DatabaseView {
    /// The store without any feed.
    pub open spec fn empty() -> DatabaseView {
        DatabaseView { feeds: Map::empty(), subscribers: Map::empty() }
    }

    /// The index lists feed `f` under subscriber `s`.
    pub open spec fn follows(self, s: i64, f: u64) -> bool {
        self.subscribers.contains_key(s) && self.subscribers[s].contains(f)
    }

    /// Feed `f` is stored and names `s` among its subscribers.
    pub open spec fn reaches(self, s: i64, f: u64) -> bool {
        self.feeds.contains_key(f) && self.feeds[f].subscribers.contains(s)
    }

    /// The feeds that `s` follows; none where `s` is unknown.
    pub open spec fn followed(self, s: i64) -> Set<u64> {
        if self.subscribers.contains_key(s) {
            self.subscribers[s]
        } else {
            Set::empty()
        }
    }

    /// The invariant of the store: every stored feed has a subscriber and is
    /// kept under the hash of its link, every known subscriber follows a
    /// feed, and the two indexes agree.
    pub open spec fn wf(self) -> bool {
        &&& self.feeds.dom().finite()
        &&& self.subscribers.dom().finite()
        &&& forall|f: u64| #[trigger]
            self.feeds.contains_key(f) ==> {
                &&& self.feeds[f].subscribers.finite()
                &&& !self.feeds[f].subscribers.is_empty()
                &&& f == spec_gen_hash(self.feeds[f].link)
            }
        &&& forall|s: i64| #[trigger]
            self.subscribers.contains_key(s) ==> {
                &&& self.subscribers[s].finite()
                &&& !self.subscribers[s].is_empty()
            }
        &&& forall|s: i64, f: u64|
            #![trigger self.follows(s, f)]
            #![trigger self.reaches(s, f)]
            self.follows(s, f) == self.reaches(s, f)
    }

    /// The store after `s` subscribes to `link`, whose parsed form is `rss`.
    pub open spec fn subscribe(self, s: i64, link: Seq<char>, rss: RssView) -> DatabaseView {
        let id = spec_gen_hash(link);
        if self.follows(s, id) {
            self
        } else {
            let feed = if self.feeds.contains_key(id) {
                self.feeds[id]
            } else {
                FeedView::fresh(link, rss)
            };
            DatabaseView {
                feeds: self.feeds.insert(id, feed.with_subscribers(feed.subscribers.insert(s))),
                subscribers: self.subscribers.insert(s, self.followed(s).insert(id)),
            }
        }
    }

    /// The store after the subscription of `s` to feed `id` is dropped: the
    /// feed goes with its last subscriber, the subscriber with its last feed.
    pub open spec fn drop_subscription(self, s: i64, id: u64) -> DatabaseView {
        if self.follows(s, id) && self.reaches(s, id) {
            let rest = self.subscribers[s].remove(id);
            let left = self.feeds[id].subscribers.remove(s);
            DatabaseView {
                feeds: if left.is_empty() {
                    self.feeds.remove(id)
                } else {
                    self.feeds.insert(id, self.feeds[id].with_subscribers(left))
                },
                subscribers: if rest.is_empty() {
                    self.subscribers.remove(s)
                } else {
                    self.subscribers.insert(s, rest)
                },
            }
        } else {
            self
        }
    }

    /// The subscribers that feed `f` keeps when `s` leaves it.
    pub open spec fn others(self, s: i64, f: u64) -> Set<i64> {
        self.feeds[f].subscribers.remove(s)
    }

    /// The store after `s` has left every feed: a feed that it alone
    /// followed is gone, and so is `s`.
    pub open spec fn without(self, s: i64) -> DatabaseView {
        DatabaseView {
            feeds: Map::new(
                |f: u64| self.feeds.contains_key(f) && !self.others(s, f).is_empty(),
                |f: u64| self.feeds[f].with_subscribers(self.others(s, f)),
            ),
            subscribers: self.subscribers.remove(s),
        }
    }

    /// The store after `s` has left the feeds in `done`.
    pub open spec fn dropped(self, s: i64, done: Set<u64>) -> DatabaseView {
        DatabaseView {
            feeds: Map::new(
                |f: u64|
                    self.feeds.contains_key(f) && !(done.contains(f) && self.others(
                        s,
                        f,
                    ).is_empty()),
                |f: u64|
                    if done.contains(f) {
                        self.feeds[f].with_subscribers(self.others(s, f))
                    } else {
                        self.feeds[f]
                    },
            ),
            subscribers: if self.followed(s).difference(done).is_empty() {
                self.subscribers.remove(s)
            } else {
                self.subscribers.insert(s, self.followed(s).difference(done))
            },
        }
    }

    /// The store after every subscription of `from` has passed to `to`.
    pub open spec fn renamed(self, from: i64, to: i64) -> DatabaseView {
        if !self.subscribers.contains_key(from) || from == to {
            self
        } else {
            let moved = self.subscribers[from];
            DatabaseView {
                feeds: Map::new(
                    |f: u64| self.feeds.contains_key(f),
                    |f: u64|
                        if moved.contains(f) {
                            self.feeds[f].with_subscribers(
                                self.feeds[f].subscribers.remove(from).insert(to),
                            )
                        } else {
                            self.feeds[f]
                        },
                ),
                subscribers: self.subscribers.remove(from).insert(
                    to,
                    self.followed(to).union(moved),
                ),
            }
        }
    }

    /// The store with the feed under `id` replaced by `feed`.
    pub open spec fn with_feed(self, id: u64, feed: FeedView) -> DatabaseView {
        DatabaseView { feeds: self.feeds.insert(id, feed), ..self }
    }

    /// The store after the feed at `link` was polled with the result `rss`.
    pub open spec fn update(self, link: Seq<char>, rss: RssView) -> DatabaseView {
        let id = spec_gen_hash(link);
        if self.feeds.contains_key(id) {
            self.with_feed(id, self.feeds[id].refreshed(rss))
        } else {
            self
        }
    }

    /// The store without the feed under `id`: no subscriber follows it any
    /// more, and a subscriber that followed nothing else is gone.
    pub open spec fn without_feed(self, id: u64) -> DatabaseView {
        DatabaseView {
            feeds: self.feeds.remove(id),
            subscribers: Map::new(
                |s: i64|
                    self.subscribers.contains_key(s) && !self.subscribers[s].remove(id).is_empty(),
                |s: i64| self.subscribers[s].remove(id),
            ),
        }
    }

    /// The store with one more feed, which each of its subscribers follows.
    pub open spec fn with_new_feed(self, feed: FeedView) -> DatabaseView {
        let id = spec_gen_hash(feed.link);
        DatabaseView {
            feeds: self.feeds.insert(id, feed),
            subscribers: Map::new(
                |s: i64| self.subscribers.contains_key(s) || feed.subscribers.contains(s),
                |s: i64|
                    if feed.subscribers.contains(s) {
                        self.followed(s).insert(id)
                    } else {
                        self.subscribers[s]
                    },
            ),
        }
    }

    /// The store after a feed was read from a snapshot: a feed without
    /// subscribers is dropped; any other takes the place of the feed that is
    /// kept under the same key.
    pub open spec fn load(self, feed: FeedView) -> DatabaseView {
        if feed.subscribers.is_empty() {
            self
        } else {
            self.without_feed(spec_gen_hash(feed.link)).with_new_feed(feed)
        }
    }

    /// The part of the store that concerns the feeds in `keys`.
    pub open spec fn restricted(self, keys: Set<u64>) -> DatabaseView {
        DatabaseView {
            feeds: self.feeds.restrict(keys),
            subscribers: Map::new(
                |s: i64|
                    self.subscribers.contains_key(s) && !self.subscribers[s].intersect(
                        keys,
                    ).is_empty(),
                |s: i64| self.subscribers[s].intersect(keys),
            ),
        }
    }
}

/// The store that a snapshot gives: its feeds read in, one after the other.
pub open spec fn loaded(feeds: Seq<FeedView>) -> DatabaseView
    decreases feeds.len(),
{
    if feeds.len() == 0 {
        DatabaseView::empty()
    } else {
        loaded(feeds.drop_last()).load(feeds.last())
    }
}

/// Subscribing keeps the invariant of the store.
pub proof fn lemma_subscribe_wf(v: DatabaseView, s: i64, link: Seq<char>, rss: RssView)
    requires
        v.wf(),
    ensures
        v.subscribe(s, link, rss).wf(),
{
    let id = spec_gen_hash(link);
    let w = v.subscribe(s, link, rss);
    if !v.follows(s, id) {
        assert(!v.reaches(s, id));
        let feed = if v.feeds.contains_key(id) {
            v.feeds[id]
        } else {
            FeedView::fresh(link, rss)
        };
        assert(w.feeds[id].subscribers.contains(s));
        assert(w.subscribers[s].contains(id));
        assert forall|f: u64| #[trigger] w.feeds.contains_key(f) implies {
            &&& w.feeds[f].subscribers.finite()
            &&& !w.feeds[f].subscribers.is_empty()
            &&& f == spec_gen_hash(w.feeds[f].link)
        } by {
            if f != id {
                assert(v.feeds.contains_key(f));
            }
        }
        assert forall|t: i64| #[trigger] w.subscribers.contains_key(t) implies {
            &&& w.subscribers[t].finite()
            &&& !w.subscribers[t].is_empty()
        } by {
            if t != s {
                assert(v.subscribers.contains_key(t));
            }
        }
        assert forall|t: i64, f: u64| w.follows(t, f) == w.reaches(t, f) by {
            assert(v.follows(t, f) == v.reaches(t, f));
        }
    }
}

/// Dropping a subscription keeps the invariant of the store.
pub proof fn lemma_drop_subscription_wf(v: DatabaseView, s: i64, id: u64)
    requires
        v.wf(),
    ensures
        v.drop_subscription(s, id).wf(),
{
    let w = v.drop_subscription(s, id);
    if v.follows(s, id) && v.reaches(s, id) {
        let rest = v.subscribers[s].remove(id);
        let left = v.feeds[id].subscribers.remove(s);
        assert forall|f: u64| #[trigger] w.feeds.contains_key(f) implies {
            &&& w.feeds[f].subscribers.finite()
            &&& !w.feeds[f].subscribers.is_empty()
            &&& f == spec_gen_hash(w.feeds[f].link)
        } by {
            assert(v.feeds.contains_key(f));
        }
        assert forall|t: i64| #[trigger] w.subscribers.contains_key(t) implies {
            &&& w.subscribers[t].finite()
            &&& !w.subscribers[t].is_empty()
        } by {
            assert(v.subscribers.contains_key(t));
        }
        assert forall|t: i64, f: u64| w.follows(t, f) == w.reaches(t, f) by {
            assert(v.follows(t, f) == v.reaches(t, f));
            if t == s && f != id && v.follows(s, f) {
                assert(rest.contains(f));
            }
            if f == id && t != s && v.reaches(t, id) {
                assert(left.contains(t));
            }
        }
    }
}

/// Replacing a stored feed by one with the same link and subscribers keeps
/// the invariant of the store.
pub proof fn lemma_with_feed_wf(v: DatabaseView, id: u64, feed: FeedView)
    requires
        v.wf(),
        v.feeds.contains_key(id),
        feed.link == v.feeds[id].link,
        feed.subscribers == v.feeds[id].subscribers,
    ensures
        v.with_feed(id, feed).wf(),
{
    let w = v.with_feed(id, feed);
    assert forall|f: u64| #[trigger] w.feeds.contains_key(f) implies {
        &&& w.feeds[f].subscribers.finite()
        &&& !w.feeds[f].subscribers.is_empty()
        &&& f == spec_gen_hash(w.feeds[f].link)
    } by {
        assert(v.feeds.contains_key(f));
    }
    assert forall|t: i64, f: u64| w.follows(t, f) == w.reaches(t, f) by {
        assert(v.follows(t, f) == v.reaches(t, f));
    }
}

/// A subscriber that has left the feeds in `done` and then leaves `id` has
/// left the feeds in `done` and `id`.
proof fn lemma_dropped_step(v: DatabaseView, s: i64, done: Set<u64>, id: u64)
    requires
        v.wf(),
        v.followed(s).contains(id),
        !done.contains(id),
        done.subset_of(v.followed(s)),
    ensures
        v.dropped(s, done).drop_subscription(s, id) == v.dropped(s, done.insert(id)),
{
    let w = v.dropped(s, done);
    assert(v.follows(s, id) == v.reaches(s, id));
    assert(v.followed(s).difference(done).contains(id));
    assert(w.follows(s, id));
    assert(w.reaches(s, id));
    let a = w.drop_subscription(s, id);
    let b = v.dropped(s, done.insert(id));
    assert(w.subscribers[s].remove(id) =~= v.followed(s).difference(done.insert(id)));
    assert(a.subscribers =~= b.subscribers);
    assert(a.feeds =~= b.feeds);
}

/// A subscriber that has left every feed it followed has left the store.
proof fn lemma_dropped_all(v: DatabaseView, s: i64)
    requires
        v.wf(),
    ensures
        v.dropped(s, v.followed(s)) == v.without(s),
{
    let a = v.dropped(s, v.followed(s));
    let b = v.without(s);
    assert(v.followed(s).difference(v.followed(s)) =~= Set::empty());
    assert(a.subscribers =~= b.subscribers);
    assert forall|f: u64| v.feeds.contains_key(f) && !v.followed(s).contains(f) implies v.others(
        s,
        f,
    ) == v.feeds[f].subscribers by {
        assert(v.follows(s, f) == v.reaches(s, f));
        assert(v.others(s, f) =~= v.feeds[f].subscribers);
    }
    assert(a.feeds =~= b.feeds) by {
        assert forall|f: u64| a.feeds.contains_key(f) == b.feeds.contains_key(f) by {}
        assert forall|f: u64| a.feeds.contains_key(f) implies a.feeds[f] == b.feeds[f] by {}
    }
}

/// Passing the subscriptions of one subscriber to another keeps the
/// invariant of the store.
pub proof fn lemma_renamed_wf(v: DatabaseView, from: i64, to: i64)
    requires
        v.wf(),
    ensures
        v.renamed(from, to).wf(),
{
    let w = v.renamed(from, to);
    if v.subscribers.contains_key(from) && from != to {
        let moved = v.subscribers[from];
        assert(w.feeds.dom() =~= v.feeds.dom());
        assert(w.subscribers[to].finite()) by {
            if v.subscribers.contains_key(to) {
                assert(v.subscribers[to].finite());
            }
        }
        assert forall|f: u64| #[trigger] w.feeds.contains_key(f) implies {
            &&& w.feeds[f].subscribers.finite()
            &&& !w.feeds[f].subscribers.is_empty()
            &&& f == spec_gen_hash(w.feeds[f].link)
        } by {
            assert(v.feeds.contains_key(f));
            if moved.contains(f) {
                assert(w.feeds[f].subscribers.contains(to));
            }
        }
        assert forall|t: i64| #[trigger] w.subscribers.contains_key(t) implies {
            &&& w.subscribers[t].finite()
            &&& !w.subscribers[t].is_empty()
        } by {
            if t == to {
                let f = choose|f: u64| moved.contains(f);
                assert(!moved.is_empty());
                assert(moved.contains(f));
                assert(w.subscribers[to].contains(f));
            } else {
                assert(v.subscribers.contains_key(t));
            }
        }
        assert forall|t: i64, f: u64| w.follows(t, f) == w.reaches(t, f) by {
            assert(v.follows(t, f) == v.reaches(t, f));
            assert(v.follows(from, f) == v.reaches(from, f));
            assert(v.follows(to, f) == v.reaches(to, f));
        }
    }
}

/// Taking a feed out keeps the invariant of the store.
pub proof fn lemma_without_feed_wf(v: DatabaseView, id: u64)
    requires
        v.wf(),
    ensures
        v.without_feed(id).wf(),
        !v.without_feed(id).feeds.contains_key(id),
{
    let w = v.without_feed(id);
    assert(w.subscribers.dom().subset_of(v.subscribers.dom()));
    vstd::set_lib::lemma_len_subset(w.subscribers.dom(), v.subscribers.dom());
    assert forall|f: u64| #[trigger] w.feeds.contains_key(f) implies {
        &&& w.feeds[f].subscribers.finite()
        &&& !w.feeds[f].subscribers.is_empty()
        &&& f == spec_gen_hash(w.feeds[f].link)
    } by {
        assert(v.feeds.contains_key(f));
    }
    assert forall|t: i64| #[trigger] w.subscribers.contains_key(t) implies {
        &&& w.subscribers[t].finite()
        &&& !w.subscribers[t].is_empty()
    } by {
        assert(v.subscribers.contains_key(t));
    }
    assert forall|t: i64, f: u64| w.follows(t, f) == w.reaches(t, f) by {
        assert(v.follows(t, f) == v.reaches(t, f));
        if v.follows(t, f) && f != id {
            assert(v.subscribers[t].remove(id).contains(f));
        }
    }
}

/// Putting a feed in that has subscribers, under a key that is free, keeps
/// the invariant of the store.
pub proof fn lemma_with_new_feed_wf(v: DatabaseView, feed: FeedView)
    requires
        v.wf(),
        !v.feeds.contains_key(spec_gen_hash(feed.link)),
        feed.subscribers.finite(),
        !feed.subscribers.is_empty(),
    ensures
        v.with_new_feed(feed).wf(),
{
    let id = spec_gen_hash(feed.link);
    let w = v.with_new_feed(feed);
    assert(w.subscribers.dom() =~= v.subscribers.dom().union(feed.subscribers));
    assert forall|f: u64| #[trigger] w.feeds.contains_key(f) implies {
        &&& w.feeds[f].subscribers.finite()
        &&& !w.feeds[f].subscribers.is_empty()
        &&& f == spec_gen_hash(w.feeds[f].link)
    } by {
        if f != id {
            assert(v.feeds.contains_key(f));
        }
    }
    assert forall|t: i64| #[trigger] w.subscribers.contains_key(t) implies {
        &&& w.subscribers[t].finite()
        &&& !w.subscribers[t].is_empty()
    } by {
        if feed.subscribers.contains(t) {
            if v.subscribers.contains_key(t) {
                assert(v.subscribers[t].finite());
            }
            assert(w.subscribers[t].contains(id));
        } else {
            assert(v.subscribers.contains_key(t));
        }
    }
    assert forall|t: i64, f: u64| w.follows(t, f) == w.reaches(t, f) by {
        assert(v.follows(t, f) == v.reaches(t, f));
        assert(v.follows(t, id) == v.reaches(t, id));
    }
}

/// The two indexes of the store, with its invariant as a condition of use.
#[derive(Debug)]
struct Tables {
    feeds: HashMap<u64, Feed>,
    subscribers: HashMap<i64, HashSet<u64>>,
}

impl View for Tables {
    type V = DatabaseView;

    closed spec fn view(&self) -> DatabaseView {
        DatabaseView {
            feeds: self.feeds@.map_values(|f: Feed| f@),
            subscribers: self.subscribers@.map_values(|s: HashSet<u64>| s@),
        }
    }
}

impl Tables {
    /// A store without any feed.
    fn create() -> (db: Tables)
        ensures
            db@ == DatabaseView::empty(),
            db@.wf(),
    {
        let db = Tables { feeds: HashMap::new(), subscribers: HashMap::new() };
        assert(db@.feeds =~= Map::empty());
        assert(db@.subscribers =~= Map::empty());
        db
    }

    /// Builds the store from the feeds of a snapshot.
    fn from_feeds(feeds: Vec<Feed>) -> (db: Tables)
        ensures
            db@.wf(),
            db@ == loaded(feed_views(feeds@)),
    {
        let ghost views = feed_views(feeds@);
        let mut db = Tables::create();
        let mut i: usize = 0;
        while i < feeds.len()
            invariant
                i <= feeds.len(),
                views == feed_views(feeds@),
                db@.wf(),
                db@ == loaded(views.take(i as int)),
            decreases feeds.len() - i,
        {
            proof {
                assert(views.take(i + 1).drop_last() =~= views.take(i as int));
                assert(views.take(i + 1).last() == feeds[i as int]@);
            }
            db.load(feeds[i].clone());
            i = i + 1;
        }
        proof {
            assert(views.take(feeds.len() as int) =~= views);
        }
        db
    }

    /// The store as a snapshot of it gives it back when it is read in again.
    fn reload(&self) -> (db: Tables)
        requires
            self@.wf(),
        ensures
            db@.wf(),
            db@ == self@,
    {
        let snapshot = self.all_feeds();
        proof {
            lemma_reload(self@, snapshot@);
        }
        Tables::from_feeds(snapshot)
    }

    /// Reads one feed of a snapshot into the store. A feed without
    /// subscribers is dropped; any other takes the place of the feed that is
    /// kept under the same key.
    fn load(&mut self, feed: Feed)
        requires
            old(self)@.wf(),
        ensures
            final(self)@.wf(),
            final(self)@ == old(self)@.load(feed@),
    {
        if feed.subscribers.is_empty() {
            return ;
        }
        let id = gen_hash(feed.link.as_str());
        self.detach(id);
        self.attach(feed);
    }

    /// Takes the feed under `id` out of the store.
    fn detach(&mut self, id: u64)
        requires
            old(self)@.wf(),
        ensures
            final(self)@.wf(),
            final(self)@ == old(self)@.without_feed(id),
    {
        let ghost before = self@;
        let members = match self.feeds.remove(&id) {
            Some(feed) => set_members(&feed.subscribers),
            None => Vec::new(),
        };
        proof {
            assert(self@.feeds =~= before.feeds.remove(id));
            assert forall|s: i64| members@.contains(s) == before.reaches(s, id) by {
                if before.feeds.contains_key(id) {
                    assert(members@.to_set().contains(s) == before.feeds[id].subscribers.contains(s));
                }
            }
        }
        let mut i: usize = 0;
        while i < members.len()
            invariant
                i <= members.len(),
                before.wf(),
                self@.feeds == before.feeds.remove(id),
                forall|s: i64| members@.contains(s) == before.reaches(s, id),
                self@.subscribers.dom() == Set::new(
                    |s: i64|
                        before.subscribers.contains_key(s) && !(members@.take(i as int).contains(s)
                            && before.subscribers[s].remove(id).is_empty()),
                ),
                forall|s: i64| #[trigger]
                    self@.subscribers.contains_key(s) ==> self@.subscribers[s] == (if members@.take(
                        i as int,
                    ).contains(s) {
                        before.subscribers[s].remove(id)
                    } else {
                        before.subscribers[s]
                    }),
            decreases members.len() - i,
        {
            let s = members[i];
            let ghost subs = self@.subscribers;
            let ghost shorter = members@.take(i as int);
            let ghost longer = members@.take(i + 1);
            match self.subscribers.remove(&s) {
                Some(set) => {
                    let mut set = set;
                    set.remove(&id);
                    if !set.is_empty() {
                        self.subscribers.insert(s, set);
                    }
                },
                None => {},
            }
            proof {
                assert(self@.feeds =~= before.feeds.remove(id));
                assert(longer =~= shorter.push(s));
                assert forall|t: i64| longer.contains(t) == (shorter.contains(t) || t == s) by {
                    if shorter.contains(t) {
                        let j = choose|j: int| 0 <= j < shorter.len() && shorter[j] == t;
                        assert(longer[j] == t);
                    }
                    if longer.contains(t) {
                        let j = choose|j: int| 0 <= j < longer.len() && longer[j] == t;
                        if j < shorter.len() {
                            assert(shorter[j] == t);
                        }
                    }
                    assert(longer[i as int] == s);
                }
                assert(members@.contains(s)) by {
                    assert(members@[i as int] == s);
                }
                assert(before.follows(s, id) == before.reaches(s, id));
                if shorter.contains(s) {
                    assert(before.subscribers[s].remove(id).remove(id) =~= before.subscribers[s].remove(
                        id,
                    ));
                }
                assert(self@.subscribers =~= (if subs.contains_key(s) {
                    if subs[s].remove(id).is_empty() {
                        subs.remove(s)
                    } else {
                        subs.insert(s, subs[s].remove(id))
                    }
                } else {
                    subs
                }));
                assert(self@.subscribers.dom() =~= Set::new(
                    |t: i64|
                        before.subscribers.contains_key(t) && !(longer.contains(t)
                            && before.subscribers[t].remove(id).is_empty()),
                )) by {
                    assert forall|t: i64| self@.subscribers.contains_key(t) == (
                    before.subscribers.contains_key(t) && !(longer.contains(t)
                        && before.subscribers[t].remove(id).is_empty())) by {
                        if t != s {
                            assert(self@.subscribers.contains_key(t) == subs.contains_key(t));
                        }
                    }
                }
                assert forall|t: i64| #[trigger]
                    self@.subscribers.contains_key(t) implies self@.subscribers[t] == (
                if longer.contains(t) {
                    before.subscribers[t].remove(id)
                } else {
                    before.subscribers[t]
                }) by {
                    if t != s {
                        assert(subs.contains_key(t));
                    }
                }
            }
            i = i + 1;
        }
        proof {
            assert(members@.take(members.len() as int) =~= members@);
            let after = before.without_feed(id);
            assert(self@.subscribers =~= after.subscribers) by {
                assert forall|t: i64|
                    before.subscribers.contains_key(t) && !members@.contains(
                        t,
                    ) implies before.subscribers[t].remove(id) == before.subscribers[t] by {
                    assert(before.follows(t, id) == before.reaches(t, id));
                    assert(before.subscribers[t].remove(id) =~= before.subscribers[t]);
                }
                assert forall|t: i64| self@.subscribers.contains_key(t)
                    == after.subscribers.contains_key(t) by {}
            }
            lemma_without_feed_wf(before, id);
        }
    }

    /// Puts a feed with subscribers into the store, under a key that is
    /// free.
    fn attach(&mut self, feed: Feed)
        requires
            old(self)@.wf(),
            !old(self)@.feeds.contains_key(spec_gen_hash(feed@.link)),
            !feed@.subscribers.is_empty(),
        ensures
            final(self)@.wf(),
            final(self)@ == old(self)@.with_new_feed(feed@),
    {
        let ghost before = self@;
        let id = gen_hash(feed.link.as_str());
        let members = set_members(&feed.subscribers);
        let mut i: usize = 0;
        while i < members.len()
            invariant
                i <= members.len(),
                self@.feeds == before.feeds,
                self@.subscribers.dom() == Set::new(
                    |s: i64|
                        before.subscribers.contains_key(s) || members@.take(i as int).contains(s),
                ),
                forall|s: i64| #[trigger]
                    self@.subscribers.contains_key(s) ==> self@.subscribers[s] == (if members@.take(
                        i as int,
                    ).contains(s) {
                        before.followed(s).insert(id)
                    } else {
                        before.subscribers[s]
                    }),
            decreases members.len() - i,
        {
            let s = members[i];
            let ghost subs = self@.subscribers;
            let ghost shorter = members@.take(i as int);
            let ghost longer = members@.take(i + 1);
            let mut set = match self.subscribers.remove(&s) {
                Some(set) => set,
                None => HashSet::new(),
            };
            set.insert(id);
            self.subscribers.insert(s, set);
            proof {
                assert(self@.feeds =~= before.feeds);
                assert(longer =~= shorter.push(s));
                assert forall|t: i64| longer.contains(t) == (shorter.contains(t) || t == s) by {
                    if shorter.contains(t) {
                        let j = choose|j: int| 0 <= j < shorter.len() && shorter[j] == t;
                        assert(longer[j] == t);
                    }
                    if longer.contains(t) {
                        let j = choose|j: int| 0 <= j < longer.len() && longer[j] == t;
                        if j < shorter.len() {
                            assert(shorter[j] == t);
                        }
                    }
                    assert(longer[i as int] == s);
                }
                if shorter.contains(s) {
                    assert(before.followed(s).insert(id).insert(id) =~= before.followed(s).insert(
                        id,
                    ));
                }
                assert(self@.subscribers =~= subs.insert(
                    s,
                    (if subs.contains_key(s) {
                        subs[s]
                    } else {
                        Set::empty()
                    }).insert(id),
                ));
                assert(self@.subscribers.dom() =~= Set::new(
                    |t: i64| before.subscribers.contains_key(t) || longer.contains(t),
                )) by {
                    assert forall|t: i64| self@.subscribers.contains_key(t) == (
                    before.subscribers.contains_key(t) || longer.contains(t)) by {
                        if t != s {
                            assert(self@.subscribers.contains_key(t) == subs.contains_key(t));
                        }
                    }
                }
                assert forall|t: i64| #[trigger]
                    self@.subscribers.contains_key(t) implies self@.subscribers[t] == (
                if longer.contains(t) {
                    before.followed(t).insert(id)
                } else {
                    before.subscribers[t]
                }) by {
                    if t != s {
                        assert(subs.contains_key(t));
                    }
                }
            }
            i = i + 1;
        }
        let ghost view = feed@;
        self.feeds.insert(id, feed);
        proof {
            assert(members@.take(members.len() as int) =~= members@);
            let after = before.with_new_feed(view);
            assert(self@.feeds =~= after.feeds);
            assert(self@.subscribers =~= after.subscribers) by {
                assert forall|t: i64| members@.contains(t) == view.subscribers.contains(t) by {
                    assert(members@.to_set().contains(t) == view.subscribers.contains(t));
                }
                assert forall|t: i64| self@.subscribers.contains_key(t)
                    == after.subscribers.contains_key(t) by {}
            }
            lemma_with_new_feed_wf(before, view);
        }
    }

    /// Whether `subscriber` follows the feed at `rss_link`.
    fn is_subscribed(&self, subscriber: i64, rss_link: &str) -> (b: bool)
        ensures
            b == self@.follows(subscriber, spec_gen_hash(rss_link@)),
    {
        let id = gen_hash(rss_link);
        match self.subscribers.get(&subscriber) {
            Some(feeds) => feeds.contains(&id),
            None => false,
        }
    }

    /// Subscribes `subscriber` to the feed at `rss_link`, creating the feed
    /// from `rss` where nobody followed it yet. Returns whether the
    /// subscription is new.
    fn subscribe(&mut self, subscriber: i64, rss_link: &str, rss: &Rss) -> (fresh: bool)
        requires
            old(self)@.wf(),
        ensures
            final(self)@.wf(),
            fresh == !old(self)@.follows(subscriber, spec_gen_hash(rss_link@)),
            final(self)@ == old(self)@.subscribe(subscriber, rss_link@, rss@),
    {
        let id = gen_hash(rss_link);
        if self.is_subscribed(subscriber, rss_link) {
            return false;
        }
        let ghost before = self@;
        let mut followed = match self.subscribers.remove(&subscriber) {
            Some(set) => set,
            None => HashSet::new(),
        };
        followed.insert(id);
        self.subscribers.insert(subscriber, followed);
        let mut feed = match self.feeds.remove(&id) {
            Some(feed) => feed,
            None => Feed {
                link: rss_link.to_owned(),
                title: rss.title.clone(),
                down_time: None,
                subscribers: HashSet::new(),
                ttl: rss.ttl,
                hash_list: item_hashes(&rss.items),
            },
        };
        feed.subscribers.insert(subscriber);
        self.feeds.insert(id, feed);
        proof {
            let after = before.subscribe(subscriber, rss_link@, rss@);
            assert(self@.feeds =~= after.feeds);
            assert(self@.subscribers =~= after.subscribers);
            lemma_subscribe_wf(before, subscriber, rss_link@, rss@);
        }
        true
    }

    /// Ends the subscription of `subscriber` to the feed at `rss_link`.
    /// Returns the feed as it stands without that subscriber, or `None`
    /// where there was no such subscription.
    fn unsubscribe(&mut self, subscriber: i64, rss_link: &str) -> (removed: Option<Feed>)
        requires
            old(self)@.wf(),
        ensures
            final(self)@.wf(),
            final(self)@ == old(self)@.drop_subscription(subscriber, spec_gen_hash(rss_link@)),
            match removed {
                Some(feed) => {
                    let id = spec_gen_hash(rss_link@);
                    &&& old(self)@.follows(subscriber, id)
                    &&& feed@ == old(self)@.feeds[id].with_subscribers(
                        old(self)@.feeds[id].subscribers.remove(subscriber),
                    )
                },
                None => !old(self)@.follows(subscriber, spec_gen_hash(rss_link@)),
            },
    {
        let id = gen_hash(rss_link);
        let ghost before = self@;
        proof {
            assert(before.follows(subscriber, id) == before.reaches(subscriber, id));
        }
        let result = match self.feeds.get(&id) {
            Some(feed) => {
                if !feed.subscribers.contains(&subscriber) {
                    return None;
                }
                let mut left = feed.clone();
                left.subscribers.remove(&subscriber);
                left
            },
            None => {
                return None;
            },
        };
        self.drop_by_id(subscriber, id);
        Some(result)
    }

    /// Drops the subscription of `subscriber` to the feed kept under `id`.
    fn drop_by_id(&mut self, subscriber: i64, id: u64)
        requires
            old(self)@.wf(),
        ensures
            final(self)@.wf(),
            final(self)@ == old(self)@.drop_subscription(subscriber, id),
    {
        let ghost before = self@;
        assert(before.follows(subscriber, id) == before.reaches(subscriber, id));
        let follows = match self.subscribers.get(&subscriber) {
            Some(feeds) => feeds.contains(&id),
            None => false,
        };
        if !follows {
            return ;
        }
        if let Some(followed) = self.subscribers.remove(&subscriber) {
            let mut followed = followed;
            followed.remove(&id);
            if !followed.is_empty() {
                self.subscribers.insert(subscriber, followed);
            }
        }
        if let Some(feed) = self.feeds.remove(&id) {
            let mut feed = feed;
            feed.subscribers.remove(&subscriber);
            if !feed.subscribers.is_empty() {
                self.feeds.insert(id, feed);
            }
        }
        proof {
            let after = before.drop_subscription(subscriber, id);
            assert(self@.feeds =~= after.feeds);
            assert(self@.subscribers =~= after.subscribers);
            lemma_drop_subscription_wf(before, subscriber, id);
        }
    }

    /// Ends every subscription of `subscriber`.
    fn delete_subscriber(&mut self, subscriber: i64)
        requires
            old(self)@.wf(),
        ensures
            final(self)@.wf(),
            final(self)@ == old(self)@.without(subscriber),
    {
        let ghost before = self@;
        let ids = match self.subscribers.get(&subscriber) {
            Some(followed) => feed_ids(followed),
            None => Vec::new(),
        };
        assert(ids@.to_set() =~= before.followed(subscriber));
        let mut i: usize = 0;
        proof {
            assert(ids@.take(0).to_set() =~= Set::empty());
            assert(before.followed(subscriber).difference(Set::empty()) =~= before.followed(
                subscriber,
            ));
            let start = before.dropped(subscriber, Set::empty());
            assert(start.subscribers =~= before.subscribers);
            assert(start.feeds =~= before.feeds);
        }
        while i < ids.len()
            invariant
                i <= ids.len(),
                before.wf(),
                ids@.no_duplicates(),
                ids@.to_set() == before.followed(subscriber),
                self@.wf(),
                self@ == before.dropped(subscriber, ids@.take(i as int).to_set()),
            decreases ids.len() - i,
        {
            proof {
                let done = ids@.take(i as int).to_set();
                assert(ids@.to_set().contains(ids[i as int]));
                assert(!done.contains(ids[i as int])) by {
                    if ids@.take(i as int).contains(ids[i as int]) {
                        let j = choose|j: int|
                            0 <= j < i && ids@.take(i as int)[j] == ids[i as int];
                        assert(ids[j] == ids[i as int]);
                    }
                }
                assert(done.subset_of(before.followed(subscriber))) by {
                    assert forall|f: u64| done.contains(f) implies before.followed(
                        subscriber,
                    ).contains(f) by {
                        let j = choose|j: int| 0 <= j < i && ids@.take(i as int)[j] == f;
                        assert(ids[j] == f);
                        assert(ids@.to_set().contains(f));
                    }
                }
                lemma_dropped_step(before, subscriber, done, ids[i as int]);
                assert(ids@.take(i + 1) =~= ids@.take(i as int).push(ids[i as int]));
                lemma_to_set_push(ids@.take(i as int), ids[i as int]);
            }
            self.drop_by_id(subscriber, ids[i]);
            i = i + 1;
        }
        proof {
            assert(ids@.take(ids.len() as int) =~= ids@);
            lemma_dropped_all(before, subscriber);
        }
    }

    /// Passes every subscription of `from` on to `to`, which keeps its own.
    /// Nothing happens where `from` is unknown.
    fn update_subscriber(&mut self, from: i64, to: i64)
        requires
            old(self)@.wf(),
        ensures
            final(self)@.wf(),
            final(self)@ == old(self)@.renamed(from, to),
    {
        let ghost before = self@;
        if from == to {
            return ;
        }
        let moved = match self.subscribers.remove(&from) {
            Some(set) => set,
            None => {
                assert(self@.subscribers =~= before.subscribers);
                return ;
            },
        };
        let ids = feed_ids(&moved);
        let mut i: usize = 0;
        while i < ids.len()
            invariant
                i <= ids.len(),
                ids@.to_set() == moved@,
                self.subscribers@ == old(self).subscribers@.remove(from),
                self.feeds@.dom() == old(self).feeds@.dom(),
                forall|f: u64| #[trigger]
                    self.feeds@.contains_key(f) ==> self.feeds@[f]@ == (if ids@.take(
                        i as int,
                    ).contains(f) {
                        old(self).feeds@[f]@.with_subscribers(
                            old(self).feeds@[f]@.subscribers.remove(from).insert(to),
                        )
                    } else {
                        old(self).feeds@[f]@
                    }),
            decreases ids.len() - i,
        {
            let id = ids[i];
            let ghost feeds_before = self.feeds@;
            match self.feeds.remove(&id) {
                Some(feed) => {
                    let mut feed = feed;
                    feed.subscribers.remove(&from);
                    feed.subscribers.insert(to);
                    self.feeds.insert(id, feed);
                },
                None => {},
            }
            proof {
                assert(ids@.take(i + 1) =~= ids@.take(i as int).push(id));
                assert(self.feeds@.dom() =~= feeds_before.dom());
                assert forall|f: u64| #[trigger] self.feeds@.contains_key(f) implies self.feeds@[f]@
                    == (if ids@.take(i + 1).contains(f) {
                    old(self).feeds@[f]@.with_subscribers(
                        old(self).feeds@[f]@.subscribers.remove(from).insert(to),
                    )
                } else {
                    old(self).feeds@[f]@
                }) by {
                    assert(feeds_before.contains_key(f));
                    if f == id {
                        assert(ids@.take(i + 1)[i as int] == id);
                        if ids@.take(i as int).contains(id) {
                            assert(feeds_before[id]@.subscribers.remove(from).insert(to)
                                =~= old(self).feeds@[id]@.subscribers.remove(from).insert(to));
                        }
                    } else {
                        let shorter = ids@.take(i as int);
                        let longer = ids@.take(i + 1);
                        if longer.contains(f) {
                            let j = choose|j: int| 0 <= j < longer.len() && longer[j] == f;
                            assert(shorter[j] == f);
                        }
                        if shorter.contains(f) {
                            let j = choose|j: int| 0 <= j < shorter.len() && shorter[j] == f;
                            assert(longer[j] == f);
                        }
                    }
                }
            }
            i = i + 1;
        }
        let mut target = match self.subscribers.remove(&to) {
            Some(set) => set,
            None => HashSet::new(),
        };
        let ghost kept = target@;
        assert(kept =~= before.followed(to));
        let mut k: usize = 0;
        while k < ids.len()
            invariant
                k <= ids.len(),
                target@ == kept.union(ids@.take(k as int).to_set()),
            decreases ids.len() - k,
        {
            target.insert(ids[k]);
            proof {
                assert(ids@.take(k + 1) =~= ids@.take(k as int).push(ids[k as int]));
                lemma_to_set_push(ids@.take(k as int), ids[k as int]);
                assert(target@ =~= kept.union(ids@.take(k + 1).to_set()));
            }
            k = k + 1;
        }
        self.subscribers.insert(to, target);
        proof {
            assert(ids@.take(ids.len() as int) =~= ids@);
            let after = before.renamed(from, to);
            assert(self@.subscribers =~= after.subscribers);
            assert(self@.feeds =~= after.feeds) by {
                assert(self@.feeds.dom() =~= after.feeds.dom());
                assert forall|f: u64| self@.feeds.contains_key(f) implies self@.feeds[f]
                    == after.feeds[f] by {
                    assert(self.feeds@.contains_key(f));
                    assert(ids@.contains(f) == ids@.to_set().contains(f));
                }
            }
            lemma_renamed_wf(before, from, to);
        }
    }

    /// A copy of every stored feed, each once.
    fn all_feeds(&self) -> (r: Vec<Feed>)
        requires
            self@.wf(),
        ensures
            lists(r@, self@.feeds.dom(), self@.feeds),
    {
        let ids = self.stored_ids();
        assert forall|i: int| 0 <= i < ids.len() implies self@.feeds.contains_key(
            #[trigger] ids[i],
        ) by {
            assert(ids@.to_set().contains(ids[i]));
        }
        self.feeds_of(&ids)
    }

    /// Every subscriber, each once.
    fn all_subscribers(&self) -> (r: Vec<i64>)
        ensures
            r@.no_duplicates(),
            r@.to_set() == self@.subscribers.dom(),
    {
        let mut out: Vec<i64> = Vec::new();
        for k in it: self.subscribers.keys()
            invariant
                out@ == it.seq().take(it.index()).unref(),
        {
            out.push(*k);
        }
        proof {
            let all = vstd::std_specs::hash::spec_keys_iter(&self.subscribers).remaining();
            assert(all.take(all.len() as int) =~= all);
            assert(out@ =~= all.unref());
            assert(self@.subscribers.dom() =~= self.subscribers@.dom());
        }
        out
    }

    /// Copies of the feeds that `subscriber` follows, each once, or `None`
    /// where the subscriber is unknown.
    fn subscribed_feeds(&self, subscriber: i64) -> (r: Option<Vec<Feed>>)
        requires
            self@.wf(),
        ensures
            r is Some == self@.subscribers.contains_key(subscriber),
            match r {
                Some(feeds) => lists(feeds@, self@.subscribers[subscriber], self@.feeds),
                None => true,
            },
    {
        match self.subscribers.get(&subscriber) {
            Some(followed) => {
                let ids = feed_ids(followed);
                assert forall|i: int| 0 <= i < ids.len() implies self@.feeds.contains_key(
                    #[trigger] ids[i],
                ) by {
                    assert(ids@.to_set().contains(ids[i]));
                    assert(self@.follows(subscriber, ids[i]));
                    assert(self@.reaches(subscriber, ids[i]));
                }
                Some(self.feeds_of(&ids))
            },
            None => None,
        }
    }

    /// The keys of the stored feeds, each once.
    fn stored_ids(&self) -> (r: Vec<u64>)
        ensures
            r@.no_duplicates(),
            r@.to_set() == self@.feeds.dom(),
    {
        let mut out: Vec<u64> = Vec::new();
        for k in it: self.feeds.keys()
            invariant
                out@ == it.seq().take(it.index()).unref(),
        {
            out.push(*k);
        }
        proof {
            let all = vstd::std_specs::hash::spec_keys_iter(&self.feeds).remaining();
            assert(all.take(all.len() as int) =~= all);
            assert(out@ =~= all.unref());
            assert(self@.feeds.dom() =~= self.feeds@.dom());
        }
        out
    }

    /// Copies of the feeds kept under `ids`.
    fn feeds_of(&self, ids: &Vec<u64>) -> (r: Vec<Feed>)
        requires
            self@.wf(),
            ids@.no_duplicates(),
            forall|i: int| 0 <= i < ids.len() ==> self@.feeds.contains_key(#[trigger] ids[i]),
        ensures
            lists(r@, ids@.to_set(), self@.feeds),
            feed_keys(r@) == ids@,
    {
        let mut out: Vec<Feed> = Vec::new();
        let mut i: usize = 0;
        while i < ids.len()
            invariant
                i <= ids.len(),
                out.len() == i,
                self@.wf(),
                forall|j: int| 0 <= j < ids.len() ==> self@.feeds.contains_key(#[trigger] ids[j]),
                forall|j: int| 0 <= j < i ==> (#[trigger] out[j])@ == self@.feeds[ids[j]],
            decreases ids.len() - i,
        {
            let found = self.feeds.get(&ids[i]);
            assert(self@.feeds.contains_key(ids[i as int]));
            match found {
                Some(feed) => {
                    out.push(feed.clone());
                },
                None => {
                    assert(false);
                },
            }
            i = i + 1;
        }
        proof {
            assert forall|j: int| 0 <= j < out.len() implies feed_keys(out@)[j] == ids[j] by {
                assert(self@.feeds.contains_key(ids[j]));
                assert(out[j]@ == self@.feeds[ids[j]]);
            }
            assert(feed_keys(out@) =~= ids@);
        }
        out
    }

    /// The time for which the feed at `rss_link` has been failing, in whole
    /// seconds up to `now`. The first failure starts the clock and gives
    /// zero. `None` where no such feed is stored.
    fn get_or_update_down_time(&mut self, rss_link: &str, now: Timestamp) -> (down: Option<u64>)
        requires
            old(self)@.wf(),
        ensures
            final(self)@.wf(),
            ({
                let id = spec_gen_hash(rss_link@);
                let before = old(self)@;
                if !before.feeds.contains_key(id) {
                    down is None && final(self)@ == before
                } else {
                    match before.feeds[id].down_time {
                        Some(since) => down == Some(now.spec_secs_since(since) as u64)
                            && final(self)@ == before,
                        None => down == Some(0u64) && final(self)@ == before.with_feed(
                            id,
                            (FeedView { down_time: Some(now), ..before.feeds[id] }),
                        ),
                    }
                }
            }),
    {
        let id = gen_hash(rss_link);
        let ghost before = self@;
        match self.feeds.remove(&id) {
            None => {
                assert(self@.feeds =~= before.feeds);
                None
            },
            Some(feed) => {
                let mut feed = feed;
                let down = match feed.down_time {
                    Some(since) => now.secs_since(&since),
                    None => {
                        feed.down_time = Some(now);
                        0
                    },
                };
                self.feeds.insert(id, feed);
                proof {
                    match before.feeds[id].down_time {
                        Some(since) => {
                            assert(self@.feeds =~= before.feeds);
                        },
                        None => {
                            let changed = FeedView { down_time: Some(now), ..before.feeds[id] };
                            assert(self@.feeds =~= before.with_feed(id, changed).feeds);
                            lemma_with_feed_wf(before, id, changed);
                        },
                    }
                }
                Some(down)
            },
        }
    }

    /// Clears the failure clock of the feed at `rss_link`, if it is stored.
    fn reset_down_time(&mut self, rss_link: &str)
        requires
            old(self)@.wf(),
        ensures
            final(self)@.wf(),
            ({
                let id = spec_gen_hash(rss_link@);
                let before = old(self)@;
                if before.feeds.contains_key(id) {
                    final(self)@ == before.with_feed(
                        id,
                        (FeedView { down_time: None, ..before.feeds[id] }),
                    )
                } else {
                    final(self)@ == before
                }
            }),
    {
        let id = gen_hash(rss_link);
        let ghost before = self@;
        match self.feeds.remove(&id) {
            None => {
                assert(self@.feeds =~= before.feeds);
            },
            Some(feed) => {
                let mut feed = feed;
                feed.down_time = None;
                self.feeds.insert(id, feed);
                proof {
                    let changed = FeedView { down_time: None, ..before.feeds[id] };
                    assert(self@.feeds =~= before.with_feed(id, changed).feeds);
                    lemma_with_feed_wf(before, id, changed);
                }
            },
        }
    }

    /// Takes in a fresh poll of the feed at `rss_link` and returns what
    /// changed: the items not seen before, then a changed title. The stored
    /// window, title and interval follow the poll and the failure clock is
    /// cleared. Nothing happens where no such feed is stored.
    fn update(&mut self, rss_link: &str, new_feed: Rss) -> (updates: Vec<FeedUpdate>)
        requires
            old(self)@.wf(),
        ensures
            final(self)@.wf(),
            final(self)@ == old(self)@.update(rss_link@, new_feed@),
            ({
                let id = spec_gen_hash(rss_link@);
                if old(self)@.feeds.contains_key(id) {
                    &&& update_views(updates@) == spec_updates(old(self)@.feeds[id], new_feed@)
                    &&& final(self)@.feeds[id].hash_list.len() <= 2 * new_feed.items.len()
                } else {
                    updates@.len() == 0
                }
            }),
    {
        let id = gen_hash(rss_link);
        let ghost before = self@;
        let mut updates: Vec<FeedUpdate> = Vec::new();
        match self.feeds.remove(&id) {
            None => {
                assert(self@.feeds =~= before.feeds);
            },
            Some(feed) => {
                let mut feed = feed;
                let (fresh, window) = diff_items(&feed.hash_list, &new_feed.items);
                let ghost old_feed = before.feeds[id];
                if fresh.len() > 0 {
                    updates.push(FeedUpdate::Items(fresh));
                }
                if new_feed.title != feed.title {
                    updates.push(FeedUpdate::Title(new_feed.title.clone()));
                }
                feed.title = new_feed.title;
                feed.hash_list = window;
                feed.ttl = new_feed.ttl;
                feed.down_time = None;
                self.feeds.insert(id, feed);
                proof {
                    let changed = old_feed.refreshed(new_feed@);
                    assert(self@.feeds =~= before.with_feed(id, changed).feeds);
                    lemma_with_feed_wf(before, id, changed);
                    assert(update_views(updates@) =~= spec_updates(old_feed, new_feed@));
                }
            },
        }
        updates
    }
}

/// The subscription store. Every stored feed has a subscriber and is kept
/// under the hash of its link, every known subscriber follows a feed, and
/// the two indexes agree.
#[derive(Debug)]
pub struct Database {
    tables: Tables,
}

impl View for Database {
    type V = DatabaseView;

    closed spec fn view(&self) -> DatabaseView {
        self.tables@
    }
}

impl Database {
    #[verifier::type_invariant]
    spec fn inv(self) -> bool {
        self.tables@.wf()
    }

    /// Every store is well formed: its invariant holds.
    pub fn well_formed(&self)
        ensures
            self@.wf(),
    {
        proof {
            use_type_invariant(self);
        }
    }

    /// A store without any feed.
    pub fn create() -> (db: Database)
        ensures
            db@ == DatabaseView::empty(),
    {
        Database { tables: Tables::create() }
    }

    /// Builds the store from the feeds of a snapshot.
    pub fn from_feeds(feeds: Vec<Feed>) -> (db: Database)
        ensures
            db@ == loaded(feed_views(feeds@)),
    {
        Database { tables: Tables::from_feeds(feeds) }
    }

    /// The store as a snapshot of it gives it back when it is read in again.
    pub fn reload(&self) -> (db: Database)
        ensures
            db@ == self@,
    {
        proof {
            use_type_invariant(self);
        }
        Database { tables: self.tables.reload() }
    }

    /// Reads one feed of a snapshot into the store. A feed without
    /// subscribers is dropped; any other takes the place of the feed that is
    /// kept under the same key.
    pub fn load(&mut self, feed: Feed)
        ensures
            final(self)@ == old(self)@.load(feed@),
    {
        proof {
            use_type_invariant(&*self);
        }
        let mut tables = Tables::create();
        std::mem::swap(&mut tables, &mut self.tables);
        tables.load(feed);
        self.tables = tables;
    }

    /// Whether `subscriber` follows the feed at `rss_link`.
    pub fn is_subscribed(&self, subscriber: i64, rss_link: &str) -> (b: bool)
        ensures
            b == self@.follows(subscriber, spec_gen_hash(rss_link@)),
    {
        proof {
            use_type_invariant(self);
        }
        self.tables.is_subscribed(subscriber, rss_link)
    }

    /// Subscribes `subscriber` to the feed at `rss_link`, creating the feed
    /// from `rss` where nobody followed it yet. Returns whether the
    /// subscription is new.
    pub fn subscribe(&mut self, subscriber: i64, rss_link: &str, rss: &Rss) -> (fresh: bool)
        ensures
            fresh == !old(self)@.follows(subscriber, spec_gen_hash(rss_link@)),
            final(self)@ == old(self)@.subscribe(subscriber, rss_link@, rss@),
    {
        proof {
            use_type_invariant(&*self);
        }
        let mut tables = Tables::create();
        std::mem::swap(&mut tables, &mut self.tables);
        let result = tables.subscribe(subscriber, rss_link, rss);
        self.tables = tables;
        result
    }

    /// Ends the subscription of `subscriber` to the feed at `rss_link`.
    /// Returns the feed as it stands without that subscriber, or `None`
    /// where there was no such subscription.
    pub fn unsubscribe(&mut self, subscriber: i64, rss_link: &str) -> (removed: Option<Feed>)
        ensures
            final(self)@ == old(self)@.drop_subscription(subscriber, spec_gen_hash(rss_link@)),
            match removed {
                Some(feed) => {
                    let id = spec_gen_hash(rss_link@);
                    &&& old(self)@.follows(subscriber, id)
                    &&& feed@ == old(self)@.feeds[id].with_subscribers(
                        old(self)@.feeds[id].subscribers.remove(subscriber),
                    )
                },
                None => !old(self)@.follows(subscriber, spec_gen_hash(rss_link@)),
            },
    {
        proof {
            use_type_invariant(&*self);
        }
        let mut tables = Tables::create();
        std::mem::swap(&mut tables, &mut self.tables);
        let result = tables.unsubscribe(subscriber, rss_link);
        self.tables = tables;
        result
    }

    /// Ends every subscription of `subscriber`.
    pub fn delete_subscriber(&mut self, subscriber: i64)
        ensures
            final(self)@ == old(self)@.without(subscriber),
    {
        proof {
            use_type_invariant(&*self);
        }
        let mut tables = Tables::create();
        std::mem::swap(&mut tables, &mut self.tables);
        tables.delete_subscriber(subscriber);
        self.tables = tables;
    }

    /// Passes every subscription of `from` on to `to`, which keeps its own.
    /// Nothing happens where `from` is unknown.
    pub fn update_subscriber(&mut self, from: i64, to: i64)
        ensures
            final(self)@ == old(self)@.renamed(from, to),
    {
        proof {
            use_type_invariant(&*self);
        }
        let mut tables = Tables::create();
        std::mem::swap(&mut tables, &mut self.tables);
        tables.update_subscriber(from, to);
        self.tables = tables;
    }

    /// A copy of every stored feed, each once.
    pub fn all_feeds(&self) -> (r: Vec<Feed>)
        ensures
            lists(r@, self@.feeds.dom(), self@.feeds),
    {
        proof {
            use_type_invariant(self);
        }
        self.tables.all_feeds()
    }

    /// Every subscriber, each once.
    pub fn all_subscribers(&self) -> (r: Vec<i64>)
        ensures
            r@.no_duplicates(),
            r@.to_set() == self@.subscribers.dom(),
    {
        proof {
            use_type_invariant(self);
        }
        self.tables.all_subscribers()
    }

    /// Copies of the feeds that `subscriber` follows, each once, or `None`
    /// where the subscriber is unknown.
    pub fn subscribed_feeds(&self, subscriber: i64) -> (r: Option<Vec<Feed>>)
        ensures
            r is Some == self@.subscribers.contains_key(subscriber),
            match r {
                Some(feeds) => lists(feeds@, self@.subscribers[subscriber], self@.feeds),
                None => true,
            },
    {
        proof {
            use_type_invariant(self);
        }
        self.tables.subscribed_feeds(subscriber)
    }

    /// The time for which the feed at `rss_link` has been failing, in whole
    /// seconds up to `now`. The first failure starts the clock and gives
    /// zero. `None` where no such feed is stored.
    pub fn get_or_update_down_time(&mut self, rss_link: &str, now: Timestamp) -> (down: Option<u64>)
        ensures
            ({
                let id = spec_gen_hash(rss_link@);
                let before = old(self)@;
                if !before.feeds.contains_key(id) {
                    down is None && final(self)@ == before
                } else {
                    match before.feeds[id].down_time {
                        Some(since) => down == Some(now.spec_secs_since(since) as u64)
                            && final(self)@ == before,
                        None => down == Some(0u64) && final(self)@ == before.with_feed(
                            id,
                            (FeedView { down_time: Some(now), ..before.feeds[id] }),
                        ),
                    }
                }
            }),
    {
        proof {
            use_type_invariant(&*self);
        }
        let mut tables = Tables::create();
        std::mem::swap(&mut tables, &mut self.tables);
        let result = tables.get_or_update_down_time(rss_link, now);
        self.tables = tables;
        result
    }

    /// Clears the failure clock of the feed at `rss_link`, if it is stored.
    pub fn reset_down_time(&mut self, rss_link: &str)
        ensures
            ({
                let id = spec_gen_hash(rss_link@);
                let before = old(self)@;
                if before.feeds.contains_key(id) {
                    final(self)@ == before.with_feed(
                        id,
                        (FeedView { down_time: None, ..before.feeds[id] }),
                    )
                } else {
                    final(self)@ == before
                }
            }),
    {
        proof {
            use_type_invariant(&*self);
        }
        let mut tables = Tables::create();
        std::mem::swap(&mut tables, &mut self.tables);
        tables.reset_down_time(rss_link);
        self.tables = tables;
    }

    /// Takes in a fresh poll of the feed at `rss_link` and returns what
    /// changed: the items not seen before, then a changed title. The stored
    /// window, title and interval follow the poll and the failure clock is
    /// cleared. Nothing happens where no such feed is stored.
    pub fn update(&mut self, rss_link: &str, new_feed: Rss) -> (updates: Vec<FeedUpdate>)
        ensures
            final(self)@ == old(self)@.update(rss_link@, new_feed@),
            ({
                let id = spec_gen_hash(rss_link@);
                if old(self)@.feeds.contains_key(id) {
                    &&& update_views(updates@) == spec_updates(old(self)@.feeds[id], new_feed@)
                    &&& final(self)@.feeds[id].hash_list.len() <= 2 * new_feed.items.len()
                } else {
                    updates@.len() == 0
                }
            }),
    {
        proof {
            use_type_invariant(&*self);
        }
        let mut tables = Tables::create();
        std::mem::swap(&mut tables, &mut self.tables);
        let result = tables.update(rss_link, new_feed);
        self.tables = tables;
        result
    }
}

/// The two indexes agree: a stored feed names a subscriber exactly where
/// the subscriber follows that feed.
pub proof fn lemma_dual_index(db: DatabaseView, s: i64, f: u64)
    requires
        db.wf(),
    ensures
        (db.feeds.contains_key(f) && db.feeds[f].subscribers.contains(s)) <==> db.followed(
            s,
        ).contains(f),
{
    assert(db.follows(s, f) == db.reaches(s, f));
}

/// Every stored feed has at least one subscriber.
pub proof fn lemma_feed_has_subscriber(db: DatabaseView, f: u64)
    requires
        db.wf(),
        db.feeds.contains_key(f),
    ensures
        db.feeds[f].subscribers.len() >= 1,
{
    if db.feeds[f].subscribers.len() == 0 {
        db.feeds[f].subscribers.lemma_len0_is_empty();
    }
}

/// Every known subscriber follows at least one feed.
pub proof fn lemma_subscriber_has_feed(db: DatabaseView, s: i64)
    requires
        db.wf(),
        db.subscribers.contains_key(s),
    ensures
        db.subscribers[s].len() >= 1,
{
    if db.subscribers[s].len() == 0 {
        db.subscribers[s].lemma_len0_is_empty();
    }
}

/// The window after a poll is at most twice as long as the poll.
pub proof fn lemma_window_bounded(window: Seq<u64>, items: Seq<ItemView>)
    ensures
        next_window(window, items).len() <= 2 * items.len(),
{
}

/// The fingerprint of every new item of a poll is in the window that
/// follows the poll.
pub proof fn lemma_window_holds_new(window: Seq<u64>, items: Seq<ItemView>, i: int)
    requires
        0 <= i < new_items(window, items).len(),
    ensures
        next_window(window, items).contains(item_fingerprint(new_items(window, items)[i])),
{
    let fresh = new_items(window, items);
    items.lemma_filter_len(|i: ItemView| !window.contains(item_fingerprint(i)));
    let all = fingerprints(fresh) + window;
    assert(all[i] == item_fingerprint(fresh[i]));
    assert(next_window(window, items)[i] == all[i]);
}

/// Where the window and the new items of a poll together are no more than
/// twice the poll, the window that follows holds the fingerprint of every
/// item of the poll.
pub proof fn lemma_window_holds_poll(window: Seq<u64>, items: Seq<ItemView>, i: int)
    requires
        window.len() + new_items(window, items).len() <= 2 * items.len(),
        0 <= i < items.len(),
    ensures
        next_window(window, items).contains(item_fingerprint(items[i])),
{
    let is_new = |i: ItemView| !window.contains(item_fingerprint(i));
    let fresh = new_items(window, items);
    let all = fingerprints(fresh) + window;
    let h = item_fingerprint(items[i]);
    assert(next_window(window, items) == all);
    if window.contains(h) {
        let j = choose|j: int| 0 <= j < window.len() && window[j] == h;
        assert(all[fresh.len() + j] == h);
    } else {
        assert(is_new(items[i]));
        assert(items.contains(items[i]));
        items.lemma_filter_contains_rev(is_new, items[i]);
        let j = choose|j: int| 0 <= j < fresh.len() && fresh[j] == items[i];
        assert(all[j] == h);
    }
}

/// Two entries of a filtered sequence stand in the same order in the
/// sequence that was filtered.
proof fn lemma_filter_positions<A>(s: Seq<A>, pred: spec_fn(A) -> bool, a: int, b: int)
    requires
        0 <= a < b < s.filter(pred).len(),
    ensures
        exists|x: int, y: int|
            0 <= x < y < s.len() && s[x] == s.filter(pred)[a] && s[y] == s.filter(pred)[b],
    decreases s.len(),
{
    reveal(Seq::filter);
    if s.len() > 0 {
        let rest = s.drop_last();
        let sub = rest.filter(pred);
        if pred(s.last()) && b == sub.len() {
            assert(sub.contains(sub[a]));
            rest.lemma_filter_contains_rev(pred, sub[a]);
            let x = choose|x: int| 0 <= x < rest.len() && rest[x] == sub[a];
            assert(s[x] == s.filter(pred)[a]);
            assert(s[s.len() - 1] == s.filter(pred)[b]);
        } else {
            lemma_filter_positions(rest, pred, a, b);
            let (x, y) = choose|x: int, y: int|
                0 <= x < y < rest.len() && rest[x] == sub[a] && rest[y] == sub[b];
            assert(s[x] == s.filter(pred)[a] && s[y] == s.filter(pred)[b]);
        }
    }
}

/// No item is delivered twice over two polls in a row. Where the window
/// after the first poll still holds every fingerprint of that poll, and the
/// second poll repeats no fingerprint, the second poll delivers at most as
/// many items as it has fingerprints that the first poll did not have.
pub proof fn lemma_no_duplicate_delivery(
    window: Seq<u64>,
    first: Seq<ItemView>,
    second: Seq<ItemView>,
)
    requires
        forall|i: int|
            0 <= i < first.len() ==> next_window(window, first).contains(
                #[trigger] item_fingerprint(first[i]),
            ),
        fingerprints(second).no_duplicates(),
    ensures
        new_items(next_window(window, first), second).len() <= fingerprints(
            second,
        ).to_set().difference(fingerprints(first).to_set()).len(),
{
    let kept = next_window(window, first);
    let is_new = |i: ItemView| !kept.contains(item_fingerprint(i));
    let fresh = new_items(kept, second);
    let hashes = fingerprints(fresh);
    let only_second = fingerprints(second).to_set().difference(fingerprints(first).to_set());
    assert forall|a: int, b: int| 0 <= a < b < fresh.len() implies hashes[a] != hashes[b] by {
        lemma_filter_positions(second, is_new, a, b);
        let (x, y) = choose|x: int, y: int|
            0 <= x < y < second.len() && second[x] == fresh[a] && second[y] == fresh[b];
        assert(fingerprints(second)[x] == hashes[a]);
        assert(fingerprints(second)[y] == hashes[b]);
    }
    assert(hashes.no_duplicates());
    hashes.unique_seq_to_set();
    assert(hashes.to_set().subset_of(only_second)) by {
        assert forall|h: u64| hashes.to_set().contains(h) implies only_second.contains(h) by {
            let a = choose|a: int| 0 <= a < hashes.len() && hashes[a] == h;
            second.lemma_filter_pred(is_new, a);
            assert(is_new(fresh[a]));
            assert(fresh.contains(fresh[a]));
            second.lemma_filter_contains_rev(is_new, fresh[a]);
            let x = choose|x: int| 0 <= x < second.len() && second[x] == fresh[a];
            assert(fingerprints(second)[x] == h);
            if fingerprints(first).contains(h) {
                let y = choose|y: int| 0 <= y < first.len() && fingerprints(first)[y] == h;
                assert(kept.contains(item_fingerprint(first[y])));
            }
        }
    }
    vstd::seq_lib::seq_to_set_is_finite(fingerprints(second));
    vstd::set_lib::lemma_len_subset(hashes.to_set(), only_second);
}

/// Reading the first `n` feeds of a listing of the store gives the part of
/// the store that concerns them.
proof fn lemma_reload_prefix(db: DatabaseView, snapshot: Seq<Feed>, n: int)
    requires
        db.wf(),
        lists(snapshot, db.feeds.dom(), db.feeds),
        0 <= n <= snapshot.len(),
    ensures
        loaded(feed_views(snapshot).take(n)) == db.restricted(
            feed_keys(snapshot).take(n).to_set(),
        ),
    decreases n,
{
    let views = feed_views(snapshot);
    let keys = feed_keys(snapshot);
    if n == 0 {
        let part = db.restricted(keys.take(0).to_set());
        assert(part.feeds =~= Map::empty());
        assert(part.subscribers =~= Map::empty()) by {
            assert forall|s: i64| !part.subscribers.contains_key(s) by {
                if db.subscribers.contains_key(s) {
                    assert(db.subscribers[s].intersect(keys.take(0).to_set()) =~= Set::empty());
                }
            }
        }
    } else {
        lemma_reload_prefix(db, snapshot, n - 1);
        let done = keys.take(n - 1).to_set();
        let feed = views[n - 1];
        let id = keys[n - 1];
        let prev = db.restricted(done);
        assert(views.take(n).drop_last() =~= views.take(n - 1));
        assert(views.take(n).last() == feed);
        assert(keys.take(n) =~= keys.take(n - 1).push(id));
        lemma_to_set_push(keys.take(n - 1), id);
        assert(id == spec_gen_hash(feed.link));
        assert(db.feeds.contains_key(id) && feed == db.feeds[id]);
        assert(!done.contains(id)) by {
            let earlier = keys.take(n - 1);
            if earlier.contains(id) {
                let j = choose|j: int| 0 <= j < earlier.len() && earlier[j] == id;
                assert(keys[j] == keys[n - 1]);
            }
        }
        let base = prev.without_feed(id);
        assert(base.feeds =~= prev.feeds);
        assert(base.subscribers =~= prev.subscribers) by {
            assert forall|s: i64| prev.subscribers.contains_key(s) implies prev.subscribers[s].remove(
                id,
            ) == prev.subscribers[s] by {
                assert(prev.subscribers[s].remove(id) =~= prev.subscribers[s]);
            }
        }
        assert(base == prev);
        let next = prev.with_new_feed(feed);
        let goal = db.restricted(done.insert(id));
        assert(next.feeds =~= goal.feeds);
        assert(next.subscribers =~= goal.subscribers) by {
            assert forall|s: i64| next.subscribers.contains_key(s) == goal.subscribers.contains_key(
                s,
            ) by {
                assert(db.follows(s, id) == db.reaches(s, id));
                if db.subscribers.contains_key(s) {
                    let meets = db.subscribers[s].intersect(done);
                    let more = db.subscribers[s].intersect(done.insert(id));
                    if !meets.is_empty() {
                        let f = choose|f: u64| meets.contains(f);
                        assert(more.contains(f));
                    }
                    if feed.subscribers.contains(s) {
                        assert(more.contains(id));
                    }
                    if !more.is_empty() {
                        let f = choose|f: u64| more.contains(f);
                        if f != id {
                            assert(meets.contains(f));
                        }
                    }
                }
            }
            assert forall|s: i64| next.subscribers.contains_key(s) implies next.subscribers[s]
                == goal.subscribers[s] by {
                assert(db.follows(s, id) == db.reaches(s, id));
                let meets = db.subscribers[s].intersect(done);
                let more = db.subscribers[s].intersect(done.insert(id));
                if feed.subscribers.contains(s) {
                    if !prev.subscribers.contains_key(s) {
                        assert(meets =~= Set::empty());
                    }
                    assert(prev.followed(s).insert(id) =~= more);
                } else {
                    assert(meets =~= more);
                }
            }
        }
    }
}

/// Reloading a snapshot gives the store back: a listing of every stored
/// feed, read in again, makes the store that it was taken from.
pub proof fn lemma_reload(db: DatabaseView, snapshot: Seq<Feed>)
    requires
        db.wf(),
        lists(snapshot, db.feeds.dom(), db.feeds),
    ensures
        loaded(feed_views(snapshot)) == db,
{
    let views = feed_views(snapshot);
    let keys = feed_keys(snapshot);
    lemma_reload_prefix(db, snapshot, snapshot.len() as int);
    assert(views.take(snapshot.len() as int) =~= views);
    assert(keys.take(snapshot.len() as int) =~= keys);
    let part = db.restricted(db.feeds.dom());
    assert(part.feeds =~= db.feeds);
    assert(part.subscribers =~= db.subscribers) by {
        assert forall|s: i64| db.subscribers.contains_key(s) implies db.subscribers[s].intersect(
            db.feeds.dom(),
        ) == db.subscribers[s] by {
            assert forall|f: u64| db.subscribers[s].contains(f) implies db.feeds.dom().contains(
                f,
            ) by {
                assert(db.follows(s, f) == db.reaches(s, f));
            }
            assert(db.subscribers[s].intersect(db.feeds.dom()) =~= db.subscribers[s]);
        }
    }
}

/// A hasher for keys that are one 64-bit integer: the hash of a key is the
/// key itself. It takes one integer and nothing else.
#[derive(Debug, Default)]
pub struct Size64Hasher {
    finished: bool,
    value: u64,
}

/// The unsigned integer with the bits of a signed one.
pub open spec fn bits_of(i: i64) -> u64 {
    if i >= 0 {
        i as u64
    } else {
        (i + 0x1_0000_0000_0000_0000) as u64
    }
}

impl Size64Hasher {
    /// Whether the hasher has taken its integer.
    pub closed spec fn finished(&self) -> bool {
        self.finished
    }

    /// The hash: the integer that was written, zero before.
    pub closed spec fn value(&self) -> u64 {
        self.value
    }

    /// A hasher that has taken nothing yet.
    pub fn new() -> (h: Size64Hasher)
        ensures
            !h.finished(),
            h.value() == 0,
    {
        Size64Hasher { finished: false, value: 0 }
    }

    /// The hash.
    pub fn finish(&self) -> (h: u64)
        ensures
            h == self.value(),
    {
        self.value
    }

    /// Takes an unsigned integer, once.
    pub fn write_u64(&mut self, i: u64)
        requires
            !old(self).finished(),
        ensures
            final(self).finished(),
            final(self).value() == i,
    {
        self.value = i;
        self.finished = true;
    }

    /// Takes a signed integer, once: the hash has its bits.
    pub fn write_i64(&mut self, i: i64)
        requires
            !old(self).finished(),
        ensures
            final(self).finished(),
            final(self).value() == bits_of(i),
    {
        let bits: u64 = if i >= 0 {
            i as u64
        } else {
            (i as i128 + 0x1_0000_0000_0000_0000) as u64
        };
        self.write_u64(bits);
    }
}

} // verus!
