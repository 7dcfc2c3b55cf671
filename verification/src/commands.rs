//! The decisions behind the commands of the bot: what their arguments
//! mean, who may use them, and how their answers are laid out.

use pinyin::ToPinyin;
use vstd::prelude::*;
use vstd::utf8::encode_utf8;
use crate::data::{feed_views, Feed, FeedView};
use crate::messages::{escape_html, join_lines, split_lines, string_views, Escape};
use crate::telebot::functions::ChatID;
use crate::text::{chars_of, is_space, is_space_char, parse_i64, spec_parse_i64, string_of};

verus! {

/// The words of the first `n` characters of a text: those that are
/// complete, and the one that is still open.
pub open spec fn words_upto(s: Seq<char>, n: int) -> (Seq<Seq<char>>, Seq<char>)
    decreases n,
{
    if n <= 0 {
        (seq![], seq![])
    } else {
        let (done, open) = words_upto(s, n - 1);
        if is_space(s[n - 1]) {
            if open.len() > 0 {
                (done.push(open), seq![])
            } else {
                (done, open)
            }
        } else {
            (done, open.push(s[n - 1]))
        }
    }
}

/// The words of a text: its longest runs of characters that are no white
/// space, in their order.
pub open spec fn words(s: Seq<char>) -> Seq<Seq<char>> {
    let (done, open) = words_upto(s, s.len() as int);
    if open.len() > 0 {
        done.push(open)
    } else {
        done
    }
}

/// Splits a text into its words.
pub fn split_words(text: &str) -> (r: Vec<String>)
    ensures
        string_views(r@) == words(text@),
{
    let chars = chars_of(text);
    let mut done: Vec<String> = Vec::new();
    let mut start: usize = 0;
    let mut i: usize = 0;
    while i < chars.len()
        invariant
            start <= i <= chars.len(),
            chars@ == text@,
            words_upto(text@, i as int) == (
                string_views(done@),
                chars@.subrange(start as int, i as int),
            ),
        decreases chars.len() - i,
    {
        let ghost before = string_views(done@);
        if is_space_char(chars[i]) {
            if i > start {
                done.push(string_of(&chars, start, i));
                proof {
                    assert(string_views(done@) =~= before.push(
                        chars@.subrange(start as int, i as int),
                    ));
                }
            }
            start = i + 1;
            proof {
                assert(chars@.subrange(i + 1, i + 1) =~= Seq::<char>::empty());
            }
        } else {
            proof {
                assert(chars@.subrange(start as int, i + 1) =~= chars@.subrange(
                    start as int,
                    i as int,
                ).push(chars[i as int]));
            }
        }
        i = i + 1;
    }
    let ghost before = string_views(done@);
    if i > start {
        done.push(string_of(&chars, start, i));
        proof {
            assert(string_views(done@) =~= before.push(chars@.subrange(start as int, i as int)));
        }
    }
    done
}

/// What the arguments of a command about one feed ask for.
#[derive(Debug, Clone, PartialEq, Eq)]
pub enum FeedArgs {
    /// The feed at `url`, for the chat of the command.
    Here { url: String },
    /// The feed at `url`, for a channel.
    Channel { channel: String, url: String },
    /// Neither: the user is told how the command is used.
    Usage,
}

/// What a [`FeedArgs`] holds.
pub enum FeedArgsView {
    Here { url: Seq<char> },
    Channel { channel: Seq<char>, url: Seq<char> },
    Usage,
}

impl View for FeedArgs {
    type V = FeedArgsView;

    open spec fn view(&self) -> FeedArgsView {
        match self {
            FeedArgs::Here { url } => FeedArgsView::Here { url: url@ },
            FeedArgs::Channel { channel, url } => FeedArgsView::Channel {
                channel: channel@,
                url: url@,
            },
            FeedArgs::Usage => FeedArgsView::Usage,
        }
    }
}

/// What the text behind a command about one feed asks for: one word is the
/// address of the feed, two words are a channel and the address.
pub open spec fn spec_feed_args(text: Seq<char>) -> FeedArgsView {
    let args = words(text);
    if args.len() == 1 {
        FeedArgsView::Here { url: args[0] }
    } else if args.len() == 2 {
        FeedArgsView::Channel { channel: args[0], url: args[1] }
    } else {
        FeedArgsView::Usage
    }
}

/// Reads the arguments of a command about one feed.
pub fn parse_feed_args(text: &str) -> (args: FeedArgs)
    ensures
        args@ == spec_feed_args(text@),
{
    let words = split_words(text);
    if words.len() == 1 {
        FeedArgs::Here { url: words[0].clone() }
    } else if words.len() == 2 {
        FeedArgs::Channel { channel: words[0].clone(), url: words[1].clone() }
    } else {
        FeedArgs::Usage
    }
}

/// The chat that a channel operand names: a number is its id, anything
/// else its user name.
pub fn channel_id(channel: &str) -> (id: ChatID)
    ensures
        match spec_parse_i64(channel@) {
            Some(number) => id == ChatID::Integer(number),
            None => id matches ChatID::String(name) && name@ == channel@,
        },
{
    match parse_i64(channel) {
        Some(number) => ChatID::Integer(number),
        None => ChatID::String(channel.to_owned()),
    }
}

/// Whether `ids` holds `id`.
pub fn holds(ids: &Vec<i64>, id: i64) -> (r: bool)
    ensures
        r == ids@.contains(id),
{
    let mut i: usize = 0;
    while i < ids.len()
        invariant
            i <= ids.len(),
            forall|j: int| 0 <= j < i ==> ids[j] != id,
        decreases ids.len() - i,
    {
        if ids[i] == id {
            return true;
        }
        i = i + 1;
    }
    false
}

/// The kind of a chat.
#[derive(Debug, Clone, Copy, PartialEq, Eq)]
pub enum ChatKind {
    Private,
    Group,
    Supergroup,
    Channel,
}

/// What is done with a command before it is carried out.
#[derive(Debug, Clone, Copy, PartialEq, Eq)]
pub enum Gate {
    /// The command is carried out.
    Allow,
    /// The command is passed by: the bot is private and the sender is none
    /// of its admins.
    Ignore,
    /// The sender is told that commands are not used inside a channel.
    RefuseChannel,
    /// The command is for the admins of the group: it is carried out where
    /// the sender is one of them, and the sender is told so otherwise.
    AdminsOnly,
}

/// What is done with a command. A bot with admins of its own takes
/// commands from them alone. No command is taken inside a channel. In
/// restricted mode a command in a group is for the admins of the group.
pub open spec fn spec_gate(
    bot_admins: Seq<i64>,
    sender: Option<i64>,
    kind: ChatKind,
    restricted: bool,
) -> Gate {
    if bot_admins.len() > 0 && !(sender is Some && bot_admins.contains(sender->0)) {
        Gate::Ignore
    } else if kind == ChatKind::Channel {
        Gate::RefuseChannel
    } else if restricted && (kind == ChatKind::Group || kind == ChatKind::Supergroup) {
        Gate::AdminsOnly
    } else {
        Gate::Allow
    }
}

/// Decides what is done with a command from `sender` in a chat of the
/// given kind.
pub fn check_command(bot_admins: &Vec<i64>, sender: Option<i64>, kind: ChatKind, restricted: bool) -> (gate:
    Gate)
    ensures
        gate == spec_gate(bot_admins@, sender, kind, restricted),
{
    let known = match sender {
        Some(id) => holds(bot_admins, id),
        None => false,
    };
    if bot_admins.len() > 0 && !known {
        return Gate::Ignore;
    }
    match kind {
        ChatKind::Channel => Gate::RefuseChannel,
        ChatKind::Group | ChatKind::Supergroup => if restricted {
            Gate::AdminsOnly
        } else {
            Gate::Allow
        },
        ChatKind::Private => Gate::Allow,
    }
}

/// Who sent a message: a user, or a chat in its own name.
#[derive(Debug, Clone, Copy, PartialEq, Eq)]
pub enum Sender {
    User(i64),
    Chat(i64),
}

/// Whether the sender of a message is an admin of the chat it was sent in:
/// a user that is among the admins, or the chat itself.
pub open spec fn spec_is_from_chat_admin(sender: Option<Sender>, chat: i64, admins: Seq<i64>) -> bool {
    match sender {
        Some(Sender::User(user)) => admins.contains(user),
        Some(Sender::Chat(id)) => id == chat,
        None => false,
    }
}

/// Whether the sender of a message is an admin of the chat it was sent in.
pub fn is_from_chat_admin(sender: Option<Sender>, chat: i64, admins: &Vec<i64>) -> (r: bool)
    ensures
        r == spec_is_from_chat_admin(sender, chat, admins@),
{
    match sender {
        Some(Sender::User(user)) => holds(admins, user),
        Some(Sender::Chat(id)) => id == chat,
        None => false,
    }
}

/// Whether a command may act on a channel.
#[derive(Debug, Clone, Copy, PartialEq, Eq)]
pub enum ChannelCheck {
    /// The target is no channel.
    NotAChannel,
    /// The user is no admin of the channel.
    UserNotAdmin,
    /// The bot is no admin of the channel.
    BotNotAdmin,
    /// The command may go on.
    Granted,
}

/// Whether a command of `user` may act on a chat with the given admins:
/// the chat is a channel, and the user and the bot are among its admins.
pub open spec fn spec_channel_permission(
    kind: ChatKind,
    admins: Seq<i64>,
    user: i64,
    bot: i64,
) -> ChannelCheck {
    if kind != ChatKind::Channel {
        ChannelCheck::NotAChannel
    } else if !admins.contains(user) {
        ChannelCheck::UserNotAdmin
    } else if !admins.contains(bot) {
        ChannelCheck::BotNotAdmin
    } else {
        ChannelCheck::Granted
    }
}

/// Decides whether a command of `user` may act on a chat.
pub fn check_channel_permission(kind: ChatKind, admins: &Vec<i64>, user: i64, bot: i64) -> (r:
    ChannelCheck)
    ensures
        r == spec_channel_permission(kind, admins@, user, bot),
{
    match kind {
        ChatKind::Channel => {
            if !holds(admins, user) {
                ChannelCheck::UserNotAdmin
            } else if !holds(admins, bot) {
                ChannelCheck::BotNotAdmin
            } else {
                ChannelCheck::Granted
            }
        },
        _ => ChannelCheck::NotAChannel,
    }
}

/// Where the answer to a command goes: first a reply to the command, from
/// then on an edit of that reply.
#[derive(Debug, Clone, Copy, PartialEq, Eq)]
pub struct MsgTarget {
    pub chat_id: i64,
    pub message_id: u32,
    pub first_time: bool,
}

impl MsgTarget {
    /// The target of the first answer: a reply to the message of the
    /// command.
    pub fn new(chat_id: i64, message_id: u32) -> (target: MsgTarget)
        ensures
            target == (MsgTarget { chat_id, message_id, first_time: true }),
    {
        MsgTarget { chat_id, message_id, first_time: true }
    }

    /// Takes note of the answer that was sent: the next one edits it.
    pub fn update(&mut self, message_id: u32)
        ensures
            *final(self) == (MsgTarget { message_id, first_time: false, ..*old(self) }),
    {
        self.message_id = message_id;
        self.first_time = false;
    }
}

/// The line of one feed in a list of subscriptions: its title as a link to
/// it.
pub open spec fn feed_line(feed: FeedView) -> Seq<char> {
    "<a href=\""@ + escape_html(feed.link) + "\">"@ + escape_html(feed.title) + "</a>"@
}

/// The messages that list subscriptions behind a head.
pub open spec fn spec_subscription_list(head: Seq<char>, feeds: Seq<FeedView>) -> Seq<Seq<char>> {
    split_lines(head, feeds.map_values(|f: FeedView| feed_line(f)))
}

/// Writes the line of one feed in a list of subscriptions.
pub fn format_feed(feed: &Feed) -> (line: String)
    ensures
        line@ == feed_line(feed@),
{
    let mut line = "<a href=\"".to_owned();
    line.append(Escape(feed.link.as_str()).to_string().as_str());
    line.append("\">");
    line.append(Escape(feed.title.as_str()).to_string().as_str());
    line.append("</a>");
    line
}

/// Writes the messages that list subscriptions behind a head.
pub fn subscription_list(head: String, feeds: &Vec<Feed>) -> (msgs: Vec<String>)
    ensures
        string_views(msgs@) == spec_subscription_list(head@, feed_views(feeds@)),
{
    let mut lines: Vec<String> = Vec::new();
    let mut i: usize = 0;
    while i < feeds.len()
        invariant
            i <= feeds.len(),
            lines.len() == i,
            forall|j: int| 0 <= j < i ==> (#[trigger] lines[j])@ == feed_line(feeds[j]@),
        decreases feeds.len() - i,
    {
        lines.push(format_feed(&feeds[i]));
        i = i + 1;
    }
    proof {
        assert(string_views(lines@) =~= feed_views(feeds@).map_values(|f: FeedView| feed_line(f)));
    }
    join_lines(head, &lines)
}

/// The romanisation of a Chinese character without its tone, where the
/// character has one.
pub uninterp spec fn pinyin_of(c: char) -> Option<Seq<char>>;

/// `ToPinyin::to_pinyin` on a character, read with `Pinyin::plain`: the
/// romanisation of the character without its tone. It depends on the
/// character alone.
#[verifier::external_body]
fn plain_pinyin(c: char) -> (r: Option<String>)
    ensures
        match r {
            Some(p) => pinyin_of(c) == Some(p@),
            None => pinyin_of(c) is None,
        },
{
    c.to_pinyin().map(|p| p.plain().to_owned())
}

/// One character of a title as it counts in sorting: by its romanisation
/// where it has one, by itself otherwise.
#[derive(Debug)]
pub enum KeyPart {
    Plain(char),
    Pinyin(String),
}

/// What a [`KeyPart`] holds.
pub enum KeyPartView {
    Plain(char),
    Pinyin(Seq<char>),
}

impl View for KeyPart {
    type V = KeyPartView;

    open spec fn view(&self) -> KeyPartView {
        match self {
            KeyPart::Plain(c) => KeyPartView::Plain(*c),
            KeyPart::Pinyin(p) => KeyPartView::Pinyin(p@),
        }
    }
}

/// The views of a list of key parts.
pub open spec fn part_views(parts: Seq<KeyPart>) -> Seq<KeyPartView> {
    parts.map_values(|p: KeyPart| p@)
}

/// Whether `a` comes before `b` in the order of the dictionary that `lt`
/// gives: at the first position where one of the two is before the other,
/// or by being a proper prefix.
pub open spec fn lex_lt<T>(a: Seq<T>, b: Seq<T>, lt: spec_fn(T, T) -> bool) -> bool
    decreases a.len(),
{
    if b.len() == 0 {
        false
    } else if a.len() == 0 {
        true
    } else if lt(a[0], b[0]) {
        true
    } else if lt(b[0], a[0]) {
        false
    } else {
        lex_lt(a.skip(1), b.skip(1), lt)
    }
}

/// Whether an order never holds both ways.
pub open spec fn asymmetric<T>(lt: spec_fn(T, T) -> bool) -> bool {
    forall|x: T, y: T| #[trigger] lt(x, y) ==> !lt(y, x)
}

/// Whether what is not before is behind or level all the way: `x` not
/// before `y` and `y` not before `z` leave `x` not before `z`.
pub open spec fn negatively_transitive<T>(lt: spec_fn(T, T) -> bool) -> bool {
    forall|x: T, y: T, z: T| !#[trigger] lt(x, y) && !#[trigger] lt(y, z) ==> !lt(x, z)
}

/// The order of the dictionary never holds both ways where the order of
/// the letters does not.
pub proof fn lemma_lex_asymmetric<T>(a: Seq<T>, b: Seq<T>, lt: spec_fn(T, T) -> bool)
    requires
        asymmetric(lt),
        lex_lt(a, b, lt),
    ensures
        !lex_lt(b, a, lt),
    decreases a.len(),
{
    if a.len() > 0 && b.len() > 0 && !lt(a[0], b[0]) && !lt(b[0], a[0]) {
        lemma_lex_asymmetric(a.skip(1), b.skip(1), lt);
    }
}

/// The order of the dictionary is negatively transitive where the order
/// of the letters is.
pub proof fn lemma_lex_negatively_transitive<T>(
    a: Seq<T>,
    b: Seq<T>,
    c: Seq<T>,
    lt: spec_fn(T, T) -> bool,
)
    requires
        negatively_transitive(lt),
        !lex_lt(a, b, lt),
        !lex_lt(b, c, lt),
    ensures
        !lex_lt(a, c, lt),
    decreases a.len(),
{
    if c.len() > 0 {
        assert(b.len() > 0);
        assert(a.len() > 0);
        assert(!lt(a[0], b[0]) && !lt(b[0], c[0]));
        assert(!lt(a[0], c[0]));
        if !lt(c[0], a[0]) {
            assert(!lt(b[0], a[0])) by {
                assert(!lt(b[0], c[0]) && !lt(c[0], a[0]));
            }
            assert(!lt(c[0], b[0])) by {
                assert(!lt(c[0], a[0]) && !lt(a[0], b[0]));
            }
            lemma_lex_negatively_transitive(a.skip(1), b.skip(1), c.skip(1), lt);
        }
    }
}

/// The order of bytes.
pub open spec fn byte_lt() -> spec_fn(u8, u8) -> bool {
    |x: u8, y: u8| x < y
}

/// Whether one text comes before another: by the bytes of their UTF-8, in
/// the order of the dictionary.
pub open spec fn text_lt(a: Seq<char>, b: Seq<char>) -> bool {
    lex_lt(encode_utf8(a), encode_utf8(b), byte_lt())
}

/// Whether one key part comes before another: a character by itself comes
/// before one by its romanisation; characters go by their code, and
/// romanisations as texts.
pub open spec fn part_lt() -> spec_fn(KeyPartView, KeyPartView) -> bool {
    |a: KeyPartView, b: KeyPartView|
        match (a, b) {
            (KeyPartView::Plain(x), KeyPartView::Plain(y)) => (x as u32) < (y as u32),
            (KeyPartView::Plain(_), KeyPartView::Pinyin(_)) => true,
            (KeyPartView::Pinyin(_), KeyPartView::Plain(_)) => false,
            (KeyPartView::Pinyin(x), KeyPartView::Pinyin(y)) => text_lt(x, y),
        }
}

/// What a character counts as in sorting: its romanisation where it has
/// one, itself otherwise.
pub open spec fn key_part(c: char) -> KeyPartView {
    match pinyin_of(c) {
        Some(p) => KeyPartView::Pinyin(p),
        None => KeyPartView::Plain(c),
    }
}

/// The key by which a title is sorted: its characters, each as it counts
/// in sorting.
pub open spec fn title_key(title: Seq<char>) -> Seq<KeyPartView> {
    title.map_values(|c: char| key_part(c))
}

/// Whether one title comes before another in a list of subscriptions.
pub open spec fn title_lt(a: Seq<char>, b: Seq<char>) -> bool {
    lex_lt(title_key(a), title_key(b), part_lt())
}

/// The order of key parts never holds both ways and is negatively
/// transitive.
pub proof fn lemma_part_order()
    ensures
        asymmetric(part_lt()),
        negatively_transitive(part_lt()),
{
    let lt = part_lt();
    assert(asymmetric(byte_lt()));
    assert(negatively_transitive(byte_lt()));
    assert forall|x: KeyPartView, y: KeyPartView| #[trigger] lt(x, y) implies !lt(y, x) by {
        match (x, y) {
            (KeyPartView::Pinyin(p), KeyPartView::Pinyin(q)) => {
                lemma_lex_asymmetric(encode_utf8(p), encode_utf8(q), byte_lt());
            },
            _ => {},
        }
    }
    assert forall|x: KeyPartView, y: KeyPartView, z: KeyPartView|
        !#[trigger] lt(x, y) && !#[trigger] lt(y, z) implies !lt(x, z) by {
        match (x, y, z) {
            (KeyPartView::Pinyin(p), KeyPartView::Pinyin(q), KeyPartView::Pinyin(r)) => {
                lemma_lex_negatively_transitive(
                    encode_utf8(p),
                    encode_utf8(q),
                    encode_utf8(r),
                    byte_lt(),
                );
            },
            _ => {},
        }
    }
}

/// A feed put into a list that is sorted by title: behind the last feed
/// that does not come behind it.
pub open spec fn insert_by_title(sorted: Seq<FeedView>, feed: FeedView) -> Seq<FeedView>
    decreases sorted.len(),
{
    if sorted.len() > 0 && title_lt(feed.title, sorted.last().title) {
        insert_by_title(sorted.drop_last(), feed).push(sorted.last())
    } else {
        sorted.push(feed)
    }
}

/// Feeds sorted by title; feeds whose titles are level keep their order.
pub open spec fn sorted_by_title(feeds: Seq<FeedView>) -> Seq<FeedView>
    decreases feeds.len(),
{
    if feeds.len() == 0 {
        seq![]
    } else {
        insert_by_title(sorted_by_title(feeds.drop_last()), feeds.last())
    }
}

/// Whether no feed of a list comes before one that stands ahead of it.
pub open spec fn in_title_order(feeds: Seq<FeedView>) -> bool {
    forall|i: int, j: int|
        0 <= i < j < feeds.len() ==> !title_lt(#[trigger] feeds[j].title, #[trigger] feeds[i].title)
}

/// Putting a feed into a list in title order leaves the list in title
/// order and adds that feed to it.
pub proof fn lemma_insert_by_title(sorted: Seq<FeedView>, feed: FeedView)
    requires
        in_title_order(sorted),
    ensures
        in_title_order(insert_by_title(sorted, feed)),
        insert_by_title(sorted, feed).to_multiset() == sorted.to_multiset().insert(feed),
        insert_by_title(sorted, feed).len() == sorted.len() + 1,
    decreases sorted.len(),
{
    broadcast use vstd::seq_lib::group_to_multiset_ensures;

    lemma_part_order();
    let out = insert_by_title(sorted, feed);
    if sorted.len() > 0 && title_lt(feed.title, sorted.last().title) {
        let rest = sorted.drop_last();
        let last = sorted.last();
        assert(in_title_order(rest)) by {
            assert forall|i: int, j: int| 0 <= i < j < rest.len() implies !title_lt(
                #[trigger] rest[j].title,
                #[trigger] rest[i].title,
            ) by {
                assert(rest[i] == sorted[i] && rest[j] == sorted[j]);
            }
        }
        lemma_insert_by_title(rest, feed);
        let inner = insert_by_title(rest, feed);
        assert(sorted =~= rest.push(last));
        assert(out.to_multiset() =~= sorted.to_multiset().insert(feed));
        assert forall|i: int, j: int| 0 <= i < j < out.len() implies !title_lt(
            #[trigger] out[j].title,
            #[trigger] out[i].title,
        ) by {
            if j < inner.len() {
                assert(out[i] == inner[i] && out[j] == inner[j]);
            } else {
                assert(out[j] == last);
                assert(out[i] == inner[i]);
                assert(inner.to_multiset().count(inner[i]) > 0);
                if inner[i] == feed {
                    lemma_lex_asymmetric(title_key(feed.title), title_key(last.title), part_lt());
                } else {
                    assert(rest.to_multiset().count(inner[i]) > 0);
                    let k = choose|k: int| 0 <= k < rest.len() && rest[k] == inner[i];
                    assert(sorted[k] == inner[i]);
                    assert(sorted[sorted.len() - 1] == last);
                }
            }
        }
    } else {
        assert forall|i: int, j: int| 0 <= i < j < out.len() implies !title_lt(
            #[trigger] out[j].title,
            #[trigger] out[i].title,
        ) by {
            if j < sorted.len() {
                assert(out[i] == sorted[i] && out[j] == sorted[j]);
            } else {
                assert(out[j] == feed && out[i] == sorted[i]);
                if i < sorted.len() - 1 {
                    assert(!title_lt(sorted[sorted.len() - 1].title, sorted[i].title));
                    lemma_lex_negatively_transitive(
                        title_key(feed.title),
                        title_key(sorted.last().title),
                        title_key(sorted[i].title),
                        part_lt(),
                    );
                }
            }
        }
    }
}

/// Sorted feeds stand in title order, and they are the feeds that were
/// sorted, each as often as before.
pub proof fn lemma_sorted_by_title(feeds: Seq<FeedView>)
    ensures
        in_title_order(sorted_by_title(feeds)),
        sorted_by_title(feeds).to_multiset() == feeds.to_multiset(),
        sorted_by_title(feeds).len() == feeds.len(),
    decreases feeds.len(),
{
    broadcast use vstd::seq_lib::group_to_multiset_ensures;

    if feeds.len() > 0 {
        lemma_sorted_by_title(feeds.drop_last());
        lemma_insert_by_title(sorted_by_title(feeds.drop_last()), feeds.last());
        assert(feeds =~= feeds.drop_last().push(feeds.last()));
    }
}

/// Whether one run of bytes comes before another in the order of the
/// dictionary.
fn bytes_less(a: &[u8], b: &[u8]) -> (r: bool)
    ensures
        r == lex_lt(a@, b@, byte_lt()),
{
    let mut i: usize = 0;
    proof {
        assert(a@.skip(0) =~= a@);
        assert(b@.skip(0) =~= b@);
    }
    while i < a.len() && i < b.len()
        invariant
            i <= a.len(),
            i <= b.len(),
            lex_lt(a@, b@, byte_lt()) == lex_lt(a@.skip(i as int), b@.skip(i as int), byte_lt()),
        decreases a.len() - i,
    {
        proof {
            assert(a@.skip(i as int)[0] == a[i as int]);
            assert(b@.skip(i as int)[0] == b[i as int]);
            assert(a@.skip(i as int).skip(1) =~= a@.skip(i + 1));
            assert(b@.skip(i as int).skip(1) =~= b@.skip(i + 1));
        }
        if a[i] < b[i] {
            return true;
        }
        if b[i] < a[i] {
            return false;
        }
        i = i + 1;
    }
    i < b.len()
}

/// Whether one key part comes before another.
fn part_less(a: &KeyPart, b: &KeyPart) -> (r: bool)
    ensures
        r == part_lt()(a@, b@),
{
    match (a, b) {
        (KeyPart::Plain(x), KeyPart::Plain(y)) => (*x as u32) < (*y as u32),
        (KeyPart::Plain(_), KeyPart::Pinyin(_)) => true,
        (KeyPart::Pinyin(_), KeyPart::Plain(_)) => false,
        (KeyPart::Pinyin(x), KeyPart::Pinyin(y)) => bytes_less(
            x.as_str().as_bytes(),
            y.as_str().as_bytes(),
        ),
    }
}

/// Whether one key comes before another.
fn key_less(a: &Vec<KeyPart>, b: &Vec<KeyPart>) -> (r: bool)
    ensures
        r == lex_lt(part_views(a@), part_views(b@), part_lt()),
{
    let ghost x = part_views(a@);
    let ghost y = part_views(b@);
    let mut i: usize = 0;
    proof {
        assert(x.skip(0) =~= x);
        assert(y.skip(0) =~= y);
    }
    while i < a.len() && i < b.len()
        invariant
            i <= a.len(),
            i <= b.len(),
            x == part_views(a@),
            y == part_views(b@),
            lex_lt(x, y, part_lt()) == lex_lt(x.skip(i as int), y.skip(i as int), part_lt()),
        decreases a.len() - i,
    {
        proof {
            assert(x.skip(i as int)[0] == a[i as int]@);
            assert(y.skip(i as int)[0] == b[i as int]@);
            assert(x.skip(i as int).skip(1) =~= x.skip(i + 1));
            assert(y.skip(i as int).skip(1) =~= y.skip(i + 1));
        }
        if part_less(&a[i], &b[i]) {
            return true;
        }
        if part_less(&b[i], &a[i]) {
            return false;
        }
        i = i + 1;
    }
    i < b.len()
}

/// What a character counts as in sorting.
fn sort_key_part(c: char) -> (part: KeyPart)
    ensures
        part@ == key_part(c),
{
    match plain_pinyin(c) {
        Some(p) => KeyPart::Pinyin(p),
        None => KeyPart::Plain(c),
    }
}

/// The key by which a title is sorted.
fn sort_key(title: &str) -> (key: Vec<KeyPart>)
    ensures
        part_views(key@) == title_key(title@),
{
    let chars = chars_of(title);
    let mut parts: Vec<KeyPart> = Vec::new();
    let mut i: usize = 0;
    while i < chars.len()
        invariant
            i <= chars.len(),
            chars@ == title@,
            parts.len() == i,
            forall|j: int| 0 <= j < i ==> (#[trigger] parts[j])@ == key_part(title@[j]),
        decreases chars.len() - i,
    {
        parts.push(sort_key_part(chars[i]));
        i = i + 1;
    }
    proof {
        assert(part_views(parts@) =~= title_key(title@));
    }
    parts
}

/// A feed that comes before every feed from position `at` on, and before
/// none that stands ahead of `at`, goes to position `at`.
proof fn lemma_insert_position(sorted: Seq<FeedView>, feed: FeedView, at: int)
    requires
        0 <= at <= sorted.len(),
        forall|k: int| at <= k < sorted.len() ==> title_lt(feed.title, #[trigger] sorted[k].title),
        at > 0 ==> !title_lt(feed.title, sorted[at - 1].title),
    ensures
        insert_by_title(sorted, feed) == sorted.insert(at, feed),
    decreases sorted.len(),
{
    if sorted.len() > 0 && title_lt(feed.title, sorted.last().title) {
        let rest = sorted.drop_last();
        assert(at < sorted.len());
        assert forall|k: int| at <= k < rest.len() implies title_lt(
            feed.title,
            #[trigger] rest[k].title,
        ) by {
            assert(rest[k] == sorted[k]);
        }
        if at > 0 {
            assert(rest[at - 1] == sorted[at - 1]);
        }
        lemma_insert_position(rest, feed, at);
        assert(rest.insert(at, feed).push(sorted.last()) =~= sorted.insert(at, feed));
    } else {
        if at < sorted.len() {
            assert(title_lt(feed.title, sorted[sorted.len() - 1].title));
        }
        assert(sorted.push(feed) =~= sorted.insert(at, feed));
    }
}

/// Sorts feeds by their titles, a Chinese character counting by its
/// romanisation. Feeds whose titles are level keep their order.
pub fn sort_feeds(feeds: &Vec<Feed>) -> (sorted: Vec<Feed>)
    ensures
        feed_views(sorted@) == sorted_by_title(feed_views(feeds@)),
{
    let ghost views = feed_views(feeds@);
    let mut sorted: Vec<Feed> = Vec::new();
    let mut keys: Vec<Vec<KeyPart>> = Vec::new();
    let mut i: usize = 0;
    while i < feeds.len()
        invariant
            i <= feeds.len(),
            views == feed_views(feeds@),
            keys.len() == sorted.len(),
            sorted.len() == i,
            feed_views(sorted@) == sorted_by_title(views.take(i as int)),
            forall|k: int|
                0 <= k < sorted.len() ==> part_views((#[trigger] keys[k])@) == title_key(
                    sorted[k]@.title,
                ),
        decreases feeds.len() - i,
    {
        let feed = feeds[i].clone();
        let key = sort_key(feed.title.as_str());
        let ghost before = feed_views(sorted@);
        let mut at: usize = sorted.len();
        while at > 0 && key_less(&key, &keys[at - 1])
            invariant
                at <= sorted.len(),
                keys.len() == sorted.len(),
                before == feed_views(sorted@),
                part_views(key@) == title_key(feed@.title),
                forall|k: int|
                    0 <= k < sorted.len() ==> part_views((#[trigger] keys[k])@) == title_key(
                        sorted[k]@.title,
                    ),
                forall|k: int|
                    at <= k < before.len() ==> title_lt(feed@.title, #[trigger] before[k].title),
            decreases at,
        {
            proof {
                assert(before[at - 1] == sorted[at - 1]@);
            }
            at = at - 1;
        }
        proof {
            if at > 0 {
                assert(before[at - 1] == sorted[at - 1]@);
            }
            lemma_insert_position(before, feed@, at as int);
            assert(views.take(i + 1).drop_last() =~= views.take(i as int));
            assert(views.take(i + 1).last() == feed@);
        }
        let ghost placed = feed@;
        let ghost keys_before = keys@;
        let ghost sorted_before = sorted@;
        sorted.insert(at, feed);
        keys.insert(at, key);
        proof {
            assert(feed_views(sorted@) =~= before.insert(at as int, placed));
            assert forall|k: int| 0 <= k < sorted.len() implies part_views(
                (#[trigger] keys[k])@,
            ) == title_key(sorted[k]@.title) by {
                if k < at {
                    assert(keys[k] == keys_before[k] && sorted[k] == sorted_before[k]);
                } else if k > at {
                    assert(keys[k] == keys_before[k - 1] && sorted[k] == sorted_before[k - 1]);
                }
            }
        }
        i = i + 1;
    }
    proof {
        assert(views.take(feeds.len() as int) =~= views);
    }
    sorted
}

} // verus!









