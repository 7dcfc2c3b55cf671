use either::Either;
use pinyin::{Pinyin, ToPinyin};
use rssbot::commands::{
    channel_id, check_channel_permission, check_command, format_feed, is_from_chat_admin,
    parse_feed_args, sort_feeds, split_words, subscription_list, ChannelCheck, ChatKind,
    FeedArgs, Gate, MsgTarget, Sender,
};
use rssbot::data::Feed;
use rssbot::telebot::functions::ChatID;
use rssbot::text::{parse_i64, parse_u32};

#[test]
fn texts_are_split_at_white_space() {
    assert_eq!(split_words("  a  bc\td\n"), vec!["a", "bc", "d"]);
    assert_eq!(split_words(""), Vec::<String>::new());
    assert_eq!(split_words(" \u{3000}\u{a0} "), Vec::<String>::new());
    assert_eq!(split_words("@频道\u{3000}http://example.com/"), vec!["@频道", "http://example.com/"]);
    assert_eq!(split_words("one"), vec!["one"]);
}

#[test]
fn arguments_of_sub_and_unsub() {
    assert_eq!(
        parse_feed_args(" http://example.com/feed "),
        FeedArgs::Here { url: "http://example.com/feed".into() }
    );
    assert_eq!(
        parse_feed_args("@channel http://example.com/feed"),
        FeedArgs::Channel { channel: "@channel".into(), url: "http://example.com/feed".into() }
    );
    assert_eq!(parse_feed_args(""), FeedArgs::Usage);
    assert_eq!(parse_feed_args("a b c"), FeedArgs::Usage);
}

#[test]
fn channels_by_number_or_name() {
    assert_eq!(channel_id("-1001234567890"), ChatID::Integer(-1001234567890));
    assert_eq!(channel_id("42"), ChatID::Integer(42));
    assert_eq!(channel_id("@name"), ChatID::String("@name".into()));
    assert_eq!(channel_id("9223372036854775808"), ChatID::String("9223372036854775808".into()));
}

#[test]
fn numbers_are_read_as_the_standard_library_reads_them() {
    for text in [
        "0", "+0", "-0", "007", "1", "-1", "+1", "4294967295", "4294967296", "9223372036854775807",
        "9223372036854775808", "-9223372036854775808", "-9223372036854775809", "", "+", "-", "1 ",
        " 1", "1a", "a", "--1", "+-1", "１", "99999999999999999999999999",
    ] {
        assert_eq!(parse_i64(text), text.parse::<i64>().ok(), "{:?}", text);
        assert_eq!(parse_u32(text), text.parse::<u32>().ok(), "{:?}", text);
    }
}

#[test]
fn commands_are_gated() {
    let nobody: Vec<i64> = vec![];
    let admins = vec![7, 8];
    assert_eq!(check_command(&nobody, Some(1), ChatKind::Private, false), Gate::Allow);
    assert_eq!(check_command(&nobody, None, ChatKind::Group, false), Gate::Allow);
    assert_eq!(check_command(&nobody, Some(1), ChatKind::Group, true), Gate::AdminsOnly);
    assert_eq!(check_command(&nobody, Some(1), ChatKind::Supergroup, true), Gate::AdminsOnly);
    assert_eq!(check_command(&nobody, Some(1), ChatKind::Private, true), Gate::Allow);
    assert_eq!(check_command(&nobody, Some(1), ChatKind::Channel, false), Gate::RefuseChannel);
    assert_eq!(check_command(&admins, Some(1), ChatKind::Private, false), Gate::Ignore);
    assert_eq!(check_command(&admins, None, ChatKind::Private, false), Gate::Ignore);
    assert_eq!(check_command(&admins, Some(1), ChatKind::Channel, false), Gate::Ignore);
    assert_eq!(check_command(&admins, Some(8), ChatKind::Private, false), Gate::Allow);
    assert_eq!(check_command(&admins, Some(7), ChatKind::Channel, true), Gate::RefuseChannel);
}

#[test]
fn admins_of_a_chat() {
    let admins = vec![1, 2];
    assert!(is_from_chat_admin(Some(Sender::User(2)), -5, &admins));
    assert!(!is_from_chat_admin(Some(Sender::User(3)), -5, &admins));
    assert!(is_from_chat_admin(Some(Sender::Chat(-5)), -5, &admins));
    assert!(!is_from_chat_admin(Some(Sender::Chat(-6)), -5, &admins));
    assert!(!is_from_chat_admin(None, -5, &admins));
}

#[test]
fn channel_permissions() {
    let admins = vec![1, 99];
    assert_eq!(check_channel_permission(ChatKind::Group, &admins, 1, 99), ChannelCheck::NotAChannel);
    assert_eq!(check_channel_permission(ChatKind::Channel, &admins, 2, 99), ChannelCheck::UserNotAdmin);
    assert_eq!(check_channel_permission(ChatKind::Channel, &admins, 1, 98), ChannelCheck::BotNotAdmin);
    assert_eq!(check_channel_permission(ChatKind::Channel, &admins, 1, 99), ChannelCheck::Granted);
}

#[test]
fn the_first_answer_is_a_reply_and_the_next_an_edit() {
    let mut target = MsgTarget::new(-5, 10);
    assert_eq!(target, MsgTarget { chat_id: -5, message_id: 10, first_time: true });
    target.update(11);
    assert_eq!(target, MsgTarget { chat_id: -5, message_id: 11, first_time: false });
}

#[test]
fn subscriptions_are_listed_as_links() {
    let feed = |link: &str, title: &str| Feed {
        link: link.into(),
        title: title.into(),
        ..Feed::default()
    };
    let feeds = vec![feed("http://a/?x=1&y=2", "A <a>"), feed("http://b/", "B")];
    assert_eq!(format_feed(&feeds[0]), "<a href=\"http://a/?x=1&amp;y=2\">A &lt;a&gt;</a>");
    assert_eq!(
        subscription_list("List:".to_string(), &feeds),
        vec!["List:\n<a href=\"http://a/?x=1&amp;y=2\">A &lt;a&gt;</a>\n<a href=\"http://b/\">B</a>"
            .to_string()]
    );
}

fn titled(title: &str, link: &str) -> Feed {
    Feed { link: link.into(), title: title.into(), ..Feed::default() }
}

#[test]
fn feeds_are_sorted_by_romanised_titles() {
    let feeds = vec![
        titled("知乎日报", "1"),
        titled("Zebra", "2"),
        titled("阮一峰的网络日志", "3"),
        titled("apple", "4"),
        titled("Apple", "5"),
        titled("", "6"),
        titled("少数派", "7"),
        titled("阮一峰", "8"),
        titled("zhihu", "9"),
        titled("apple", "10"),
        titled("知", "11"),
        titled("a知", "12"),
        titled("绿", "13"),
        titled("lv", "14"),
        titled("😀", "15"),
    ];
    let mut expected: Vec<(String, String)> =
        feeds.iter().map(|f| (f.title.clone(), f.link.clone())).collect();
    expected.sort_by_cached_key(|(title, _)| {
        title
            .chars()
            .map(|c| {
                c.to_pinyin()
                    .map(Pinyin::plain)
                    .map(Either::Right)
                    .unwrap_or_else(|| Either::Left(c))
            })
            .collect::<Vec<Either<char, &str>>>()
    });
    let sorted: Vec<(String, String)> =
        sort_feeds(&feeds).into_iter().map(|f| (f.title, f.link)).collect();
    assert_eq!(sorted, expected);
    assert_eq!(sorted[0], ("".to_string(), "6".to_string()));
    // feeds with the same title keep their order
    let apples: Vec<&str> =
        sorted.iter().filter(|(t, _)| t == "apple").map(|(_, l)| l.as_str()).collect();
    assert_eq!(apples, vec!["4", "10"]);
    assert!(sort_feeds(&vec![]).is_empty());
}
