use rssbot::errors::{response_code, Error};
use rssbot::messages::{format_large_msg, join_lines, Escape, TELEGRAM_MAX_MSG_LEN};
use rssbot::options::{check_interval, IntervalError};
use rssbot::telebot::functions::{Action, ChatID, File, ParseMode};
use rssbot::utlis::{format_and_split_msgs, to_chinese_error_msg, truncate_message, EscapeUrl};

#[test]
fn html_is_escaped() {
    assert_eq!(Escape("a<b>c&d\"e'f").to_string(), "a&lt;b&gt;c&amp;d&quot;e'f");
    assert_eq!(Escape("").to_string(), "");
    assert_eq!(Escape("虎<扑").to_string(), "虎&lt;扑");
    assert_eq!(Escape("&&").to_string(), "&amp;&amp;");
}

#[test]
fn urls_are_escaped() {
    assert_eq!(EscapeUrl("http://h/?a=<b>&c=\"d\"").to_string(), "http://h/?a=%3Cb%3E&c=%22d%22");
    assert_eq!(EscapeUrl("plain").to_string(), "plain");
}

#[test]
fn lines_are_joined_by_line_feeds() {
    let msgs = format_large_msg("head".to_string(), &[1, 2, 3], |n| format!("line {}", n));
    assert_eq!(msgs, vec!["head\nline 1\nline 2\nline 3".to_string()]);
    let msgs = format_large_msg("head".to_string(), &[] as &[u8], |n| n.to_string());
    assert_eq!(msgs, vec!["head".to_string()]);
    let msgs = format_and_split_msgs("head".to_string(), &["a"], |s| s.to_string());
    assert_eq!(msgs, vec!["head\na".to_string()]);
}

#[test]
fn a_line_that_does_not_fit_starts_a_message() {
    let head = "h".repeat(4000);
    let msgs = join_lines(head.clone(), &vec!["a".repeat(95), "b".repeat(10), "c".repeat(4096)]);
    assert_eq!(msgs.len(), 3);
    assert_eq!(msgs[0], format!("{}\n{}", head, "a".repeat(95)));
    assert_eq!(msgs[0].len(), 4096);
    assert_eq!(msgs[1], "b".repeat(10));
    assert_eq!(msgs[2], "c".repeat(4096));

    let msgs = join_lines(head.clone(), &vec!["a".repeat(96)]);
    assert_eq!(msgs, vec![head, "a".repeat(96)]);
}

#[test]
fn no_message_is_longer_than_the_service_takes() {
    let lines: Vec<String> = (0..500).map(|n| format!("{} 虎扑 {}", n, "x".repeat(n % 97))).collect();
    let total: usize = lines.iter().map(|l| l.len() + 1).sum();
    let msgs = join_lines("<b>head</b>".to_string(), &lines);
    assert!(msgs.len() > 1);
    for msg in &msgs {
        assert!(msg.len() <= TELEGRAM_MAX_MSG_LEN);
    }
    assert_eq!(msgs.join("\n"), format!("<b>head</b>\n{}", lines.join("\n")));
    assert_eq!(msgs.iter().map(|m| m.len() + 1).sum::<usize>(), total + "<b>head</b>".len() + 1);
}

#[test]
fn long_texts_are_cut() {
    assert_eq!(truncate_message("hello world", 8), "hello...");
    assert_eq!(truncate_message("hello", 5), "hello");
    assert_eq!(truncate_message("虎扑足球新闻", 5), "虎扑...");
    assert_eq!(truncate_message("", 0), "");
    assert_eq!(truncate_message("abcd", 3), "...");
}

#[test]
fn status_codes_have_names() {
    assert_eq!(response_code(200), Some("OK"));
    assert_eq!(response_code(404), Some("Not Found"));
    assert_eq!(response_code(418), Some("I'm a teapot"));
    assert_eq!(response_code(526), Some("Invalid SSL Certificate"));
    assert_eq!(response_code(299), None);
    assert_eq!(response_code(0), None);
}

#[test]
fn errors_have_texts() {
    assert_eq!(Error::Http(404).message(), "HTTP 404 (Not Found)");
    assert_eq!(Error::Http(299).message(), "HTTP 299 (Unknown)");
    assert_eq!(Error::EOF.message(), "unexpected EOF");
    assert_eq!(Error::TooManyRedirects.message(), "too many redirects");
    assert_eq!(Error::EmptyFeed.message(), "feed is empty or not valid");
    assert_eq!(Error::DatabaseOpen("db.json".into()).message(), "failed to open database: 'db.json'");
    assert_eq!(Error::DatabaseSave("db.json".into()).message(), "failed to save database: 'db.json'");
    assert_eq!(Error::DatabaseFormat.message(), "illegal database format");
    assert_eq!(Error::Xml("bad".into()).message(), "bad");
    assert_eq!(Error::Curl("timeout".into()).message(), "timeout");
    assert_eq!(Error::Utf8("invalid".into()).message(), "invalid");
    assert_eq!(Error::AlreadySubscribed.message(), "AlreadySubscribed");
    assert_eq!(Error::NotSubscribed.message(), "NotSubscribed");
}

#[test]
fn errors_in_chinese() {
    assert_eq!(to_chinese_error_msg(Error::Curl("timeout".into())), "网络错误 (timeout)");
    assert_eq!(to_chinese_error_msg(Error::Utf8("invalid".into())), "编码错误 (invalid)");
    assert_eq!(to_chinese_error_msg(Error::Xml("bad".into())), "解析错误 (bad)");
    let long = "x".repeat(600);
    assert_eq!(
        to_chinese_error_msg(Error::Xml(long)),
        format!("解析错误 ({}...)", "x".repeat(497))
    );
    assert_eq!(to_chinese_error_msg(Error::EmptyFeed), "feed is empty or not valid");
}

#[test]
fn intervals_are_numbers_of_at_least_one() {
    assert_eq!(check_interval("300"), Ok(()));
    assert_eq!(check_interval("1"), Ok(()));
    assert_eq!(check_interval("0"), Err(IntervalError::TooSmall));
    assert_eq!(check_interval(""), Err(IntervalError::NotANumber));
    assert_eq!(check_interval("-1"), Err(IntervalError::NotANumber));
    assert_eq!(check_interval("4294967296"), Err(IntervalError::NotANumber));
    assert_eq!(check_interval("4294967295"), Ok(()));
    assert_eq!(check_interval("12a"), Err(IntervalError::NotANumber));
    assert_eq!(check_interval("+"), Err(IntervalError::NotANumber));
    assert_eq!(IntervalError::TooSmall.message(), "must >= 1");
}

#[test]
fn request_values_have_names() {
    assert_eq!(ParseMode::HTML.name(), "HTML");
    assert_eq!(ParseMode::Markdown.name(), "Markdown");
    assert_eq!(ParseMode::Text.name(), "Text");
    assert_eq!(Action::Typing.name(), "Typing");
    assert_eq!(Action::RecordAudio.name(), "RecordVideo");
    assert_eq!(Action::FindLocation.name(), "FindLocation");
    assert_eq!(ChatID::from_number(5), ChatID::Integer(5));
    assert_eq!(ChatID::from_name("@c".into()), ChatID::String("@c".into()));
    assert_eq!(File::new("a.txt".into(), vec![1, 2]), File::InputFile("a.txt".into(), vec![1, 2]));
}
