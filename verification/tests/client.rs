use rssbot::client::{
    append_chunk, check_content_length, check_status, content_type_is_json, format_byte_size, is_json_feed,
    read_feed_body, user_agent, FeedError,
};
use rssbot::feed::ParseError;

#[test]
fn max_format_byte_size() {
    assert_eq!(format_byte_size(std::u64::MAX), "16EiB");
}

#[test]
fn format_byte_size_zero() {
    assert_eq!(format_byte_size(0), "0B");
}

#[test]
fn format_byte_size_normal() {
    assert_eq!(format_byte_size(1), "1B");
    assert_eq!(format_byte_size(10), "10B");
    assert_eq!(format_byte_size(1024), "1kiB");
    assert_eq!(format_byte_size(1024 * 10), "10kiB");
    assert_eq!(format_byte_size(1024 * 1024), "1MiB");
    assert_eq!(format_byte_size(1024 * 1024 * 10), "10MiB");

    assert_eq!(format_byte_size(1024 + 10), "1kiB");
}

#[test]
fn format_byte_size_rounds_to_nearest_and_ties_to_even() {
    assert_eq!(format_byte_size(1023), "1023B");
    assert_eq!(format_byte_size(1535), "1kiB");
    assert_eq!(format_byte_size(1536), "2kiB");
    assert_eq!(format_byte_size(2560), "2kiB");
    assert_eq!(format_byte_size(2561), "3kiB");
    assert_eq!(format_byte_size(1024 * 1024 - 1), "1024kiB");
    assert_eq!(format_byte_size(2097152), "2MiB");
    assert_eq!(format_byte_size(1 << 30), "1GiB");
    assert_eq!(format_byte_size(1 << 40), "1TiB");
    assert_eq!(format_byte_size(1 << 50), "1PiB");
    assert_eq!(format_byte_size(1 << 60), "1EiB");
}

#[test]
fn declared_length_over_the_limit_is_too_large() {
    assert_eq!(check_content_length(Some(11), 10), Err(FeedError::TooLarge(10)));
    assert_eq!(check_content_length(Some(10), 10), Ok(()));
    assert_eq!(check_content_length(None, 10), Ok(()));
    assert_eq!(check_content_length(Some(u64::MAX), 0), Ok(()));
}

#[test]
fn body_over_the_limit_is_too_large() {
    let mut body = Vec::new();
    assert_eq!(append_chunk(&mut body, b"abcd", 6), Ok(()));
    assert_eq!(append_chunk(&mut body, b"ef", 6), Ok(()));
    assert_eq!(append_chunk(&mut body, b"g", 6), Err(FeedError::TooLarge(6)));
    assert_eq!(body, b"abcdef");
    assert_eq!(append_chunk(&mut body, b"ghijk", 0), Ok(()));
    assert_eq!(body, b"abcdefghijk");
}

#[test]
fn json_content_types() {
    assert!(content_type_is_json("application/json"));
    assert!(content_type_is_json("application/json; charset=utf-8"));
    assert!(content_type_is_json("charset=utf-8;application/json"));
    assert!(content_type_is_json("  Application/JSON  ;charset=utf-8"));
    assert!(!content_type_is_json("application/jsonp"));
    assert!(!content_type_is_json("text/xml; x=application/json"));
    assert!(!content_type_is_json("application/feed+json"));
    assert!(!content_type_is_json(""));
}

#[test]
fn json_feeds_by_address_or_content_type() {
    assert!(is_json_feed("https://example.com/feed.json", None));
    assert!(is_json_feed("https://example.com/feed", Some("application/json")));
    assert!(!is_json_feed("https://example.com/feed.xml", Some("text/xml")));
    assert!(!is_json_feed("json", None));
    assert!(!is_json_feed("https://example.com/feed.json?x", None));
}

#[test]
fn user_agent_names_package_and_bot() {
    assert_eq!(user_agent("rssbot", "2.0.0", "some_bot"), "rssbot/2.0.0 (+https://t.me/some_bot)");
}

#[test]
fn body_is_read_and_made_canonical() {
    let body = b"<rss><channel><title>T</title><link>/</link><item><link>/a</link></item></channel></rss>";
    let feed = read_feed_body(body, "http://example.com/rss").unwrap();
    assert_eq!(feed.title, "T");
    assert_eq!(feed.link, "http://example.com");
    assert_eq!(feed.items[0].link, Some("http://example.com/a".into()));
    assert_eq!(
        read_feed_body(b"", "http://example.com/rss"),
        Err(FeedError::Parsing(ParseError::UnexpectedEof("feed".into())))
    );
}

#[test]
fn failed_statuses_are_network_errors() {
    assert_eq!(check_status(200), Ok(()));
    assert_eq!(check_status(304), Ok(()));
    assert_eq!(check_status(399), Ok(()));
    assert_eq!(check_status(404), Err(FeedError::Network("HTTP 404 (Not Found)".into())));
    assert_eq!(check_status(503), Err(FeedError::Network("HTTP 503 (Service Unavailable)".into())));
    assert_eq!(check_status(599), Err(FeedError::Network("HTTP 599 (Unknown)".into())));
    assert_eq!(check_status(600), Ok(()));
}
