use rssbot::feed::{fix_relative_url, parse, parse_atom_link, parse_items, AtomLink, Item, ParseError, Rss};
use rssbot::xml::{read_items, XmlItem};

#[test]
fn encoding() {
    let s: &[u8] = b"<?xml version=\"1.0\" encoding=\"gb2312\"?>\n<rss version=\"2.0\">\n<channel>\n<title>\xbb\xa2\xc6\xcb\xd7\xe3\xc7\xf2\xd0\xc2\xce\xc5</title>\n<link>http://voice.hupu.com/soccer</link>\n</channel>\n</rss>\n";
    let r = parse(s).unwrap();
    assert_eq!(r.title, "虎扑足球新闻")
}

#[test]
fn atom03() {
    let s = r#"<?xml version="1.0" encoding="utf-8"?>
<feed version="0.3" xmlns="http://purl.org/atom/ns#">
<title>atom_0.3.feed.title</title>
<link rel="alternate" type="text/html" href="atom_0.3.feed.link^href"/>
<modified>2003-12-13T18:30:02Z</modified>
<author><name>atom_0.3.feed.author.name</name></author>
<entry>
<title>atom_0.3.feed.entry[0].title</title>
<link rel="alternate" type="text/html" href="atom_0.3.feed.entry[0].link^href"/>
<id>atom_0.3.feed.entry[0]^id</id>
<issued>2003-12-13T08:29:29-04:00</issued>
</entry>
<entry>
<title>atom_0.3.feed.entry[1].title</title>
<link rel="alternate" type="text/html" href="atom_0.3.feed.entry[1].link^href"/>
<id>atom_0.3.feed.entry[1]^id</id>
<issued>2003-12-13T08:29:29-04:00</issued>
</entry>
</feed>
"#;
    let r = parse(s.as_bytes()).unwrap();
    assert_eq!(
        r,
        Rss {
            title: "atom_0.3.feed.title".into(),
            link: "atom_0.3.feed.link^href".into(),
            items: vec![
                Item {
                    title: Some("atom_0.3.feed.entry[0].title".into()),
                    link: Some("atom_0.3.feed.entry[0].link^href".into()),
                    id: Some("atom_0.3.feed.entry[0]^id".into()),
                },
                Item {
                    title: Some("atom_0.3.feed.entry[1].title".into()),
                    link: Some("atom_0.3.feed.entry[1].link^href".into()),
                    id: Some("atom_0.3.feed.entry[1]^id".into()),
                },
            ],
            ..Rss::default()
        }
    );
}

#[test]
fn atom10() {
    let s = r#"<?xml version="1.0" encoding="utf-8"?>
<feed xmlns="http://www.w3.org/2005/Atom">
<title type="text">atom_1.0.feed.title</title>
<link rel="alternate" type="text/plain" href="http://example.com/blog_plain"/>
<link rel="self" type="application/atom+xml" href="http://example.com/blog/atom_1.0.xml"/>
<link rel="hub" href="http://example.com/hub"/>
<id>atom_1.0.feed.id</id>
<updated>2003-12-13T18:30:02Z</updated>
<entry>
<title>atom_1.0.feed.entry[0].title</title>
<link rel="alternate" type="text/plain" href="http://example.com/blog/entry1_plain"/>
<link rel="related" href="http://example.com/blog/entry1_related"/>
<id>atom_1.0.feed.entry[0]^id</id>
<updated>2003-12-13T18:30:02Z</updated>
<summary>atom_1.0.feed.entry[0].summary</summary>
</entry>
<entry>
<title>atom_1.0.feed.entry[1].title</title>
<link href="http://example.com/blog/entry2"/>
<id>atom_1.0.feed.entry[1]^id</id>
<updated>2003-12-13T18:30:02Z</updated>
</entry>
</feed>
"#;
    let r = parse(s.as_bytes()).unwrap();
    assert_eq!(
        r,
        Rss {
            title: "atom_1.0.feed.title".into(),
            link: "http://example.com/blog_plain".into(),
            source: Some("http://example.com/blog/atom_1.0.xml".into()),
            items: vec![
                Item {
                    title: Some("atom_1.0.feed.entry[0].title".into()),
                    link: Some("http://example.com/blog/entry1_plain".into()),
                    id: Some("atom_1.0.feed.entry[0]^id".into()),
                },
                Item {
                    title: Some("atom_1.0.feed.entry[1].title".into()),
                    link: Some("http://example.com/blog/entry2".into()),
                    id: Some("atom_1.0.feed.entry[1]^id".into()),
                },
            ],
            ..Rss::default()
        }
    );
}

#[test]
fn rss09() {
    let s = r#"<?xml version="1.0"?>
<rdf:RDF xmlns:rdf="http://www.w3.org/1999/02/22-rdf-syntax-ns#" xmlns="http://my.netscape.com/rdf/simple/0.9/">
<channel>
<title>rss_0.9.channel.title</title>
<link>rss_0.9.channel.link</link>
<description>rss_0.9.channel.description</description>
</channel>
<image>
<title>rss_0.9.image.title</title>
<url>rss_0.9.image.url</url>
<link>rss_0.9.image.link</link>
</image>
<item>
<title>rss_0.9.item[0].title</title>
<link>rss_0.9.item[0].link</link>
<description>ignored</description>
</item>
<item>
<title>rss_0.9.item[1].title</title>
<link>rss_0.9.item[1].link</link>
<description>ignored</description>
</item>
</rdf:RDF>
"#;
    let r = parse(s.as_bytes()).unwrap();
    assert_eq!(
        r,
        Rss {
            title: "rss_0.9.channel.title".into(),
            link: "rss_0.9.channel.link".into(),
            items: vec![
                Item {
                    title: Some("rss_0.9.item[0].title".into()),
                    link: Some("rss_0.9.item[0].link".into()),
                    id: None,
                },
                Item {
                    title: Some("rss_0.9.item[1].title".into()),
                    link: Some("rss_0.9.item[1].link".into()),
                    id: None,
                },
            ],
            ..Rss::default()
        }
    );
}

#[test]
fn rss091() {
    let s = r#"<?xml version="1.0"?>
<rss version="0.91">
<channel>
<title>rss_0.91.channel.title</title>
<link>rss_0.91.channel.link</link>
<description>rss_0.91.channel.description</description>
<language>en</language>
<image>
<title>rss_0.91.channel.image.title</title>
<url>rss_0.91.channel.image.url</url>
<link>rss_0.91.channel.image.link</link>
</image>
<item>
<title>rss_0.91.channel.item[0].title</title>
<link>rss_0.91.channel.item[0].link</link>
<description>ignored</description>
</item>
<item>
<title>rss_0.91.channel.item[1].title</title>
<link>rss_0.91.channel.item[1].link</link>
<description>ignored</description>
</item>
</channel>
</rss>
"#;
    let r = parse(s.as_bytes()).unwrap();
    assert_eq!(
        r,
        Rss {
            title: "rss_0.91.channel.title".into(),
            link: "rss_0.91.channel.link".into(),
            items: vec![
                Item {
                    title: Some("rss_0.91.channel.item[0].title".into()),
                    link: Some("rss_0.91.channel.item[0].link".into()),
                    id: None,
                },
                Item {
                    title: Some("rss_0.91.channel.item[1].title".into()),
                    link: Some("rss_0.91.channel.item[1].link".into()),
                    id: None,
                },
            ],
            ..Rss::default()
        }
    );
}

#[test]
fn rss092() {
    let s = r#"<?xml version="1.0"?>
<rss version="0.92">
<channel>
<title>rss_0.92.channel.title</title>
<link>rss_0.92.channel.link</link>
<description>rss_0.92.channel.description</description>
<language>en</language>
<image>
<title>rss_0.92.channel.image.title</title>
<url>rss_0.92.channel.image.url</url>
<link>rss_0.92.channel.image.link</link>
</image>
<item>
<title>rss_0.92.channel.item[0].title</title>
<link>rss_0.92.channel.item[0].link</link>
<description>ignored</description>
</item>
<item>
<title>rss_0.92.channel.item[1].title</title>
<link>rss_0.92.channel.item[1].link</link>
<description>ignored</description>
</item>
</channel>
</rss>
"#;
    let r = parse(s.as_bytes()).unwrap();
    assert_eq!(
        r,
        Rss {
            title: "rss_0.92.channel.title".into(),
            link: "rss_0.92.channel.link".into(),
            items: vec![
                Item {
                    title: Some("rss_0.92.channel.item[0].title".into()),
                    link: Some("rss_0.92.channel.item[0].link".into()),
                    id: None,
                },
                Item {
                    title: Some("rss_0.92.channel.item[1].title".into()),
                    link: Some("rss_0.92.channel.item[1].link".into()),
                    id: None,
                },
            ],
            ..Rss::default()
        }
    );
}

#[test]
fn rss093() {
    let s = r#"<?xml version="1.0"?>
<rss version="0.93">
<channel>
<title>rss_0.93.channel.title</title>
<link>rss_0.93.channel.link</link>
<description>rss_0.93.channel.description</description>
<language>en</language>
<image>
<title>rss_0.93.channel.image.title</title>
<url>rss_0.93.channel.image.url</url>
<link>rss_0.93.channel.image.link</link>
</image>
<item>
<title>rss_0.93.channel.item[0].title</title>
<link>rss_0.93.channel.item[0].link</link>
<description>ignored</description>
</item>
<item>
<title>rss_0.93.channel.item[1].title</title>
<link>rss_0.93.channel.item[1].link</link>
<description>ignored</description>
</item>
</channel>
</rss>
"#;
    let r = parse(s.as_bytes()).unwrap();
    assert_eq!(
        r,
        Rss {
            title: "rss_0.93.channel.title".into(),
            link: "rss_0.93.channel.link".into(),
            items: vec![
                Item {
                    title: Some("rss_0.93.channel.item[0].title".into()),
                    link: Some("rss_0.93.channel.item[0].link".into()),
                    id: None,
                },
                Item {
                    title: Some("rss_0.93.channel.item[1].title".into()),
                    link: Some("rss_0.93.channel.item[1].link".into()),
                    id: None,
                },
            ],
            ..Rss::default()
        }
    );
}

#[test]
fn rss094() {
    let s = r#"<?xml version="1.0"?>
<rss version="0.94">
<channel>
<title>rss_0.94.channel.title</title>
<link>rss_0.94.channel.link</link>
<description>rss_0.94.channel.description</description>
<language>en</language>
<ttl>100</ttl>
<image>
<title>rss_0.94.channel.image.title</title>
<url>rss_0.94.channel.image.url</url>
<link>rss_0.94.channel.image.link</link>
</image>
<item>
<title>rss_0.94.channel.item[0].title</title>
<link>rss_0.94.channel.item[0].link</link>
<guid>rss_0.94.channel.item[0].guid</guid>
<description>ignored</description>
</item>
<item>
<title>rss_0.94.channel.item[1].title</title>
<link>rss_0.94.channel.item[1].link</link>
<guid>rss_0.94.channel.item[1].guid</guid>
<description>ignored</description>
</item>
</channel>
</rss>
"#;
    let r = parse(s.as_bytes()).unwrap();
    assert_eq!(
        r,
        Rss {
            title: "rss_0.94.channel.title".into(),
            link: "rss_0.94.channel.link".into(),
            ttl: Some(100),
            items: vec![
                Item {
                    title: Some("rss_0.94.channel.item[0].title".into()),
                    link: Some("rss_0.94.channel.item[0].link".into()),
                    id: Some("rss_0.94.channel.item[0].guid".into()),
                },
                Item {
                    title: Some("rss_0.94.channel.item[1].title".into()),
                    link: Some("rss_0.94.channel.item[1].link".into()),
                    id: Some("rss_0.94.channel.item[1].guid".into()),
                },
            ],
            ..Rss::default()
        }
    );
}

#[test]
fn rss10() {
    let s = r#"<?xml version="1.0"?>
<rdf:RDF xmlns:rdf="http://www.w3.org/1999/02/22-rdf-syntax-ns#" xmlns="http://purl.org/rss/1.0/">
<channel>
<title>rss_1.0.channel.title</title>
<link>rss_1.0.channel.link</link>
<description>rss_1.0.channel.description</description>
</channel>
<image>
<title>rss_1.0.image.title</title>
<url>rss_1.0.image.url</url>
<link>rss_1.0.image.link</link>
</image>
<item>
<title>rss_1.0.item[0].title</title>
<link>rss_1.0.item[0].link</link>
<description>ignored</description>
</item>
<item>
<title>rss_1.0.item[1].title</title>
<link>rss_1.0.item[1].link</link>
<description>ignored</description>
</item>
</rdf:RDF>
"#;
    let r = parse(s.as_bytes()).unwrap();
    assert_eq!(
        r,
        Rss {
            title: "rss_1.0.channel.title".into(),
            link: "rss_1.0.channel.link".into(),
            items: vec![
                Item {
                    title: Some("rss_1.0.item[0].title".into()),
                    link: Some("rss_1.0.item[0].link".into()),
                    id: None,
                },
                Item {
                    title: Some("rss_1.0.item[1].title".into()),
                    link: Some("rss_1.0.item[1].link".into()),
                    id: None,
                },
            ],
            ..Rss::default()
        }
    );
}

#[test]
fn rss20() {
    let s = r#"<?xml version="1.0"?>
<rss version="2.0">
<channel>
<title>rss_2.0.channel.title</title>
<link>rss_2.0.channel.link</link>
<description>rss_2.0.channel.description</description>
<language>en</language>
<ttl>100</ttl>
<image>
<title>rss_2.0.channel.image.title</title>
<url>rss_2.0.channel.image.url</url>
<link>rss_2.0.channel.image.link</link>
</image>
<item>
<title>rss_2.0.channel.item[0].title</title>
<link>rss_2.0.channel.item[0].link</link>
<guid>rss_2.0.channel.item[0].guid</guid>
<description>ignored</description>
</item>
<item>
<title>rss_2.0.channel.item[1].title</title>
<link>rss_2.0.channel.item[1].link</link>
<guid>rss_2.0.channel.item[1].guid</guid>
<description>ignored</description>
</item>
</channel>
</rss>
"#;
    let r = parse(s.as_bytes()).unwrap();
    assert_eq!(
        r,
        Rss {
            title: "rss_2.0.channel.title".into(),
            link: "rss_2.0.channel.link".into(),
            ttl: Some(100),
            items: vec![
                Item {
                    title: Some("rss_2.0.channel.item[0].title".into()),
                    link: Some("rss_2.0.channel.item[0].link".into()),
                    id: Some("rss_2.0.channel.item[0].guid".into()),
                },
                Item {
                    title: Some("rss_2.0.channel.item[1].title".into()),
                    link: Some("rss_2.0.channel.item[1].link".into()),
                    id: Some("rss_2.0.channel.item[1].guid".into()),
                },
            ],
            ..Rss::default()
        }
    );
}

#[test]
fn rss_with_atom_ns() {
    let s = r#"<?xml version="1.0" encoding="UTF-8"?>
<rss version="2.0" xmlns:atom="http://www.w3.org/2005/Atom">
<channel>
<atom:link href="self link" rel="self" />
</channel>
</rss>"#;
    let r = parse(s.as_bytes()).unwrap();
    assert_eq!(r.source, Some("self link".into()));
}

#[test]
fn atom_link_parsing() {
    let data = vec![
        r#"<link href="alternate href" />"#,
        r#"<link href="alternate href" rel="alternate" />"#,
        r#"<link href="self href" rel="self" />"#,
        r#"<link href="hub href" rel="hub" />"#,
        r#"<link href="other href" rel="other" />"#,
        r#"<link />"#,
    ];
    let results = vec![
        Some(AtomLink::Alternate("alternate href".into())),
        Some(AtomLink::Alternate("alternate href".into())),
        Some(AtomLink::Source("self href".into())),
        Some(AtomLink::Hub("hub href".into())),
        Some(AtomLink::Other("other href".into(), "other".into())),
        None,
    ];
    let mut seen = 0;
    for (data, result) in data.iter().zip(results) {
        let items = read_items(data.as_bytes());
        if let XmlItem::Empty(tag) = &items[0] {
            let r = parse_atom_link(&tag.attrs).unwrap();
            assert_eq!(r, result);
            seen += 1;
        }
    }
    assert_eq!(seen, 6);
}

#[test]
fn empty_input() {
    let r = parse(&[]).unwrap_err();
    assert!(matches!(r, ParseError::UnexpectedEof(s) if s == "feed"))
}

#[test]
fn ttl_sy() {
    let sy_input = r#"<?xml version="1.0" encoding="UTF-8"?>
<rss version="2.0" xmlns:sy="http://purl.org/rss/1.0/modules/syndication/">
<channel>
<sy:updatePeriod>hourly</sy:updatePeriod>
<sy:updateFrequency>6</sy:updateFrequency>
</channel>
</rss>"#;
    let sy_output = parse(sy_input.as_bytes()).unwrap();
    assert_eq!(sy_output.ttl, Some(10));
}

#[test]
fn ttl_sy_default_freq() {
    let sy_input = r#"<?xml version="1.0" encoding="UTF-8"?>
<rss version="2.0" xmlns:sy="http://purl.org/rss/1.0/modules/syndication/">
<channel>
<sy:updatePeriod>daily</sy:updatePeriod>
</channel>
</rss>"#;
    let sy_output = parse(sy_input.as_bytes()).unwrap();
    assert_eq!(sy_output.ttl, Some(60 * 24));
}

#[test]
fn ttl() {
    let input = r#"<?xml version="1.0" encoding="UTF-8"?>
<rss version="2.0">
<channel>
<ttl>
    42
</ttl>
</channel>
</rss>"#;
    let output = parse(input.as_bytes()).unwrap();
    assert_eq!(output.ttl, Some(42));
}

#[test]
fn ttl_priority() {
    let input = r#"<?xml version="1.0" encoding="UTF-8"?>
<rss version="2.0" xmlns:sy="http://purl.org/rss/1.0/modules/syndication/">
<channel>
<sy:updatePeriod>hourly</sy:updatePeriod>
<sy:updateFrequency>1</sy:updateFrequency>
<ttl>42</ttl>
</channel>
</rss>"#;
    let output = parse(input.as_bytes()).unwrap();
    assert_eq!(output.ttl, Some(42));
}

#[test]
fn cdata_compatibility() {
    let characters: &str = r#""'<>&"#;
    let input = format!(
        r#"<?xml version="1.0" encoding="UTF-8"?>
<rss version="2.0" xmlns:sy="http://purl.org/rss/1.0/modules/syndication/">
<channel>
<title><![CDATA[{}]]></title>
</channel>
</rss>"#,
        characters
    );
    let r = parse(input.as_bytes()).unwrap();
    assert_eq!(
        r,
        Rss {
            title: characters.into(),
            link: "".into(),
            ttl: None,
            source: None,
            items: vec![],
        }
    );
}

#[test]
fn ttl_sy_zero_freq_counts_as_one() {
    let input = r#"<rss><channel>
<sy:updatePeriod>weekly</sy:updatePeriod>
<sy:updateFrequency>0</sy:updateFrequency>
</channel></rss>"#;
    let output = parse(input.as_bytes()).unwrap();
    assert_eq!(output.ttl, Some(60 * 24 * 7));
}

#[test]
fn ttl_sy_periods() {
    for (name, minutes) in [
        ("hourly", 60u32),
        ("daily", 1440),
        ("weekly", 10080),
        ("monthly", 43200),
        ("yearly", 525600),
    ] {
        let input = format!(
            "<rss><channel><sy:updatePeriod>{}</sy:updatePeriod><sy:updateFrequency>2</sy:updateFrequency></channel></rss>",
            name
        );
        assert_eq!(parse(input.as_bytes()).unwrap().ttl, Some(minutes / 2));
    }
}

#[test]
fn ttl_not_a_number_is_absent() {
    let input = "<rss><channel><ttl>soon</ttl></channel></rss>";
    assert_eq!(parse(input.as_bytes()).unwrap().ttl, None);
    let input = "<rss><channel><ttl>4294967296</ttl></channel></rss>";
    assert_eq!(parse(input.as_bytes()).unwrap().ttl, None);
    let input = "<rss><channel><ttl>+7</ttl></channel></rss>";
    assert_eq!(parse(input.as_bytes()).unwrap().ttl, Some(7));
}

#[test]
fn unknown_elements_are_skipped() {
    let input = r#"<?xml version="1.0"?>
<!-- a comment -->
<other><channel><title>not this</title></channel></other>
<rss><channel>
<image><title>image title</title><link>image link</link></image>
<title>the <b>bold</b> title</title>
<item><enclosure url="x"/><title>first</title><author><name>n</name></author></item>
</channel></rss>"#;
    let r = parse(input.as_bytes()).unwrap();
    assert_eq!(r.title, "title");
    assert_eq!(r.link, "");
    assert_eq!(r.items.len(), 1);
    assert_eq!(r.items[0].title, Some("first".into()));
}

#[test]
fn entities_are_unescaped_in_text() {
    let input = "<rss><channel><title>a &lt; b &amp; c</title><item><link>http://h/?a=1&amp;b=2</link></item></channel></rss>";
    let r = parse(input.as_bytes()).unwrap();
    assert_eq!(r.title, "a < b & c");
    assert_eq!(r.items[0].link, Some("http://h/?a=1&b=2".into()));
}

#[test]
fn href_is_unescaped_and_rel_is_not() {
    let items = read_items(br#"<link href="a&amp;b" rel="x&amp;y"/>"#);
    if let XmlItem::Empty(tag) = &items[0] {
        assert_eq!(tag.name, "link");
        assert_eq!(
            parse_atom_link(&tag.attrs),
            Ok(Some(AtomLink::Other("a&b".into(), "x&amp;y".into())))
        );
    } else {
        panic!("no tag");
    }
}

#[test]
fn malformed_document_is_a_parse_error() {
    let r = parse(b"<rss><channel><title>t</wrong></channel></rss>").unwrap_err();
    assert!(matches!(r, ParseError::Parse(_)));
    let r = parse(b"<rss><channel><title>&unknown;</title></channel></rss>").unwrap_err();
    assert!(matches!(r, ParseError::Parse(_)));
    let r = parse(br#"<feed><link href="a" href="b"/></feed>"#).unwrap_err();
    assert!(matches!(r, ParseError::Parse(_)));
}

#[test]
fn document_without_feed_is_unexpected_eof() {
    let r = parse(b"<html><body>hello</body></html>").unwrap_err();
    assert_eq!(r, ParseError::UnexpectedEof("feed".into()));
}

#[test]
fn names_are_cut_at_the_first_colon() {
    let items = read_items(b"<a:b:c x='1'>text</a:b:c>");
    assert_eq!(items.len(), 3);
    if let XmlItem::Start(tag) = &items[0] {
        assert_eq!(tag.name, "a:b:c");
        assert_eq!(tag.local_name, "b:c");
        assert_eq!(tag.attrs.len(), 1);
    } else {
        panic!("no tag");
    }
    assert_eq!(items[2], XmlItem::End);
}

#[test]
fn events_end_with_the_first_error() {
    let items = read_items(b"<a></b><c/>");
    assert_eq!(items.len(), 2);
    assert!(matches!(&items[1], XmlItem::Failed(_)));
    assert!(matches!(parse_items(&items), Err(ParseError::Parse(_))));
}

#[test]
fn relative_links_become_absolute() {
    let rss = Rss {
        title: "t".into(),
        link: "/".into(),
        source: None,
        ttl: None,
        items: vec![
            Item { title: None, link: Some("/a".into()), id: None },
            Item { title: None, link: Some("//cdn.example.com/b".into()), id: None },
            Item { title: None, link: Some("https://other.example.com/c".into()), id: None },
            Item { title: None, link: None, id: None },
        ],
    };
    let fixed = fix_relative_url(rss, "https://example.com/feed/rss.xml");
    assert_eq!(fixed.link, "https://example.com");
    assert_eq!(fixed.items[0].link, Some("https://example.com/a".into()));
    assert_eq!(fixed.items[1].link, Some("http://cdn.example.com/b".into()));
    assert_eq!(fixed.items[2].link, Some("https://other.example.com/c".into()));
    assert_eq!(fixed.items[3].link, None);
}

#[test]
fn host_of_a_link_without_scheme_is_the_link() {
    let rss = Rss { link: "".into(), ..Rss::default() };
    assert_eq!(fix_relative_url(rss, "example.com/feed").link, "example.com/feed");
    let rss = Rss { link: "/home".into(), ..Rss::default() };
    assert_eq!(fix_relative_url(rss, "http://example.com").link, "http://example.com/home");
    let rss = Rss { link: "".into(), ..Rss::default() };
    assert_eq!(fix_relative_url(rss, "https:///nohost").link, "https:///nohost");
    let rss = Rss { link: "home".into(), ..Rss::default() };
    assert_eq!(fix_relative_url(rss, "http://example.com/x").link, "home");
}

#[test]
fn a_number_is_not_read_from_cdata() {
    let input = "<rss><channel><ttl><![CDATA[5]]></ttl></channel></rss>";
    assert_eq!(parse(input.as_bytes()).unwrap().ttl, None);
    let input = "<rss><channel><ttl>5<![CDATA[6]]></ttl></channel></rss>";
    assert_eq!(parse(input.as_bytes()).unwrap().ttl, Some(5));
}

#[test]
fn a_later_period_replaces_an_earlier_one() {
    let input = "<rss><channel><sy:updatePeriod>hourly</sy:updatePeriod>\
<sy:updatePeriod>sometimes</sy:updatePeriod></channel></rss>";
    assert_eq!(parse(input.as_bytes()).unwrap().ttl, None);
    let input = "<rss><channel><sy:updatePeriod>sometimes daily</sy:updatePeriod></channel></rss>";
    assert_eq!(parse(input.as_bytes()).unwrap().ttl, None);
    let input = "<rss><channel><sy:updatePeriod>bogus<x/>daily</sy:updatePeriod></channel></rss>";
    assert_eq!(parse(input.as_bytes()).unwrap().ttl, Some(1440));
}

#[test]
fn a_link_gives_its_text_or_else_its_href() {
    let input = r#"<feed>
<link rel="self" href="http://example.com/feed"></link>
<link href="http://example.com/">  </link>
<entry><link href="http://example.com/1"></link></entry>
<entry><link href="http://example.com/2">http://example.com/text</link></entry>
<entry><link rel="enclosure" href="http://example.com/3"/><link/></entry>
<entry><atom:link href="http://example.com/4"/></entry>
</feed>"#;
    let r = parse(input.as_bytes()).unwrap();
    assert_eq!(r.source, Some("http://example.com/feed".into()));
    assert_eq!(r.link, "http://example.com/");
    let links: Vec<Option<String>> = r.items.iter().map(|i| i.link.clone()).collect();
    assert_eq!(
        links,
        vec![
            Some("http://example.com/1".into()),
            Some("http://example.com/text".into()),
            None,
            None,
        ]
    );
}

#[test]
fn a_document_that_breaks_off_gives_what_was_read() {
    let r = parse(b"<rss><channel><title>T</title><item><title>one</title>").unwrap();
    assert_eq!(r.title, "T");
    assert_eq!(r.items.len(), 1);
    assert_eq!(r.items[0].title, Some("one".into()));
    let r = parse(b"<rss><channel><item><guid>g</guid></item></channel></rss>trailing </x>").unwrap();
    assert_eq!(r.items[0].id, Some("g".into()));
}

#[test]
fn what_follows_the_feed_is_not_read() {
    let r = parse(b"<feed><title>first</title></feed><feed><title>second</title></feed>").unwrap();
    assert_eq!(r.title, "first");
    let r = parse(b"<rss></rss><channel><title>late</title></channel>");
    assert_eq!(r.map(|f| f.title), Ok("late".to_string()));
}
