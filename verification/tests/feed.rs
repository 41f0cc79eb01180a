use argus_core::error::CoreError;
use argus_core::feed::{parse_date, parse_feed, to_timestamp};

const RSS: &str = r#"<?xml version="1.0"?>
    <rss version="2.0">
      <channel>
        <title>Example</title>
        <item>
          <title>First Post</title>
          <link>https://example.com/first</link>
          <description>Body one</description>
          <pubDate>Sat, 18 Jul 2026 14:30:00 GMT</pubDate>
        </item>
        <item>
          <title>Second Post</title>
          <link>https://example.com/second</link>
          <description>Body two</description>
        </item>
      </channel>
    </rss>"#;

const ATOM: &str = r#"<?xml version="1.0" encoding="utf-8"?>
    <feed xmlns="http://www.w3.org/2005/Atom">
      <title>Example</title>
      <entry>
        <title>Atom One</title>
        <link rel="alternate" href="https://example.com/atom-one"/>
        <summary>Summary one</summary>
        <published>2026-07-18T14:30:00Z</published>
      </entry>
      <entry>
        <title>Atom Two</title>
        <link href="https://example.com/atom-two"/>
        <content>Content two</content>
        <updated>2026-07-17T09:00:00+02:00</updated>
      </entry>
    </feed>"#;

#[test]
fn parses_rss() {
    let arts = parse_feed(RSS).unwrap();
    assert_eq!(arts.len(), 2);
    assert_eq!(arts[0].url, "https://example.com/first");
    assert_eq!(arts[0].title, "First Post");
    assert_eq!(arts[0].content, "Body one");
    assert!(arts[0].published_at.is_some());
    assert!(arts[1].published_at.is_none());
}

#[test]
fn parses_atom() {
    let arts = parse_feed(ATOM).unwrap();
    assert_eq!(arts.len(), 2);
    assert_eq!(arts[0].url, "https://example.com/atom-one");
    assert_eq!(arts[0].content, "Summary one");
    assert_eq!(arts[1].url, "https://example.com/atom-two");
    assert_eq!(arts[1].content, "Content two");
}

#[test]
fn rejects_non_feed() {
    assert!(parse_feed("<html><body>nope</body></html>").is_err());
    assert!(parse_feed("not xml at all <<<").is_err());
}

#[test]
fn skips_entries_without_link() {
    let rss = r#"<rss version="2.0"><channel>
      <item><title>No link</title></item>
      <item><title>Has link</title><link>https://x.test/a</link></item>
    </channel></rss>"#;
    let arts = parse_feed(rss).unwrap();
    assert_eq!(arts.len(), 1);
    assert_eq!(arts[0].url, "https://x.test/a");
}

#[test]
fn feed_errors_name_the_cause() {
    match parse_feed("<html/>") {
        Err(CoreError::FeedParse(m)) => assert_eq!(
            m,
            "unrecognized root element <html>; expected <rss>, <rdf:RDF>, or <feed>"
        ),
        other => panic!("unexpected {other:?}"),
    }
    match parse_feed("<<<") {
        Err(CoreError::FeedParse(m)) => assert!(m.starts_with("malformed XML: ")),
        other => panic!("unexpected {other:?}"),
    }
}

#[test]
fn rss_prefers_encoded_content_and_reads_dc_dates() {
    let rss = r#"<rss xmlns:content="http://purl.org/rss/1.0/modules/content/" xmlns:dc="http://purl.org/dc/elements/1.1/"><channel>
      <item><link> https://x.test/b </link><description>short</description>
        <content:encoded>long body</content:encoded><dc:date>2026-07-18T14:30:00Z</dc:date></item>
    </channel></rss>"#;
    let arts = parse_feed(rss).unwrap();
    assert_eq!(arts[0].url, "https://x.test/b");
    assert_eq!(arts[0].content, "long body");
    assert_eq!(arts[0].title, "");
    assert_eq!(arts[0].published_at, parse_date("2026-07-18T14:30:00Z"));
    assert_eq!(arts[0].published_at, Some(to_timestamp(2026, 7, 18, 14, 30, 0)));
}

#[test]
fn atom_falls_back_to_the_first_link() {
    let atom = r#"<feed><entry><link rel="self" href="https://x.test/self"/>
      <link rel="edit" href="https://x.test/edit"/><title>T</title></entry></feed>"#;
    let arts = parse_feed(atom).unwrap();
    assert_eq!(arts[0].url, "https://x.test/self");
}
