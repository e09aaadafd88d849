use podsync::feed::{
    build_records, escape_vendor_text, normalize_feed, restore_key, FieldValue, RawEpisode,
    RawPodcast,
};
use podsync::ParseError;

#[test]
fn escape_rewrites_every_vendor_prefix() {
    let xml = "<itunes:author>A</itunes:author><title>itunes: fans</title>";
    let out = escape_vendor_text(xml);
    assert_eq!(
        out,
        "<itunes__placeholder__author>A</itunes__placeholder__author>\
         <title>itunes__placeholder__ fans</title>"
    );
}

#[test]
fn escape_leaves_other_text_alone() {
    let xml = "<title>hello</title>";
    assert_eq!(escape_vendor_text(xml), "<title>hello</title>");
}

#[test]
fn restore_key_round_trips_a_vendor_key() {
    assert_eq!(restore_key("itunes__placeholder__author"), "itunes:author");
    assert_eq!(restore_key("title"), "title");
    let escaped = escape_vendor_text("itunes:category");
    assert_eq!(restore_key(&escaped), "itunes:category");
}

fn sample_feed() -> &'static str {
    "<rss version=\"2.0\" xmlns:itunes=\"http://www.itunes.example/dtds\">\
     <channel>\
       <title>My Show</title>\
       <language>en</language>\
       <copyright>someone</copyright>\
       <itunes:author>Host Person</itunes:author>\
       <image><url>http://img.example/cover.png</url></image>\
       <item>\
         <title>Episode One</title>\
         <itunes:season>7</itunes:season>\
         <guid>ep-1</guid>\
         <pubDate>Tue, 10 Oct 2023 12:30:00 GMT</pubDate>\
         <enclosure url=\"http://cdn.example/ep1.mp3\" length=\"10\" type=\"audio/mpeg\"/>\
       </item>\
       <item>\
         <title>Episode Two</title>\
         <guid>ep-2</guid>\
         <pubDate>Wed, 11 Oct 2023 12:30:00 GMT</pubDate>\
         <enclosure url=\"http://cdn.example/ep2.mp3\" length=\"10\" type=\"audio/mpeg\"/>\
       </item>\
     </channel></rss>"
}

#[test]
fn normalize_feed_restores_vendor_keys() {
    let (chan, eps) = normalize_feed(sample_feed()).unwrap();
    assert_eq!(chan.title(), Some("My Show"));
    assert_eq!(chan.author(), Some("Host Person"));
    assert_eq!(chan.language(), Some("en"));
    assert_eq!(chan.copyright(), Some("someone"));
    assert_eq!(chan.image(), Some("http://img.example/cover.png"));
    assert_eq!(eps.len(), 2);
    assert_eq!(eps[0].get_str("title"), Some("Episode One"));
    assert_eq!(eps[0].get_str("itunes:season"), Some("7"));
    assert_eq!(eps[1].get_str("guid"), Some("ep-2"));
}

#[test]
fn normalize_feed_rejects_non_feed_text() {
    assert!(matches!(
        normalize_feed("<html><body>nope</body></html>"),
        Err(ParseError::MalformedFeed)
    ));
}

#[test]
fn normalize_feed_without_items_is_missing_items() {
    let xml = "<rss><channel><title>t</title></channel></rss>";
    assert!(matches!(normalize_feed(xml), Err(ParseError::MissingItems)));
}

#[test]
fn build_records_moves_items_out_of_the_channel() {
    let channel = FieldValue::Nested(vec![
        ("title".to_string(), FieldValue::Text("t".to_string())),
        (
            "item".to_string(),
            FieldValue::List(vec![FieldValue::Nested(vec![(
                "guid".to_string(),
                FieldValue::Text("g1".to_string()),
            )])]),
        ),
    ]);
    let (chan, eps) = build_records(channel).unwrap();
    assert_eq!(chan.entries.len(), 1);
    assert_eq!(eps.len(), 1);
    assert_eq!(eps[0].get_str("guid"), Some("g1"));
}

#[test]
fn a_single_item_feed_yields_one_episode() {
    let xml = "<rss><channel><title>t</title>\
        <item>\
          <title>Only One</title>\
          <guid>solo</guid>\
          <pubDate>Tue, 10 Oct 2023 12:30:00 GMT</pubDate>\
          <enclosure url=\"http://cdn.example/solo.mp3\" type=\"audio/mpeg\"/>\
        </item></channel></rss>";
    let (chan, eps) = normalize_feed(xml).unwrap();
    assert_eq!(chan.title(), Some("t"));
    assert_eq!(eps.len(), 1);
    assert_eq!(eps[0].get_str("guid"), Some("solo"));
}

#[test]
fn build_records_accepts_a_single_item_record() {
    let channel = FieldValue::Nested(vec![(
        "item".to_string(),
        FieldValue::Nested(vec![(
            "guid".to_string(),
            FieldValue::Text("only".to_string()),
        )]),
    )]);
    let (_, eps) = build_records(channel).unwrap();
    assert_eq!(eps.len(), 1);
    assert_eq!(eps[0].get_str("guid"), Some("only"));
}

#[test]
fn build_records_rejects_a_non_record_item() {
    let channel = FieldValue::Nested(vec![(
        "item".to_string(),
        FieldValue::List(vec![FieldValue::Text("junk".to_string())]),
    )]);
    assert!(matches!(build_records(channel), Err(ParseError::MalformedFeed)));
}

#[test]
fn categories_collects_list_texts() {
    let chan = RawPodcast::new(vec![(
        "itunes:category".to_string(),
        FieldValue::List(vec![
            FieldValue::Text("News".to_string()),
            FieldValue::Nested(vec![(
                "#text".to_string(),
                FieldValue::Text("Tech".to_string()),
            )]),
        ]),
    )]);
    assert_eq!(chan.categories(), vec!["News", "Tech"]);
}

#[test]
fn a_single_category_is_a_one_element_list() {
    let chan = RawPodcast::new(vec![(
        "itunes:category".to_string(),
        FieldValue::Text("News".to_string()),
    )]);
    assert_eq!(chan.categories(), vec!["News"]);
    let chan2 = RawPodcast::new(vec![(
        "itunes:category".to_string(),
        FieldValue::Nested(vec![(
            "@text".to_string(),
            FieldValue::Text("Tech".to_string()),
        )]),
    )]);
    assert!(chan2.categories().is_empty());
    let chan3 = RawPodcast::new(vec![(
        "itunes:category".to_string(),
        FieldValue::Nested(vec![(
            "#text".to_string(),
            FieldValue::Text("Tech".to_string()),
        )]),
    )]);
    assert_eq!(chan3.categories(), vec!["Tech"]);
}

#[test]
fn missing_fields_are_absent_not_errors() {
    let chan = RawPodcast::new(vec![]);
    assert_eq!(chan.title(), None);
    assert_eq!(chan.author(), None);
    assert!(chan.categories().is_empty());
    assert_eq!(chan.image(), None);
    let ep = RawEpisode::new(vec![]);
    assert_eq!(ep.get_str("anything"), None);
}
