use podsync::episode::EpisodeAttributes;
use podsync::feed::{FieldValue, RawEpisode, RawPodcast};
use podsync::pattern::{evaluate, validate_pattern, EvalCtx};
use podsync::ConfigError;

fn sample_attrs() -> EpisodeAttributes {
    EpisodeAttributes {
        title: "Episode One".to_string(),
        guid: "ep-1".to_string(),
        url: "http://cdn.example/ep1.mp3".to_string(),
        published: 1696941000,
        raw: RawEpisode::new(vec![(
            "itunes:episode".to_string(),
            FieldValue::Text("42".to_string()),
        )]),
    }
}

fn sample_channel() -> RawPodcast {
    RawPodcast::new(vec![(
        "title".to_string(),
        FieldValue::Text("My Show".to_string()),
    )])
}

#[test]
fn identity_tokens_resolve() {
    let attrs = sample_attrs();
    let chan = sample_channel();
    let ctx = EvalCtx {
        podname: "myshow",
        home: Some("/home/me"),
        channel: &chan,
        episode: &attrs,
        tags: None,
    };
    assert_eq!(
        evaluate("{home}/{podname}/{guid}-{appname}", &ctx).unwrap(),
        "/home/me/myshow/ep-1-podsync"
    );
    assert_eq!(
        evaluate("{url}", &ctx).unwrap(),
        "http://cdn.example/ep1.mp3"
    );
}

#[test]
fn pubdate_tokens_resolve() {
    let attrs = sample_attrs();
    let chan = sample_channel();
    let ctx = EvalCtx {
        podname: "p",
        home: None,
        channel: &chan,
        episode: &attrs,
        tags: None,
    };
    assert_eq!(evaluate("{pubdate::unix}", &ctx).unwrap(), "1696941000");
    assert_eq!(
        evaluate("{pubdate::%Y-%m-%d}", &ctx).unwrap(),
        "2023-10-10"
    );
    assert_eq!(
        evaluate("{pubdate::%H:%M:%S}", &ctx).unwrap(),
        "12:30:00"
    );
}

#[test]
fn rss_lookup_tokens_resolve() {
    let attrs = sample_attrs();
    let chan = sample_channel();
    let ctx = EvalCtx {
        podname: "p",
        home: None,
        channel: &chan,
        episode: &attrs,
        tags: None,
    };
    assert_eq!(evaluate("{rss::episode::itunes:episode}", &ctx).unwrap(), "42");
    assert_eq!(evaluate("{rss::channel::title}", &ctx).unwrap(), "My Show");
}

#[test]
fn absent_values_become_the_placeholder() {
    let attrs = sample_attrs();
    let chan = sample_channel();
    let ctx = EvalCtx {
        podname: "p",
        home: None,
        channel: &chan,
        episode: &attrs,
        tags: None,
    };
    assert_eq!(evaluate("{home}", &ctx).unwrap(), "missing");
    assert_eq!(evaluate("{id3::artist}", &ctx).unwrap(), "missing");
    assert_eq!(evaluate("{rss::episode::nope}", &ctx).unwrap(), "missing");
}

#[test]
fn id3_tokens_read_the_written_tags() {
    let attrs = sample_attrs();
    let chan = sample_channel();
    let tags = vec![(
        "artist".to_string(),
        FieldValue::Text("Host Person".to_string()),
    )];
    let ctx = EvalCtx {
        podname: "p",
        home: None,
        channel: &chan,
        episode: &attrs,
        tags: Some(&tags),
    };
    assert_eq!(evaluate("{id3::artist}", &ctx).unwrap(), "Host Person");
}

#[test]
fn literal_text_and_unterminated_braces_copy_verbatim() {
    let attrs = sample_attrs();
    let chan = sample_channel();
    let ctx = EvalCtx {
        podname: "p",
        home: None,
        channel: &chan,
        episode: &attrs,
        tags: None,
    };
    assert_eq!(evaluate("plain text", &ctx).unwrap(), "plain text");
    assert_eq!(evaluate("tail {guid", &ctx).unwrap(), "tail {guid");
}

#[test]
fn an_unknown_token_is_a_fatal_config_error() {
    let attrs = sample_attrs();
    let chan = sample_channel();
    let ctx = EvalCtx {
        podname: "p",
        home: None,
        channel: &chan,
        episode: &attrs,
        tags: None,
    };
    let r = evaluate("{guid}-{bogus}", &ctx);
    assert!(matches!(r, Err(ConfigError::UnknownToken(_))));
}

#[test]
fn validation_flags_unknown_tokens_up_front() {
    assert!(validate_pattern("{home}/{podname}/{pubdate::%Y}-{guid}").is_ok());
    assert!(validate_pattern("plain {unclosed").is_ok());
    assert!(matches!(
        validate_pattern("{guid}/{bogus}"),
        Err(ConfigError::UnknownToken(_))
    ));
}

#[test]
fn percent_directives_handle_literals_and_unknowns() {
    let attrs = sample_attrs();
    let chan = sample_channel();
    let ctx = EvalCtx {
        podname: "p",
        home: None,
        channel: &chan,
        episode: &attrs,
        tags: None,
    };
    assert_eq!(evaluate("{pubdate::100%%}", &ctx).unwrap(), "100%");
    assert_eq!(evaluate("{pubdate::%Q}", &ctx).unwrap(), "%Q");
    assert_eq!(evaluate("{pubdate::x%}", &ctx).unwrap(), "x%");
}

#[test]
fn empty_pattern_evaluates_to_empty() {
    let attrs = sample_attrs();
    let chan = sample_channel();
    let ctx = EvalCtx {
        podname: "p",
        home: None,
        channel: &chan,
        episode: &attrs,
        tags: None,
    };
    assert_eq!(evaluate("", &ctx).unwrap(), "");
}
