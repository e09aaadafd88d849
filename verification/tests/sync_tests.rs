use podsync::episode::{build_episodes, Episode, EpisodeAttributes};
use podsync::feed::{FieldValue, RawEpisode, RawPodcast};
use podsync::ledger::Ledger;
use podsync::pattern::EvalCtx;
use podsync::pipeline::{completed_count, compute_ledger_ids, plan_episode, post_process_plan, PostStep};
use podsync::podcast::Podcast;
use podsync::policy::DownloadMode;
use podsync::ConfigError;

fn episode(i: usize) -> Episode {
    Episode {
        attrs: EpisodeAttributes {
            title: format!("Episode {}", i),
            guid: format!("guid-{}", i),
            url: format!("http://cdn.example/{}.mp3", i),
            published: 1_600_000_000 + (i as i64) * 86400,
            raw: RawEpisode::new(vec![]),
        },
        index: i,
        image_url: None,
    }
}

#[test]
fn standard_mode_downloads_newest_first_and_ledgers_each() {
    let episodes: Vec<Episode> = (0..=8).map(episode).collect();
    let podcast = Podcast::new(
        episodes,
        DownloadMode::Standard {
            max_days: None,
            max_episodes: Some(2),
            earliest_date: None,
        },
    );
    let mut ledger = Ledger::new();
    ledger.record("guid-8");
    let now: i64 = 1_700_000_000;

    let chan0 = RawPodcast::new(vec![]);
    let ids = compute_ledger_ids(&podcast.episodes, "{guid}", "show", None, &chan0).unwrap();
    let pending = podcast.pending_episodes(now, &ledger, &ids);
    let indices: Vec<usize> = pending.iter().map(|e| e.index).collect();
    assert_eq!(indices, vec![7, 6]);

    let chan = RawPodcast::new(vec![]);
    let mut ledger_text = String::new();
    for ep in &pending {
        let ctx = EvalCtx {
            podname: "show",
            home: None,
            channel: &chan,
            episode: &ep.attrs,
            tags: None,
        };
        let plan = plan_episode("{podname}-{guid}.mp3", "{guid}", &ctx, "mp3", now).unwrap();
        ledger_text.push_str(&plan.ledger_line);
    }

    let lines: Vec<&str> = ledger_text.lines().collect();
    assert_eq!(lines.len(), 2);
    assert!(lines[0].starts_with("guid-7 "));
    assert!(lines[1].starts_with("guid-6 "));
    let reloaded = Ledger::from_text(&ledger_text);
    assert!(reloaded.contains("guid-7"));
    assert!(reloaded.contains("guid-6"));
    assert!(!reloaded.contains("guid-5"));
}

#[test]
fn backlog_mode_downloads_oldest_first() {
    let episodes: Vec<Episode> = (0..4).map(episode).collect();
    let t0: i64 = 1_500_000_000;
    let podcast = Podcast::new(episodes, DownloadMode::Backlog { start: t0, interval: 1 });
    let ledger = Ledger::new();
    let chan0 = RawPodcast::new(vec![]);
    let ids = compute_ledger_ids(&podcast.episodes, "{guid}", "show", None, &chan0).unwrap();
    let pending = podcast.pending_episodes(t0 + 10 * 86400, &ledger, &ids);
    let indices: Vec<usize> = pending.iter().map(|e| e.index).collect();
    assert_eq!(indices, vec![0, 1, 2, 3]);
}

#[test]
fn a_recorded_id_is_never_queued_again() {
    let episodes: Vec<Episode> = (0..3).map(episode).collect();
    let podcast = Podcast::new(
        episodes,
        DownloadMode::Standard {
            max_days: None,
            max_episodes: None,
            earliest_date: None,
        },
    );
    let mut ledger = Ledger::new();
    let now: i64 = 1_700_000_000;
    let chan0 = RawPodcast::new(vec![]);
    let ids = compute_ledger_ids(&podcast.episodes, "{guid}.mp3", "show", None, &chan0).unwrap();
    assert_eq!(ids, vec!["guid-0.mp3", "guid-1.mp3", "guid-2.mp3"]);
    assert_eq!(podcast.pending_episodes(now, &ledger, &ids).len(), 3);
    ledger.record("guid-1.mp3");
    let indices: Vec<usize> = podcast
        .pending_episodes(now, &ledger, &ids)
        .iter()
        .map(|e| e.index)
        .collect();
    assert_eq!(indices, vec![2, 0]);
    ledger.record("guid-1.mp3");
    assert_eq!(podcast.pending_episodes(now, &ledger, &ids).len(), 2);
    // The guid alone is not the ledger key: recording it changes nothing.
    ledger.record("guid-2");
    assert_eq!(podcast.pending_episodes(now, &ledger, &ids).len(), 2);
}

#[test]
fn computing_ids_rejects_an_unknown_token_even_with_no_episodes() {
    let chan = RawPodcast::new(vec![]);
    let none: Vec<Episode> = vec![];
    assert!(matches!(
        compute_ledger_ids(&none, "{bogus}", "p", None, &chan),
        Err(ConfigError::UnknownToken(_))
    ));
    let one = vec![episode(0)];
    assert!(matches!(
        compute_ledger_ids(&one, "{bogus}", "p", None, &chan),
        Err(ConfigError::UnknownToken(_))
    ));
}

#[test]
fn planned_ids_are_safe_for_the_ledger_line() {
    let attrs = EpisodeAttributes {
        title: "Episode One".to_string(),
        guid: "g".to_string(),
        url: "u".to_string(),
        published: 0,
        raw: RawEpisode::new(vec![]),
    };
    let chan = RawPodcast::new(vec![]);
    let ctx = EvalCtx {
        podname: "p",
        home: None,
        channel: &chan,
        episode: &attrs,
        tags: None,
    };
    let plan = plan_episode("{guid}", "{rss::episode::title}", &ctx, "mp3", 7).unwrap();
    assert_eq!(plan.id, "missing");
    let plan2 = plan_episode("{guid}", "{podname} {guid}", &ctx, "mp3", 7).unwrap();
    assert_eq!(plan2.id, "p_g");
    assert_eq!(plan2.ledger_line, "p_g 7 \"Episode One\"\n");
    let reloaded = Ledger::from_text(&plan2.ledger_line);
    assert!(reloaded.contains("p_g"));
}

#[test]
fn an_unknown_token_halts_before_any_name_is_computed() {
    let attrs = EpisodeAttributes {
        title: "t".to_string(),
        guid: "g".to_string(),
        url: "u".to_string(),
        published: 0,
        raw: RawEpisode::new(vec![]),
    };
    let chan = RawPodcast::new(vec![]);
    let ctx = EvalCtx {
        podname: "p",
        home: None,
        channel: &chan,
        episode: &attrs,
        tags: None,
    };
    let r = plan_episode("{title_oops}", "{guid}", &ctx, "mp3", 0);
    assert!(matches!(r, Err(ConfigError::UnknownToken(_))));
}

#[test]
fn post_processing_runs_in_its_fixed_order() {
    let with_hook = post_process_plan(true);
    assert!(matches!(
        with_hook.as_slice(),
        [
            PostStep::WriteTags,
            PostStep::Rename,
            PostStep::RecordLedger,
            PostStep::SpawnHook
        ]
    ));
    let without = post_process_plan(false);
    assert!(matches!(
        without.as_slice(),
        [PostStep::WriteTags, PostStep::Rename, PostStep::RecordLedger]
    ));
}

#[test]
fn a_failed_download_stops_the_rest_of_the_subscription() {
    assert_eq!(completed_count(&vec![true, true, false, true]), 2);
    assert_eq!(completed_count(&vec![false]), 0);
    assert_eq!(completed_count(&vec![true, true]), 2);
    assert_eq!(completed_count(&vec![]), 0);
}

#[test]
fn build_episodes_sorts_and_reindexes() {
    fn raw(guid: &str, date: &str) -> RawEpisode {
        RawEpisode::new(vec![
            ("title".to_string(), FieldValue::Text(guid.to_string())),
            ("guid".to_string(), FieldValue::Text(guid.to_string())),
            (
                "enclosure".to_string(),
                FieldValue::Nested(vec![(
                    "@url".to_string(),
                    FieldValue::Text(format!("http://cdn.example/{}.mp3", guid)),
                )]),
            ),
            ("pubDate".to_string(), FieldValue::Text(date.to_string())),
        ])
    }
    let raws = vec![
        raw("late", "Wed, 11 Oct 2023 12:30:00 GMT"),
        raw("early", "Tue, 10 Oct 2023 12:30:00 GMT"),
        RawEpisode::new(vec![("title".to_string(), FieldValue::Text("no guid".to_string()))]),
    ];
    let chan = RawPodcast::new(vec![]);
    let eps = build_episodes(raws, &chan);
    assert_eq!(eps.len(), 2);
    assert_eq!(eps[0].attrs.guid, "early");
    assert_eq!(eps[0].index, 0);
    assert_eq!(eps[1].attrs.guid, "late");
    assert_eq!(eps[1].index, 1);
}

#[test]
fn episode_artwork_falls_back_to_the_channel() {
    let raws = vec![RawEpisode::new(vec![
        ("title".to_string(), FieldValue::Text("t".to_string())),
        ("guid".to_string(), FieldValue::Text("g".to_string())),
        (
            "enclosure".to_string(),
            FieldValue::Nested(vec![(
                "@url".to_string(),
                FieldValue::Text("u".to_string()),
            )]),
        ),
        (
            "pubDate".to_string(),
            FieldValue::Text("Tue, 10 Oct 2023 12:30:00 GMT".to_string()),
        ),
    ])];
    let chan = RawPodcast::new(vec![(
        "image".to_string(),
        FieldValue::Nested(vec![(
            "url".to_string(),
            FieldValue::Text("http://img.example/cover.png".to_string()),
        )]),
    )]);
    let eps = build_episodes(raws, &chan);
    assert_eq!(
        eps[0].image_url.as_deref(),
        Some("http://img.example/cover.png")
    );
}
