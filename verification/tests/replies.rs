use youtube_viewcount_logger_rust::entity::Entity;
use youtube_viewcount_logger_rust::fetch::{Fetch, FetchError, FetchEvent, FetchFailure, FetchOutcome};
use youtube_viewcount_logger_rust::reply::{
    collect_present, entity_from_reading, membership_page_from, normalizer_reply_text,
    parse_metric_reply, parse_structured_title, read_membership_listing, read_membership_page,
    read_metric_reply, read_title_fields, structured_title_from_fields, MembershipListing,
    MembershipPage, MembershipWalk, MetricReading, TitleFields,
};
use youtube_viewcount_logger_rust::request::{api_url, membership_query, metric_query, settle};
use youtube_viewcount_logger_rust::title::StructedSongTitle;

/// Id, title and metric of a fetched entity, or the error of the fetch.
fn fetched(result: &Result<Entity, FetchError>) -> Result<(&str, Option<&str>, Option<i64>), FetchError> {
    match result {
        Ok(e) => Ok((e.id.as_str(), e.title.as_deref(), e.metric)),
        Err(error) => Err(*error),
    }
}

fn some(text: &str) -> Option<String> {
    Some(text.to_string())
}

fn pair(name: &str, value: &str) -> (String, String) {
    (name.to_string(), value.to_string())
}

const METRIC_REPLY: &str = r#"{"items":[{"snippet":{"title":"A Song (Live)"},"statistics":{"viewCount":"123456"}}]}"#;

#[test]
fn metric_reply_gives_title_and_metric() {
    assert_eq!(
        fetched(&parse_metric_reply("v1".to_string(), METRIC_REPLY)),
        Ok(("v1", Some("A Song (Live)"), Some(123456)))
    );
    assert_eq!(
        read_metric_reply(METRIC_REPLY),
        Some(MetricReading { items: Some(1), title: some("A Song (Live)"), view_count: some("123456") })
    );
}

#[test]
fn metric_reply_without_items_is_not_found() {
    assert_eq!(parse_metric_reply("v1".to_string(), r#"{"items":[]}"#), Err(FetchError::NotFound));
}

#[test]
fn metric_reply_that_is_not_json_is_malformed() {
    assert_eq!(parse_metric_reply("v1".to_string(), "<html>"), Err(FetchError::Malformed));
    assert_eq!(parse_metric_reply("v1".to_string(), ""), Err(FetchError::Malformed));
    assert_eq!(
        parse_metric_reply("v1".to_string(), r#"{"items":[]} trailing"#),
        Err(FetchError::Malformed)
    );
}

#[test]
fn metric_reply_without_an_items_array_is_malformed() {
    assert_eq!(parse_metric_reply("v1".to_string(), r#"{"error":{}}"#), Err(FetchError::Malformed));
    assert_eq!(parse_metric_reply("v1".to_string(), r#"{"items":{}}"#), Err(FetchError::Malformed));
    assert_eq!(parse_metric_reply("v1".to_string(), r#"[]"#), Err(FetchError::Malformed));
}

#[test]
fn metric_reply_that_lacks_a_required_field_is_malformed() {
    let no_count = r#"{"items":[{"snippet":{"title":"T"},"statistics":{}}]}"#;
    let no_title = r#"{"items":[{"snippet":{},"statistics":{"viewCount":"5"}}]}"#;
    let number_count = r#"{"items":[{"snippet":{"title":"T"},"statistics":{"viewCount":5}}]}"#;
    let bad_count = r#"{"items":[{"snippet":{"title":"T"},"statistics":{"viewCount":"many"}}]}"#;
    assert_eq!(
        read_metric_reply(no_count),
        Some(MetricReading { items: Some(1), title: some("T"), view_count: None })
    );
    for body in [no_count, no_title, number_count, bad_count] {
        assert_eq!(parse_metric_reply("v1".to_string(), body), Err(FetchError::Malformed));
    }
}

#[test]
fn metric_reply_is_read_from_its_first_item() {
    let two = r#"{"items":[{"snippet":{"title":"First"},"statistics":{"viewCount":"1"}},{"snippet":{"title":"Second"},"statistics":{"viewCount":"2"}}]}"#;
    assert_eq!(
        fetched(&parse_metric_reply("v1".to_string(), two)),
        Ok(("v1", Some("First"), Some(1)))
    );
}

#[test]
fn metric_reading_shows_what_was_found() {
    assert_eq!(read_metric_reply("<html>"), None);
    assert_eq!(
        read_metric_reply(r#"{"items":[]}"#),
        Some(MetricReading { items: Some(0), title: None, view_count: None })
    );
    assert_eq!(
        read_metric_reply(r#"{"items":{"0":{"snippet":{"title":"T"}}}}"#),
        Some(MetricReading { items: None, title: None, view_count: None })
    );
    assert_eq!(
        read_metric_reply(r#"{"items":[{},{"snippet":{"title":"second"}}]}"#),
        Some(MetricReading { items: Some(2), title: None, view_count: None })
    );
}

#[test]
fn reading_decides_the_entity() {
    let reading = |items: Option<usize>, title: Option<&str>, count: Option<&str>| {
        Some(MetricReading {
            items,
            title: title.map(|s| s.to_string()),
            view_count: count.map(|s| s.to_string()),
        })
    };
    assert_eq!(
        fetched(&entity_from_reading("v".to_string(), reading(Some(1), Some(""), Some("0")))),
        Ok(("v", Some(""), Some(0)))
    );
    assert_eq!(
        fetched(&entity_from_reading("v".to_string(), reading(Some(3), Some("t"), Some("-12")))),
        Ok(("v", Some("t"), Some(-12)))
    );
    assert_eq!(entity_from_reading("v".to_string(), None), Err(FetchError::Malformed));
    assert_eq!(
        entity_from_reading("v".to_string(), reading(None, Some("t"), Some("1"))),
        Err(FetchError::Malformed)
    );
    assert_eq!(
        entity_from_reading("v".to_string(), reading(Some(0), Some("t"), Some("1"))),
        Err(FetchError::NotFound)
    );
    assert_eq!(
        entity_from_reading("v".to_string(), reading(Some(1), None, Some("1"))),
        Err(FetchError::Malformed)
    );
    assert_eq!(
        entity_from_reading("v".to_string(), reading(Some(1), Some("t"), None)),
        Err(FetchError::Malformed)
    );
    assert_eq!(
        entity_from_reading("v".to_string(), reading(Some(1), Some("t"), Some("9223372036854775808"))),
        Err(FetchError::Malformed)
    );
}

#[test]
fn membership_page_lists_ids_and_the_next_token() {
    let body = r#"{"nextPageToken":"TOKEN2","items":[{"snippet":{"resourceId":{"videoId":"v1"}}},{"snippet":{"resourceId":{"videoId":"v2"}}}]}"#;
    assert_eq!(
        read_membership_page(body),
        Some(MembershipPage {
            ids: vec!["v1".to_string(), "v2".to_string()],
            next_page_token: some("TOKEN2"),
        })
    );
}

#[test]
fn last_membership_page_has_no_token() {
    let body = r#"{"items":[{"snippet":{"resourceId":{"videoId":"v3"}}}]}"#;
    assert_eq!(
        read_membership_page(body),
        Some(MembershipPage { ids: vec!["v3".to_string()], next_page_token: None })
    );
    assert_eq!(
        read_membership_page("{}"),
        Some(MembershipPage { ids: vec![], next_page_token: None })
    );
}

#[test]
fn unreadable_membership_page_is_none() {
    assert_eq!(read_membership_page("not json"), None);
    assert_eq!(read_membership_page(r#"{"items":[{"snippet":{}}]}"#), None);
    assert_eq!(membership_page_from(None), None);
    assert_eq!(
        membership_page_from(Some(MembershipListing {
            ids: Some(vec![some("v1"), None]),
            next_page_token: some("t"),
        })),
        None
    );
}

#[test]
fn listing_decides_the_page() {
    assert_eq!(
        membership_page_from(Some(MembershipListing {
            ids: Some(vec![some("v1")]),
            next_page_token: None,
        })),
        Some(MembershipPage { ids: vec!["v1".to_string()], next_page_token: None })
    );
    assert_eq!(
        membership_page_from(Some(MembershipListing { ids: None, next_page_token: some("t") })),
        Some(MembershipPage { ids: vec![], next_page_token: some("t") })
    );
    assert_eq!(
        read_membership_listing(r#"{"items":[{"snippet":{"resourceId":{"videoId":"v1"}}},{}],"nextPageToken":"n"}"#),
        Some(MembershipListing { ids: Some(vec![some("v1"), None]), next_page_token: some("n") })
    );
    assert_eq!(
        read_membership_listing(r#"{"items":7}"#),
        Some(MembershipListing { ids: None, next_page_token: None })
    );
    assert_eq!(read_membership_listing("["), None);
}

#[test]
fn walk_follows_the_tokens_until_no_page_follows() {
    let mut walk = MembershipWalk::start();
    assert_eq!(walk.next_page_token, some(""));
    assert!(walk.ids.is_empty());
    walk.advance(Some(MembershipPage {
        ids: vec!["v1".to_string(), "v2".to_string()],
        next_page_token: some("second"),
    }));
    assert_eq!(walk.next_page_token, some("second"));
    walk.advance(Some(MembershipPage { ids: vec!["v3".to_string()], next_page_token: None }));
    assert_eq!(walk.next_page_token, None);
    assert_eq!(walk.ids, vec!["v1".to_string(), "v2".to_string(), "v3".to_string()]);
}

#[test]
fn walk_ends_on_a_page_that_cannot_be_read() {
    let mut walk = MembershipWalk::start();
    walk.advance(Some(MembershipPage { ids: vec!["v1".to_string()], next_page_token: some("t") }));
    walk.advance(None);
    assert_eq!(walk.next_page_token, None);
    assert_eq!(walk.ids, vec!["v1".to_string()]);
}

#[test]
fn collect_present_wants_every_string() {
    assert_eq!(collect_present(vec![]), Some(vec![]));
    assert_eq!(
        collect_present(vec![some("a"), some("b")]),
        Some(vec!["a".to_string(), "b".to_string()])
    );
    assert_eq!(collect_present(vec![some("a"), None, some("b")]), None);
}

#[test]
fn normalizer_reply_carries_its_text() {
    let body = r#"{"candidates":[{"content":{"parts":[{"text":"{\"song_name\":\"S\"}"}],"role":"model"}}]}"#;
    assert_eq!(normalizer_reply_text(body), some("{\"song_name\":\"S\"}"));
    assert_eq!(normalizer_reply_text(r#"{"candidates":[]}"#), None);
    assert_eq!(normalizer_reply_text(r#"{"error":{"code":429}}"#), None);
    assert_eq!(normalizer_reply_text("oops"), None);
}

#[test]
fn normalizer_reply_is_read_from_arrays_only() {
    let keyed_candidates = r#"{"candidates":{"0":{"content":{"parts":[{"text":"x"}]}}}}"#;
    let keyed_parts = r#"{"candidates":[{"content":{"parts":{"0":{"text":"x"}}}}]}"#;
    let no_parts = r#"{"candidates":[{"content":{"parts":[]}}]}"#;
    let number_text = r#"{"candidates":[{"content":{"parts":[{"text":5}]}}]}"#;
    for body in [keyed_candidates, keyed_parts, no_parts, number_text] {
        assert_eq!(normalizer_reply_text(body), None);
    }
    let two = r#"{"candidates":[{"content":{"parts":[{"text":"first"},{"text":"second"}]}},{"content":{"parts":[{"text":"other"}]}}]}"#;
    assert_eq!(normalizer_reply_text(two), some("first"));
}

#[test]
fn structured_title_is_read_from_conforming_json() {
    let text = r#"{"song_name":"SUPER IDOL","singer":["A","B"],"edition":"","version":"Single Ver."}"#;
    assert_eq!(
        parse_structured_title(text),
        Some(StructedSongTitle {
            song_name: "SUPER IDOL".to_string(),
            singer: vec!["A".to_string(), "B".to_string()],
            edition: String::new(),
            version: "Single Ver.".to_string(),
        })
    );
    let empty = r#"{"song_name":"","singer":[],"edition":"","version":""}"#;
    assert_eq!(
        parse_structured_title(empty),
        Some(StructedSongTitle {
            song_name: String::new(),
            singer: vec![],
            edition: String::new(),
            version: String::new(),
        })
    );
}

#[test]
fn structured_title_that_does_not_conform_is_refused() {
    for text in [
        "",
        "null",
        r#"{"song_name":"S","singer":[],"edition":""}"#,
        r#"{"song_name":"S","singer":"A","edition":"","version":""}"#,
        r#"{"song_name":"S","singer":["A",1],"edition":"","version":""}"#,
        r#"{"song_name":null,"singer":[],"edition":"","version":""}"#,
        r#"{"song_name":"S","singer":[],"edition":"","version":2}"#,
        r#"["S",[],"",""]"#,
    ] {
        assert_eq!(parse_structured_title(text), None);
    }
}

#[test]
fn title_fields_show_what_was_found() {
    let text = r#"{"song_name":"S","singer":["A",1],"version":"V"}"#;
    let fields = read_title_fields(text).unwrap();
    assert_eq!(
        fields,
        TitleFields {
            song_name: some("S"),
            singer: Some(vec![some("A"), None]),
            edition: None,
            version: some("V"),
        }
    );
    assert_eq!(structured_title_from_fields(fields), None);
    assert_eq!(read_title_fields("{"), None);
    assert_eq!(
        structured_title_from_fields(TitleFields {
            song_name: some("S"),
            singer: Some(vec![some("A")]),
            edition: some("E"),
            version: some("V"),
        }),
        Some(StructedSongTitle {
            song_name: "S".to_string(),
            singer: vec!["A".to_string()],
            edition: "E".to_string(),
            version: "V".to_string(),
        })
    );
}

#[test]
fn metric_query_asks_for_title_and_count() {
    assert_eq!(
        metric_query("v1"),
        vec![
            pair("part", "statistics,snippet"),
            pair("fields", "items(snippet/title,statistics/viewCount)"),
            pair("id", "v1"),
        ]
    );
}

#[test]
fn membership_query_asks_for_fifty_ids_of_a_page() {
    assert_eq!(
        membership_query("PL1", ""),
        vec![
            pair("part", "snippet"),
            pair("fields", "items/snippet/resourceId/videoId,nextPageToken"),
            pair("maxResults", "50"),
            pair("playlistId", "PL1"),
            pair("pageToken", ""),
        ]
    );
}

#[test]
fn api_url_appends_the_parameters_and_the_key() {
    assert_eq!(
        api_url("videos", metric_query("a b&c"), "KEY"),
        some(
            "https://www.googleapis.com/youtube/v3/videos?part=statistics%2Csnippet&fields=items%28snippet%2Ftitle%2Cstatistics%2FviewCount%29&id=a+b%26c&key=KEY"
        )
    );
    assert_eq!(
        api_url("playlistItems", vec![], "K"),
        some("https://www.googleapis.com/youtube/v3/playlistItems?key=K")
    );
}

#[test]
fn api_url_replaces_a_given_key() {
    assert_eq!(
        api_url("videos", vec![pair("key", "old")], "new"),
        some("https://www.googleapis.com/youtube/v3/videos?key=new")
    );
    assert_eq!(
        api_url("videos", vec![pair("key", "a"), pair("id", "v1"), pair("key", "b")], "new"),
        some("https://www.googleapis.com/youtube/v3/videos?id=v1&key=new")
    );
}

#[test]
fn settle_keeps_the_last_value_of_each_name() {
    assert_eq!(
        settle(&vec![pair("a", "1"), pair("b", "2"), pair("a", "3"), pair("c", "4"), pair("b", "5")]),
        vec![pair("a", "3"), pair("c", "4"), pair("b", "5")]
    );
    assert_eq!(settle(&vec![pair("a", "1"), pair("b", "2")]), vec![pair("a", "1"), pair("b", "2")]);
    assert_eq!(settle(&vec![pair("a", "1"), pair("a", "1")]), vec![pair("a", "1")]);
    assert_eq!(settle(&vec![]), vec![]);
}

#[test]
fn fetch_runs_from_sighting_to_the_fetched_entity() {
    let fetch = Fetch::begin("v1".to_string());
    assert!(matches!(&fetch, Fetch::Sighting(id) if id == "v1"));
    let fetch = fetch.advance(FetchEvent::Sighted);
    assert!(matches!(&fetch, Fetch::Asking(id) if id == "v1"));
    let fetch = fetch.advance(FetchEvent::Replied(METRIC_REPLY.to_string()));
    match &fetch {
        Fetch::Refreshing(entity) => {
            assert_eq!(entity.id, "v1");
            assert_eq!(entity.title, some("A Song (Live)"));
            assert_eq!(entity.metric, Some(123456));
        }
        other => panic!("unexpected {:?}", other),
    }
    assert!(fetch.clone().into_outcome().is_none());
    match fetch.advance(FetchEvent::Refreshed).into_outcome() {
        Some(FetchOutcome::Fetched(entity)) => {
            assert_eq!(entity.id, "v1");
            assert_eq!(entity.title, some("A Song (Live)"));
            assert_eq!(entity.metric, Some(123456));
        }
        other => panic!("unexpected {:?}", other),
    }
}

#[test]
fn fetch_names_the_reason_of_each_failure() {
    let failure = |id: &str, error| {
        Some(FetchOutcome::Failed(FetchFailure { id: id.to_string(), error }))
    };
    let begun = || Fetch::begin("v1".to_string());
    assert_eq!(
        begun().advance(FetchEvent::SightFailed).into_outcome(),
        failure("v1", FetchError::Storage)
    );
    let asking = || begun().advance(FetchEvent::Sighted);
    assert_eq!(
        asking().advance(FetchEvent::Unreachable).into_outcome(),
        failure("v1", FetchError::Network)
    );
    assert_eq!(
        asking().advance(FetchEvent::Replied("oops".to_string())).into_outcome(),
        failure("v1", FetchError::Malformed)
    );
    assert_eq!(
        asking().advance(FetchEvent::Replied(r#"{"items":[]}"#.to_string())).into_outcome(),
        failure("v1", FetchError::NotFound)
    );
    let refreshing = || asking().advance(FetchEvent::Replied(METRIC_REPLY.to_string()));
    assert_eq!(
        refreshing().advance(FetchEvent::RefreshFailed).into_outcome(),
        failure("v1", FetchError::Storage)
    );
}

#[test]
fn fetch_ignores_an_event_that_answers_nothing() {
    let fetch = Fetch::begin("v1".to_string()).advance(FetchEvent::Refreshed);
    assert!(matches!(&fetch, Fetch::Sighting(id) if id == "v1"));
    let fetch = fetch.advance(FetchEvent::Sighted).advance(FetchEvent::Sighted);
    assert!(matches!(&fetch, Fetch::Asking(id) if id == "v1"));
    let done = fetch.advance(FetchEvent::Unreachable);
    let again = done.clone().advance(FetchEvent::Replied(METRIC_REPLY.to_string()));
    assert_eq!(again.into_outcome(), done.into_outcome());
}
