use youtube_viewcount_logger_rust::text::{join, join_present};
use youtube_viewcount_logger_rust::title::StructedSongTitle;
use youtube_viewcount_logger_rust::title_cache::{
    can_normalize, InvalidationError, Refresh, RefreshEvent, TitleRecord, TitleState,
};

fn title(song_name: &str, singer: &[&str], edition: &str, version: &str) -> StructedSongTitle {
    StructedSongTitle {
        song_name: song_name.to_string(),
        singer: singer.iter().map(|s| s.to_string()).collect(),
        edition: edition.to_string(),
        version: version.to_string(),
    }
}

fn strings(list: &[&str]) -> Vec<String> {
    list.iter().map(|s| s.to_string()).collect()
}

#[test]
fn cleaned_title_of_song_singers_and_version() {
    let t = title("Song", &["A", "B"], "", "V1");
    assert_eq!(t.cleaned_title(), "Song : A,B - V1");
}

#[test]
fn cleaned_title_of_empty_fields_is_empty() {
    let t = title("", &[], "", "");
    assert_eq!(t.cleaned_title(), "");
}

#[test]
fn cleaned_title_of_song_name_alone() {
    assert_eq!(title("Super Red", &[], "", "").cleaned_title(), "Super Red");
}

#[test]
fn cleaned_title_with_every_field() {
    let t = title("My Song", &["X"], "Live", "2012 Remaster");
    assert_eq!(t.cleaned_title(), "My Song : X - Live - 2012 Remaster");
}

#[test]
fn cleaned_title_without_song_name() {
    assert_eq!(title("", &["A", "B"], "Cover", "").cleaned_title(), "A,B - Cover");
}

#[test]
fn cleaned_title_leaves_out_empty_singers() {
    assert_eq!(title("Song", &[], "Instrumental", "").cleaned_title(), "Song : Instrumental");
    assert_eq!(title("Song", &[], "", "Single Ver.").cleaned_title(), "Song : Single Ver.");
    assert_eq!(title("", &[], "E", "V").cleaned_title(), "E - V");
}

#[test]
fn cleaned_title_is_the_same_every_time() {
    let t = title("Song", &["A", "B"], "", "V1");
    assert_eq!(t.cleaned_title(), t.cleaned_title());
    assert_eq!(t.duplicate().cleaned_title(), "Song : A,B - V1");
}

#[test]
fn join_puts_the_separator_between_neighbours() {
    assert_eq!(join(&strings(&[]), ","), "");
    assert_eq!(join(&strings(&["a"]), ","), "a");
    assert_eq!(join(&strings(&["a", "", "b"]), ","), "a,,b");
}

#[test]
fn join_present_leaves_out_empty_parts() {
    assert_eq!(join_present(&strings(&["", "a", "", "b", ""]), " - "), "a - b");
    assert_eq!(join_present(&strings(&["", ""]), " - "), "");
}

#[test]
fn duplicate_and_same_as_agree() {
    let t = title("Song", &["A", "B"], "", "V1");
    assert!(t.same_as(&t.duplicate()));
    assert!(!t.same_as(&title("Song", &["A"], "", "V1")));
    assert!(!t.same_as(&title("Song", &["A", "C"], "", "V1")));
    assert!(!t.same_as(&title("Song", &["A", "B"], "x", "V1")));
}

#[test]
fn blank_record_is_missing() {
    let record = TitleRecord::blank("id1".to_string());
    assert_eq!(record.state(), TitleState::Missing);
    assert!(record.is_consistent());
    assert_eq!(record.raw_title, None);
}

#[test]
fn first_observation_asks_for_a_write_then_for_the_normalizer() {
    let refresh = Refresh::begin(TitleRecord::blank("id1".to_string()), "Raw title");
    let expected = TitleRecord {
        id: "id1".to_string(),
        raw_title: Some("Raw title".to_string()),
        cleaned_title: None,
        structured_title: None,
    };
    assert_eq!(refresh, Refresh::Invalidating(expected.clone()));
    assert!(!refresh.is_finished());
    let refresh = refresh.advance(RefreshEvent::Written);
    assert_eq!(refresh, Refresh::Normalizing(expected.clone()));
    assert_eq!(refresh.record().unwrap().state(), TitleState::RawOnly);
}

#[test]
fn normalized_title_is_stored_with_its_cleaned_title() {
    let refresh = Refresh::begin(TitleRecord::blank("id1".to_string()), "Raw title")
        .advance(RefreshEvent::Written)
        .advance(RefreshEvent::Normalized(title("Song", &["A", "B"], "", "V1")));
    let expected = TitleRecord {
        id: "id1".to_string(),
        raw_title: Some("Raw title".to_string()),
        cleaned_title: Some("Song : A,B - V1".to_string()),
        structured_title: Some(title("Song", &["A", "B"], "", "V1")),
    };
    assert_eq!(refresh, Refresh::Deriving(expected.clone()));
    let refresh = refresh.advance(RefreshEvent::Written);
    assert_eq!(refresh, Refresh::Done(expected.clone()));
    assert!(refresh.is_finished());
    assert_eq!(refresh.record().unwrap().state(), TitleState::RawAndStructured);
    assert_eq!(refresh.into_result(), Some(Ok(expected)));
}

#[test]
fn normalizer_failure_leaves_the_record_raw_only() {
    let refresh = Refresh::begin(TitleRecord::blank("id1".to_string()), "Raw title")
        .advance(RefreshEvent::Written)
        .advance(RefreshEvent::NormalizerFailed);
    let expected = TitleRecord {
        id: "id1".to_string(),
        raw_title: Some("Raw title".to_string()),
        cleaned_title: None,
        structured_title: None,
    };
    assert_eq!(refresh.into_result(), Some(Ok(expected.clone())));
    // The next run finds the record unchanged and asks the normalizer again.
    assert_eq!(Refresh::begin(expected.clone(), "Raw title"), Refresh::Normalizing(expected));
}

#[test]
fn changed_raw_title_clears_the_derived_titles_at_once() {
    let stored = TitleRecord::from_stored(
        "id1".to_string(),
        Some("Old title".to_string()),
        Some(title("Song", &["A"], "", "")),
    );
    assert_eq!(stored.cleaned_title, Some("Song : A".to_string()));
    let refresh = Refresh::begin(stored, "New title");
    let current = refresh.record().unwrap();
    assert_eq!(current.raw_title, Some("New title".to_string()));
    assert_eq!(current.structured_title, None);
    assert_eq!(current.cleaned_title, None);
    assert!(matches!(refresh, Refresh::Invalidating(_)));
    let refresh = refresh.advance(RefreshEvent::Written);
    let current = refresh.record().unwrap();
    assert_eq!(current.structured_title, None);
    assert_eq!(current.cleaned_title, None);
}

#[test]
fn unchanged_record_is_left_untouched() {
    let stored = TitleRecord::from_stored(
        "id1".to_string(),
        Some("Same title".to_string()),
        Some(title("Song", &["A"], "", "")),
    );
    let refresh = Refresh::begin(stored.clone(), "Same title");
    assert_eq!(refresh, Refresh::Done(stored));
}

#[test]
fn failed_write_fails_the_refresh() {
    let refresh = Refresh::begin(TitleRecord::blank("id1".to_string()), "Raw title")
        .advance(RefreshEvent::WriteFailed);
    assert_eq!(refresh, Refresh::Failed(InvalidationError { id: "id1".to_string() }));
    assert_eq!(refresh.record(), None);
    assert_eq!(
        refresh.into_result(),
        Some(Err(InvalidationError { id: "id1".to_string() }))
    );
}

#[test]
fn failed_write_of_derived_titles_fails_the_refresh() {
    let refresh = Refresh::begin(TitleRecord::blank("id1".to_string()), "Raw title")
        .advance(RefreshEvent::Written)
        .advance(RefreshEvent::Normalized(title("Song", &[], "", "")))
        .advance(RefreshEvent::WriteFailed);
    assert_eq!(refresh, Refresh::Failed(InvalidationError { id: "id1".to_string() }));
}

#[test]
fn empty_raw_title_is_not_sent_to_the_normalizer() {
    let refresh =
        Refresh::begin(TitleRecord::blank("id1".to_string()), "").advance(RefreshEvent::Written);
    assert!(matches!(refresh, Refresh::Done(_)));
    assert_eq!(refresh.record().unwrap().raw_title, Some(String::new()));
}

#[test]
fn event_that_answers_nothing_is_ignored() {
    let begun = Refresh::begin(TitleRecord::blank("id1".to_string()), "Raw title");
    assert_eq!(begun.clone().advance(RefreshEvent::NormalizerFailed), begun);
    let asking = begun.advance(RefreshEvent::Written);
    assert_eq!(asking.clone().advance(RefreshEvent::Written), asking);
    assert_eq!(asking.clone().into_result(), None);
}

#[test]
fn stored_structured_title_with_wrong_cleaned_title_is_composed_anew() {
    let stored = TitleRecord {
        id: "id1".to_string(),
        raw_title: Some("Raw".to_string()),
        cleaned_title: None,
        structured_title: Some(title("Song", &["A"], "", "")),
    };
    assert!(!stored.is_consistent());
    let refresh = Refresh::begin(stored, "Raw");
    match refresh {
        Refresh::Deriving(record) => {
            assert_eq!(record.cleaned_title, Some("Song : A".to_string()));
            assert!(record.is_consistent());
        }
        other => panic!("unexpected {:?}", other),
    }
}

#[test]
fn stored_cleaned_title_without_structured_title_is_cleared() {
    let stored = TitleRecord {
        id: "id1".to_string(),
        raw_title: Some("Raw".to_string()),
        cleaned_title: Some("Stale".to_string()),
        structured_title: None,
    };
    let refresh = Refresh::begin(stored, "Raw");
    match refresh {
        Refresh::Invalidating(record) => {
            assert_eq!(record.cleaned_title, None);
            assert_eq!(record.raw_title, Some("Raw".to_string()));
        }
        other => panic!("unexpected {:?}", other),
    }
}

#[test]
fn from_stored_drops_a_structured_title_without_raw_title() {
    let record = TitleRecord::from_stored("id1".to_string(), None, Some(title("S", &[], "", "")));
    assert_eq!(record, TitleRecord::blank("id1".to_string()));
    assert_eq!(record.duplicate(), record);
}

#[test]
fn only_a_title_that_is_not_empty_can_be_normalized() {
    assert!(can_normalize("a"));
    assert!(can_normalize(" "));
    assert!(!can_normalize(""));
}
