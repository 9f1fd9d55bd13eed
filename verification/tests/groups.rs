use youtube_viewcount_logger_rust::entity::Entity;
use youtube_viewcount_logger_rust::fetch::{sort_outcomes, FetchError, FetchFailure, FetchOutcome};
use youtube_viewcount_logger_rust::group::Group;
use youtube_viewcount_logger_rust::registry::Groups;

fn entity(id: &str, title: &str, metric: i64) -> Entity {
    Entity { id: id.to_string(), title: Some(title.to_string()), metric: Some(metric) }
}

/// Id, title and metric of an entity: `==` on entities looks at the id alone.
fn payload(e: &Entity) -> (&str, Option<&str>, Option<i64>) {
    (e.id.as_str(), e.title.as_deref(), e.metric)
}

fn payloads(list: &[Entity]) -> Vec<(&str, Option<&str>, Option<i64>)> {
    list.iter().map(payload).collect()
}

fn ids_of(group: &Group) -> Vec<String> {
    group.members().iter().map(|e| e.id.clone()).collect()
}

#[test]
fn new_entity_has_no_payload() {
    let e = Entity::new("v1".to_string());
    assert_eq!(payload(&e), ("v1", None, None));
    assert_eq!(payload(&entity("v1", "t", 5).duplicate()), ("v1", Some("t"), Some(5)));
}

#[test]
fn entities_are_equal_when_their_ids_are() {
    assert_eq!(entity("v1", "first", 1), entity("v1", "second", 2));
    assert_eq!(entity("v1", "first", 1), Entity::new("v1".to_string()));
    assert_ne!(entity("v1", "same", 1), entity("v2", "same", 1));
}

#[test]
fn insert_keeps_the_member_that_is_there() {
    let mut group = Group::new("g".to_string());
    assert!(group.insert(entity("v1", "first", 1)));
    assert!(!group.insert(entity("v1", "second", 2)));
    assert_eq!(group.len(), 1);
    assert_eq!(group.get("v1").map(payload), Some(("v1", Some("first"), Some(1))));
    assert_eq!(group.name(), "g");
}

#[test]
fn merging_the_same_id_twice_leaves_one_member_with_the_last_payload() {
    let mut group = Group::new("g".to_string());
    group.insert(Entity::new("v1".to_string()));
    group.insert(Entity::new("v2".to_string()));
    assert!(group.merge(&entity("v1", "first", 10)));
    assert!(group.merge(&entity("v1", "second", 20)));
    assert_eq!(group.len(), 2);
    assert_eq!(ids_of(&group), vec!["v1".to_string(), "v2".to_string()]);
    assert_eq!(group.get("v1").map(payload), Some(("v1", Some("second"), Some(20))));
    assert_eq!(group.get("v2").map(payload), Some(("v2", None, None)));
    // Once more with the same payload: nothing changes.
    assert!(group.merge(&entity("v1", "second", 20)));
    assert_eq!(group.len(), 2);
    assert_eq!(group.get("v1").map(payload), Some(("v1", Some("second"), Some(20))));
}

#[test]
fn merge_into_a_group_without_the_id_changes_nothing() {
    let mut group = Group::new("g".to_string());
    group.insert(Entity::new("v1".to_string()));
    assert!(!group.merge(&entity("v9", "t", 1)));
    assert_eq!(group.len(), 1);
    assert!(!group.contains("v9"));
    assert_eq!(group.position("v1"), Some(0));
    assert_eq!(group.position("v9"), None);
    assert!(group.get("v9").is_none());
}

#[test]
fn merge_reaches_every_group_that_holds_the_id() {
    let mut groups = Groups::new();
    groups.enroll("a", "shared".to_string());
    groups.enroll("a", "only_a".to_string());
    groups.enroll("b", "shared".to_string());
    groups.enroll("c", "only_c".to_string());
    groups.merge(&entity("shared", "Title", 7));
    assert_eq!(groups.group("a").unwrap().get("shared").map(payload), Some(("shared", Some("Title"), Some(7))));
    assert_eq!(groups.group("b").unwrap().get("shared").map(payload), Some(("shared", Some("Title"), Some(7))));
    assert!(groups.group("c").unwrap().get("shared").is_none());
    assert_eq!(groups.group("a").unwrap().len(), 2);
    assert_eq!(groups.group("b").unwrap().len(), 1);
    assert_eq!(groups.group("c").unwrap().len(), 1);
    assert_eq!(groups.group("a").unwrap().get("only_a").map(payload), Some(("only_a", None, None)));
}

#[test]
fn enroll_creates_the_group_and_keeps_known_members() {
    let mut groups = Groups::new();
    assert!(groups.enroll("a", "v1".to_string()));
    groups.merge(&entity("v1", "T", 3));
    assert!(!groups.enroll("a", "v1".to_string()));
    assert_eq!(groups.len(), 1);
    assert_eq!(groups.group("a").unwrap().get("v1").map(payload), Some(("v1", Some("T"), Some(3))));
    assert!(groups.group("zzz").is_none());
    assert_eq!(groups.position("a"), Some(0));
}

#[test]
fn add_group_adds_once() {
    let mut groups = Groups::new();
    assert!(groups.add_group("a".to_string()));
    assert!(!groups.add_group("a".to_string()));
    assert!(groups.add_group("b".to_string()));
    assert_eq!(groups.len(), 2);
    assert_eq!(groups.groups()[1].name(), "b");
    assert_eq!(groups.group("a").unwrap().len(), 0);
}

#[test]
fn enroll_all_skips_repeated_ids() {
    let mut groups = Groups::new();
    let ids: Vec<String> = ["v1", "v2", "v1", "v3"].iter().map(|s| s.to_string()).collect();
    groups.enroll_all("a", &ids);
    assert_eq!(
        ids_of(groups.group("a").unwrap()),
        vec!["v1".to_string(), "v2".to_string(), "v3".to_string()]
    );
    groups.enroll_all("b", &Vec::new());
    assert!(groups.group("b").is_none());
}

#[test]
fn all_unique_entities_lists_each_id_once() {
    let mut groups = Groups::new();
    groups.enroll("a", "v1".to_string());
    groups.enroll("a", "v2".to_string());
    groups.enroll("b", "v2".to_string());
    groups.enroll("b", "v3".to_string());
    groups.add_group("empty".to_string());
    let mut ids = groups.all_unique_entities();
    ids.sort();
    assert_eq!(ids, vec!["v1".to_string(), "v2".to_string(), "v3".to_string()]);
    assert!(Groups::new().all_unique_entities().is_empty());
}

#[test]
fn sort_outcomes_parts_successes_from_failures() {
    let outcomes = vec![
        FetchOutcome::Fetched(entity("v1", "T1", 1)),
        FetchOutcome::Failed(FetchFailure { id: "v2".to_string(), error: FetchError::NotFound }),
        FetchOutcome::Fetched(entity("v3", "T3", 3)),
        FetchOutcome::Failed(FetchFailure { id: "v4".to_string(), error: FetchError::Network }),
        FetchOutcome::Failed(FetchFailure { id: "v5".to_string(), error: FetchError::Malformed }),
    ];
    let (fetched, failed) = sort_outcomes(&outcomes);
    assert_eq!(payloads(&fetched), vec![("v1", Some("T1"), Some(1)), ("v3", Some("T3"), Some(3))]);
    assert_eq!(
        failed,
        vec![
            FetchFailure { id: "v2".to_string(), error: FetchError::NotFound },
            FetchFailure { id: "v4".to_string(), error: FetchError::Network },
            FetchFailure { id: "v5".to_string(), error: FetchError::Malformed },
        ]
    );
}

#[test]
fn merge_all_gives_the_same_groups_in_any_order_of_completion() {
    let build = || {
        let mut groups = Groups::new();
        groups.enroll("a", "v1".to_string());
        groups.enroll("a", "v2".to_string());
        groups.enroll("b", "v2".to_string());
        groups.enroll("b", "v3".to_string());
        groups
    };
    let mut one = build();
    one.merge_all(&vec![entity("v1", "T1", 1), entity("v2", "T2", 2)]);
    let mut other = build();
    other.merge_all(&vec![entity("v2", "T2", 2), entity("v1", "T1", 1), entity("v2", "T2", 2)]);
    for name in ["a", "b"] {
        assert_eq!(
            payloads(one.group(name).unwrap().members()),
            payloads(other.group(name).unwrap().members())
        );
    }
    assert_eq!(one.group("b").unwrap().get("v3").map(payload), Some(("v3", None, None)));
    assert_eq!(one.group("b").unwrap().get("v2").map(payload), Some(("v2", Some("T2"), Some(2))));
}
