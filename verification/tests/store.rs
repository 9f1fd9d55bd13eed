use youtube_viewcount_logger_rust::entity::Entity;
use youtube_viewcount_logger_rust::fetch::{FetchError, FetchFailure, FetchOutcome};
use youtube_viewcount_logger_rust::plan::plan_group;
use youtube_viewcount_logger_rust::registry::Groups;
use youtube_viewcount_logger_rust::store::{MetricStore, Statement, StoreError};
use youtube_viewcount_logger_rust::table::{is_key_column, MetricTable};

const T1: &str = "2024-05-01 08:00:00";
const T2: &str = "2024-05-02 08:00:00";

fn fetched(id: &str, metric: i64) -> Entity {
    Entity { id: id.to_string(), title: Some(format!("title of {}", id)), metric: Some(metric) }
}

fn create(table: &str) -> Statement {
    Statement::CreateTable { table: table.to_string() }
}

fn insert(table: &str, timestamp: &str) -> Statement {
    Statement::InsertRow { table: table.to_string(), timestamp: timestamp.to_string() }
}

fn add(table: &str, column: &str) -> Statement {
    Statement::AddColumn { table: table.to_string(), column: column.to_string() }
}

fn set(table: &str, column: &str, timestamp: &str, value: i64) -> Statement {
    Statement::SetCell {
        table: table.to_string(),
        column: column.to_string(),
        timestamp: timestamp.to_string(),
        value,
    }
}

fn columns(store: &MetricStore, table: &str) -> Vec<String> {
    store.table(table).unwrap().columns().clone()
}

fn written_cells(store: &MetricStore, table: &str, timestamp: &str) -> usize {
    let t = store.table(table).unwrap();
    t.columns().iter().filter(|c| t.cell(timestamp, c.as_str()).is_some()).count()
}

/// Groups `a` = {v1, v2, v3} and `b` = {v2, v4}, nothing fetched yet.
fn enrolled() -> Groups {
    let mut groups = Groups::new();
    for id in ["v1", "v2", "v3"] {
        groups.enroll("a", id.to_string());
    }
    for id in ["v2", "v4"] {
        groups.enroll("b", id.to_string());
    }
    groups
}

#[test]
fn new_table_has_no_columns_and_no_rows() {
    let table = MetricTable::new("g".to_string());
    assert_eq!(table.name(), "g");
    assert!(table.columns().is_empty());
    assert_eq!(table.row_count(), 0);
    assert_eq!(table.cell(T1, "v1"), None);
    assert_eq!(table.duplicate(), table);
}

#[test]
fn table_primitives_ensure_rows_and_columns() {
    let mut table = MetricTable::new("g".to_string());
    table.ensure_row(T1);
    table.ensure_row(T1);
    assert_eq!(table.row_count(), 1);
    assert_eq!(table.ensure_column("v1"), Ok(true));
    assert_eq!(table.ensure_column("v2"), Ok(true));
    assert_eq!(table.ensure_column("v1"), Ok(false));
    assert_eq!(table.ensure_column("index"), Err(StoreError::ReservedColumn));
    assert_eq!(table.columns(), &vec!["v1".to_string(), "v2".to_string()]);
    table.ensure_row(T2);
    assert_eq!(table.row_count(), 2);
    assert_eq!(table.timestamp_at(1), T2);
    assert_eq!(table.column_position("v2"), Some(1));
    assert_eq!(table.column_position("v3"), None);
    assert_eq!(table.row_position(T2), Some(1));
    assert_eq!(table.row_position("never"), None);
    assert_eq!(table.set_cell(T2, "v2", 55), Ok(()));
    assert_eq!(table.cell(T2, "v2"), Some(55));
    assert_eq!(table.cell(T1, "v2"), None);
    assert_eq!(table.cell(T2, "v1"), None);
    assert_eq!(table.set_cell("never", "v1", 9), Ok(()));
    assert_eq!(table.cell(T1, "v1"), None);
    assert_eq!(table.cell(T2, "v1"), None);
    let before = table.clone();
    assert_eq!(table.set_cell(T1, "v3", 1), Err(StoreError::NoSuchColumn));
    assert_eq!(table.set_cell(T1, "index", 1), Err(StoreError::ReservedColumn));
    assert_eq!(table, before);
}

#[test]
fn ensure_table_creates_once() {
    let mut store = MetricStore::new();
    assert!(store.ensure_table("g"));
    assert!(!store.ensure_table("g"));
    assert_eq!(store.tables().len(), 1);
    assert!(store.table("g").unwrap().columns().is_empty());
    assert_eq!(store.table("g").unwrap().row_count(), 0);
}

#[test]
fn key_column_is_named_index() {
    assert!(is_key_column("index"));
    assert!(!is_key_column("Index"));
    assert!(!is_key_column(""));
}

#[test]
fn statements_take_effect_one_by_one() {
    let mut store = MetricStore::new();
    assert!(!store.has_table("g"));
    assert_eq!(store.apply(&create("g")), Ok(()));
    assert!(store.has_table("g"));
    assert_eq!(store.apply(&insert("g", T1)), Ok(()));
    assert_eq!(store.apply(&insert("g", T1)), Ok(()));
    assert_eq!(store.table("g").unwrap().row_count(), 1);
    assert_eq!(store.apply(&add("g", "v1")), Ok(()));
    assert_eq!(store.apply(&set("g", "v1", T1, 100)), Ok(()));
    assert_eq!(store.table("g").unwrap().cell(T1, "v1"), Some(100));
    assert_eq!(store.apply(&set("g", "v1", T2, 5)), Ok(()));
    assert_eq!(store.table("g").unwrap().cell(T2, "v1"), None);
    assert_eq!(store.columns_of("g"), vec!["v1".to_string()]);
    assert!(store.columns_of("other").is_empty());
    assert_eq!(store.tables().len(), 1);
    assert_eq!(store.position("g"), Some(0));
}

#[test]
fn refused_statements_name_their_reason_and_change_nothing() {
    let mut store = MetricStore::new();
    store.apply(&create("g")).unwrap();
    store.apply(&add("g", "v1")).unwrap();
    let before = store.clone();
    assert_eq!(store.apply(&create("g")), Err(StoreError::TableExists));
    assert_eq!(store.apply(&insert("x", T1)), Err(StoreError::NoSuchTable));
    assert_eq!(store.apply(&add("x", "v1")), Err(StoreError::NoSuchTable));
    assert_eq!(store.apply(&set("x", "v1", T1, 1)), Err(StoreError::NoSuchTable));
    assert_eq!(store.apply(&add("g", "v1")), Err(StoreError::ColumnExists));
    assert_eq!(store.apply(&add("g", "index")), Err(StoreError::ReservedColumn));
    assert_eq!(store.apply(&set("g", "index", T1, 1)), Err(StoreError::ReservedColumn));
    assert_eq!(store.apply(&set("g", "v2", T1, 1)), Err(StoreError::NoSuchColumn));
    assert_eq!(store, before);
}

#[test]
fn execute_applies_all_statements_or_none() {
    let mut store = MetricStore::new();
    store.execute(&vec![create("g"), insert("g", T1), add("g", "v1")]).unwrap();
    let before = store.clone();
    let failing = vec![add("g", "v2"), set("g", "v2", T1, 7), add("g", "v1"), add("g", "v3")];
    assert_eq!(store.execute(&failing), Err(StoreError::ColumnExists));
    assert_eq!(store, before);
    assert_eq!(store.duplicate(), before);
    let passing = vec![add("g", "v2"), set("g", "v2", T1, 7)];
    assert_eq!(store.execute(&passing), Ok(()));
    assert_eq!(store.table("g").unwrap().cell(T1, "v2"), Some(7));
    assert_eq!(store.execute(&Vec::new()), Ok(()));
}

#[test]
fn plan_creates_table_row_columns_and_cells() {
    let mut groups = enrolled();
    groups.merge(&fetched("v1", 11));
    groups.merge(&fetched("v3", 33));
    let plan = plan_group(groups.group("a").unwrap(), false, &Vec::new(), T1);
    assert_eq!(
        plan,
        vec![
            create("a"),
            insert("a", T1),
            add("a", "v1"),
            set("a", "v1", T1, 11),
            add("a", "v2"),
            add("a", "v3"),
            set("a", "v3", T1, 33),
        ]
    );
}

#[test]
fn plan_adds_only_missing_columns() {
    let mut groups = enrolled();
    groups.merge(&fetched("v2", 22));
    let existing = vec!["v2".to_string(), "old".to_string(), "v1".to_string()];
    let plan = plan_group(groups.group("a").unwrap(), true, &existing, T2);
    assert_eq!(plan, vec![insert("a", T2), set("a", "v2", T2, 22), add("a", "v3")]);
}

#[test]
fn plan_of_an_empty_group_makes_sure_of_table_and_row() {
    let mut groups = Groups::new();
    groups.add_group("empty".to_string());
    let group = groups.group("empty").unwrap();
    assert_eq!(plan_group(group, false, &Vec::new(), T1), vec![create("empty"), insert("empty", T1)]);
    assert_eq!(plan_group(group, true, &Vec::new(), T1), vec![insert("empty", T1)]);
}

#[test]
fn persist_records_every_group() {
    let mut groups = enrolled();
    groups.merge_all(&vec![fetched("v1", 11), fetched("v2", 22), fetched("v4", 44)]);
    let mut store = MetricStore::new();
    assert_eq!(store.persist(&groups, T1), Ok(()));
    assert_eq!(columns(&store, "a"), vec!["v1", "v2", "v3"]);
    assert_eq!(columns(&store, "b"), vec!["v2", "v4"]);
    let a = store.table("a").unwrap();
    assert_eq!(a.row_count(), 1);
    assert_eq!(a.cell(T1, "v1"), Some(11));
    assert_eq!(a.cell(T1, "v2"), Some(22));
    assert_eq!(a.cell(T1, "v3"), None);
    let b = store.table("b").unwrap();
    assert_eq!(b.cell(T1, "v2"), Some(22));
    assert_eq!(b.cell(T1, "v4"), Some(44));
}

#[test]
fn persist_equals_executing_the_plans() {
    let mut groups = enrolled();
    groups.merge_all(&vec![fetched("v1", 11), fetched("v2", 22)]);
    let mut by_persist = MetricStore::new();
    by_persist.persist(&groups, T1).unwrap();
    let mut by_plan = MetricStore::new();
    for group in groups.groups() {
        let exists = by_plan.has_table(group.name());
        let existing = by_plan.columns_of(group.name());
        by_plan.execute(&plan_group(group, exists, &existing, T1)).unwrap();
    }
    assert_eq!(by_persist, by_plan);
}

#[test]
fn second_identical_run_changes_nothing() {
    let mut groups = enrolled();
    groups.merge_all(&vec![fetched("v1", 11), fetched("v2", 22), fetched("v4", 44)]);
    let mut store = MetricStore::new();
    store.persist(&groups, T1).unwrap();
    let after_first = store.clone();
    assert_eq!(store.persist(&groups, T1), Ok(()));
    assert_eq!(store, after_first);
    assert_eq!(store.table("a").unwrap().row_count(), 1);
    assert_eq!(columns(&store, "a"), vec!["v1", "v2", "v3"]);
}

#[test]
fn second_run_with_members_in_another_order_changes_nothing() {
    let mut groups = enrolled();
    groups.merge_all(&vec![fetched("v1", 11), fetched("v2", 22), fetched("v4", 44)]);
    let mut store = MetricStore::new();
    store.persist(&groups, T1).unwrap();
    let after_first = store.clone();
    let mut again = Groups::new();
    for id in ["v4", "v2"] {
        again.enroll("b", id.to_string());
    }
    for id in ["v3", "v1", "v2"] {
        again.enroll("a", id.to_string());
    }
    again.merge_all(&vec![fetched("v4", 44), fetched("v2", 22), fetched("v1", 11)]);
    assert_eq!(store.persist(&again, T1), Ok(()));
    assert_eq!(store, after_first);
}

#[test]
fn columns_only_grow_from_run_to_run() {
    let mut store = MetricStore::new();
    let mut first = Groups::new();
    first.enroll("a", "v1".to_string());
    first.enroll("a", "v2".to_string());
    store.persist(&first, T1).unwrap();
    let before = columns(&store, "a");
    // v1 left the group, v3 joined it.
    let mut second = Groups::new();
    second.enroll("a", "v3".to_string());
    second.enroll("a", "v2".to_string());
    second.merge(&fetched("v3", 3));
    store.persist(&second, T2).unwrap();
    let after = columns(&store, "a");
    assert_eq!(before, vec!["v1", "v2"]);
    assert_eq!(after, vec!["v1", "v2", "v3"]);
    assert!(before.iter().all(|c| after.contains(c)));
    assert_eq!(store.table("a").unwrap().row_count(), 2);
    // A run without the group leaves its table as it is.
    let snapshot = store.table("a").unwrap().clone();
    let mut third = Groups::new();
    third.enroll("b", "v9".to_string());
    store.persist(&third, T2).unwrap();
    assert_eq!(store.table("a").unwrap(), &snapshot);
}

#[test]
fn failed_fetches_leave_their_cells_as_they_were() {
    let mut store = MetricStore::new();
    let mut first = enrolled();
    first.merge_all(&vec![fetched("v1", 1), fetched("v2", 2), fetched("v3", 3)]);
    store.persist(&first, T1).unwrap();
    assert_eq!(written_cells(&store, "a", T1), 3);

    // Second run at a new timestamp: of N = 3 entities, M = 2 fail.
    let mut second = enrolled();
    second.merge_all(&vec![fetched("v2", 20)]);
    store.persist(&second, T2).unwrap();
    let a = store.table("a").unwrap();
    assert_eq!(written_cells(&store, "a", T2), 1);
    assert_eq!(a.cell(T2, "v2"), Some(20));
    assert_eq!(a.cell(T2, "v1"), None);
    assert_eq!(a.cell(T2, "v3"), None);
    assert_eq!(a.cell(T1, "v1"), Some(1));
    assert_eq!(a.cell(T1, "v2"), Some(2));
    assert_eq!(a.cell(T1, "v3"), Some(3));

    // Third run at the first timestamp again: only v1 is fetched; the cells
    // of v2 and v3 keep their earlier values.
    let mut third = enrolled();
    third.merge_all(&vec![fetched("v1", 100)]);
    store.persist(&third, T1).unwrap();
    let a = store.table("a").unwrap();
    assert_eq!(a.cell(T1, "v1"), Some(100));
    assert_eq!(a.cell(T1, "v2"), Some(2));
    assert_eq!(a.cell(T1, "v3"), Some(3));
    let plan = plan_group(third.group("a").unwrap(), true, &columns(&store, "a"), T1);
    assert_eq!(plan.iter().filter(|s| matches!(s, Statement::SetCell { .. })).count(), 1);
}

#[test]
fn failed_persist_leaves_the_store_as_it_was() {
    let mut store = MetricStore::new();
    let mut first = enrolled();
    first.merge_all(&vec![fetched("v1", 1), fetched("v2", 2)]);
    store.persist(&first, T1).unwrap();
    let before = store.clone();

    // The last group holds an entity whose id collides with the key column:
    // the groups before it must not take effect either.
    let mut groups = enrolled();
    groups.enroll("a", "v5".to_string());
    groups.enroll("c", "v6".to_string());
    groups.enroll("c", "index".to_string());
    groups.merge_all(&vec![fetched("v1", 10), fetched("v5", 50), fetched("v6", 60)]);
    assert_eq!(store.persist(&groups, T2), Err(StoreError::ReservedColumn));
    assert_eq!(store, before);
    assert!(!store.has_table("c"));
    assert_eq!(columns(&store, "a"), vec!["v1", "v2", "v3"]);
    assert_eq!(store.table("a").unwrap().row_count(), 1);
}

#[test]
fn persist_into_an_empty_registry_changes_nothing() {
    let mut store = MetricStore::new();
    assert_eq!(store.persist(&Groups::new(), T1), Ok(()));
    assert_eq!(store, MetricStore::new());
}

#[test]
fn statements_render_as_sql_with_quoted_names() {
    assert_eq!(
        create("Group A").sql(),
        "CREATE TABLE \"Group A\" (index TIMESTAMPTZ PRIMARY KEY NOT NULL);"
    );
    assert_eq!(
        insert("g", T1).sql(),
        "INSERT OR IGNORE INTO \"g\"(index) VALUES(timezone('Asia/Tokyo',TIMESTAMP '2024-05-01 08:00:00'));"
    );
    assert_eq!(add("g", "dQw4w9WgXcQ").sql(), "ALTER TABLE \"g\" ADD COLUMN \"dQw4w9WgXcQ\" INT32;");
    assert_eq!(
        set("g", "v1", T1, 42).sql(),
        "UPDATE \"g\" SET \"v1\" = ? WHERE \"index\"=timezone('Asia/Tokyo',TIMESTAMP '2024-05-01 08:00:00');"
    );
    assert_eq!(set("g", "v1", T1, 42).parameter(), Some(42));
    assert_eq!(add("g", "v1").parameter(), None);
}

#[test]
fn untrusted_names_cannot_leave_their_quotes() {
    assert_eq!(
        add("g\"; DROP TABLE x; --", "a\"b").sql(),
        "ALTER TABLE \"g\"\"; DROP TABLE x; --\" ADD COLUMN \"a\"\"b\" INT32;"
    );
    assert_eq!(
        insert("g", "2024' OR '1'='1").sql(),
        "INSERT OR IGNORE INTO \"g\"(index) VALUES(timezone('Asia/Tokyo',TIMESTAMP '2024'' OR ''1''=''1'));"
    );
}

#[test]
fn record_run_merges_records_and_reports_failures() {
    let outcomes = vec![
        FetchOutcome::Fetched(fetched("v1", 11)),
        FetchOutcome::Failed(FetchFailure { id: "v2".to_string(), error: FetchError::Network }),
        FetchOutcome::Fetched(fetched("v4", 44)),
        FetchOutcome::Failed(FetchFailure { id: "v3".to_string(), error: FetchError::Storage }),
    ];
    let mut store = MetricStore::new();
    let mut groups = enrolled();
    let failed = store.record_run(&mut groups, &outcomes, T1).unwrap();
    assert_eq!(
        failed,
        vec![
            FetchFailure { id: "v2".to_string(), error: FetchError::Network },
            FetchFailure { id: "v3".to_string(), error: FetchError::Storage },
        ]
    );
    let v1 = groups.group("a").unwrap().get("v1").unwrap();
    assert_eq!((v1.title.as_deref(), v1.metric), (Some("title of v1"), Some(11)));
    let v2 = groups.group("a").unwrap().get("v2").unwrap();
    assert_eq!((v2.title.as_deref(), v2.metric), (None, None));
    assert_eq!(columns(&store, "a"), vec!["v1", "v2", "v3"]);
    assert_eq!(written_cells(&store, "a", T1), 1);
    assert_eq!(written_cells(&store, "b", T1), 1);
    assert_eq!(store.table("b").unwrap().cell(T1, "v4"), Some(44));

    // The same run once more, from the same inputs, changes nothing.
    let after_first = store.clone();
    let mut again = enrolled();
    assert_eq!(store.record_run(&mut again, &outcomes, T1).unwrap(), failed);
    assert_eq!(store, after_first);
}

#[test]
fn record_run_that_is_refused_leaves_the_store_as_it_was() {
    let mut store = MetricStore::new();
    let mut groups = enrolled();
    store.record_run(&mut groups, &vec![FetchOutcome::Fetched(fetched("v1", 1))], T1).unwrap();
    let before = store.clone();
    let mut colliding = enrolled();
    colliding.enroll("b", "index".to_string());
    let outcomes = vec![FetchOutcome::Fetched(fetched("v2", 2))];
    assert_eq!(
        store.record_run(&mut colliding, &outcomes, T2),
        Err(StoreError::ReservedColumn)
    );
    assert_eq!(store, before);
}

#[test]
fn member_order_does_not_matter_to_what_is_recorded() {
    let record = |ids: [&str; 3]| {
        let mut groups = Groups::new();
        for id in ids {
            groups.enroll("a", id.to_string());
        }
        groups.merge_all(&vec![fetched("v1", 1), fetched("v3", 3)]);
        let mut store = MetricStore::new();
        store.persist(&groups, T1).unwrap();
        store
    };
    let one = record(["v1", "v2", "v3"]);
    let other = record(["v3", "v1", "v2"]);
    let mut sorted = columns(&other, "a");
    sorted.sort();
    assert_eq!(columns(&one, "a"), sorted);
    for id in ["v1", "v2", "v3"] {
        assert_eq!(
            one.table("a").unwrap().cell(T1, id),
            other.table("a").unwrap().cell(T1, id)
        );
    }
    assert_eq!(other.table("a").unwrap().cell(T1, "v3"), Some(3));
    assert_eq!(other.table("a").unwrap().cell(T1, "v2"), None);
}

#[test]
fn record_run_writes_no_metric_of_an_earlier_run() {
    let mut store = MetricStore::new();
    let mut groups = enrolled();
    // The groups still carry what an earlier run fetched.
    groups.merge_all(&vec![fetched("v1", 5), fetched("v2", 6)]);
    let outcomes = vec![
        FetchOutcome::Failed(FetchFailure { id: "v1".to_string(), error: FetchError::Network }),
        FetchOutcome::Fetched(fetched("v2", 60)),
    ];
    let failed = store.record_run(&mut groups, &outcomes, T1).unwrap();
    assert_eq!(failed.len(), 1);
    let a = store.table("a").unwrap();
    assert_eq!(a.cell(T1, "v1"), None);
    assert_eq!(a.cell(T1, "v2"), Some(60));
    assert_eq!(written_cells(&store, "a", T1), 1);
    let v1 = groups.group("a").unwrap().get("v1").unwrap();
    assert_eq!((v1.title.as_deref(), v1.metric), (None, None));
}

#[test]
fn forget_keeps_members_and_drops_payloads() {
    let mut groups = enrolled();
    groups.merge_all(&vec![fetched("v1", 5), fetched("v4", 6)]);
    groups.forget();
    assert_eq!(groups.len(), 2);
    for (name, ids) in [("a", vec!["v1", "v2", "v3"]), ("b", vec!["v2", "v4"])] {
        let members = groups.group(name).unwrap().members();
        assert_eq!(members.iter().map(|e| e.id.as_str()).collect::<Vec<_>>(), ids);
        assert!(members.iter().all(|e| e.title.is_none() && e.metric.is_none()));
    }
}
