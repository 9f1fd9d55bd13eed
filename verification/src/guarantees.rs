//! What holds of every run that is recorded: when it is accepted, that a
//! second identical run changes nothing, that tables only grow, and what each
//! cell holds afterwards.

use vstd::prelude::*;
use crate::entity::EntityView;
use crate::fetch::{
    OutcomeView, fetched_of, last_with_id, law_merged_all_pointwise, lemma_merged_all_wf,
    merged_all,
};
use crate::group::{GroupView, distinct_ids, has_member};
use crate::persist::{
    group_persisted, group_table, lemma_applied_all_concat, lemma_group_persisted,
    lemma_with_table, observed_columns, persisted, recordable, recorded_all, recorded_store,
};
use crate::plan::{member_plan, members_plan, opening_plan, planned};
use crate::record::{
    brings_nothing_new, cell_after, extends, lemma_metric_for, lemma_recorded_cell, lemma_recorded_extends,
    lemma_recorded_again, lemma_recorded_wf, metric_for, no_reserved_id, recorded,
};
use crate::registry::{forgotten, groups_wf, has_group};
use crate::store::{
    StatementView, StoreError, applied_all, has_table, lemma_table_named, store_wf, table_named,
    with_table,
};
use crate::table::{TableView, cell_of, key_column, table_wf};

verus! {

/// Every table of `before` stands at its place in `after`, extended.
pub open spec fn store_extends(before: Seq<TableView>, after: Seq<TableView>) -> bool {
    &&& before.len() <= after.len()
    &&& forall|t: int| 0 <= t < before.len() ==> extends(before[t], #[trigger] after[t])
}

/// Recording a group leaves the tables of other names as they were.
proof fn lemma_recorded_store_others(
    store: Seq<TableView>,
    group: GroupView,
    timestamp: Seq<char>,
    name: Seq<char>,
)
    requires
        store_wf(store),
        name != group.name,
    ensures
        group_table(recorded_store(store, group, timestamp), name) == group_table(store, name),
        has_table(recorded_store(store, group, timestamp), name) == has_table(store, name),
{
    let after = recorded_store(store, group, timestamp);
    let table = recorded(group_table(store, group.name), group.members, timestamp);
    if has_table(store, group.name) {
        lemma_with_table(store, table);
        assert(group_table(with_table(store, table), name) == group_table(store, name));
        assert(has_table(with_table(store, table), name) == has_table(store, name));
    } else {
        if has_table(store, name) {
            let u = choose|u: int| 0 <= u < store.len() && store[u].name == name;
            assert(after[u].name == name);
        }
        if has_table(after, name) {
            let u = choose|u: int| 0 <= u < after.len() && after[u].name == name;
            assert(store[u].name == name);
            lemma_table_named(store, u);
        }
    }
}

/// Recording a group extends every table of the store.
proof fn lemma_recorded_store_extends(
    store: Seq<TableView>,
    group: GroupView,
    timestamp: Seq<char>,
)
    requires
        store_wf(store),
    ensures
        store_extends(store, recorded_store(store, group, timestamp)),
{
    let after = recorded_store(store, group, timestamp);
    assert forall|t: int| 0 <= t < store.len() implies extends(store[t], #[trigger] after[t]) by {
        if has_table(store, group.name) && store[t].name == group.name {
            lemma_table_named(store, t);
            lemma_recorded_extends(store[t], group.members, timestamp);
        } else {
            assert(after[t] == store[t]);
            assert(store[t].columns =~= store[t].columns.subrange(
                0,
                store[t].columns.len() as int,
            ));
        }
    }
}

/// Extension carries over: what extends an extension of a store extends the
/// store.
proof fn lemma_store_extends_trans(a: Seq<TableView>, b: Seq<TableView>, c: Seq<TableView>)
    requires
        store_extends(a, b),
        store_extends(b, c),
    ensures
        store_extends(a, c),
{
    assert forall|t: int| 0 <= t < a.len() implies extends(a[t], #[trigger] c[t]) by {
        assert(extends(a[t], b[t]));
        assert(extends(b[t], c[t]));
        assert(a[t].columns =~= c[t].columns.subrange(0, a[t].columns.len() as int)) by {
            assert(a[t].columns =~= b[t].columns.subrange(0, a[t].columns.len() as int));
            assert(b[t].columns =~= c[t].columns.subrange(0, b[t].columns.len() as int));
        }
        assert forall|r: int| 0 <= r < a[t].rows.len() implies (#[trigger] c[t].rows[r]).timestamp
            == a[t].rows[r].timestamp by {
            assert(b[t].rows[r].timestamp == a[t].rows[r].timestamp);
        }
    }
}

/// The front of a well-formed list of groups is well formed.
proof fn lemma_front_wf(groups: Seq<GroupView>)
    requires
        groups_wf(groups),
        groups.len() > 0,
    ensures
        groups_wf(groups.drop_last()),
        recordable(groups) ==> recordable(groups.drop_last()) && no_reserved_id(
            groups.last().members,
        ),
        distinct_ids(groups.last().members),
        !has_group(groups.drop_last(), groups.last().name),
{
    let front = groups.drop_last();
    assert forall|g: int, h: int| 0 <= g < h < front.len() implies front[g].name
        != front[h].name by {
        assert(groups[g].name != groups[h].name);
    }
    assert forall|g: int| 0 <= g < front.len() implies distinct_ids(
        #[trigger] front[g].members,
    ) by {
        assert(distinct_ids(groups[g].members));
    }
    if recordable(groups) {
        assert forall|g: int| 0 <= g < front.len() implies no_reserved_id(
            #[trigger] front[g].members,
        ) by {
            assert(no_reserved_id(groups[g].members));
        }
        assert(no_reserved_id(groups[groups.len() - 1].members));
    }
    assert(distinct_ids(groups[groups.len() - 1].members));
    if has_group(front, groups.last().name) {
        let g = choose|g: int| 0 <= g < front.len() && front[g].name == groups.last().name;
        assert(groups[g].name != groups[groups.len() - 1].name);
    }
}

/// What recording a well-formed, recordable list of groups gives: the run is
/// accepted, the store stays well formed and only grows, the table of each
/// group holds what [`recorded`] says of the table the store had for it, and
/// the tables of other names are as they were.
pub proof fn lemma_persisted(store: Seq<TableView>, groups: Seq<GroupView>, timestamp: Seq<char>)
    requires
        store_wf(store),
        groups_wf(groups),
        recordable(groups),
    ensures
        persisted(store, groups, timestamp) == Ok::<Seq<TableView>, StoreError>(
            recorded_all(store, groups, timestamp),
        ),
        store_wf(recorded_all(store, groups, timestamp)),
        store_extends(store, recorded_all(store, groups, timestamp)),
        forall|g: int|
            0 <= g < groups.len() ==> has_table(
                recorded_all(store, groups, timestamp),
                (#[trigger] groups[g]).name,
            ) && table_named(recorded_all(store, groups, timestamp), groups[g].name) == recorded(
                group_table(store, groups[g].name),
                groups[g].members,
                timestamp,
            ),
        forall|name: Seq<char>|
            !has_group(groups, name) ==> (#[trigger] group_table(
                recorded_all(store, groups, timestamp),
                name,
            )) == group_table(store, name),
        forall|name: Seq<char>|
            !has_group(groups, name) ==> (#[trigger] has_table(
                recorded_all(store, groups, timestamp),
                name,
            )) == has_table(store, name),
    decreases groups.len(),
{
    let after = recorded_all(store, groups, timestamp);
    if groups.len() == 0 {
        assert forall|t: int| 0 <= t < store.len() implies extends(store[t], #[trigger] after[t]) by {
            assert(store[t].columns =~= store[t].columns.subrange(
                0,
                store[t].columns.len() as int,
            ));
        }
    } else {
        let front = groups.drop_last();
        let group = groups.last();
        let between = recorded_all(store, front, timestamp);
        lemma_front_wf(groups);
        lemma_persisted(store, front, timestamp);
        lemma_group_persisted(between, group, timestamp);
        lemma_recorded_store_extends(between, group, timestamp);
        lemma_store_extends_trans(store, between, after);
        assert(group_table(between, group.name) == group_table(store, group.name));
        assert forall|g: int| 0 <= g < groups.len() implies has_table(
            after,
            (#[trigger] groups[g]).name,
        ) && table_named(after, groups[g].name) == recorded(
            group_table(store, groups[g].name),
            groups[g].members,
            timestamp,
        ) by {
            if g < front.len() {
                assert(front[g] == groups[g]);
                assert(groups[g].name != groups[groups.len() - 1].name);
                lemma_recorded_store_others(between, group, timestamp, groups[g].name);
                assert(has_table(between, front[g].name));
            }
        }
        assert forall|name: Seq<char>| !has_group(groups, name) implies group_table(after, name)
            == group_table(store, name) && has_table(after, name) == has_table(store, name) by {
            assert(!has_group(front, name)) by {
                if has_group(front, name) {
                    let g = choose|g: int| 0 <= g < front.len() && front[g].name == name;
                    assert(groups[g].name == name);
                }
            }
            assert(name != group.name) by {
                assert(groups[groups.len() - 1].name == group.name);
            }
            lemma_recorded_store_others(between, group, timestamp, name);
            assert(group_table(between, name) == group_table(store, name));
            assert(has_table(between, name) == has_table(store, name));
        }
    }
}

/// The statements planned for members of which one carries the key column's
/// name are refused for that reason.
proof fn lemma_reserved_member_refused(
    store: Seq<TableView>,
    name: Seq<char>,
    members: Seq<EntityView>,
    timestamp: Seq<char>,
)
    requires
        store_wf(store),
        has_table(store, name),
        crate::table::has_row(table_named(store, name), timestamp),
        distinct_ids(members),
        has_member(members, key_column()),
    ensures
        applied_all(
            store,
            members_plan(name, members, table_named(store, name).columns, timestamp),
        ) == Err::<Seq<TableView>, StoreError>(StoreError::ReservedColumn),
    decreases members.len(),
{
    let table = table_named(store, name);
    let columns = table.columns;
    let front = members.drop_last();
    let member = members.last();
    let t = choose|t: int| 0 <= t < store.len() && store[t].name == name;
    assert(table_wf(store[t]));
    assert(members.len() > 0);
    assert forall|i: int, j: int| 0 <= i < j < front.len() implies front[i].id
        != front[j].id by {
        assert(members[i].id != members[j].id);
    }
    lemma_applied_all_concat(
        store,
        members_plan(name, front, columns, timestamp),
        member_plan(name, member, columns, timestamp),
    );
    if has_member(front, key_column()) {
        lemma_reserved_member_refused(store, name, front, timestamp);
    } else {
        let k = choose|k: int| 0 <= k < members.len() && members[k].id == key_column();
        assert(k == members.len() - 1) by {
            if k < members.len() - 1 {
                assert(front[k].id == key_column());
            }
        }
        crate::persist::lemma_members_recorded(store, name, front, timestamp);
        let before = recorded(table, front, timestamp);
        let between = with_table(store, before);
        lemma_recorded_wf(table, front, timestamp);
        lemma_with_table(store, before);
        let plan = member_plan(name, member, columns, timestamp);
        let add = StatementView::AddColumn { table: name, column: member.id };
        reveal_with_fuel(applied_all, 3);
        match member.metric {
            Some(value) => {
                assert(plan.drop_last() =~= seq![add]);
                assert(plan.drop_last().drop_last() =~= Seq::<StatementView>::empty());
                assert(plan.drop_last().last() == add);
            },
            None => {
                assert(plan =~= seq![add]);
                assert(plan.drop_last() =~= Seq::<StatementView>::empty());
            },
        }
    }
}

/// Recording a group of which a member carries the key column's name is
/// refused for that reason.
proof fn lemma_reserved_group_refused(
    store: Seq<TableView>,
    group: GroupView,
    timestamp: Seq<char>,
)
    requires
        store_wf(store),
        distinct_ids(group.members),
        !no_reserved_id(group.members),
    ensures
        group_persisted(store, group, timestamp) == Err::<Seq<TableView>, StoreError>(
            StoreError::ReservedColumn,
        ),
{
    let name = group.name;
    let bare = GroupView { name, members: Seq::empty() };
    lemma_group_persisted(store, bare, timestamp);
    let opened = recorded_store(store, bare, timestamp);
    let exists = has_table(store, name);
    let opening = opening_plan(name, exists, timestamp);
    let columns = observed_columns(store, name);
    assert(planned(bare, exists, columns, timestamp) =~= opening);
    let ready = table_named(opened, name);
    lemma_recorded_wf(group_table(store, name), bare.members, timestamp);
    assert(ready.columns =~= columns);
    lemma_reserved_member_refused(opened, name, group.members, timestamp);
    lemma_applied_all_concat(store, opening, members_plan(name, group.members, columns, timestamp));
}

/// A run is accepted exactly when no member of any group carries the key
/// column's name as its id. An accepted run leaves the store that
/// [`recorded_all`] describes; a refused run is refused as a whole, with
/// [`StoreError::ReservedColumn`].
pub proof fn law_persist_accepts_unless_reserved(
    store: Seq<TableView>,
    groups: Seq<GroupView>,
    timestamp: Seq<char>,
)
    requires
        store_wf(store),
        groups_wf(groups),
    ensures
        recordable(groups) ==> persisted(store, groups, timestamp) == Ok::<
            Seq<TableView>,
            StoreError,
        >(recorded_all(store, groups, timestamp)),
        !recordable(groups) ==> persisted(store, groups, timestamp) == Err::<
            Seq<TableView>,
            StoreError,
        >(StoreError::ReservedColumn),
    decreases groups.len(),
{
    if recordable(groups) {
        lemma_persisted(store, groups, timestamp);
    } else {
        let front = groups.drop_last();
        let group = groups.last();
        lemma_front_wf(groups);
        law_persist_accepts_unless_reserved(store, front, timestamp);
        if recordable(front) {
            lemma_persisted(store, front, timestamp);
            assert(!no_reserved_id(group.members)) by {
                if no_reserved_id(group.members) {
                    assert forall|g: int| 0 <= g < groups.len() implies no_reserved_id(
                        #[trigger] groups[g].members,
                    ) by {
                        if g < front.len() {
                            assert(no_reserved_id(front[g].members));
                        }
                    }
                }
            }
            lemma_reserved_group_refused(recorded_all(store, front, timestamp), group, timestamp);
        }
    }
}

/// Every group of `again` is a group of `groups`, with members that are
/// among that group's members and carry the same payload.
pub open spec fn repeats(again: Seq<GroupView>, groups: Seq<GroupView>) -> bool {
    forall|g: int|
        0 <= g < again.len() ==> exists|h: int|
            0 <= h < groups.len() && groups[h].name == (#[trigger] again[g]).name
                && brings_nothing_new(again[g].members, groups[h].members)
}

/// A run that brings nothing new changes nothing. After an accepted run, a
/// run at the same timestamp with the same groups, the same members or fewer
/// in any order, and the same payloads is accepted and leaves the store
/// exactly as the first run left it: no table, row or column is added, and
/// every cell keeps its value.
pub proof fn law_rerun_changes_nothing(
    store: Seq<TableView>,
    groups: Seq<GroupView>,
    again: Seq<GroupView>,
    timestamp: Seq<char>,
)
    requires
        store_wf(store),
        groups_wf(groups),
        groups_wf(again),
        repeats(again, groups),
    ensures
        persisted(store, groups, timestamp) matches Ok(after) ==> persisted(
            after,
            again,
            timestamp,
        ) == Ok::<Seq<TableView>, StoreError>(after),
{
    law_persist_accepts_unless_reserved(store, groups, timestamp);
    if recordable(groups) {
        let after = recorded_all(store, groups, timestamp);
        lemma_persisted(store, groups, timestamp);
        assert forall|g: int| 0 <= g < again.len() implies has_table(
            after,
            (#[trigger] again[g]).name,
        ) && recorded(table_named(after, again[g].name), again[g].members, timestamp)
            == table_named(after, again[g].name) && no_reserved_id(again[g].members) by {
            let h = choose|h: int|
                0 <= h < groups.len() && groups[h].name == again[g].name && brings_nothing_new(
                    again[g].members,
                    groups[h].members,
                );
            let base = group_table(store, groups[h].name);
            assert(table_wf(base)) by {
                if has_table(store, groups[h].name) {
                    let t = choose|t: int| 0 <= t < store.len() && store[t].name == groups[h].name;
                    assert(table_wf(store[t]));
                }
            }
            assert(distinct_ids(groups[h].members));
            assert(no_reserved_id(groups[h].members));
            assert(distinct_ids(again[g].members));
            lemma_recorded_again(base, groups[h].members, again[g].members, timestamp);
            if has_member(again[g].members, key_column()) {
                let k = choose|k: int|
                    0 <= k < again[g].members.len() && again[g].members[k].id == key_column();
                assert(groups[h].members.contains(again[g].members[k]));
                let j = choose|j: int|
                    0 <= j < groups[h].members.len() && groups[h].members[j]
                        == again[g].members[k];
                assert(groups[h].members[j].id == key_column());
            }
        }
        lemma_settled(after, again, timestamp);
        lemma_persisted(after, again, timestamp);
    }
}

/// Running the same ingest twice leaves the store as the first run left it:
/// no row, column or table is added by the second run, and every cell keeps
/// its value.
pub proof fn law_persist_is_idempotent(
    store: Seq<TableView>,
    groups: Seq<GroupView>,
    timestamp: Seq<char>,
)
    requires
        store_wf(store),
        groups_wf(groups),
    ensures
        persisted(store, groups, timestamp) matches Ok(after) ==> persisted(
            after,
            groups,
            timestamp,
        ) == Ok::<Seq<TableView>, StoreError>(after),
{
    assert forall|g: int| 0 <= g < groups.len() implies exists|h: int|
        0 <= h < groups.len() && groups[h].name == (#[trigger] groups[g]).name
            && brings_nothing_new(groups[g].members, groups[h].members) by {
        assert forall|k: int| 0 <= k < groups[g].members.len() implies groups[g].members.contains(
            #[trigger] groups[g].members[k],
        ) by {}
        assert(brings_nothing_new(groups[g].members, groups[g].members));
    }
    law_rerun_changes_nothing(store, groups, groups, timestamp);
}

/// Recording groups whose tables already hold what the run would make of
/// them leaves the store as it is.
proof fn lemma_settled(store: Seq<TableView>, groups: Seq<GroupView>, timestamp: Seq<char>)
    requires
        store_wf(store),
        groups_wf(groups),
        recordable(groups),
        forall|g: int|
            0 <= g < groups.len() ==> has_table(store, (#[trigger] groups[g]).name) && recorded(
                table_named(store, groups[g].name),
                groups[g].members,
                timestamp,
            ) == table_named(store, groups[g].name),
    ensures
        recorded_all(store, groups, timestamp) == store,
    decreases groups.len(),
{
    if groups.len() > 0 {
        let front = groups.drop_last();
        let group = groups.last();
        lemma_front_wf(groups);
        assert forall|g: int| 0 <= g < front.len() implies has_table(
            store,
            (#[trigger] front[g]).name,
        ) && recorded(table_named(store, front[g].name), front[g].members, timestamp)
            == table_named(store, front[g].name) by {
            assert(front[g] == groups[g]);
        }
        lemma_settled(store, front, timestamp);
        assert(groups[groups.len() - 1] == group);
        lemma_with_table(store, table_named(store, group.name));
    }
}

/// Tables only grow. After a run every table that the store had stands
/// where it stood, under its name, with every column and every row it had;
/// columns and rows that the run adds come behind them.
pub proof fn law_persist_only_extends(
    store: Seq<TableView>,
    groups: Seq<GroupView>,
    timestamp: Seq<char>,
)
    requires
        store_wf(store),
        groups_wf(groups),
    ensures
        persisted(store, groups, timestamp) matches Ok(after) ==> store_extends(store, after)
            && forall|name: Seq<char>, column: Seq<char>|
            has_table(store, name) && #[trigger] table_named(store, name).columns.contains(column)
                ==> has_table(after, name) && table_named(after, name).columns.contains(column),
{
    law_persist_accepts_unless_reserved(store, groups, timestamp);
    if recordable(groups) {
        let after = recorded_all(store, groups, timestamp);
        lemma_persisted(store, groups, timestamp);
        assert forall|name: Seq<char>, column: Seq<char>|
            has_table(store, name) && #[trigger] table_named(store, name).columns.contains(
                column,
            ) implies has_table(after, name) && table_named(after, name).columns.contains(
            column,
        ) by {
            let t = choose|t: int| 0 <= t < store.len() && store[t].name == name;
            lemma_table_named(store, t);
            assert(extends(store[t], after[t]));
            lemma_table_named(after, t);
            let k = choose|k: int| 0 <= k < store[t].columns.len() && store[t].columns[k] == column;
            assert(after[t].columns[k] == column);
        }
    }
}

/// What each cell of a group's table holds after an accepted run. In the row
/// of the run's timestamp, the cell of every member that has a metric holds
/// that metric, and the cell of a member without one, an entity whose fetch
/// failed, holds what it held before the run. So does every cell of every
/// other row and of every column that belongs to no member.
pub proof fn law_persist_writes_present_metrics(
    store: Seq<TableView>,
    groups: Seq<GroupView>,
    timestamp: Seq<char>,
    g: int,
)
    requires
        store_wf(store),
        groups_wf(groups),
        0 <= g < groups.len(),
    ensures
        persisted(store, groups, timestamp) matches Ok(after) ==> {
            let table = table_named(after, groups[g].name);
            let prior = group_table(store, groups[g].name);
            &&& has_table(after, groups[g].name)
            &&& table == recorded(prior, groups[g].members, timestamp)
            &&& forall|row: Seq<char>, column: Seq<char>| #[trigger]
                cell_of(table, row, column) == cell_after(
                    cell_of(prior, row, column),
                    row == timestamp,
                    metric_for(groups[g].members, column),
                )
            &&& forall|k: int|
                0 <= k < groups[g].members.len() ==> cell_of(
                    table,
                    timestamp,
                    (#[trigger] groups[g].members[k]).id,
                ) == match groups[g].members[k].metric {
                    Some(value) => Some(value),
                    None => cell_of(prior, timestamp, groups[g].members[k].id),
                }
        },
{
    law_persist_accepts_unless_reserved(store, groups, timestamp);
    if recordable(groups) {
        let after = recorded_all(store, groups, timestamp);
        lemma_persisted(store, groups, timestamp);
        let table = table_named(after, groups[g].name);
        let prior = group_table(store, groups[g].name);
        let members = groups[g].members;
        assert(table_wf(prior)) by {
            if has_table(store, groups[g].name) {
                let t = choose|t: int| 0 <= t < store.len() && store[t].name == groups[g].name;
                assert(table_wf(store[t]));
            }
        }
        assert(distinct_ids(members));
        assert(no_reserved_id(members));
        assert forall|row: Seq<char>, column: Seq<char>| #[trigger]
            cell_of(table, row, column) == cell_after(
                cell_of(prior, row, column),
                row == timestamp,
                metric_for(members, column),
            ) by {
            lemma_recorded_cell(prior, members, timestamp, row, column);
        }
        assert forall|k: int| 0 <= k < members.len() implies cell_of(
            table,
            timestamp,
            (#[trigger] members[k]).id,
        ) == match members[k].metric {
            Some(value) => Some(value),
            None => cell_of(prior, timestamp, members[k].id),
        } by {
            lemma_metric_for(members, members[k].id);
            lemma_recorded_cell(prior, members, timestamp, timestamp, members[k].id);
        }
    }
}

/// The order in which a group holds its members does not matter to what a
/// run records. Two lists of the same members give tables with the same
/// rows, the same columns up to their order, and the same value in every cell
/// of a row and a column given by name.
pub proof fn law_member_order_is_irrelevant(
    table: TableView,
    members: Seq<EntityView>,
    reordered: Seq<EntityView>,
    timestamp: Seq<char>,
)
    requires
        table_wf(table),
        distinct_ids(members),
        distinct_ids(reordered),
        no_reserved_id(members),
        brings_nothing_new(members, reordered),
        brings_nothing_new(reordered, members),
    ensures
        ({
            let one = recorded(table, members, timestamp);
            let other = recorded(table, reordered, timestamp);
            &&& one.rows.len() == other.rows.len()
            &&& forall|r: int|
                0 <= r < one.rows.len() ==> (#[trigger] one.rows[r]).timestamp
                    == other.rows[r].timestamp
            &&& forall|column: Seq<char>| #[trigger]
                one.columns.contains(column) <==> other.columns.contains(column)
            &&& forall|row: Seq<char>, column: Seq<char>| #[trigger]
                cell_of(one, row, column) == cell_of(other, row, column)
        }),
{
    let one = recorded(table, members, timestamp);
    let other = recorded(table, reordered, timestamp);
    assert forall|id: Seq<char>| has_member(members, id) == has_member(reordered, id)
        && metric_for(members, id) == metric_for(reordered, id) by {
        lemma_metric_for(members, id);
        lemma_metric_for(reordered, id);
        if has_member(members, id) {
            let k = choose|k: int| 0 <= k < members.len() && members[k].id == id;
            assert(reordered.contains(members[k]));
            let j = choose|j: int| 0 <= j < reordered.len() && reordered[j] == members[k];
            assert(reordered[j].id == id);
        }
        if has_member(reordered, id) {
            let k = choose|k: int| 0 <= k < reordered.len() && reordered[k].id == id;
            assert(members.contains(reordered[k]));
            let j = choose|j: int| 0 <= j < members.len() && members[j] == reordered[k];
            assert(members[j].id == id);
        }
    }
    assert(no_reserved_id(reordered));
    lemma_recorded_wf(table, members, timestamp);
    lemma_recorded_wf(table, reordered, timestamp);
    assert forall|row: Seq<char>, column: Seq<char>| #[trigger]
        cell_of(one, row, column) == cell_of(other, row, column) by {
        lemma_recorded_cell(table, members, timestamp, row, column);
        lemma_recorded_cell(table, reordered, timestamp, row, column);
    }
}

/// A run end to end, for one member of one group. The payloads of earlier
/// runs are forgotten, the outcomes of the fetches are merged into the groups,
/// and the groups are recorded. The member's cell in the run's row then holds
/// the metric of its last fetch in this run. If its fetch failed, or brought
/// no metric, the cell holds what it held before the run: nothing, if the row
/// or the column is new. A metric that the member carried into the run is not
/// written, and a failed fetch takes nothing away from the other entities.
pub proof fn law_run_records_what_was_fetched(
    store: Seq<TableView>,
    groups: Seq<GroupView>,
    outcomes: Seq<OutcomeView>,
    timestamp: Seq<char>,
    g: int,
    k: int,
)
    requires
        store_wf(store),
        groups_wf(groups),
        0 <= g < groups.len(),
        0 <= k < groups[g].members.len(),
    ensures
        ({
            let fetched = fetched_of(outcomes);
            let run = merged_all(forgotten(groups), fetched);
            let id = groups[g].members[k].id;
            let prior = cell_of(group_table(store, groups[g].name), timestamp, id);
            persisted(store, run, timestamp) matches Ok(after) ==> cell_of(
                table_named(after, groups[g].name),
                timestamp,
                id,
            ) == match last_with_id(fetched, id) {
                Some(entity) => cell_after(prior, true, entity.metric),
                None => prior,
            }
        }),
{
    let fetched = fetched_of(outcomes);
    let start = forgotten(groups);
    let run = merged_all(start, fetched);
    assert(groups_wf(start)) by {
        assert forall|h: int| 0 <= h < start.len() implies distinct_ids(
            #[trigger] start[h].members,
        ) by {
            assert(distinct_ids(groups[h].members));
        }
    }
    law_merged_all_pointwise(start, fetched);
    lemma_merged_all_wf(start, fetched);
    law_persist_writes_present_metrics(store, run, timestamp, g);
    assert(run[g].name == groups[g].name);
    assert(start[g].members[k] == crate::entity::unobserved(groups[g].members[k].id));
    assert(run[g].members[k].id == groups[g].members[k].id);
}

} // verus!
