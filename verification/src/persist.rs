//! Recording a run: every group's observations written to the store in one
//! pass that takes effect as a whole or not at all.

use vstd::prelude::*;
use crate::entity::EntityView;
use crate::fetch::{
    FetchFailure, FetchOutcome, failed_of, failure_views, fetched_of, merged_all, outcome_views,
    sort_outcomes,
};
use crate::group::{GroupView, distinct_ids, has_member};
use crate::plan::{member_plan, members_plan, opening_plan, plan_group, planned};
use crate::record::{absorbed, lemma_recorded_step, lemma_recorded_wf, no_reserved_id, recorded};
use crate::registry::{Groups, forgotten};
use crate::store::{
    MetricStore, StatementView, StoreError, applied_all, has_table, lemma_table_named, store_wf,
    table_named, with_table,
};
use crate::table::{TableView, empty_table, has_row, key_column, table_wf, with_column, with_row};

verus! {

/// The entity columns that the store has for a group: those of the table of
/// its name, none when there is no such table.
pub open spec fn observed_columns(store: Seq<TableView>, name: Seq<char>) -> Seq<Seq<char>> {
    if has_table(store, name) {
        table_named(store, name).columns
    } else {
        Seq::empty()
    }
}

/// The store after one group was recorded at `timestamp`: what the
/// statements planned for the group, against the store as it stands, make of
/// it.
pub open spec fn group_persisted(
    store: Seq<TableView>,
    group: GroupView,
    timestamp: Seq<char>,
) -> Result<Seq<TableView>, StoreError> {
    applied_all(
        store,
        planned(
            group,
            has_table(store, group.name),
            observed_columns(store, group.name),
            timestamp,
        ),
    )
}

/// The store after every group was recorded at `timestamp`, first to last;
/// the error of the first statement that is refused, if one is.
pub open spec fn persisted(
    store: Seq<TableView>,
    groups: Seq<GroupView>,
    timestamp: Seq<char>,
) -> Result<Seq<TableView>, StoreError>
    decreases groups.len(),
{
    if groups.len() == 0 {
        Ok(store)
    } else {
        match persisted(store, groups.drop_last(), timestamp) {
            Ok(so_far) => group_persisted(so_far, groups.last(), timestamp),
            Err(error) => Err(error),
        }
    }
}

/// Once recording a group fails, recording the whole list fails for the same
/// reason.
pub proof fn lemma_persisted_stays_refused(
    store: Seq<TableView>,
    groups: Seq<GroupView>,
    timestamp: Seq<char>,
    n: int,
)
    requires
        0 <= n <= groups.len(),
        persisted(store, groups.take(n), timestamp) is Err,
    ensures
        persisted(store, groups, timestamp) == persisted(store, groups.take(n), timestamp),
    decreases groups.len() - n,
{
    if n == groups.len() {
        assert(groups.take(n) =~= groups);
    } else {
        assert(groups.take(n + 1).drop_last() =~= groups.take(n));
        lemma_persisted_stays_refused(store, groups, timestamp, n + 1);
    }
}

/// The table that a group's statements work on: the table of its name, or an
/// empty table of that name when the store has none.
pub open spec fn group_table(store: Seq<TableView>, name: Seq<char>) -> TableView {
    if has_table(store, name) {
        table_named(store, name)
    } else {
        empty_table(name)
    }
}

/// The store after one group was recorded, stated directly: the group's
/// table, created if it was missing, holds what [`recorded`] says, and every
/// other table is as it was.
pub open spec fn recorded_store(
    store: Seq<TableView>,
    group: GroupView,
    timestamp: Seq<char>,
) -> Seq<TableView> {
    let table = recorded(group_table(store, group.name), group.members, timestamp);
    if has_table(store, group.name) {
        with_table(store, table)
    } else {
        store.push(table)
    }
}

/// No member of any group carries the key column's name as its id.
pub open spec fn recordable(groups: Seq<GroupView>) -> bool {
    forall|g: int| 0 <= g < groups.len() ==> no_reserved_id(#[trigger] groups[g].members)
}

/// The store after every group was recorded, first to last, stated by
/// [`recorded_store`].
pub open spec fn recorded_all(
    store: Seq<TableView>,
    groups: Seq<GroupView>,
    timestamp: Seq<char>,
) -> Seq<TableView>
    decreases groups.len(),
{
    if groups.len() == 0 {
        store
    } else {
        recorded_store(recorded_all(store, groups.drop_last(), timestamp), groups.last(), timestamp)
    }
}

/// Replacing a table of a well-formed store by one of the same name.
pub proof fn lemma_with_table(store: Seq<TableView>, table: TableView)
    requires
        store_wf(store),
        has_table(store, table.name),
    ensures
        has_table(with_table(store, table), table.name),
        table_named(with_table(store, table), table.name) == table,
        with_table(store, table_named(store, table.name)) == store,
        table_wf(table) ==> store_wf(with_table(store, table)),
        forall|other: TableView|
            other.name == table.name ==> #[trigger] with_table(with_table(store, table), other)
                == with_table(store, other),
        forall|name: Seq<char>|
            name != table.name ==> (#[trigger] group_table(with_table(store, table), name))
                == group_table(store, name),
        forall|name: Seq<char>|
            name != table.name ==> (#[trigger] has_table(with_table(store, table), name))
                == has_table(store, name),
{
    let after = with_table(store, table);
    let t = choose|t: int| 0 <= t < store.len() && store[t].name == table.name;
    assert(after[t].name == table.name);
    lemma_table_named(store, t);
    assert(with_table(store, store[t]) =~= store) by {
        assert forall|u: int| 0 <= u < store.len() implies with_table(store, store[t])[u]
            == store[u] by {
            if store[u].name == store[t].name && u != t {
                if u < t {
                    assert(store[u].name != store[t].name);
                } else {
                    assert(store[t].name != store[u].name);
                }
            }
        }
    }
    if table_wf(table) {
        assert forall|a: int, b: int| 0 <= a < b < after.len() implies after[a].name
            != after[b].name by {
            assert(store[a].name != store[b].name);
        }
        assert forall|a: int| 0 <= a < after.len() implies table_wf(#[trigger] after[a]) by {
            assert(table_wf(store[a]));
        }
    }
    assert forall|other: TableView| other.name == table.name implies #[trigger] with_table(
        after,
        other,
    ) == with_table(store, other) by {
        assert(with_table(after, other) =~= with_table(store, other));
    }
    assert forall|name: Seq<char>| name != table.name implies group_table(after, name)
        == group_table(store, name) && has_table(after, name) == has_table(store, name) by {
        if has_table(store, name) {
            let u = choose|u: int| 0 <= u < store.len() && store[u].name == name;
            assert(after[u].name == name);
        }
        if has_table(after, name) {
            let u = choose|u: int| 0 <= u < after.len() && after[u].name == name;
            assert(store[u].name == name);
            lemma_table_named(store, u);
            assert(after[u] == store[u]);
        }
    }
}

/// Applying two lists of statements one after the other is applying the
/// first and then, if it was accepted, the second.
pub proof fn lemma_applied_all_concat(
    store: Seq<TableView>,
    first: Seq<StatementView>,
    second: Seq<StatementView>,
)
    ensures
        applied_all(store, first + second) == match applied_all(store, first) {
            Ok(between) => applied_all(between, second),
            Err(error) => Err(error),
        },
    decreases second.len(),
{
    if second.len() == 0 {
        assert(first + second =~= first);
    } else {
        assert((first + second).drop_last() =~= first + second.drop_last());
        lemma_applied_all_concat(store, first, second.drop_last());
    }
}

/// The statements planned for one member make of the store what absorbing
/// the member makes of the group's table.
proof fn lemma_member_applied(
    store: Seq<TableView>,
    name: Seq<char>,
    member: EntityView,
    columns: Seq<Seq<char>>,
    timestamp: Seq<char>,
)
    requires
        store_wf(store),
        has_table(store, name),
        member.id != key_column(),
        columns.contains(member.id) <==> table_named(store, name).columns.contains(member.id),
    ensures
        applied_all(store, member_plan(name, member, columns, timestamp)) == Ok::<
            Seq<TableView>,
            StoreError,
        >(with_table(store, absorbed(table_named(store, name), member, timestamp))),
{
    let table = table_named(store, name);
    let plan = member_plan(name, member, columns, timestamp);
    let add = StatementView::AddColumn { table: name, column: member.id };
    assert(table.name == name);
    lemma_with_table(store, table);
    reveal_with_fuel(applied_all, 3);
    if columns.contains(member.id) {
        match member.metric {
            Some(value) => {
                assert(plan =~= seq![
                    StatementView::SetCell { table: name, column: member.id, timestamp, value },
                ]);
                assert(plan.drop_last() =~= Seq::<StatementView>::empty());
            },
            None => {
                assert(plan =~= Seq::<StatementView>::empty());
            },
        }
    } else {
        let wide = with_column(table, member.id);
        lemma_with_table(store, wide);
        assert(wide.columns[wide.columns.len() - 1] == member.id);
        match member.metric {
            Some(value) => {
                assert(plan.drop_last() =~= seq![add]);
                assert(plan.drop_last().drop_last() =~= Seq::<StatementView>::empty());
                assert(plan.last() == StatementView::SetCell {
                    table: name,
                    column: member.id,
                    timestamp,
                    value,
                });
                assert(plan.drop_last().last() == add);
            },
            None => {
                assert(plan =~= seq![add]);
                assert(plan.drop_last() =~= Seq::<StatementView>::empty());
            },
        }
    }
}

/// The statements planned for the members of a group make of the store what
/// recording them makes of the group's table, provided the table has the
/// run's row and `columns` are its columns.
pub proof fn lemma_members_recorded(
    store: Seq<TableView>,
    name: Seq<char>,
    members: Seq<EntityView>,
    timestamp: Seq<char>,
)
    requires
        store_wf(store),
        has_table(store, name),
        has_row(table_named(store, name), timestamp),
        distinct_ids(members),
        no_reserved_id(members),
    ensures
        applied_all(
            store,
            members_plan(name, members, table_named(store, name).columns, timestamp),
        ) == Ok::<Seq<TableView>, StoreError>(
            with_table(store, recorded(table_named(store, name), members, timestamp)),
        ),
    decreases members.len(),
{
    let table = table_named(store, name);
    let t = choose|t: int| 0 <= t < store.len() && store[t].name == name;
    assert(table_wf(store[t]));
    assert(table.name == name);
    lemma_with_table(store, table);
    if members.len() == 0 {
        assert(recorded(table, members, timestamp).columns =~= table.columns);
        assert forall|r: int| 0 <= r < table.rows.len() implies recorded(
            table,
            members,
            timestamp,
        ).rows[r] == table.rows[r] by {
            assert(recorded(table, members, timestamp).rows[r].cells =~= table.rows[r].cells);
        }
        assert(recorded(table, members, timestamp).rows =~= table.rows);
    } else {
        let front = members.drop_last();
        let member = members.last();
        assert(distinct_ids(front) && no_reserved_id(front)) by {
            assert forall|i: int, j: int| 0 <= i < j < front.len() implies front[i].id
                != front[j].id by {
                assert(members[i].id != members[j].id);
            }
            if has_member(front, key_column()) {
                let k = choose|k: int| 0 <= k < front.len() && front[k].id == key_column();
                assert(members[k].id == key_column());
            }
        }
        assert(member.id != key_column()) by {
            assert(members[members.len() - 1].id == member.id);
        }
        lemma_members_recorded(store, name, front, timestamp);
        let before = recorded(table, front, timestamp);
        let between = with_table(store, before);
        lemma_recorded_wf(table, front, timestamp);
        lemma_with_table(store, before);
        lemma_recorded_step(table, members, timestamp);
        lemma_member_applied(between, name, member, table.columns, timestamp);
        lemma_applied_all_concat(
            store,
            members_plan(name, front, table.columns, timestamp),
            member_plan(name, member, table.columns, timestamp),
        );
    }
}

/// Recording a group whose members have unique ids, none of them the key
/// column's name, is accepted and gives the store that [`recorded_store`]
/// describes.
pub proof fn lemma_group_persisted(
    store: Seq<TableView>,
    group: GroupView,
    timestamp: Seq<char>,
)
    requires
        store_wf(store),
        distinct_ids(group.members),
        no_reserved_id(group.members),
    ensures
        group_persisted(store, group, timestamp) == Ok::<Seq<TableView>, StoreError>(
            recorded_store(store, group, timestamp),
        ),
        store_wf(recorded_store(store, group, timestamp)),
        has_table(recorded_store(store, group, timestamp), group.name),
        table_named(recorded_store(store, group, timestamp), group.name) == recorded(
            group_table(store, group.name),
            group.members,
            timestamp,
        ),
{
    let name = group.name;
    let exists = has_table(store, name);
    let opening = opening_plan(name, exists, timestamp);
    let create = StatementView::CreateTable { table: name };
    let insert = StatementView::InsertRow { table: name, timestamp };
    let start = group_table(store, name);
    let ready = with_row(start, timestamp);
    let opened = if exists {
        with_table(store, ready)
    } else {
        store.push(ready)
    };
    reveal_with_fuel(applied_all, 3);
    assert(table_wf(start) && start.name == name) by {
        if exists {
            let t = choose|t: int| 0 <= t < store.len() && store[t].name == name;
            assert(table_wf(store[t]));
        }
    }
    crate::table::lemma_table_changes_wf(start, timestamp, Seq::empty(), 0);
    assert(has_row(ready, timestamp)) by {
        if has_row(start, timestamp) {
        } else {
            assert(ready.rows[ready.rows.len() - 1].timestamp == timestamp);
        }
    }
    // The opening statements leave the group's table with the run's row.
    assert(applied_all(store, opening) == Ok::<Seq<TableView>, StoreError>(opened)
        && store_wf(opened) && has_table(opened, name) && table_named(opened, name) == ready) by {
        if exists {
            assert(opening =~= seq![insert]);
            assert(opening.drop_last() =~= Seq::<StatementView>::empty());
            lemma_with_table(store, ready);
        } else {
            assert(opening.drop_last() =~= seq![create]);
            assert(opening.drop_last().drop_last() =~= Seq::<StatementView>::empty());
            assert(opening.last() == insert);
            assert(opening.drop_last().last() == create);
            let made = store.push(empty_table(name));
            assert(made[store.len() as int].name == name);
            assert(store_wf(made)) by {
                assert forall|a: int, b: int| 0 <= a < b < made.len() implies made[a].name
                    != made[b].name by {
                    if b == store.len() {
                        assert(store[a].name != name);
                    }
                }
                assert forall|a: int| 0 <= a < made.len() implies table_wf(
                    #[trigger] made[a],
                ) by {
                    if a < store.len() {
                        assert(table_wf(store[a]));
                    }
                }
            }
            lemma_table_named(made, store.len() as int);
            lemma_with_table(made, ready);
            assert(with_table(made, ready) =~= store.push(ready)) by {
                assert forall|u: int| 0 <= u < made.len() implies with_table(made, ready)[u]
                    == store.push(ready)[u] by {
                    if u < store.len() {
                        assert(store[u].name != name);
                    }
                }
            }
        }
    }
    lemma_members_recorded(opened, name, group.members, timestamp);
    lemma_applied_all_concat(
        store,
        opening,
        members_plan(name, group.members, ready.columns, timestamp),
    );
    assert(ready.columns == observed_columns(store, name));
    let done = recorded(ready, group.members, timestamp);
    assert(done == recorded(start, group.members, timestamp)) by {
        assert(with_row(ready, timestamp) == ready);
    }
    lemma_recorded_wf(start, group.members, timestamp);
    lemma_with_table(opened, done);
    if exists {
        lemma_with_table(store, ready);
        lemma_with_table(store, done);
    } else {
        assert(with_table(opened, done) =~= store.push(done)) by {
            assert forall|u: int| 0 <= u < opened.len() implies with_table(opened, done)[u]
                == store.push(done)[u] by {
                if u < store.len() {
                    assert(store[u].name != name);
                }
            }
        }
    }
}

impl MetricStore {
    /// Records every group at `timestamp`, in one pass that takes effect as
    /// a whole or not at all.
    ///
    /// For each group the table is created if it is missing, the row for
    /// `timestamp` inserted if absent, a column added for each member that has
    /// none, and each member's metric written into its cell of that row. A
    /// member without a metric leaves its cell as it was.
    ///
    /// The run is accepted unless a member carries the key column's name as
    /// its id. When it is refused, the store is left exactly as it was before
    /// the run, for every group.
    pub fn persist(&mut self, groups: &Groups, timestamp: &str) -> (result: Result<
        (),
        StoreError,
    >)
        requires
            old(self).wf(),
            groups.wf(),
        ensures
            final(self).wf(),
            recordable(groups@) ==> result is Ok && final(self)@ == recorded_all(
                old(self)@,
                groups@,
                timestamp@,
            ),
            !recordable(groups@) ==> result == Err::<(), StoreError>(StoreError::ReservedColumn)
                && final(self)@ == old(self)@,
            match persisted(old(self)@, groups@, timestamp@) {
                Ok(after) => result is Ok && final(self)@ == after,
                Err(error) => result == Err::<(), StoreError>(error) && final(self)@ == old(self)@,
            },
    {
        proof {
            crate::guarantees::law_persist_accepts_unless_reserved(
                old(self)@,
                groups@,
                timestamp@,
            );
        }
        let mut work = self.duplicate();
        let list = groups.groups();
        let mut g: usize = 0;
        while g < list.len()
            invariant
                g <= list.len(),
                crate::registry::group_views(list@) == groups@,
                work.wf(),
                persisted(old(self)@, groups@.take(g as int), timestamp@) == Ok::<
                    Seq<TableView>,
                    StoreError,
                >(work@),
                self@ == old(self)@,
                self.wf(),
                recordable(groups@) ==> persisted(old(self)@, groups@, timestamp@) == Ok::<
                    Seq<TableView>,
                    StoreError,
                >(recorded_all(old(self)@, groups@, timestamp@)),
                !recordable(groups@) ==> persisted(old(self)@, groups@, timestamp@) == Err::<
                    Seq<TableView>,
                    StoreError,
                >(StoreError::ReservedColumn),
            decreases list.len() - g,
        {
            let ghost done = groups@.take(g as int);
            let ghost next = groups@.take(g + 1);
            assert(next.drop_last() =~= done);
            assert(next.last() == list[g as int]@);
            let group = &list[g];
            let exists = work.has_table(group.name().as_str());
            let columns = work.columns_of(group.name().as_str());
            let plan = plan_group(group, exists, &columns, timestamp);
            match work.apply_each(&plan) {
                Ok(()) => {},
                Err(error) => {
                    proof {
                        lemma_persisted_stays_refused(old(self)@, groups@, timestamp@, g + 1);
                    }
                    return Err(error);
                },
            }
            g = g + 1;
        }
        assert(groups@.take(list.len() as int) =~= groups@);
        *self = work;
        Ok(())
    }

    /// Records a run from the outcomes of its fetches. Whatever payload the
    /// groups carried is forgotten first; then the entities that were fetched
    /// are merged into the groups, the groups are recorded at `timestamp`, and
    /// the fetches that failed are handed back.
    ///
    /// Only a metric fetched in this run is written. An entity whose fetch
    /// failed keeps its place in its groups, gets its column if it has none,
    /// and leaves its cell as it was.
    pub fn record_run(
        &mut self,
        groups: &mut Groups,
        outcomes: &Vec<FetchOutcome>,
        timestamp: &str,
    ) -> (result: Result<Vec<FetchFailure>, StoreError>)
        requires
            old(self).wf(),
            old(groups).wf(),
        ensures
            final(self).wf(),
            final(groups).wf(),
            final(groups)@ == merged_all(
                forgotten(old(groups)@),
                fetched_of(outcome_views(outcomes@)),
            ),
            recordable(final(groups)@) ==> final(self)@ == recorded_all(
                old(self)@,
                final(groups)@,
                timestamp@,
            ) && (result matches Ok(failed) && failure_views(failed@) == failed_of(
                outcome_views(outcomes@),
            )),
            !recordable(final(groups)@) ==> result == Err::<Vec<FetchFailure>, StoreError>(
                StoreError::ReservedColumn,
            ) && final(self)@ == old(self)@,
    {
        let (fetched, failed) = sort_outcomes(outcomes);
        groups.forget();
        groups.merge_all(&fetched);
        match self.persist(groups, timestamp) {
            Ok(()) => Ok(failed),
            Err(error) => Err(error),
        }
    }
}

} // verus!
