//! What a group's table holds after a run, stated directly, and why the
//! table's changes add up to it.

use vstd::prelude::*;
use crate::entity::EntityView;
use crate::group::{distinct_ids, has_member};
use crate::table::{
    RowView, TableView, cell_at, cell_of, has_row, key_column, lemma_cell_of, table_wf, with_cell,
    with_column, with_row,
};

verus! {

/// No member carries the key column's name as its id.
pub open spec fn no_reserved_id(members: Seq<EntityView>) -> bool {
    !has_member(members, key_column())
}

/// The ids of the members that have no column among `columns`, in the order
/// of the members.
pub open spec fn new_columns(columns: Seq<Seq<char>>, members: Seq<EntityView>) -> Seq<Seq<char>>
    decreases members.len(),
{
    if members.len() == 0 {
        Seq::empty()
    } else if columns.contains(members.last().id) {
        new_columns(columns, members.drop_last())
    } else {
        new_columns(columns, members.drop_last()).push(members.last().id)
    }
}

/// The metric that the members bring for a column: that of the member whose
/// id is the column's name, if it has one.
pub open spec fn metric_for(members: Seq<EntityView>, column: Seq<char>) -> Option<i64>
    decreases members.len(),
{
    if members.len() == 0 {
        None
    } else if members.last().id == column {
        members.last().metric
    } else {
        metric_for(members.drop_last(), column)
    }
}

/// A cell after a run: the metric brought for it, if the row is the run's
/// and a metric was brought; what it held before, otherwise.
pub open spec fn cell_after(prior: Option<i64>, in_run_row: bool, brought: Option<i64>) -> Option<
    i64,
> {
    if in_run_row && brought is Some {
        brought
    } else {
        prior
    }
}

/// What the table holds after `members` were recorded at `timestamp`.
///
/// The table has a row for the timestamp, added unwritten if it was absent,
/// and its columns followed by a column for each member that had none. In the
/// row of the timestamp, the cell of each member with a metric holds that
/// metric. Every other cell holds what it held before, and nothing if it is
/// new.
pub open spec fn recorded(table: TableView, members: Seq<EntityView>, timestamp: Seq<char>) -> TableView {
    let base = with_row(table, timestamp);
    let columns = base.columns + new_columns(base.columns, members);
    TableView {
        name: table.name,
        columns,
        rows: Seq::new(
            base.rows.len(),
            |r: int|
                RowView {
                    timestamp: base.rows[r].timestamp,
                    cells: Seq::new(
                        columns.len(),
                        |k: int|
                            cell_after(
                                if k < base.columns.len() {
                                    base.rows[r].cells[k]
                                } else {
                                    None
                                },
                                base.rows[r].timestamp == timestamp,
                                metric_for(members, columns[k]),
                            ),
                    ),
                },
        ),
    }
}

/// The table after one member was recorded: a column for its id is added if
/// there is none, and its metric, if it has one, is written into the row of
/// the timestamp.
pub open spec fn absorbed(table: TableView, member: EntityView, timestamp: Seq<char>) -> TableView {
    let widened = if table.columns.contains(member.id) {
        table
    } else {
        with_column(table, member.id)
    };
    match member.metric {
        Some(value) => with_cell(widened, timestamp, member.id, value),
        None => widened,
    }
}

/// A new column is the id of a member that had no column, and every such id
/// is a new column.
pub proof fn lemma_new_columns(columns: Seq<Seq<char>>, members: Seq<EntityView>)
    ensures
        forall|x: Seq<char>| #[trigger]
            new_columns(columns, members).contains(x) <==> !columns.contains(x) && has_member(
                members,
                x,
            ),
        distinct_ids(members) ==> new_columns(columns, members).no_duplicates(),
    decreases members.len(),
{
    let all = new_columns(columns, members);
    if members.len() == 0 {
    } else {
        let front = members.drop_last();
        let rest = new_columns(columns, front);
        let id = members.last().id;
        lemma_new_columns(columns, front);
        assert forall|x: Seq<char>| #[trigger]
            all.contains(x) <==> !columns.contains(x) && has_member(members, x) by {
            if all.contains(x) {
                let i = choose|i: int| 0 <= i < all.len() && all[i] == x;
                if i < rest.len() {
                    assert(rest[i] == x);
                    assert(rest.contains(x));
                    let k = choose|k: int| 0 <= k < front.len() && front[k].id == x;
                    assert(members[k].id == x);
                } else {
                    assert(members[members.len() - 1].id == x);
                }
            }
            if !columns.contains(x) && has_member(members, x) {
                let k = choose|k: int| 0 <= k < members.len() && members[k].id == x;
                if k < front.len() {
                    assert(front[k].id == x);
                    assert(has_member(front, x));
                    assert(rest.contains(x));
                    let i = choose|i: int| 0 <= i < rest.len() && rest[i] == x;
                    assert(all[i] == x);
                } else {
                    assert(all[all.len() - 1] == x);
                }
            }
        }
        if distinct_ids(members) {
            assert(distinct_ids(front)) by {
                assert forall|i: int, j: int| 0 <= i < j < front.len() implies front[i].id
                    != front[j].id by {
                    assert(members[i].id != members[j].id);
                }
            }
            if !columns.contains(id) {
                assert(!rest.contains(id)) by {
                    if has_member(front, id) {
                        let k = choose|k: int| 0 <= k < front.len() && front[k].id == id;
                        assert(members[k].id != members[members.len() - 1].id);
                    }
                }
                assert forall|i: int, j: int|
                    0 <= i < all.len() && 0 <= j < all.len() && i != j implies all[i]
                    != all[j] by {
                    if i < rest.len() && j < rest.len() {
                    } else if i < rest.len() {
                        assert(rest.contains(rest[i]));
                    } else {
                        assert(rest.contains(rest[j]));
                    }
                }
            }
        }
    }
}

/// The members bring a metric only for the id of one of them, and for the id
/// of a member, when ids are unique, that member's metric.
pub proof fn lemma_metric_for(members: Seq<EntityView>, column: Seq<char>)
    ensures
        !has_member(members, column) ==> metric_for(members, column) is None,
        distinct_ids(members) ==> forall|k: int|
            0 <= k < members.len() && (#[trigger] members[k]).id == column ==> metric_for(
                members,
                column,
            ) == members[k].metric,
    decreases members.len(),
{
    if members.len() > 0 {
        let front = members.drop_last();
        lemma_metric_for(front, column);
        if !has_member(members, column) {
            assert(members[members.len() - 1].id != column);
            if has_member(front, column) {
                let k = choose|k: int| 0 <= k < front.len() && front[k].id == column;
                assert(members[k].id == column);
            }
        }
        if distinct_ids(members) {
            assert forall|i: int, j: int| 0 <= i < j < front.len() implies front[i].id
                != front[j].id by {
                assert(members[i].id != members[j].id);
            }
            assert forall|k: int|
                0 <= k < members.len() && (#[trigger] members[k]).id == column implies metric_for(
                members,
                column,
            ) == members[k].metric by {
                if k < members.len() - 1 {
                    assert(members[k].id != members[members.len() - 1].id);
                    assert(front[k].id == column);
                }
            }
        }
    }
}

/// Recording members keeps a table well formed, under its name, with a row
/// for the timestamp and a column for every member.
pub proof fn lemma_recorded_wf(table: TableView, members: Seq<EntityView>, timestamp: Seq<char>)
    requires
        table_wf(table),
        distinct_ids(members),
        no_reserved_id(members),
    ensures
        table_wf(recorded(table, members, timestamp)),
        recorded(table, members, timestamp).name == table.name,
        has_row(recorded(table, members, timestamp), timestamp),
        forall|x: Seq<char>| #[trigger]
            recorded(table, members, timestamp).columns.contains(x) <==> table.columns.contains(x)
                || has_member(members, x),
{
    let base = with_row(table, timestamp);
    let fresh = new_columns(base.columns, members);
    let after = recorded(table, members, timestamp);
    crate::table::lemma_table_changes_wf(table, timestamp, Seq::empty(), 0);
    lemma_new_columns(base.columns, members);
    assert forall|x: Seq<char>| #[trigger]
        after.columns.contains(x) <==> table.columns.contains(x) || has_member(members, x) by {
        if after.columns.contains(x) {
            let i = choose|i: int| 0 <= i < after.columns.len() && after.columns[i] == x;
            if i < base.columns.len() {
                assert(base.columns[i] == x);
                assert(table.columns.contains(x));
            } else {
                assert(fresh[i - base.columns.len()] == x);
                assert(fresh.contains(x));
            }
        }
        if table.columns.contains(x) {
            let i = choose|i: int| 0 <= i < table.columns.len() && table.columns[i] == x;
            assert(after.columns[i] == x);
        } else if has_member(members, x) {
            assert(fresh.contains(x));
            let i = choose|i: int| 0 <= i < fresh.len() && fresh[i] == x;
            assert(after.columns[base.columns.len() + i] == x);
        }
    }
    assert forall|i: int, j: int|
        0 <= i < after.columns.len() && 0 <= j < after.columns.len() && i != j implies after.columns[i]
        != after.columns[j] by {
        let n = base.columns.len() as int;
        if i < n && j < n {
        } else if i >= n && j >= n {
            assert(fresh[i - n] != fresh[j - n]);
        } else if i < n {
            assert(fresh.contains(fresh[j - n]));
            assert(base.columns.contains(base.columns[i]));
        } else {
            assert(fresh.contains(fresh[i - n]));
            assert(base.columns.contains(base.columns[j]));
        }
    }
    assert(!after.columns.contains(key_column()));
    if has_row(table, timestamp) {
        let r = choose|r: int| 0 <= r < table.rows.len() && table.rows[r].timestamp == timestamp;
        assert(after.rows[r].timestamp == timestamp);
    } else {
        assert(after.rows[after.rows.len() - 1].timestamp == timestamp);
    }
}

/// Recording one more member is recording the others and then absorbing that
/// member.
pub proof fn lemma_recorded_step(
    table: TableView,
    members: Seq<EntityView>,
    timestamp: Seq<char>,
)
    requires
        table_wf(table),
        distinct_ids(members),
        no_reserved_id(members),
        members.len() > 0,
    ensures
        recorded(table, members.drop_last(), timestamp).columns.contains(members.last().id)
            <==> with_row(table, timestamp).columns.contains(members.last().id),
        recorded(table, members, timestamp) == absorbed(
            recorded(table, members.drop_last(), timestamp),
            members.last(),
            timestamp,
        ),
{
    let front = members.drop_last();
    let member = members.last();
    let base = with_row(table, timestamp);
    let before = recorded(table, front, timestamp);
    let after = recorded(table, members, timestamp);
    let expected = absorbed(before, member, timestamp);
    assert(distinct_ids(front) && no_reserved_id(front)) by {
        assert forall|i: int, j: int| 0 <= i < j < front.len() implies front[i].id
            != front[j].id by {
            assert(members[i].id != members[j].id);
        }
        if has_member(front, key_column()) {
            let k = choose|k: int| 0 <= k < front.len() && front[k].id == key_column();
            assert(members[k].id == key_column());
        }
    }
    assert(!has_member(front, member.id)) by {
        if has_member(front, member.id) {
            let k = choose|k: int| 0 <= k < front.len() && front[k].id == member.id;
            assert(members[k].id != members[members.len() - 1].id);
        }
    }
    lemma_recorded_wf(table, front, timestamp);
    lemma_recorded_wf(table, members, timestamp);
    lemma_metric_for(front, member.id);
    assert(before.columns.contains(member.id) <==> base.columns.contains(member.id));
    let widened = if before.columns.contains(member.id) {
        before
    } else {
        with_column(before, member.id)
    };
    assert(after.columns =~= widened.columns);
    assert(expected.columns == widened.columns);
    assert(after.rows.len() == expected.rows.len());
    assert forall|r: int| 0 <= r < after.rows.len() implies after.rows[r] == expected.rows[r] by {
        assert(after.rows[r].timestamp == expected.rows[r].timestamp);
        assert(after.rows[r].cells.len() == expected.rows[r].cells.len());
        assert forall|k: int| 0 <= k < after.columns.len() implies after.rows[r].cells[k]
            == expected.rows[r].cells[k] by {
            let column = after.columns[k];
            if column != member.id {
                assert(metric_for(members, column) == metric_for(front, column));
                assert(k < before.columns.len()) by {
                    if k >= before.columns.len() {
                        assert(!before.columns.contains(member.id));
                        assert(widened.columns[k] == member.id);
                    }
                }
                assert(before.columns[k] == column);
            } else {
                assert(metric_for(members, column) == member.metric);
                if k < before.columns.len() {
                    assert(before.columns[k] == column);
                    assert(metric_for(front, column) is None);
                } else {
                    assert(k >= base.columns.len());
                }
            }
        }
        assert(after.rows[r].cells =~= expected.rows[r].cells);
    }
    assert(after.rows =~= expected.rows);
}

/// Every entity of `again` is among `members`, with the same payload.
pub open spec fn brings_nothing_new(again: Seq<EntityView>, members: Seq<EntityView>) -> bool {
    forall|k: int| 0 <= k < again.len() ==> members.contains(#[trigger] again[k])
}

/// Recording, at the same timestamp, members that were recorded before with
/// the same payload changes nothing.
pub proof fn lemma_recorded_again(
    table: TableView,
    members: Seq<EntityView>,
    again: Seq<EntityView>,
    timestamp: Seq<char>,
)
    requires
        table_wf(table),
        distinct_ids(members),
        no_reserved_id(members),
        distinct_ids(again),
        brings_nothing_new(again, members),
    ensures
        recorded(recorded(table, members, timestamp), again, timestamp) == recorded(
            table,
            members,
            timestamp,
        ),
{
    let once = recorded(table, members, timestamp);
    let twice = recorded(once, again, timestamp);
    lemma_recorded_wf(table, members, timestamp);
    assert(with_row(once, timestamp) == once);
    lemma_new_columns(once.columns, again);
    let fresh = new_columns(once.columns, again);
    assert(fresh.len() == 0) by {
        if fresh.len() > 0 {
            let x = fresh[0];
            assert(fresh.contains(x));
            let k = choose|k: int| 0 <= k < again.len() && again[k].id == x;
            assert(members.contains(again[k]));
            let j = choose|j: int| 0 <= j < members.len() && members[j] == again[k];
            assert(members[j].id == x);
            assert(has_member(members, x));
        }
    }
    assert(twice.columns =~= once.columns);
    assert forall|r: int| 0 <= r < once.rows.len() implies twice.rows[r] == once.rows[r] by {
        assert forall|c: int| 0 <= c < once.columns.len() implies twice.rows[r].cells[c]
            == once.rows[r].cells[c] by {
            let column = once.columns[c];
            lemma_metric_for(again, column);
            if once.rows[r].timestamp == timestamp && metric_for(again, column) is Some {
                let k = choose|k: int| 0 <= k < again.len() && again[k].id == column;
                assert(members.contains(again[k]));
                let j = choose|j: int| 0 <= j < members.len() && members[j] == again[k];
                lemma_metric_for(members, column);
                assert(members[j].id == column);
                assert(metric_for(members, column) == metric_for(again, column));
            }
        }
        assert(twice.rows[r].cells =~= once.rows[r].cells);
    }
    assert(twice.rows =~= once.rows);
}

/// A table after a run extends the table before it: the same name, the same
/// columns with new ones behind them, the same rows with at most one behind
/// them.
pub open spec fn extends(before: TableView, after: TableView) -> bool {
    &&& after.name == before.name
    &&& before.columns.is_prefix_of(after.columns)
    &&& before.rows.len() <= after.rows.len()
    &&& forall|r: int|
        0 <= r < before.rows.len() ==> (#[trigger] after.rows[r]).timestamp
            == before.rows[r].timestamp
}

/// Recording never takes a column or a row away.
pub proof fn lemma_recorded_extends(
    table: TableView,
    members: Seq<EntityView>,
    timestamp: Seq<char>,
)
    ensures
        extends(table, recorded(table, members, timestamp)),
{
    let after = recorded(table, members, timestamp);
    assert(table.columns =~= after.columns.subrange(0, table.columns.len() as int));
}

/// What a cell holds after a run, by the names of its row and column: in the
/// row of the run, the metric that the members bring for the column, if they
/// bring one; what the cell held before the run in every other case.
pub proof fn lemma_recorded_cell(
    table: TableView,
    members: Seq<EntityView>,
    timestamp: Seq<char>,
    row: Seq<char>,
    column: Seq<char>,
)
    requires
        table_wf(table),
        distinct_ids(members),
        no_reserved_id(members),
    ensures
        cell_of(recorded(table, members, timestamp), row, column) == cell_after(
            cell_of(table, row, column),
            row == timestamp,
            metric_for(members, column),
        ),
{
    let base = with_row(table, timestamp);
    let after = recorded(table, members, timestamp);
    lemma_recorded_wf(table, members, timestamp);
    lemma_metric_for(members, column);
    let found_after = exists|r: int, k: int| cell_at(after, row, column, r, k);
    let found_before = exists|r: int, k: int| cell_at(table, row, column, r, k);
    if found_after {
        let (r, k) = choose|r: int, k: int| cell_at(after, row, column, r, k);
        lemma_cell_of(after, r, k);
        if r < table.rows.len() && k < table.columns.len() {
            assert(cell_at(table, row, column, r, k));
            lemma_cell_of(table, r, k);
        } else {
            assert(!found_before) by {
                if found_before {
                    let (r0, k0) = choose|r: int, k: int| cell_at(table, row, column, r, k);
                    assert(cell_at(after, row, column, r0, k0));
                    if r0 < r {
                        assert(after.rows[r0].timestamp != after.rows[r].timestamp);
                    } else if r < r0 {
                        assert(after.rows[r].timestamp != after.rows[r0].timestamp);
                    }
                    assert(k0 == k);
                }
            }
        }
    } else {
        assert(!found_before) by {
            if found_before {
                let (r0, k0) = choose|r: int, k: int| cell_at(table, row, column, r, k);
                assert(cell_at(after, row, column, r0, k0));
            }
        }
        if row == timestamp && metric_for(members, column) is Some {
            assert(has_member(members, column));
            assert(after.columns.contains(column));
            let k = choose|k: int| 0 <= k < after.columns.len() && after.columns[k] == column;
            let r = choose|r: int| 0 <= r < after.rows.len() && after.rows[r].timestamp == timestamp;
            assert(cell_at(after, row, column, r, k));
        }
    }
}

} // verus!
