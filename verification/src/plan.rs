//! Planning the statements that record one group's observations.

use vstd::prelude::*;
use crate::entity::EntityView;
use crate::group::{Group, GroupView, entity_views};
use crate::registry::holds_text;
use crate::store::{Statement, StatementView, statement_views};
use crate::text::texts;

verus! {

/// The statements for one member: a column for its id unless `columns` has
/// one, then its metric into the cell of the run's row, if it has a metric.
pub open spec fn member_plan(
    table: Seq<char>,
    member: EntityView,
    columns: Seq<Seq<char>>,
    timestamp: Seq<char>,
) -> Seq<StatementView> {
    let widen = if columns.contains(member.id) {
        Seq::empty()
    } else {
        seq![StatementView::AddColumn { table, column: member.id }]
    };
    let write = match member.metric {
        Some(value) => seq![
            StatementView::SetCell { table, column: member.id, timestamp, value },
        ],
        None => Seq::empty(),
    };
    widen + write
}

/// The statements for the members, first to last.
pub open spec fn members_plan(
    table: Seq<char>,
    members: Seq<EntityView>,
    columns: Seq<Seq<char>>,
    timestamp: Seq<char>,
) -> Seq<StatementView>
    decreases members.len(),
{
    if members.len() == 0 {
        Seq::empty()
    } else {
        members_plan(table, members.drop_last(), columns, timestamp) + member_plan(
            table,
            members.last(),
            columns,
            timestamp,
        )
    }
}

/// The statements that make sure of the group's table and of the run's row.
pub open spec fn opening_plan(table: Seq<char>, exists: bool, timestamp: Seq<char>) -> Seq<
    StatementView,
> {
    let create = if exists {
        Seq::empty()
    } else {
        seq![StatementView::CreateTable { table }]
    };
    create + seq![StatementView::InsertRow { table, timestamp }]
}

/// The statements that record a group at `timestamp`, given whether its table
/// exists and which entity columns it has: the table is created if it is
/// missing, the row inserted if absent, and then each member gets its column,
/// if it has none, and its cell, if it has a metric. A member without a
/// metric gets no cell statement, so its cell stays as it was.
pub open spec fn planned(
    group: GroupView,
    exists: bool,
    columns: Seq<Seq<char>>,
    timestamp: Seq<char>,
) -> Seq<StatementView> {
    opening_plan(group.name, exists, timestamp) + members_plan(
        group.name,
        group.members,
        columns,
        timestamp,
    )
}

/// Number of statements that write a cell.
pub open spec fn cell_writes(statements: Seq<StatementView>) -> nat
    decreases statements.len(),
{
    if statements.len() == 0 {
        0
    } else {
        cell_writes(statements.drop_last()) + if statements.last() is SetCell {
            1nat
        } else {
            0nat
        }
    }
}

/// Number of members without a metric.
pub open spec fn count_without_metric(members: Seq<EntityView>) -> nat
    decreases members.len(),
{
    if members.len() == 0 {
        0
    } else {
        count_without_metric(members.drop_last()) + if members.last().metric is None {
            1nat
        } else {
            0nat
        }
    }
}

/// The cell writes of two lists of statements add up.
pub proof fn lemma_cell_writes_add(a: Seq<StatementView>, b: Seq<StatementView>)
    ensures
        cell_writes(a + b) == cell_writes(a) + cell_writes(b),
    decreases b.len(),
{
    if b.len() == 0 {
        assert(a + b =~= a);
    } else {
        assert((a + b).drop_last() =~= a + b.drop_last());
        lemma_cell_writes_add(a, b.drop_last());
    }
}

/// Of the `N` members of a group, the `M` that have no metric get no cell
/// statement: the plan writes exactly `N - M` cells, one for each member with
/// a metric, whatever table and columns exist.
pub proof fn law_plan_writes_one_cell_per_metric(
    group: GroupView,
    exists: bool,
    columns: Seq<Seq<char>>,
    timestamp: Seq<char>,
)
    ensures
        count_without_metric(group.members) <= group.members.len(),
        cell_writes(planned(group, exists, columns, timestamp)) == group.members.len()
            - count_without_metric(group.members),
{
    lemma_members_plan_writes(group.name, group.members, columns, timestamp);
    let opening = opening_plan(group.name, exists, timestamp);
    lemma_cell_writes_add(
        opening,
        members_plan(group.name, group.members, columns, timestamp),
    );
    reveal_with_fuel(cell_writes, 3);
    if exists {
        assert(opening =~= seq![StatementView::InsertRow { table: group.name, timestamp }]);
    } else {
        assert(opening.drop_last() =~= seq![StatementView::CreateTable { table: group.name }]);
    }
    assert(cell_writes(opening) == 0);
}

proof fn lemma_members_plan_writes(
    table: Seq<char>,
    members: Seq<EntityView>,
    columns: Seq<Seq<char>>,
    timestamp: Seq<char>,
)
    ensures
        count_without_metric(members) <= members.len(),
        cell_writes(members_plan(table, members, columns, timestamp)) == members.len()
            - count_without_metric(members),
    decreases members.len(),
{
    if members.len() > 0 {
        lemma_members_plan_writes(table, members.drop_last(), columns, timestamp);
        let rest = members_plan(table, members.drop_last(), columns, timestamp);
        let own = member_plan(table, members.last(), columns, timestamp);
        lemma_cell_writes_add(rest, own);
        reveal_with_fuel(cell_writes, 3);
        let add = StatementView::AddColumn { table, column: members.last().id };
        if columns.contains(members.last().id) {
            match members.last().metric {
                Some(value) => {
                    assert(own =~= seq![
                        StatementView::SetCell {
                            table,
                            column: members.last().id,
                            timestamp,
                            value,
                        },
                    ]);
                },
                None => {
                    assert(own =~= Seq::<StatementView>::empty());
                },
            }
        } else {
            match members.last().metric {
                Some(value) => {
                    assert(own.drop_last() =~= seq![add]);
                },
                None => {
                    assert(own =~= seq![add]);
                },
            }
        }
    }
}

/// Plans the statements that record `group` at `timestamp`. `table_exists`
/// and `columns` say what the store holds for the group now: whether it has
/// the group's table, and the entity columns of that table.
pub fn plan_group(group: &Group, table_exists: bool, columns: &Vec<String>, timestamp: &str) -> (plan:
    Vec<Statement>)
    ensures
        statement_views(plan@) == planned(group@, table_exists, texts(columns@), timestamp@),
{
    let mut plan: Vec<Statement> = Vec::new();
    if !table_exists {
        plan.push(Statement::CreateTable { table: group.name().clone() });
    }
    plan.push(Statement::InsertRow { table: group.name().clone(), timestamp: timestamp.to_owned() });
    assert(statement_views(plan@) =~= opening_plan(group@.name, table_exists, timestamp@));
    let members = group.members();
    let mut m: usize = 0;
    while m < members.len()
        invariant
            m <= members.len(),
            entity_views(members@) == group@.members,
            statement_views(plan@) == opening_plan(group@.name, table_exists, timestamp@)
                + members_plan(
                group@.name,
                group@.members.take(m as int),
                texts(columns@),
                timestamp@,
            ),
        decreases members.len() - m,
    {
        let member = &members[m];
        let ghost before = statement_views(plan@);
        let ghost done = group@.members.take(m as int);
        let ghost next = group@.members.take(m + 1);
        assert(next.drop_last() =~= done);
        assert(next.last() == member@);
        let ghost mid = before;
        if !holds_text(columns, &member.id) {
            plan.push(Statement::AddColumn { table: group.name().clone(), column: member.id.clone() });
            proof {
                mid = statement_views(plan@);
                assert(mid =~= before.push(
                    StatementView::AddColumn { table: group@.name, column: member@.id },
                ));
            }
        }
        match member.metric {
            Some(value) => {
                plan.push(
                    Statement::SetCell {
                        table: group.name().clone(),
                        column: member.id.clone(),
                        timestamp: timestamp.to_owned(),
                        value,
                    },
                );
                assert(statement_views(plan@) =~= mid.push(
                    StatementView::SetCell {
                        table: group@.name,
                        column: member@.id,
                        timestamp: timestamp@,
                        value,
                    },
                ));
            },
            None => {},
        }
        assert(statement_views(plan@) =~= before + member_plan(
            group@.name,
            member@,
            texts(columns@),
            timestamp@,
        ));
        assert(statement_views(plan@) =~= opening_plan(group@.name, table_exists, timestamp@)
            + members_plan(group@.name, next, texts(columns@), timestamp@));
        m = m + 1;
    }
    assert(group@.members.take(members.len() as int) =~= group@.members);
    plan
}

} // verus!
