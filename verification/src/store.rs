//! The metric store: the metric tables of all groups, changed by statements
//! that either take effect together or not at all.
//!
//! The store is the library's account of the persisted state, as far as a
//! run reads or changes it. A statement means here what its SQL text means
//! to a database whose tables have a key column and one integer column per
//! entity: creating a table that exists is refused, as is adding a column
//! that exists; inserting a row that exists changes nothing.

use vstd::prelude::*;
use crate::table::{
    MetricTable, TableView, empty_table, is_key_column, key_column, lemma_table_changes_wf, table_wf,
    with_cell_set, with_column, with_row,
};
use crate::text::{copy_texts, texts};

verus! {

/// One change to the store.
#[derive(Debug, Clone, PartialEq, Eq)]
pub enum Statement {
    /// Create the table, with its key column and nothing else.
    CreateTable { table: String },
    /// Insert a row for the timestamp unless the table has one.
    InsertRow { table: String, timestamp: String },
    /// Add an entity column.
    AddColumn { table: String, column: String },
    /// Write a value into the cell of a row and a column.
    SetCell { table: String, column: String, timestamp: String, value: i64 },
}

/// A statement as plain values.
pub enum StatementView {
    CreateTable { table: Seq<char> },
    InsertRow { table: Seq<char>, timestamp: Seq<char> },
    AddColumn { table: Seq<char>, column: Seq<char> },
    SetCell { table: Seq<char>, column: Seq<char>, timestamp: Seq<char>, value: i64 },
}

impl View for Statement {
    type V = StatementView;

    open spec fn view(&self) -> StatementView {
        match self {
            Statement::CreateTable { table } => StatementView::CreateTable { table: table@ },
            Statement::InsertRow { table, timestamp } => StatementView::InsertRow {
                table: table@,
                timestamp: timestamp@,
            },
            Statement::AddColumn { table, column } => StatementView::AddColumn {
                table: table@,
                column: column@,
            },
            Statement::SetCell { table, column, timestamp, value } => StatementView::SetCell {
                table: table@,
                column: column@,
                timestamp: timestamp@,
                value: *value,
            },
        }
    }
}

/// The statements of a list as plain values, in order.
pub open spec fn statement_views(statements: Seq<Statement>) -> Seq<StatementView> {
    Seq::new(statements.len(), |i: int| statements[i]@)
}

/// The table a statement is about.
pub open spec fn target_of(statement: StatementView) -> Seq<char> {
    match statement {
        StatementView::CreateTable { table } => table,
        StatementView::InsertRow { table, .. } => table,
        StatementView::AddColumn { table, .. } => table,
        StatementView::SetCell { table, .. } => table,
    }
}

/// Why the store refused a statement.
#[derive(Debug, Clone, Copy, PartialEq, Eq, Structural)]
pub enum StoreError {
    /// A table of that name exists.
    TableExists,
    /// No table of that name exists.
    NoSuchTable,
    /// The table has a column of that name.
    ColumnExists,
    /// The table has no column of that name.
    NoSuchColumn,
    /// The name is that of the key column.
    ReservedColumn,
}

/// Some table carries the name.
pub open spec fn has_table(store: Seq<TableView>, name: Seq<char>) -> bool {
    exists|t: int| 0 <= t < store.len() && store[t].name == name
}

/// The table that carries the name.
pub open spec fn table_named(store: Seq<TableView>, name: Seq<char>) -> TableView {
    store[choose|t: int| 0 <= t < store.len() && store[t].name == name]
}

/// The store with `table` in the place of the table of its name.
pub open spec fn with_table(store: Seq<TableView>, table: TableView) -> Seq<TableView> {
    Seq::new(
        store.len(),
        |t: int|
            if store[t].name == table.name {
                table
            } else {
                store[t]
            },
    )
}

/// Table names are unique and every table is well formed.
pub open spec fn store_wf(store: Seq<TableView>) -> bool {
    &&& forall|t: int, u: int| 0 <= t < u < store.len() ==> store[t].name != store[u].name
    &&& forall|t: int| 0 <= t < store.len() ==> table_wf(#[trigger] store[t])
}

/// What a statement makes of the table it is about, or why it is refused.
pub open spec fn table_applied(table: TableView, statement: StatementView) -> Result<
    TableView,
    StoreError,
> {
    match statement {
        StatementView::CreateTable { .. } => Err(StoreError::TableExists),
        StatementView::InsertRow { timestamp, .. } => Ok(with_row(table, timestamp)),
        StatementView::AddColumn { column, .. } => if column == key_column() {
            Err(StoreError::ReservedColumn)
        } else if table.columns.contains(column) {
            Err(StoreError::ColumnExists)
        } else {
            Ok(with_column(table, column))
        },
        StatementView::SetCell { column, timestamp, value, .. } => with_cell_set(
            table,
            timestamp,
            column,
            value,
        ),
    }
}

/// What a statement makes of the store, or why it is refused.
pub open spec fn applied(store: Seq<TableView>, statement: StatementView) -> Result<
    Seq<TableView>,
    StoreError,
> {
    if statement is CreateTable {
        if has_table(store, target_of(statement)) {
            Err(StoreError::TableExists)
        } else {
            Ok(store.push(empty_table(target_of(statement))))
        }
    } else if !has_table(store, target_of(statement)) {
        Err(StoreError::NoSuchTable)
    } else {
        match table_applied(table_named(store, target_of(statement)), statement) {
            Ok(table) => Ok(with_table(store, table)),
            Err(error) => Err(error),
        }
    }
}

/// What the statements make of the store when applied first to last, or the
/// reason for which the first of them that is refused is refused.
pub open spec fn applied_all(store: Seq<TableView>, statements: Seq<StatementView>) -> Result<
    Seq<TableView>,
    StoreError,
>
    decreases statements.len(),
{
    if statements.len() == 0 {
        Ok(store)
    } else {
        match applied_all(store, statements.drop_last()) {
            Ok(so_far) => applied(so_far, statements.last()),
            Err(error) => Err(error),
        }
    }
}

/// In a well-formed store a table is the table of its name.
pub proof fn lemma_table_named(store: Seq<TableView>, t: int)
    requires
        store_wf(store),
        0 <= t < store.len(),
    ensures
        has_table(store, store[t].name),
        table_named(store, store[t].name) == store[t],
{
    let name = store[t].name;
    let u = choose|u: int| 0 <= u < store.len() && store[u].name == name;
    if u < t {
        assert(store[u].name != store[t].name);
    } else if t < u {
        assert(store[t].name != store[u].name);
    }
}

/// Applying a statement to a well-formed store gives a well-formed store.
pub proof fn lemma_applied_wf(store: Seq<TableView>, statement: StatementView)
    requires
        store_wf(store),
    ensures
        applied(store, statement) matches Ok(after) ==> store_wf(after),
{
    if let Ok(after) = applied(store, statement) {
        let name = target_of(statement);
        if statement is CreateTable {
            assert forall|t: int, u: int| 0 <= t < u < after.len() implies after[t].name
                != after[u].name by {
                if u == store.len() {
                    assert(store[t].name != name);
                }
            }
            assert forall|t: int| 0 <= t < after.len() implies table_wf(#[trigger] after[t]) by {
                if t < store.len() {
                    assert(table_wf(store[t]));
                }
            }
        } else {
            let t0 = choose|t: int| 0 <= t < store.len() && store[t].name == name;
            let before = store[t0];
            let table = table_applied(before, statement)->Ok_0;
            assert(table_wf(before));
            match statement {
                StatementView::CreateTable { .. } => {},
                StatementView::InsertRow { timestamp, .. } => {
                    lemma_table_changes_wf(before, timestamp, Seq::empty(), 0);
                },
                StatementView::AddColumn { column, .. } => {
                    lemma_table_changes_wf(before, Seq::empty(), column, 0);
                },
                StatementView::SetCell { column, timestamp, value, .. } => {
                    lemma_table_changes_wf(before, timestamp, column, value);
                },
            }
            assert(table_wf(table));
            assert(table.name == name);
            assert forall|t: int| 0 <= t < after.len() implies table_wf(#[trigger] after[t]) by {
                assert(table_wf(store[t]));
            }
        }
    }
}

/// The metric tables of all groups.
#[derive(Debug, Clone, PartialEq, Eq)]
pub struct MetricStore {
    tables: Vec<MetricTable>,
}

/// The tables of a list as plain values, in order.
pub open spec fn table_views(tables: Seq<MetricTable>) -> Seq<TableView> {
    Seq::new(tables.len(), |t: int| tables[t]@)
}

impl View for MetricStore {
    type V = Seq<TableView>;

    closed spec fn view(&self) -> Seq<TableView> {
        table_views(self.tables@)
    }
}

impl MetricStore {
    /// Table names are unique and every table is well formed.
    pub open spec fn wf(&self) -> bool {
        store_wf(self@)
    }

    /// A store without tables.
    pub fn new() -> (store: MetricStore)
        ensures
            store@ == Seq::<TableView>::empty(),
            store.wf(),
    {
        let store = MetricStore { tables: Vec::new() };
        assert(store@ =~= Seq::<TableView>::empty());
        store
    }

    /// A copy with the same tables.
    pub fn duplicate(&self) -> (copy: MetricStore)
        ensures
            copy@ == self@,
    {
        let mut tables: Vec<MetricTable> = Vec::new();
        let mut t: usize = 0;
        while t < self.tables.len()
            invariant
                t <= self.tables.len(),
                tables.len() == t,
                forall|j: int| 0 <= j < t ==> tables[j]@ == self.tables[j]@,
            decreases self.tables.len() - t,
        {
            tables.push(self.tables[t].duplicate());
            t = t + 1;
        }
        let copy = MetricStore { tables };
        assert(copy@ =~= self@);
        copy
    }

    /// The tables, in the order they were created.
    pub fn tables(&self) -> (tables: &Vec<MetricTable>)
        ensures
            table_views(tables@) == self@,
    {
        &self.tables
    }

    /// Where the table of this name stands, if there is one.
    pub fn position(&self, name: &str) -> (at: Option<usize>)
        ensures
            match at {
                Some(t) => t < self@.len() && self@[t as int].name == name@ && forall|j: int|
                    0 <= j < t ==> self@[j].name != name@,
                None => !has_table(self@, name@),
            },
    {
        let key: String = name.to_owned();
        let mut t: usize = 0;
        while t < self.tables.len()
            invariant
                t <= self.tables.len(),
                key@ == name@,
                forall|j: int| 0 <= j < t ==> self@[j].name != name@,
            decreases self.tables.len() - t,
        {
            if *self.tables[t].name() == key {
                return Some(t);
            }
            t = t + 1;
        }
        None
    }

    /// Whether a table of this name exists.
    pub fn has_table(&self, name: &str) -> (found: bool)
        ensures
            found == has_table(self@, name@),
    {
        self.position(name).is_some()
    }

    /// The table of this name.
    pub fn table(&self, name: &str) -> (table: Option<&MetricTable>)
        requires
            self.wf(),
        ensures
            match table {
                Some(t) => has_table(self@, name@) && t@ == table_named(self@, name@) && t.wf(),
                None => !has_table(self@, name@),
            },
    {
        match self.position(name) {
            Some(t) => {
                proof {
                    lemma_table_named(self@, t as int);
                }
                Some(&self.tables[t])
            },
            None => None,
        }
    }

    /// The entity columns of the table of this name; none when there is no
    /// such table.
    pub fn columns_of(&self, name: &str) -> (columns: Vec<String>)
        requires
            self.wf(),
        ensures
            texts(columns@) == if has_table(self@, name@) {
                table_named(self@, name@).columns
            } else {
                Seq::empty()
            },
    {
        match self.table(name) {
            Some(table) => copy_texts(table.columns()),
            None => {
                let columns: Vec<String> = Vec::new();
                assert(texts(columns@) =~= Seq::<Seq<char>>::empty());
                columns
            },
        }
    }

    /// Makes sure a table of this name exists: creates it, with no column but
    /// its key column, unless the store has one. Returns whether it was
    /// created.
    pub fn ensure_table(&mut self, name: &str) -> (created: bool)
        requires
            old(self).wf(),
        ensures
            final(self).wf(),
            created == !has_table(old(self)@, name@),
            final(self)@ == if has_table(old(self)@, name@) {
                old(self)@
            } else {
                old(self)@.push(empty_table(name@))
            },
    {
        if self.position(name).is_some() {
            false
        } else {
            let ghost before = self@;
            proof {
                lemma_applied_wf(before, StatementView::CreateTable { table: name@ });
            }
            self.tables.push(MetricTable::new(name.to_owned()));
            assert(self@ =~= before.push(empty_table(name@)));
            true
        }
    }

    /// Applies one statement. A statement that is refused leaves the store as
    /// it was.
    pub fn apply(&mut self, statement: &Statement) -> (result: Result<(), StoreError>)
        requires
            old(self).wf(),
        ensures
            final(self).wf(),
            match applied(old(self)@, statement@) {
                Ok(after) => result is Ok && final(self)@ == after,
                Err(error) => result == Err::<(), StoreError>(error) && final(self)@ == old(self)@,
            },
    {
        let ghost before = self@;
        proof {
            lemma_applied_wf(before, statement@);
        }
        match statement {
            Statement::CreateTable { table } => {
                if self.position(table.as_str()).is_some() {
                    return Err(StoreError::TableExists);
                }
                self.tables.push(MetricTable::new(table.clone()));
                assert(self@ =~= before.push(empty_table(table@)));
                Ok(())
            },
            Statement::InsertRow { table, timestamp } => {
                match self.position(table.as_str()) {
                    None => Err(StoreError::NoSuchTable),
                    Some(t) => {
                        proof {
                            lemma_table_named(before, t as int);
                        }
                        self.tables[t].ensure_row(timestamp.as_str());
                        assert(self@ =~= with_table(before, with_row(before[t as int], timestamp@)))
                            by {
                            self.lemma_replaced(before, t as int);
                        }
                        Ok(())
                    },
                }
            },
            Statement::AddColumn { table, column } => {
                match self.position(table.as_str()) {
                    None => Err(StoreError::NoSuchTable),
                    Some(t) => {
                        proof {
                            lemma_table_named(before, t as int);
                        }
                        if is_key_column(column.as_str()) {
                            return Err(StoreError::ReservedColumn);
                        }
                        if self.tables[t].column_position(column.as_str()).is_some() {
                            return Err(StoreError::ColumnExists);
                        }
                        self.tables[t].add_column(column.clone());
                        assert(self@ =~= with_table(before, with_column(before[t as int], column@)))
                            by {
                            self.lemma_replaced(before, t as int);
                        }
                        Ok(())
                    },
                }
            },
            Statement::SetCell { table, column, timestamp, value } => {
                match self.position(table.as_str()) {
                    None => Err(StoreError::NoSuchTable),
                    Some(t) => {
                        proof {
                            lemma_table_named(before, t as int);
                        }
                        let result = self.tables[t].set_cell(
                            timestamp.as_str(),
                            column.as_str(),
                            *value,
                        );
                        proof {
                            if result is Ok {
                                self.lemma_replaced(before, t as int);
                            } else {
                                assert(self@ =~= before);
                            }
                        }
                        result
                    },
                }
            },
        }
    }

    /// A store that differs from a well-formed one in a single table, which
    /// kept its name, is that store with the table replaced.
    proof fn lemma_replaced(&self, before: Seq<TableView>, t: int)
        requires
            store_wf(before),
            0 <= t < before.len(),
            self@.len() == before.len(),
            self@[t].name == before[t].name,
            forall|u: int| 0 <= u < before.len() && u != t ==> self@[u] == before[u],
        ensures
            self@ =~= with_table(before, self@[t]),
    {
        assert forall|u: int| 0 <= u < before.len() implies self@[u] == with_table(
            before,
            self@[t],
        )[u] by {
            if u < t {
                assert(before[u].name != before[t].name);
            } else if t < u {
                assert(before[t].name != before[u].name);
            }
        }
    }

    /// Applies the statements first to last and stops at the first that is
    /// refused; the statements before it have then taken effect.
    pub(crate) fn apply_each(&mut self, statements: &Vec<Statement>) -> (result: Result<
        (),
        StoreError,
    >)
        requires
            old(self).wf(),
        ensures
            final(self).wf(),
            match applied_all(old(self)@, statement_views(statements@)) {
                Ok(after) => result is Ok && final(self)@ == after,
                Err(error) => result == Err::<(), StoreError>(error),
            },
    {
        let mut i: usize = 0;
        while i < statements.len()
            invariant
                i <= statements.len(),
                self.wf(),
                applied_all(old(self)@, statement_views(statements@).take(i as int)) == Ok::<
                    Seq<TableView>,
                    StoreError,
                >(self@),
            decreases statements.len() - i,
        {
            let ghost done = statement_views(statements@).take(i as int);
            let ghost next = statement_views(statements@).take(i + 1);
            assert(next.drop_last() =~= done);
            assert(next.last() == statements[i as int]@);
            match self.apply(&statements[i]) {
                Ok(()) => {},
                Err(error) => {
                    proof {
                        lemma_applied_all_stays_refused(
                            old(self)@,
                            statement_views(statements@),
                            i + 1,
                        );
                    }
                    return Err(error);
                },
            }
            i = i + 1;
        }
        assert(statement_views(statements@).take(statements.len() as int) =~= statement_views(
            statements@,
        ));
        Ok(())
    }

    /// Applies the statements first to last, all of them or none: when one is
    /// refused, the store is left exactly as it was before the first.
    pub fn execute(&mut self, statements: &Vec<Statement>) -> (result: Result<(), StoreError>)
        requires
            old(self).wf(),
        ensures
            final(self).wf(),
            match applied_all(old(self)@, statement_views(statements@)) {
                Ok(after) => result is Ok && final(self)@ == after,
                Err(error) => result == Err::<(), StoreError>(error) && final(self)@ == old(self)@,
            },
    {
        let mut work = self.duplicate();
        match work.apply_each(statements) {
            Ok(()) => {},
            Err(error) => {
                return Err(error);
            },
        }
        *self = work;
        Ok(())
    }
}

/// Once a statement is refused, the whole list is refused for the same
/// reason, whatever follows.
pub proof fn lemma_applied_all_stays_refused(
    store: Seq<TableView>,
    statements: Seq<StatementView>,
    n: int,
)
    requires
        0 <= n <= statements.len(),
        applied_all(store, statements.take(n)) is Err,
    ensures
        applied_all(store, statements) == applied_all(store, statements.take(n)),
    decreases statements.len() - n,
{
    if n == statements.len() {
        assert(statements.take(n) =~= statements);
    } else {
        assert(statements.take(n + 1).drop_last() =~= statements.take(n));
        lemma_applied_all_stays_refused(store, statements, n + 1);
    }
}

} // verus!
