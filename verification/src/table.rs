//! Metric tables: one row per observation time, one column per entity.

use vstd::prelude::*;
use crate::store::StoreError;
use crate::text::texts;

verus! {

/// A row as plain values: its timestamp and one cell per column of its table.
/// A cell that was never written holds `None`.
pub struct RowView {
    pub timestamp: Seq<char>,
    pub cells: Seq<Option<i64>>,
}

/// A table as plain values. Columns stand in the order they were added.
pub struct TableView {
    pub name: Seq<char>,
    pub columns: Seq<Seq<char>>,
    pub rows: Seq<RowView>,
}

/// Name of the column that holds the timestamp, the key of every table. No
/// entity column can carry it.
pub open spec fn key_column() -> Seq<char> {
    seq!['i', 'n', 'd', 'e', 'x']
}

/// Columns and timestamps are unique, no entity column carries the key
/// column's name, and every row has a cell for every column.
pub open spec fn table_wf(table: TableView) -> bool {
    &&& table.columns.no_duplicates()
    &&& !table.columns.contains(key_column())
    &&& forall|r: int, s: int|
        0 <= r < s < table.rows.len() ==> table.rows[r].timestamp != table.rows[s].timestamp
    &&& forall|r: int|
        0 <= r < table.rows.len() ==> (#[trigger] table.rows[r]).cells.len()
            == table.columns.len()
}

/// A table without columns or rows.
pub open spec fn empty_table(name: Seq<char>) -> TableView {
    TableView { name, columns: Seq::empty(), rows: Seq::empty() }
}

/// Some row carries the timestamp.
pub open spec fn has_row(table: TableView, timestamp: Seq<char>) -> bool {
    exists|r: int| 0 <= r < table.rows.len() && table.rows[r].timestamp == timestamp
}

/// A row of `width` cells, none of them written.
pub open spec fn unwritten_row(timestamp: Seq<char>, width: nat) -> RowView {
    RowView { timestamp, cells: Seq::new(width, |k: int| None::<i64>) }
}

/// The table with a row for the timestamp: the same table when it has one,
/// else the table with an unwritten row added.
pub open spec fn with_row(table: TableView, timestamp: Seq<char>) -> TableView {
    if has_row(table, timestamp) {
        table
    } else {
        TableView {
            name: table.name,
            columns: table.columns,
            rows: table.rows.push(unwritten_row(timestamp, table.columns.len())),
        }
    }
}

/// The table with one more column, unwritten in every row.
pub open spec fn with_column(table: TableView, column: Seq<char>) -> TableView {
    TableView {
        name: table.name,
        columns: table.columns.push(column),
        rows: Seq::new(
            table.rows.len(),
            |r: int|
                RowView {
                    timestamp: table.rows[r].timestamp,
                    cells: table.rows[r].cells.push(None),
                },
        ),
    }
}

/// The cells of a row after `value` was written under `column`.
pub open spec fn written_cells(
    columns: Seq<Seq<char>>,
    cells: Seq<Option<i64>>,
    column: Seq<char>,
    value: i64,
) -> Seq<Option<i64>> {
    Seq::new(
        cells.len(),
        |k: int|
            if columns[k] == column {
                Some(value)
            } else {
                cells[k]
            },
    )
}

/// The table after `value` was written into the cell of the row `timestamp`
/// under `column`. A table without such a row stays as it is.
pub open spec fn with_cell(
    table: TableView,
    timestamp: Seq<char>,
    column: Seq<char>,
    value: i64,
) -> TableView {
    TableView {
        name: table.name,
        columns: table.columns,
        rows: Seq::new(
            table.rows.len(),
            |r: int|
                if table.rows[r].timestamp == timestamp {
                    RowView {
                        timestamp: table.rows[r].timestamp,
                        cells: written_cells(table.columns, table.rows[r].cells, column, value),
                    }
                } else {
                    table.rows[r]
                },
        ),
    }
}

/// The table with a column of this name: the same table when it has one,
/// else the table with the column added. The key column's name is refused.
pub open spec fn with_column_ensured(table: TableView, column: Seq<char>) -> Result<
    TableView,
    StoreError,
> {
    if column == key_column() {
        Err(StoreError::ReservedColumn)
    } else if table.columns.contains(column) {
        Ok(table)
    } else {
        Ok(with_column(table, column))
    }
}

/// The table after `value` was written under a column given by name. The key
/// column's name and the name of a column that the table does not have are
/// refused.
pub open spec fn with_cell_set(
    table: TableView,
    timestamp: Seq<char>,
    column: Seq<char>,
    value: i64,
) -> Result<TableView, StoreError> {
    if column == key_column() {
        Err(StoreError::ReservedColumn)
    } else if !table.columns.contains(column) {
        Err(StoreError::NoSuchColumn)
    } else {
        Ok(with_cell(table, timestamp, column, value))
    }
}

/// Whether `name` is the key column's name.
pub fn is_key_column(name: &str) -> (key: bool)
    ensures
        key == (name@ == key_column()),
{
    proof {
        reveal_strlit("index");
        assert("index"@ =~= key_column());
    }
    name.to_owned() == "index".to_owned()
}

/// What the cell of the row `timestamp` under `column` holds; `None` when the
/// cell was never written, or the table has no such row or column.
pub open spec fn cell_of(table: TableView, timestamp: Seq<char>, column: Seq<char>) -> Option<
    i64,
> {
    if exists|r: int, k: int| cell_at(table, timestamp, column, r, k) {
        let (r, k) = choose|r: int, k: int| cell_at(table, timestamp, column, r, k);
        table.rows[r].cells[k]
    } else {
        None
    }
}

/// Row `r` carries the timestamp and column `k` the name.
pub open spec fn cell_at(
    table: TableView,
    timestamp: Seq<char>,
    column: Seq<char>,
    r: int,
    k: int,
) -> bool {
    &&& 0 <= r < table.rows.len()
    &&& 0 <= k < table.columns.len()
    &&& table.rows[r].timestamp == timestamp
    &&& table.columns[k] == column
}

/// In a well-formed table the cell of a row and a column is the one at their
/// positions.
pub proof fn lemma_cell_of(table: TableView, r: int, k: int)
    requires
        table_wf(table),
        0 <= r < table.rows.len(),
        0 <= k < table.columns.len(),
    ensures
        cell_of(table, table.rows[r].timestamp, table.columns[k]) == table.rows[r].cells[k],
{
    let ts = table.rows[r].timestamp;
    let c = table.columns[k];
    assert(cell_at(table, ts, c, r, k));
    let (r2, k2) = choose|r: int, k: int| cell_at(table, ts, c, r, k);
    assert(cell_at(table, ts, c, r2, k2));
    if r2 < r {
        assert(table.rows[r2].timestamp != table.rows[r].timestamp);
    } else if r < r2 {
        assert(table.rows[r].timestamp != table.rows[r2].timestamp);
    }
    assert(k2 == k);
}

/// Making sure of a row, writing a cell, and adding a column that is new and
/// does not carry the key column's name keep a table well formed.
pub proof fn lemma_table_changes_wf(
    table: TableView,
    timestamp: Seq<char>,
    column: Seq<char>,
    value: i64,
)
    requires
        table_wf(table),
    ensures
        table_wf(with_row(table, timestamp)),
        table_wf(with_cell(table, timestamp, column, value)),
        column != key_column() && !table.columns.contains(column) ==> table_wf(
            with_column(table, column),
        ),
{
    let rowed = with_row(table, timestamp);
    if !has_row(table, timestamp) {
        assert forall|r: int, s: int| 0 <= r < s < rowed.rows.len() implies rowed.rows[r].timestamp
            != rowed.rows[s].timestamp by {
            if s == table.rows.len() {
                assert(table.rows[r].timestamp != timestamp);
            }
        }
    }
    if column != key_column() && !table.columns.contains(column) {
        let wide = with_column(table, column);
        assert forall|i: int, j: int|
            0 <= i < wide.columns.len() && 0 <= j < wide.columns.len() && i
                != j implies wide.columns[i] != wide.columns[j] by {
            if i < table.columns.len() && j < table.columns.len() {
            } else if i < table.columns.len() {
                assert(table.columns.contains(table.columns[i]));
            } else {
                assert(table.columns.contains(table.columns[j]));
            }
        }
        if wide.columns.contains(key_column()) {
            let k = choose|k: int| 0 <= k < wide.columns.len() && wide.columns[k] == key_column();
            assert(table.columns[k] == key_column());
            assert(table.columns.contains(key_column()));
        }
    }
}

/// One row of a metric table.
#[derive(Debug, Clone, PartialEq, Eq)]
pub struct MetricRow {
    timestamp: String,
    cells: Vec<Option<i64>>,
}

impl View for MetricRow {
    type V = RowView;

    closed spec fn view(&self) -> RowView {
        RowView { timestamp: self.timestamp@, cells: self.cells@ }
    }
}

/// The rows of a list as plain values, in order.
pub closed spec fn row_views(rows: Seq<MetricRow>) -> Seq<RowView> {
    Seq::new(rows.len(), |r: int| rows[r]@)
}

/// The metric table of one group: a sparse matrix of observed values with a
/// row per observation time and a column per entity.
#[derive(Debug, Clone, PartialEq, Eq)]
pub struct MetricTable {
    name: String,
    columns: Vec<String>,
    rows: Vec<MetricRow>,
}

impl View for MetricTable {
    type V = TableView;

    closed spec fn view(&self) -> TableView {
        TableView { name: self.name@, columns: texts(self.columns@), rows: row_views(self.rows@) }
    }
}

impl MetricRow {
    fn unwritten(timestamp: String, width: usize) -> (row: MetricRow)
        ensures
            row@ == unwritten_row(timestamp@, width as nat),
    {
        let mut cells: Vec<Option<i64>> = Vec::new();
        let mut k: usize = 0;
        while k < width
            invariant
                k <= width,
                cells.len() == k,
                forall|j: int| 0 <= j < k ==> cells[j] == None::<i64>,
            decreases width - k,
        {
            cells.push(None);
            k = k + 1;
        }
        let row = MetricRow { timestamp, cells };
        assert(row@.cells =~= unwritten_row(timestamp@, width as nat).cells);
        row
    }

    fn duplicate(&self) -> (copy: MetricRow)
        ensures
            copy@ == self@,
    {
        let mut cells: Vec<Option<i64>> = Vec::new();
        let mut k: usize = 0;
        while k < self.cells.len()
            invariant
                k <= self.cells.len(),
                cells.len() == k,
                forall|j: int| 0 <= j < k ==> cells[j] == self.cells[j],
            decreases self.cells.len() - k,
        {
            cells.push(self.cells[k]);
            k = k + 1;
        }
        assert(cells@ =~= self.cells@);
        MetricRow { timestamp: self.timestamp.clone(), cells }
    }
}

impl MetricTable {
    /// Columns and timestamps are unique, no entity column carries the key
    /// column's name, and every row has a cell for every column.
    pub open spec fn wf(&self) -> bool {
        table_wf(self@)
    }

    /// A table without columns or rows.
    pub fn new(name: String) -> (table: MetricTable)
        ensures
            table@ == empty_table(name@),
            table.wf(),
    {
        let table = MetricTable { name, columns: Vec::new(), rows: Vec::new() };
        assert(table@.columns =~= Seq::<Seq<char>>::empty());
        assert(table@.rows =~= Seq::<RowView>::empty());
        table
    }

    /// A copy with the same columns, rows and cells.
    pub fn duplicate(&self) -> (copy: MetricTable)
        ensures
            copy@ == self@,
    {
        let mut rows: Vec<MetricRow> = Vec::new();
        let mut r: usize = 0;
        while r < self.rows.len()
            invariant
                r <= self.rows.len(),
                rows.len() == r,
                forall|j: int| 0 <= j < r ==> rows[j]@ == self.rows[j]@,
            decreases self.rows.len() - r,
        {
            rows.push(self.rows[r].duplicate());
            r = r + 1;
        }
        let copy = MetricTable {
            name: self.name.clone(),
            columns: crate::text::copy_texts(&self.columns),
            rows,
        };
        assert(copy@.rows =~= self@.rows);
        copy
    }

    /// The table's name.
    pub fn name(&self) -> (name: &String)
        ensures
            name@ == self@.name,
    {
        &self.name
    }

    /// The entity columns, in the order they were added.
    pub fn columns(&self) -> (columns: &Vec<String>)
        ensures
            texts(columns@) == self@.columns,
    {
        &self.columns
    }

    /// Number of rows.
    pub fn row_count(&self) -> (n: usize)
        ensures
            n == self@.rows.len(),
    {
        self.rows.len()
    }

    /// The timestamp of row `r`.
    pub fn timestamp_at(&self, r: usize) -> (timestamp: &String)
        requires
            r < self@.rows.len(),
        ensures
            timestamp@ == self@.rows[r as int].timestamp,
    {
        &self.rows[r].timestamp
    }

    /// Where the column of this name stands, if there is one.
    pub fn column_position(&self, column: &str) -> (at: Option<usize>)
        ensures
            match at {
                Some(k) => k < self@.columns.len() && self@.columns[k as int] == column@
                    && forall|j: int| 0 <= j < k ==> self@.columns[j] != column@,
                None => !self@.columns.contains(column@),
            },
    {
        let key: String = column.to_owned();
        let mut k: usize = 0;
        while k < self.columns.len()
            invariant
                k <= self.columns.len(),
                key@ == column@,
                forall|j: int| 0 <= j < k ==> self@.columns[j] != column@,
            decreases self.columns.len() - k,
        {
            if self.columns[k] == key {
                return Some(k);
            }
            k = k + 1;
        }
        None
    }

    /// Where the row of this timestamp stands, if there is one.
    pub fn row_position(&self, timestamp: &str) -> (at: Option<usize>)
        ensures
            match at {
                Some(r) => r < self@.rows.len() && self@.rows[r as int].timestamp == timestamp@
                    && forall|j: int| 0 <= j < r ==> self@.rows[j].timestamp != timestamp@,
                None => !has_row(self@, timestamp@),
            },
    {
        let key: String = timestamp.to_owned();
        let mut r: usize = 0;
        while r < self.rows.len()
            invariant
                r <= self.rows.len(),
                key@ == timestamp@,
                forall|j: int| 0 <= j < r ==> self@.rows[j].timestamp != timestamp@,
            decreases self.rows.len() - r,
        {
            if self.rows[r].timestamp == key {
                return Some(r);
            }
            r = r + 1;
        }
        None
    }

    /// What the cell of the row `timestamp` under `column` holds; `None` when
    /// the cell was never written, or the table has no such row or column.
    pub fn cell(&self, timestamp: &str, column: &str) -> (value: Option<i64>)
        requires
            self.wf(),
        ensures
            value == cell_of(self@, timestamp@, column@),
    {
        match self.row_position(timestamp) {
            Some(r) => match self.column_position(column) {
                Some(k) => {
                    proof {
                        lemma_cell_of(self@, r as int, k as int);
                        assert(self@.rows[r as int].cells.len() == self@.columns.len());
                    }
                    self.rows[r].cells[k]
                },
                None => {
                    assert forall|r: int, k: int| !cell_at(
                        self@,
                        timestamp@,
                        column@,
                        r,
                        k,
                    ) by {
                        if 0 <= k < self@.columns.len() && self@.columns[k] == column@ {
                            assert(self@.columns.contains(column@));
                        }
                    }
                    None
                },
            },
            None => None,
        }
    }

    /// Makes sure a row for the timestamp exists: adds an unwritten row
    /// unless the table has one. Rows that exist keep their cells.
    pub fn ensure_row(&mut self, timestamp: &str)
        requires
            old(self).wf(),
        ensures
            final(self).wf(),
            final(self)@ == with_row(old(self)@, timestamp@),
    {
        proof {
            lemma_table_changes_wf(self@, timestamp@, Seq::empty(), 0);
        }
        if self.row_position(timestamp).is_none() {
            let ghost before = self@;
            let row = MetricRow::unwritten(timestamp.to_owned(), self.columns.len());
            self.rows.push(row);
            assert(self@.rows =~= before.rows.push(
                unwritten_row(timestamp@, before.columns.len()),
            ));
        }
    }

    /// Makes sure a column of this name exists: adds it, unwritten in every
    /// row, unless the table has one. Returns whether it was added. The key
    /// column's name is refused, and the table stays as it is.
    pub fn ensure_column(&mut self, column: &str) -> (result: Result<bool, StoreError>)
        requires
            old(self).wf(),
        ensures
            final(self).wf(),
            match with_column_ensured(old(self)@, column@) {
                Ok(after) => final(self)@ == after && result == Ok::<bool, StoreError>(
                    !old(self)@.columns.contains(column@),
                ),
                Err(error) => final(self)@ == old(self)@ && result == Err::<bool, StoreError>(
                    error,
                ),
            },
    {
        if is_key_column(column) {
            Err(StoreError::ReservedColumn)
        } else if self.column_position(column).is_some() {
            Ok(false)
        } else {
            self.add_column(column.to_owned());
            Ok(true)
        }
    }

    /// Writes `value` into the cell of the row `timestamp` under `column`. A
    /// table without such a row stays as it is; the key column's name and the
    /// name of a column that the table does not have are refused.
    pub fn set_cell(&mut self, timestamp: &str, column: &str, value: i64) -> (result: Result<
        (),
        StoreError,
    >)
        requires
            old(self).wf(),
        ensures
            final(self).wf(),
            match with_cell_set(old(self)@, timestamp@, column@, value) {
                Ok(after) => final(self)@ == after && result is Ok,
                Err(error) => final(self)@ == old(self)@ && result == Err::<(), StoreError>(error),
            },
    {
        if is_key_column(column) {
            return Err(StoreError::ReservedColumn);
        }
        match self.column_position(column) {
            Some(k) => {
                assert(self@.columns.contains(column@));
                self.write_cell(timestamp, k, value);
                Ok(())
            },
            None => Err(StoreError::NoSuchColumn),
        }
    }

    /// Adds an entity column, unwritten in every row.
    pub(crate) fn add_column(&mut self, column: String)
        requires
            old(self).wf(),
            column@ != key_column(),
            !old(self)@.columns.contains(column@),
        ensures
            final(self).wf(),
            final(self)@ == with_column(old(self)@, column@),
    {
        let ghost before = self@;
        self.columns.push(column);
        assert(texts(self.columns@) =~= before.columns.push(column@));
        let mut r: usize = 0;
        while r < self.rows.len()
            invariant
                r <= self.rows.len(),
                self.rows.len() == before.rows.len(),
                self.name@ == before.name,
                texts(self.columns@) == before.columns.push(column@),
                forall|j: int| 0 <= j < r ==> self.rows[j]@ == with_column(before, column@).rows[j],
                forall|j: int| r <= j < before.rows.len() ==> self.rows[j]@ == before.rows[j],
            decreases self.rows.len() - r,
        {
            let ghost current = self.rows@;
            self.rows[r].cells.push(None);
            assert forall|j: int| 0 <= j <= r implies self.rows[j]@ == with_column(
                before,
                column@,
            ).rows[j] by {
                if j < r {
                    assert(self.rows[j] == current[j]);
                }
            }
            assert forall|j: int| r < j < before.rows.len() implies self.rows[j]@
                == before.rows[j] by {
                assert(self.rows[j] == current[j]);
            }
            r = r + 1;
        }
        assert(self@.rows =~= with_column(before, column@).rows);
        proof {
            lemma_table_changes_wf(before, Seq::empty(), column@, 0);
        }
    }

    /// Writes `value` into the cell of the row `timestamp` under the column
    /// at position `k`. A table without such a row stays as it is.
    pub(crate) fn write_cell(&mut self, timestamp: &str, k: usize, value: i64)
        requires
            old(self).wf(),
            k < old(self)@.columns.len(),
        ensures
            final(self).wf(),
            final(self)@ == with_cell(
                old(self)@,
                timestamp@,
                old(self)@.columns[k as int],
                value,
            ),
    {
        let ghost before = self@;
        let ghost column = before.columns[k as int];
        match self.row_position(timestamp) {
            Some(r) => {
                assert(before.rows[r as int].cells.len() == before.columns.len());
                self.rows[r].cells.set(k, Some(value));
                proof {
                    let after = self@;
                    let expected = with_cell(before, timestamp@, column, value);
                    assert forall|j: int| 0 <= j < before.rows.len() implies after.rows[j]
                        == expected.rows[j] by {
                        if j == r {
                            assert forall|c: int|
                                0 <= c < before.columns.len() implies #[trigger] after.rows[j].cells[c]
                                == expected.rows[j].cells[c] by {
                                if c != k && before.columns[c] == column {
                                    assert(before.columns[c] == before.columns[k as int]);
                                }
                            }
                            assert(after.rows[j].cells =~= expected.rows[j].cells);
                        } else {
                            if j < r {
                                assert(before.rows[j].timestamp != before.rows[r as int].timestamp);
                            } else {
                                assert(before.rows[r as int].timestamp != before.rows[j].timestamp);
                            }
                        }
                    }
                    assert(after.rows =~= expected.rows);
                }
            },
            None => {
                assert(self@.rows =~= with_cell(before, timestamp@, column, value).rows);
            },
        }
    }
}

} // verus!
