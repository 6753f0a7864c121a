//! The storage manager: the single owner of every table's column stores.
//! It registers catalog entries, appends and removes rows as one logical
//! unit, and answers column reads with optional predicate application.
//! Persistence of the stores is the caller's concern; the manager keeps
//! the materialized columns and their metadata consistent.

use vstd::prelude::*;

use crate::condition::{batch_at, batch_has, spec_eval, BatchView, ColumnBatch, Condition};
use crate::schema::{distinct_columns, has_column, Column, Table};
use crate::types::{str_eq, DbError, Value, ValueView};

verus! {

/// The persisted description of one column: its id, declared shape, and
/// the encoding choice for its store.
#[derive(Debug)]
pub struct ColumnMetadata {
    pub column_id: u64,
    pub name: String,
    pub data_type: crate::types::DataType,
    pub is_nullable: bool,
    pub is_primary_key: bool,
    pub is_unique: bool,
    pub default_value: Option<Value>,
    pub compression: crate::types::CompressionType,
}

/// The persisted description of one table: numeric id, row count,
/// timestamps, and column descriptors.
#[derive(Debug)]
pub struct TableMetadata {
    pub table_id: u64,
    pub row_count: u64,
    pub created_at: u64,
    pub updated_at: u64,
    pub columns: Vec<ColumnMetadata>,
}

/// One table's definition, metadata, and materialized column stores:
/// `columns[j]` holds the values of `table.columns[j]`, one per row.
#[derive(Debug)]
pub struct TableStore {
    pub table: Table,
    pub metadata: TableMetadata,
    pub columns: Vec<Vec<Value>>,
}

impl TableStore {
    /// Every column store is aligned with the table definition and holds
    /// exactly `row_count` values; column names are distinct.
    pub open spec fn wf(self) -> bool {
        &&& self.table.columns@.len() > 0
        &&& self.columns@.len() == self.table.columns@.len()
        &&& distinct_columns(self.table.columns@)
        &&& forall|j: int|
            0 <= j < self.columns@.len() ==> (#[trigger] self.columns@[j])@.len()
                == self.metadata.row_count
    }

    /// The batch of all of this table's columns, addressed by name.
    pub open spec fn batch(self) -> BatchView {
        Seq::new(
            self.table.columns@.len(),
            |j: int| (self.table.columns@[j].name@, self.columns@[j].deep_view()),
        )
    }
}

/// Whether a predicate keeps a row: no predicate keeps every row.
pub open spec fn spec_keep(cond: Option<Condition>, batch: BatchView, row: int) -> Result<
    bool,
    (),
> {
    match cond {
        Option::None => Ok(true),
        Option::Some(c) => match spec_eval(c, batch, row) {
            Ok(b) => Ok(b),
            Err(_) => Err(()),
        },
    }
}

/// The row indices below `n` that the predicate keeps, in ascending
/// order; an error as soon as any row fails to evaluate.
pub open spec fn spec_selected(cond: Option<Condition>, batch: BatchView, n: int) -> Result<
    Seq<int>,
    (),
>
    decreases n,
{
    if n <= 0 {
        Ok(Seq::empty())
    } else {
        match spec_selected(cond, batch, n - 1) {
            Err(()) => Err(()),
            Ok(s) => match spec_keep(cond, batch, n - 1) {
                Err(()) => Err(()),
                Ok(true) => Ok(s.push(n - 1)),
                Ok(false) => Ok(s),
            },
        }
    }
}

/// The row indices below `n` that the predicate rejects, in ascending
/// order: the rows a deletion leaves in place.
pub open spec fn spec_remaining(cond: Option<Condition>, batch: BatchView, n: int) -> Result<
    Seq<int>,
    (),
>
    decreases n,
{
    if n <= 0 {
        Ok(Seq::empty())
    } else {
        match spec_remaining(cond, batch, n - 1) {
            Err(()) => Err(()),
            Ok(s) => match spec_keep(cond, batch, n - 1) {
                Err(()) => Err(()),
                Ok(false) => Ok(s.push(n - 1)),
                Ok(true) => Ok(s),
            },
        }
    }
}

/// The values of `vals` at the given indices, in order.
pub open spec fn project(vals: Seq<ValueView>, sel: Seq<int>) -> Seq<ValueView> {
    sel.map_values(|i: int| vals[i])
}

/// The spec-level shape of an optional borrowed condition.
pub open spec fn cond_of(c: Option<&Condition>) -> Option<Condition> {
    match c {
        Option::None => Option::None,
        Option::Some(x) => Option::Some(*x),
    }
}

/// Whether some entry of `ts` is for a table named `name`.
pub open spec fn store_has(ts: Seq<TableStore>, name: Seq<char>) -> bool {
    exists|i: int| 0 <= i < ts.len() && ts[i].table.name@ == name
}

/// The index of the entry named `name`; unambiguous under `wf`.
pub open spec fn store_at(ts: Seq<TableStore>, name: Seq<char>) -> int {
    choose|i: int| 0 <= i < ts.len() && ts[i].table.name@ == name
}

/// An error selection stays an error for any larger row bound.
pub(crate) proof fn lemma_selected_err_mono(cond: Option<Condition>, batch: BatchView, m: int, n: int)
    requires
        0 <= m <= n,
        spec_selected(cond, batch, m) is Err,
    ensures
        spec_selected(cond, batch, n) is Err,
    decreases n - m,
{
    if m < n {
        lemma_selected_err_mono(cond, batch, m + 1, n);
    }
}

/// An error among the remaining-rows selection also persists.
proof fn lemma_remaining_err_mono(cond: Option<Condition>, batch: BatchView, m: int, n: int)
    requires
        0 <= m <= n,
        spec_remaining(cond, batch, m) is Err,
    ensures
        spec_remaining(cond, batch, n) is Err,
    decreases n - m,
{
    if m < n {
        lemma_remaining_err_mono(cond, batch, m + 1, n);
    }
}

/// Every remaining row was rejected by the predicate: after a deletion,
/// no kept row satisfies the condition.
pub proof fn lemma_remaining_unmatched(
    cond: Option<Condition>,
    batch: BatchView,
    n: int,
    sel: Seq<int>,
)
    requires
        n >= 0,
        spec_remaining(cond, batch, n) == Ok::<Seq<int>, ()>(sel),
    ensures
        forall|k: int| 0 <= k < sel.len() ==> spec_keep(cond, batch, #[trigger] sel[k]) == Ok::<
            bool,
            (),
        >(false),
        forall|k: int| 0 <= k < sel.len() ==> 0 <= #[trigger] sel[k] < n,
        sel.len() <= n,
    decreases n,
{
    if n > 0 {
        match spec_remaining(cond, batch, n - 1) {
            Err(()) => {},
            Ok(s) => {
                lemma_remaining_unmatched(cond, batch, n - 1, s);
            },
        }
    }
}

/// Evaluating a condition at a row of a projected batch equals
/// evaluating it at the source row the projection took it from, when
/// both batches carry the same distinct column names.
proof fn lemma_eval_projected(
    c: Condition,
    b1: BatchView,
    b2: BatchView,
    sel: Seq<int>,
    k: int,
    n: int,
)
    requires
        b2.len() == b1.len(),
        forall|j: int| 0 <= j < b1.len() ==> (#[trigger] b2[j]).0 == b1[j].0,
        forall|j: int| 0 <= j < b1.len() ==> (#[trigger] b2[j]).1 == project(b1[j].1, sel),
        forall|j: int| 0 <= j < b1.len() ==> (#[trigger] b1[j]).1.len() == n,
        forall|t: int| 0 <= t < sel.len() ==> 0 <= #[trigger] sel[t] < n,
        0 <= k < sel.len(),
        forall|p: int, q: int| 0 <= p < q < b1.len() ==> b1[p].0 != b1[q].0,
    ensures
        spec_eval(c, b2, k) == spec_eval(c, b1, sel[k]),
    decreases c,
{
    match c {
        Condition::Compare { column, op, value } => {
            if batch_has(b1, column@) {
                let i1 = batch_at(b1, column@);
                assert(0 <= i1 < b1.len() && b1[i1].0 == column@);
                assert(b2[i1].0 == column@);
                assert(batch_has(b2, column@));
                let i2 = batch_at(b2, column@);
                assert(0 <= i2 < b2.len() && b2[i2].0 == column@);
                assert(b1[i2].0 == column@);
                if i1 < i2 {
                    assert(b1[i1].0 != b1[i2].0);
                }
                if i2 < i1 {
                    assert(b1[i2].0 != b1[i1].0);
                }
                assert(i1 == i2);
                assert(b2[i2].1.len() == sel.len());
                assert(b2[i2].1[k] == b1[i1].1[sel[k]]);
                assert(0 <= sel[k] < b1[i1].1.len());
            } else {
                if batch_has(b2, column@) {
                    let i2 = batch_at(b2, column@);
                    assert(0 <= i2 < b2.len() && b2[i2].0 == column@);
                    assert(b1[i2].0 == column@);
                    assert(batch_has(b1, column@));
                }
                assert(!batch_has(b2, column@));
            }
        },
        Condition::And(a, b) => {
            lemma_eval_projected(*a, b1, b2, sel, k, n);
            lemma_eval_projected(*b, b1, b2, sel, k, n);
        },
        Condition::Or(a, b) => {
            lemma_eval_projected(*a, b1, b2, sel, k, n);
            lemma_eval_projected(*b, b1, b2, sel, k, n);
        },
        Condition::Not(a) => {
            lemma_eval_projected(*a, b1, b2, sel, k, n);
        },
    }
}

/// Delete invariant: a table rewritten without the rows a condition
/// matched, as `delete_rows` guarantees, holds no row that still
/// satisfies the condition.
pub proof fn lemma_delete_leaves_no_match(
    cond: Condition,
    pre: TableStore,
    post: TableStore,
    rem: Seq<int>,
)
    requires
        pre.wf(),
        post.wf(),
        spec_remaining(Some(cond), pre.batch(), pre.metadata.row_count as int) == Ok::<
            Seq<int>,
            (),
        >(rem),
        post.table == pre.table,
        post.columns@.len() == pre.columns@.len(),
        post.metadata.row_count == rem.len(),
        forall|j: int|
            0 <= j < pre.columns@.len() ==> (#[trigger] post.columns@[j]).deep_view() == project(
                pre.columns@[j].deep_view(),
                rem,
            ),
    ensures
        forall|k: int|
            0 <= k < post.metadata.row_count ==> spec_eval(cond, post.batch(), k) == Ok::<
                bool,
                crate::condition::EvalFail,
            >(false),
{
    let n = pre.metadata.row_count as int;
    lemma_remaining_unmatched(Some(cond), pre.batch(), n, rem);
    assert forall|k: int|
        0 <= k < post.metadata.row_count implies spec_eval(cond, post.batch(), k) == Ok::<
        bool,
        crate::condition::EvalFail,
    >(false) by {
        let b1 = pre.batch();
        let b2 = post.batch();
        assert(b2.len() == b1.len());
        assert forall|j: int| 0 <= j < b1.len() implies (#[trigger] b2[j]).0 == b1[j].0 && b2[
            j
        ].1 == project(b1[j].1, rem) && b1[j].1.len() == n by {
            assert(b2[j].1 == post.columns@[j].deep_view());
            assert(b1[j].1 == pre.columns@[j].deep_view());
            assert(pre.columns@[j]@.len() == pre.metadata.row_count);
        }
        assert forall|p: int, q: int| 0 <= p < q < b1.len() implies b1[p].0 != b1[q].0 by {
            assert(b1[p].0 == pre.table.columns@[p].name@);
            assert(b1[q].0 == pre.table.columns@[q].name@);
        }
        lemma_eval_projected(cond, b1, b2, rem, k, n);
        assert(spec_keep(Some(cond), b1, rem[k]) == Ok::<bool, ()>(false));
    }
}

/// Appending one projected element extends a projection by one index.
proof fn lemma_project_push(colv: Seq<ValueView>, sel: Seq<int>, post: Seq<ValueView>, i: int)
    requires
        post.len() == sel.len() + 1,
        forall|t: int| 0 <= t < sel.len() ==> post[t] == #[trigger] project(colv, sel)[t],
        post[sel.len() as int] == colv[i],
    ensures
        post =~= project(colv, sel.push(i)),
{
    assert forall|t: int|
        0 <= t < sel.len() + 1 implies post[t] == #[trigger] project(colv, sel.push(i))[t] by {
        if t < sel.len() {
            assert(sel.push(i)[t] == sel[t]);
            assert(project(colv, sel)[t] == colv[sel[t]]);
            assert(project(colv, sel.push(i))[t] == colv[sel[t]]);
        } else {
            assert(sel.push(i)[t] == i);
            assert(project(colv, sel.push(i))[t] == colv[i]);
        }
    }
}

/// A clone of a column vector, equal value by value.
fn clone_values(v: &Vec<Value>) -> (r: Vec<Value>)
    ensures
        r.deep_view() == v.deep_view(),
        r@.len() == v@.len(),
{
    let n = v.len();
    let mut out: Vec<Value> = Vec::new();
    let mut i: usize = 0;
    while i < n
        invariant
            0 <= i <= n,
            n == v@.len(),
            out@.len() == i,
            forall|k: int| 0 <= k < i ==> (#[trigger] out@[k])@ == v@[k]@,
        decreases n - i,
    {
        out.push(v[i].clone());
        i = i + 1;
    }
    proof {
        assert(out.deep_view() =~= v.deep_view());
    }
    out
}

/// The single shared owner of all column stores. Callers serialize access
/// to it (one coarse lock around a whole query pipeline); the manager
/// itself is a plain exclusive-access value.
#[derive(Debug)]
pub struct StorageManager {
    pub tables: Vec<TableStore>,
    pub next_table_id: u64,
    pub clock: u64,
}

impl StorageManager {
    /// Entries are well formed and table names are pairwise distinct.
    pub open spec fn wf(self) -> bool {
        &&& forall|i: int, j: int|
            0 <= i < j < self.tables@.len() ==> (#[trigger] self.tables@[i]).table.name@ != (
            #[trigger] self.tables@[j]).table.name@
        &&& forall|i: int| 0 <= i < self.tables@.len() ==> (#[trigger] self.tables@[i]).wf()
    }

    /// An empty storage manager.
    pub fn new() -> (r: StorageManager)
        ensures
            r.wf(),
            r.tables@.len() == 0,
    {
        StorageManager { tables: Vec::new(), next_table_id: 1, clock: 0 }
    }

    /// The index of the entry for the named table, if any.
    pub(crate) fn find_index(&self, name: &str) -> (r: Option<usize>)
        requires
            self.wf(),
        ensures
            match r {
                Some(i) => store_has(self.tables@, name@) && i < self.tables@.len()
                    && self.tables@[i as int].table.name@ == name@ && store_at(self.tables@, name@)
                    == i as int,
                None => !store_has(self.tables@, name@),
            },
    {
        let n = self.tables.len();
        let mut i: usize = 0;
        while i < n
            invariant
                self.wf(),
                0 <= i <= n,
                n == self.tables@.len(),
                forall|k: int| 0 <= k < i ==> (#[trigger] self.tables@[k]).table.name@ != name@,
            decreases n - i,
        {
            if str_eq(self.tables[i].table.name.as_str(), name) {
                proof {
                    assert(self.tables@[i as int].table.name@ == name@);
                    assert(store_has(self.tables@, name@));
                    let j = store_at(self.tables@, name@);
                    assert(0 <= j < self.tables@.len() && self.tables@[j].table.name@ == name@);
                    if j < i as int {
                        assert(self.tables@[j].table.name@ != self.tables@[i as int].table.name@);
                    }
                    if (i as int) < j {
                        assert(self.tables@[i as int].table.name@ != self.tables@[j].table.name@);
                    }
                }
                return Some(i);
            }
            i = i + 1;
        }
        None
    }

    /// The registered definition of the named table, if any.
    pub fn get_table(&self, name: &str) -> (r: Option<&Table>)
        requires
            self.wf(),
        ensures
            match r {
                Some(t) => store_has(self.tables@, name@) && *t == self.tables@[store_at(
                    self.tables@,
                    name@,
                )].table,
                None => !store_has(self.tables@, name@),
            },
    {
        match self.find_index(name) {
            Some(i) => Some(&self.tables[i].table),
            None => None,
        }
    }

    /// Registers a table and allocates one empty column store per column.
    /// Fails, leaving everything unchanged, when a table of that name
    /// already exists, when the definition repeats a column name, or when
    /// the table id space is exhausted.
    pub fn create_table(&mut self, table: Table) -> (r: Result<(), DbError>)
        requires
            old(self).wf(),
        ensures
            final(self).wf(),
            r is Ok <==> !store_has(old(self).tables@, table.name@) && table.columns@.len() > 0
                && distinct_columns(table.columns@) && old(self).next_table_id < u64::MAX,
            r is Ok ==> {
                &&& final(self).tables@.len() == old(self).tables@.len() + 1
                &&& final(self).tables@.drop_last() == old(self).tables@
                &&& final(self).tables@.last().table == table
                &&& final(self).tables@.last().metadata.row_count == 0
                &&& final(self).tables@.last().metadata.table_id == old(self).next_table_id
                &&& final(self).tables@.last().columns@.len() == table.columns@.len()
                &&& forall|j: int|
                    0 <= j < table.columns@.len()
                        ==> (#[trigger] final(self).tables@.last().columns@[j])@.len() == 0
            },
            r is Err ==> *final(self) == *old(self) && (r matches Err(e) && (e matches
                DbError::StorageError(_) || e matches DbError::SchemaError(_))),
    {
        if matches!(self.find_index(table.name.as_str()), Some(_)) {
            return Err(DbError::StorageError(String::from_str("table already exists")));
        }
        if self.next_table_id == u64::MAX {
            return Err(DbError::StorageError(String::from_str("table id space exhausted")));
        }
        if table.columns.len() == 0 {
            return Err(DbError::SchemaError(String::from_str("table needs at least one column")));
        }
        // reject duplicate column names so lookups stay unambiguous
        let ncols = table.columns.len();
        let mut a: usize = 0;
        while a < ncols
            invariant
                *self == *old(self),
                self.wf(),
                0 <= a <= ncols,
                ncols == table.columns@.len(),
                forall|i: int, j: int|
                    0 <= i < j < a ==> table.columns@[i].name@ != table.columns@[j].name@,
                forall|i: int, j: int|
                    0 <= i < a && i < j < ncols ==> table.columns@[i].name@
                        != table.columns@[j].name@,
            decreases ncols - a,
        {
            let mut b: usize = a + 1;
            while b < ncols
                invariant
                    *self == *old(self),
                    self.wf(),
                    0 <= a < b <= ncols,
                    ncols == table.columns@.len(),
                    forall|j: int| a < j < b ==> table.columns@[a as int].name@
                        != table.columns@[j].name@,
                decreases ncols - b,
            {
                if str_eq(table.columns[a].name.as_str(), table.columns[b].name.as_str()) {
                    return Err(DbError::SchemaError(String::from_str("duplicate column name")));
                }
                b = b + 1;
            }
            a = a + 1;
        }
        let mut stores: Vec<Vec<Value>> = Vec::new();
        let mut meta_cols: Vec<ColumnMetadata> = Vec::new();
        let mut j: usize = 0;
        while j < ncols
            invariant
                *self == *old(self),
                self.wf(),
                0 <= j <= ncols,
                ncols == table.columns@.len(),
                stores@.len() == j,
                forall|k: int| 0 <= k < j ==> (#[trigger] stores@[k])@.len() == 0,
            decreases ncols - j,
        {
            stores.push(Vec::new());
            meta_cols.push(
                ColumnMetadata {
                    column_id: j as u64,
                    name: table.columns[j].name.clone(),
                    data_type: table.columns[j].data_type,
                    is_nullable: table.columns[j].is_nullable,
                    is_primary_key: table.columns[j].is_primary_key,
                    is_unique: table.columns[j].is_unique,
                    default_value: match &table.columns[j].default_value {
                        Some(v) => Some(v.clone()),
                        None => None,
                    },
                    compression: crate::types::CompressionType::Plain,
                },
            );
            j = j + 1;
        }
        let metadata = TableMetadata {
            table_id: self.next_table_id,
            row_count: 0,
            created_at: self.clock,
            updated_at: self.clock,
            columns: meta_cols,
        };
        self.next_table_id = self.next_table_id + 1;
        let ghost pre = self.tables@;
        self.tables.push(TableStore { table, metadata, columns: stores });
        proof {
            assert(final(self).tables@.drop_last() =~= pre);
            assert forall|i: int, j2: int|
                0 <= i < j2 < self.tables@.len() implies self.tables@[i].table.name@
                != self.tables@[j2].table.name@ by {
                if j2 == pre.len() as int {
                    assert(!store_has(pre, self.tables@[j2].table.name@));
                    if self.tables@[i].table.name@ == self.tables@[j2].table.name@ {
                        assert(store_has(pre, self.tables@[j2].table.name@));
                    }
                }
            }
        }
        Ok(())
    }

    /// Unregisters the named table and discards its column stores.
    pub fn drop_table(&mut self, name: &str) -> (r: Result<(), DbError>)
        requires
            old(self).wf(),
        ensures
            final(self).wf(),
            match r {
                Ok(()) => store_has(old(self).tables@, name@) && final(self).tables@ == old(
                    self,
                ).tables@.remove(store_at(old(self).tables@, name@)),
                Err(e) => !store_has(old(self).tables@, name@) && (e matches
                    DbError::StorageError(_)) && *final(self) == *old(self),
            },
    {
        match self.find_index(name) {
            Some(i) => {
                proof {
                    old(self).tables@.remove_ensures(i as int);
                }
                self.tables.remove(i);
                proof {
                    assert forall|p: int, q: int|
                        0 <= p < q < self.tables@.len() implies self.tables@[p].table.name@
                        != self.tables@[q].table.name@ by {
                        assert(self.tables@[p] == if p < i as int {
                            old(self).tables@[p]
                        } else {
                            old(self).tables@[p + 1]
                        });
                        assert(self.tables@[q] == if q < i as int {
                            old(self).tables@[q]
                        } else {
                            old(self).tables@[q + 1]
                        });
                    }
                    assert forall|p: int| 0 <= p < self.tables@.len() implies (#[trigger] self
                        .tables@[p]).wf() by {
                        assert(self.tables@[p] == if p < i as int {
                            old(self).tables@[p]
                        } else {
                            old(self).tables@[p + 1]
                        });
                    }
                }
                Ok(())
            },
            None => Err(DbError::StorageError(String::from_str("table not found"))),
        }
    }

    /// Appends one logical row across all column stores as a single
    /// logical unit: every validation happens before any store changes,
    /// so a failed insert leaves no column half-written. Succeeds exactly
    /// when the table exists, the value count matches the column count,
    /// every value's tag matches its column's declared type, and the row
    /// count has room; the row count then grows by one.
    pub fn insert_row(&mut self, table: &str, values: Vec<Value>) -> (r: Result<(), DbError>)
        requires
            old(self).wf(),
        ensures
            final(self).wf(),
            r is Ok <==> store_has(old(self).tables@, table@) && ({
                let e = old(self).tables@[store_at(old(self).tables@, table@)];
                &&& values@.len() == e.table.columns@.len()
                &&& (forall|j: int|
                    0 <= j < values@.len() ==> (#[trigger] values@[j])@.data_type()
                        == e.table.columns@[j].data_type)
                &&& e.metadata.row_count < u64::MAX
            }),
            r is Ok ==> ({
                let ts = old(self).tables@;
                let i = store_at(ts, table@);
                &&& final(self).tables@.len() == ts.len()
                &&& (forall|k: int|
                    0 <= k < ts.len() && k != i ==> final(self).tables@[k] == ts[k])
                &&& final(self).tables@[i].table == ts[i].table
                &&& final(self).tables@[i].metadata.row_count == ts[i].metadata.row_count + 1
                &&& final(self).tables@[i].columns@.len() == ts[i].columns@.len()
                &&& (forall|j: int|
                    0 <= j < values@.len() ==> (#[trigger] final(self).tables@[i].columns@[j])@
                        == ts[i].columns@[j]@.push(values@[j]))
            }),
            r matches Err(e) ==> *final(self) == *old(self) && (if !store_has(
                old(self).tables@,
                table@,
            ) {
                e matches DbError::SchemaError(_)
            } else {
                let en = old(self).tables@[store_at(old(self).tables@, table@)];
                if values@.len() != en.table.columns@.len() {
                    e matches DbError::InvalidData(_)
                } else if exists|j: int|
                    0 <= j < values@.len() && (#[trigger] values@[j])@.data_type()
                        != en.table.columns@[j].data_type {
                    e matches DbError::TypeMismatch
                } else {
                    e matches DbError::StorageError(_)
                }
            }),
    {
        let idx = match self.find_index(table) {
            Some(i) => i,
            None => {
                return Err(DbError::SchemaError(String::from_str("table not found")));
            },
        };
        let ncols = self.tables[idx].table.columns.len();
        if values.len() != ncols {
            return Err(DbError::InvalidData(String::from_str("value count mismatch")));
        }
        let mut j: usize = 0;
        while j < ncols
            invariant
                *self == *old(self),
                self.wf(),
                idx < self.tables@.len(),
                store_has(self.tables@, table@),
                store_at(self.tables@, table@) == idx as int,
                ncols == self.tables@[idx as int].table.columns@.len(),
                values@.len() == ncols,
                0 <= j <= ncols,
                forall|k: int|
                    0 <= k < j ==> (#[trigger] values@[k])@.data_type()
                        == self.tables@[idx as int].table.columns@[k].data_type,
            decreases ncols - j,
        {
            let dt = values[j].data_type();
            if !(dt == self.tables[idx].table.columns[j].data_type) {
                return Err(DbError::TypeMismatch);
            }
            j = j + 1;
        }
        if self.tables[idx].metadata.row_count == u64::MAX {
            return Err(DbError::StorageError(String::from_str("row count at capacity")));
        }
        let ghost ts0 = self.tables@;
        let ghost entry0 = self.tables@[idx as int];
        let mut entry = self.tables.remove(idx);
        let mut vals = values;
        let mut j: usize = 0;
        while j < ncols
            invariant
                0 <= j <= ncols,
                ncols == entry0.table.columns@.len(),
                entry0.wf(),
                entry.table == entry0.table,
                entry.metadata == entry0.metadata,
                entry.columns@.len() == ncols,
                entry0.columns@.len() == ncols,
                vals@ =~= values@.skip(j as int),
                values@.len() == ncols,
                forall|k: int|
                    0 <= k < j ==> (#[trigger] entry.columns@[k])@ == entry0.columns@[k]@.push(
                        values@[k],
                    ),
                forall|k: int| j <= k < ncols ==> entry.columns@[k] == entry0.columns@[k],
            decreases ncols - j,
        {
            let v = vals.remove(0);
            proof {
                assert(values@.skip(j as int)[0] == values@[j as int]);
                assert(vals@ =~= values@.skip(j as int + 1));
            }
            let mut col = entry.columns.remove(j);
            col.push(v);
            let ghost cols_mid = entry.columns@;
            entry.columns.insert(j, col);
            proof {
                cols_mid.insert_ensures(j as int, col);
                assert forall|k: int| 0 <= k <= j implies (#[trigger] entry.columns@[k])@
                    == entry0.columns@[k]@.push(values@[k]) || (k < j && entry.columns@[k]@
                    == entry0.columns@[k]@.push(values@[k])) by {
                    if k < j {
                        assert(entry.columns@[k] == cols_mid[k]);
                    } else {
                        assert(entry.columns@[j as int] == col);
                    }
                }
            }
            j = j + 1;
        }
        entry.metadata.row_count = entry.metadata.row_count + 1;
        entry.metadata.updated_at = self.clock;
        let ghost removed = self.tables@;
        self.tables.insert(idx, entry);
        proof {
            ts0.remove_ensures(idx as int);
            removed.insert_ensures(idx as int, entry);
            assert(self.tables@ =~= ts0.update(idx as int, entry));
            assert forall|p: int, q: int|
                0 <= p < q < self.tables@.len() implies self.tables@[p].table.name@
                != self.tables@[q].table.name@ by {
                assert(self.tables@[p].table.name@ == ts0[p].table.name@);
                assert(self.tables@[q].table.name@ == ts0[q].table.name@);
            }
            assert forall|p: int| 0 <= p < self.tables@.len() implies (#[trigger] self
                .tables@[p]).wf() by {
                if p != idx as int {
                    assert(self.tables@[p] == ts0[p]);
                }
            }
        }
        Ok(())
    }

    /// The index of the named column in the entry at `idx`.
    pub(crate) fn find_column(&self, idx: usize, column: &str) -> (r: Option<usize>)
        requires
            self.wf(),
            idx < self.tables@.len(),
        ensures
            match r {
                Some(c) => has_column(self.tables@[idx as int].table.columns@, column@) && c
                    < self.tables@[idx as int].table.columns@.len() && crate::schema::column_at(
                    self.tables@[idx as int].table.columns@,
                    column@,
                ) == c as int && self.tables@[idx as int].table.columns@[c as int].name@ == column@,
                None => !has_column(self.tables@[idx as int].table.columns@, column@),
            },
    {
        let n = self.tables[idx].table.columns.len();
        let mut i: usize = 0;
        while i < n
            invariant
                self.wf(),
                idx < self.tables@.len(),
                0 <= i <= n,
                n == self.tables@[idx as int].table.columns@.len(),
                forall|k: int|
                    0 <= k < i ==> self.tables@[idx as int].table.columns@[k].name@ != column@,
            decreases n - i,
        {
            if str_eq(self.tables[idx].table.columns[i].name.as_str(), column) {
                proof {
                    let cols = self.tables@[idx as int].table.columns@;
                    assert(cols[i as int].name@ == column@);
                    assert(has_column(cols, column@));
                    let j = crate::schema::column_at(cols, column@);
                    assert(0 <= j < cols.len() && cols[j].name@ == column@);
                    assert(distinct_columns(cols));
                    if j < i as int {
                        assert(cols[j].name@ != cols[i as int].name@);
                    }
                    if (i as int) < j {
                        assert(cols[i as int].name@ != cols[j].name@);
                    }
                }
                return Some(i);
            }
            i = i + 1;
        }
        None
    }

    /// Clones every column of the entry at `idx` into a batch keyed by
    /// column name.
    pub(crate) fn entry_batch(&self, idx: usize) -> (r: ColumnBatch)
        requires
            self.wf(),
            idx < self.tables@.len(),
        ensures
            r.wf(),
            r@ == self.tables@[idx as int].batch(),
    {
        let n = self.tables[idx].table.columns.len();
        let mut batch = ColumnBatch::new();
        let mut j: usize = 0;
        while j < n
            invariant
                self.wf(),
                idx < self.tables@.len(),
                0 <= j <= n,
                n == self.tables@[idx as int].table.columns@.len(),
                n == self.tables@[idx as int].columns@.len(),
                batch.wf(),
                batch@.len() == j,
                forall|k: int|
                    0 <= k < j ==> batch@[k] == (#[trigger] self.tables@[idx as int].batch()[k]),
            decreases n - j,
        {
            let ghost e = self.tables@[idx as int];
            let name = self.tables[idx].table.columns[j].name.clone();
            let vals = clone_values(&self.tables[idx].columns[j]);
            proof {
                assert(distinct_columns(e.table.columns@));
                if crate::condition::batch_has(batch@, name@) {
                    let k = crate::condition::batch_at(batch@, name@);
                    assert(0 <= k < batch@.len() && batch@[k].0 == name@);
                    assert(batch@[k] == e.batch()[k]);
                    assert(e.table.columns@[k].name@ == name@);
                    assert(e.table.columns@[k].name@ != e.table.columns@[j as int].name@);
                }
            }
            batch.add(name, vals);
            proof {
                assert(batch@[j as int] == (e.batch()[j as int]));
            }
            j = j + 1;
        }
        proof {
            assert(batch@ =~= self.tables@[idx as int].batch());
        }
        batch
    }

    /// Reads one column's materialized values, keeping only the rows the
    /// predicate accepts (all rows when no predicate is given). The
    /// predicate is evaluated against every column of the table, which the
    /// manager reads internally. Fails when the table or column is
    /// unknown, or when some row fails to evaluate.
    pub fn read_column(&self, table: &str, column: &str, condition: Option<&Condition>) -> (r:
        Result<Vec<Value>, DbError>)
        requires
            self.wf(),
        ensures
            r is Ok <==> store_has(self.tables@, table@) && ({
                let e = self.tables@[store_at(self.tables@, table@)];
                has_column(e.table.columns@, column@) && spec_selected(
                    cond_of(condition),
                    e.batch(),
                    e.metadata.row_count as int,
                ) is Ok
            }),
            r matches Ok(vals) ==> ({
                let e = self.tables@[store_at(self.tables@, table@)];
                let ci = crate::schema::column_at(e.table.columns@, column@);
                spec_selected(cond_of(condition), e.batch(), e.metadata.row_count as int)
                    matches Ok(sel) && vals.deep_view() == project(e.columns@[ci].deep_view(), sel)
            }),
            r matches Err(e) ==> (if !store_has(self.tables@, table@) {
                e matches DbError::SchemaError(_)
            } else if !has_column(
                self.tables@[store_at(self.tables@, table@)].table.columns@,
                column@,
            ) {
                e matches DbError::SchemaError(_)
            } else {
                e matches DbError::InvalidData(_) || e matches DbError::TypeMismatch
            }),
    {
        let idx = match self.find_index(table) {
            Some(i) => i,
            None => {
                return Err(DbError::SchemaError(String::from_str("table not found")));
            },
        };
        let ci = match self.find_column(idx, column) {
            Some(c) => c,
            None => {
                return Err(DbError::SchemaError(String::from_str("column not found")));
            },
        };
        let ghost e = self.tables@[idx as int];
        let nrows = self.tables[idx].columns[ci].len();
        proof {
            assert(nrows == e.metadata.row_count);
        }
        let batch = self.entry_batch(idx);
        let ghost colv = e.columns@[ci as int].deep_view();
        let mut out: Vec<Value> = Vec::new();
        proof {
            assert(out.deep_view() =~= project(colv, Seq::<int>::empty()));
        }
        let mut i: usize = 0;
        while i < nrows
            invariant
                self.wf(),
                idx < self.tables@.len(),
                store_has(self.tables@, table@),
                store_at(self.tables@, table@) == idx as int,
                has_column(self.tables@[idx as int].table.columns@, column@),
                crate::schema::column_at(self.tables@[idx as int].table.columns@, column@)
                    == ci as int,
                ci < self.tables@[idx as int].columns@.len(),
                e == self.tables@[idx as int],
                nrows == e.metadata.row_count,
                e.wf(),
                batch.wf(),
                batch@ == e.batch(),
                colv == e.columns@[ci as int].deep_view(),
                colv.len() == nrows,
                0 <= i <= nrows,
                spec_selected(cond_of(condition), e.batch(), i as int) matches Ok(sel)
                    && out.deep_view() == project(colv, sel) && (forall|t: int|
                    0 <= t < sel.len() ==> 0 <= #[trigger] sel[t] < i),
            decreases nrows - i,
        {
            let keep = match condition {
                Some(c) => {
                    match crate::condition::evaluate_condition_row(c, &batch, i) {
                        Ok(b) => b,
                        Err(err) => {
                            proof {
                                lemma_selected_err_mono(
                                    cond_of(condition),
                                    e.batch(),
                                    i as int + 1,
                                    nrows as int,
                                );
                            }
                            return Err(err);
                        },
                    }
                },
                None => true,
            };
            let ghost sel = spec_selected(cond_of(condition), e.batch(), i as int)->Ok_0;
            if keep {
                let ghost pre_vec = out@;
                let ghost pre_deep = out.deep_view();
                out.push(self.tables[idx].columns[ci][i].clone());
                proof {
                    let post = out.deep_view();
                    assert(pre_deep == project(colv, sel));
                    assert(pre_deep.len() == pre_vec.len());
                    assert(sel.len() == pre_vec.len());
                    assert(post.len() == out@.len());
                    assert forall|t: int|
                        0 <= t < sel.len() implies post[t] == #[trigger] project(colv, sel)[t] by {
                        assert(post[t] == out@[t]@);
                        assert(out@[t] == pre_vec[t]);
                        assert(pre_deep[t] == pre_vec[t]@);
                    }
                    assert(post[sel.len() as int] == out@[pre_vec.len() as int]@);
                    assert(out@[pre_vec.len() as int]@ == e.columns@[ci as int]@[i as int]@);
                    assert(colv[i as int] == e.columns@[ci as int]@[i as int]@);
                    lemma_project_push(colv, sel, post, i as int);
                }
            }
            i = i + 1;
        }
        Ok(out)
    }

    /// Removes every row the predicate matches (every row when no
    /// predicate is given) by rewriting each column store without the
    /// matched positions; the row count shrinks by the number removed.
    /// The predicate is evaluated before anything changes: a failing row
    /// leaves every store untouched.
    pub fn delete_rows(&mut self, table: &str, condition: Option<&Condition>) -> (r: Result<
        (),
        DbError,
    >)
        requires
            old(self).wf(),
        ensures
            final(self).wf(),
            r is Ok <==> store_has(old(self).tables@, table@) && ({
                let e = old(self).tables@[store_at(old(self).tables@, table@)];
                spec_remaining(cond_of(condition), e.batch(), e.metadata.row_count as int) is Ok
            }),
            r is Ok ==> ({
                let ts = old(self).tables@;
                let i = store_at(ts, table@);
                let e = ts[i];
                spec_remaining(cond_of(condition), e.batch(), e.metadata.row_count as int)
                    matches Ok(rem) && {
                    &&& final(self).tables@.len() == ts.len()
                    &&& (forall|k: int|
                        0 <= k < ts.len() && k != i ==> final(self).tables@[k] == ts[k])
                    &&& final(self).tables@[i].table == e.table
                    &&& final(self).tables@[i].metadata.row_count == rem.len()
                    &&& final(self).tables@[i].columns@.len() == e.columns@.len()
                    &&& (forall|j: int|
                        0 <= j < e.columns@.len()
                            ==> (#[trigger] final(self).tables@[i].columns@[j]).deep_view()
                            == project(e.columns@[j].deep_view(), rem))
                }
            }),
            r matches Err(e) ==> *final(self) == *old(self) && (if !store_has(
                old(self).tables@,
                table@,
            ) {
                e matches DbError::SchemaError(_)
            } else {
                e matches DbError::InvalidData(_) || e matches DbError::TypeMismatch
            }),
    {
        let idx = match self.find_index(table) {
            Some(i) => i,
            None => {
                return Err(DbError::SchemaError(String::from_str("table not found")));
            },
        };
        let ghost ts0 = self.tables@;
        let ghost e = self.tables@[idx as int];
        let ncols = self.tables[idx].table.columns.len();
        let nrows_u64 = self.tables[idx].metadata.row_count;
        let batch = self.entry_batch(idx);
        // first pass: evaluate the predicate for every row, before any change
        let mut mask: Vec<bool> = Vec::new();
        let ghost nrows = e.metadata.row_count as int;
        let mut i: usize = 0;
        let total: usize = self.tables[idx].columns[0].len();
        proof {
            assert(e.columns@[0]@.len() == e.metadata.row_count);
        }
        while i < total
            invariant
                self.wf(),
                idx < self.tables@.len(),
                store_has(self.tables@, table@),
                store_at(self.tables@, table@) == idx as int,
                e == self.tables@[idx as int],
                e.wf(),
                batch.wf(),
                batch@ == e.batch(),
                total == nrows,
                ncols == e.columns@.len(),
                nrows == e.metadata.row_count,
                0 <= i <= total,
                mask@.len() == i,
                spec_remaining(cond_of(condition), e.batch(), i as int) is Ok,
                forall|k: int|
                    0 <= k < i ==> spec_keep(cond_of(condition), e.batch(), k) == Ok::<bool, ()>(
                        (#[trigger] mask@[k]),
                    ),
                *self == *old(self),
            decreases total - i,
        {
            let matched = match condition {
                Some(c) => {
                    match crate::condition::evaluate_condition_row(c, &batch, i) {
                        Ok(b) => b,
                        Err(err) => {
                            proof {
                                lemma_remaining_err_mono(
                                    cond_of(condition),
                                    e.batch(),
                                    i as int + 1,
                                    nrows,
                                );
                            }
                            return Err(err);
                        },
                    }
                },
                None => true,
            };
            mask.push(matched);
            i = i + 1;
        }
        // second pass: rewrite every column without the matched rows
        let ghost rem = spec_remaining(cond_of(condition), e.batch(), nrows)->Ok_0;
        proof {
            lemma_remaining_unmatched(cond_of(condition), e.batch(), nrows, rem);
        }
        let mut entry = self.tables.remove(idx);
        let mut new_cols: Vec<Vec<Value>> = Vec::new();
        let mut j: usize = 0;
        while j < ncols
            invariant
                0 <= j <= ncols,
                ncols == entry.columns@.len(),
                entry == e,
                e.wf(),
                total == nrows,
                nrows == e.metadata.row_count,
                ts0 == old(self).tables@,
                idx < ts0.len(),
                store_has(ts0, table@),
                store_at(ts0, table@) == idx as int,
                e == ts0[idx as int],
                self.tables@ == ts0.remove(idx as int),
                self.next_table_id == old(self).next_table_id,
                self.clock == old(self).clock,
                mask@.len() == total,
                forall|k: int|
                    0 <= k < total ==> spec_keep(cond_of(condition), e.batch(), k) == Ok::<
                        bool,
                        (),
                    >((#[trigger] mask@[k])),
                spec_remaining(cond_of(condition), e.batch(), nrows) == Ok::<Seq<int>, ()>(rem),
                new_cols@.len() == j,
                forall|k: int|
                    0 <= k < j ==> (#[trigger] new_cols@[k]).deep_view() == project(
                        e.columns@[k].deep_view(),
                        rem,
                    ),
                rem.len() <= nrows,
                forall|t: int| 0 <= t < rem.len() ==> 0 <= #[trigger] rem[t] < nrows,
            decreases ncols - j,
        {
            let ghost colv = e.columns@[j as int].deep_view();
            let mut col: Vec<Value> = Vec::new();
            proof {
                assert(col.deep_view() =~= project(colv, Seq::<int>::empty()));
            }
            let mut k: usize = 0;
            while k < total
                invariant
                    0 <= k <= total,
                    j < ncols,
                    ncols == entry.columns@.len(),
                    entry == e,
                    e.wf(),
                    total == nrows,
                    nrows == e.metadata.row_count,
                    colv == e.columns@[j as int].deep_view(),
                    colv.len() == nrows,
                    mask@.len() == total,
                    forall|t: int|
                        0 <= t < total ==> spec_keep(cond_of(condition), e.batch(), t) == Ok::<
                            bool,
                            (),
                        >((#[trigger] mask@[t])),
                    spec_remaining(cond_of(condition), e.batch(), k as int) matches Ok(r0)
                        && col.deep_view() == project(colv, r0) && (forall|t: int|
                        0 <= t < r0.len() ==> 0 <= #[trigger] r0[t] < k),
                decreases total - k,
            {
                let ghost r0 = spec_remaining(cond_of(condition), e.batch(), k as int)->Ok_0;
                if !mask[k] {
                    let ghost pre_vec = col@;
                    let ghost pre_deep = col.deep_view();
                    col.push(entry.columns[j][k].clone());
                    proof {
                        let post = col.deep_view();
                        assert(pre_deep == project(colv, r0));
                        assert(pre_deep.len() == pre_vec.len());
                        assert(r0.len() == pre_vec.len());
                        assert(post.len() == col@.len());
                        assert forall|t: int|
                            0 <= t < r0.len() implies post[t] == #[trigger] project(
                            colv,
                            r0,
                        )[t] by {
                            assert(post[t] == col@[t]@);
                            assert(col@[t] == pre_vec[t]);
                            assert(pre_deep[t] == pre_vec[t]@);
                        }
                        assert(post[r0.len() as int] == col@[pre_vec.len() as int]@);
                        assert(col@[pre_vec.len() as int]@ == e.columns@[j as int]@[k as int]@);
                        assert(colv[k as int] == e.columns@[j as int]@[k as int]@);
                        lemma_project_push(colv, r0, post, k as int);
                    }
                }
                k = k + 1;
            }
            new_cols.push(col);
            j = j + 1;
        }
        let ghost rem_len = rem.len();
        proof {
            assert(rem_len <= u64::MAX);
        }
        let mut kept_count: usize = 0;
        let mut t: usize = 0;
        while t < total
            invariant
                0 <= t <= total,
                mask@.len() == total,
                kept_count <= t,
                total == nrows,
                ts0 == old(self).tables@,
                idx < ts0.len(),
                store_has(ts0, table@),
                store_at(ts0, table@) == idx as int,
                e == ts0[idx as int],
                e.wf(),
                ncols == entry.columns@.len(),
                ncols == e.columns@.len(),
                new_cols@.len() == ncols,
                forall|k2: int|
                    0 <= k2 < ncols ==> (#[trigger] new_cols@[k2]).deep_view() == project(
                        e.columns@[k2].deep_view(),
                        rem,
                    ),
                entry.table == e.table,
                entry.metadata == e.metadata,
                spec_remaining(cond_of(condition), e.batch(), nrows) == Ok::<Seq<int>, ()>(rem),
                rem.len() <= nrows,
                self.tables@ == ts0.remove(idx as int),
                self.next_table_id == old(self).next_table_id,
                self.clock == old(self).clock,
                forall|k2: int|
                    0 <= k2 < total ==> spec_keep(cond_of(condition), e.batch(), k2) == Ok::<
                        bool,
                        (),
                    >((#[trigger] mask@[k2])),
                spec_remaining(cond_of(condition), e.batch(), t as int) matches Ok(r1)
                    && kept_count == r1.len(),
            decreases total - t,
        {
            if !mask[t] {
                kept_count = kept_count + 1;
            }
            t = t + 1;
        }
        proof {
            assert(kept_count == rem.len());
        }
        entry.columns = new_cols;
        entry.metadata.row_count = kept_count as u64;
        entry.metadata.updated_at = self.clock;
        let ghost removed_seq = self.tables@;
        self.tables.insert(idx, entry);
        proof {
            ts0.remove_ensures(idx as int);
            removed_seq.insert_ensures(idx as int, entry);
            assert(self.tables@ =~= ts0.update(idx as int, entry));
            assert forall|p: int, q: int|
                0 <= p < q < self.tables@.len() implies self.tables@[p].table.name@
                != self.tables@[q].table.name@ by {
                assert(self.tables@[p].table.name@ == ts0[p].table.name@);
                assert(self.tables@[q].table.name@ == ts0[q].table.name@);
            }
            assert forall|p: int| 0 <= p < self.tables@.len() implies (#[trigger] self
                .tables@[p]).wf() by {
                if p != idx as int {
                    assert(self.tables@[p] == ts0[p]);
                } else {
                    assert forall|j2: int|
                        0 <= j2 < entry.columns@.len() implies (#[trigger] entry
                        .columns@[j2])@.len() == entry.metadata.row_count by {
                        assert(entry.columns@[j2].deep_view() == project(
                            e.columns@[j2].deep_view(),
                            rem,
                        ));
                        assert(entry.columns@[j2].deep_view().len() == entry.columns@[j2]@.len());
                    }
                }
            }
        }
        Ok(())
    }
}

} // verus!
