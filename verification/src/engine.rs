//! The query engine: consumes a structured query, resolves the columns it
//! needs through the catalog, reads them from the storage manager, and
//! performs projection, filtering, joins and aggregation. Row-level work
//! runs sequentially, so output rows keep the storage row order; the
//! engine owns the storage manager and callers serialize whole queries.

use vstd::prelude::*;

use crate::condition::{
    batch_at, batch_has, cond_columns, collect_condition_columns, evaluate_condition_row,
    names_contain, BatchView, ColumnBatch, Condition,
};
use crate::schema::{column_at, has_column, Column, Table};
use crate::storage::{
    cond_of, project, spec_selected, store_at, store_has, StorageManager, TableStore,
};
use crate::types::{str_eq, DataType, DbError, Value, ValueView};

verus! {

/// An aggregation request over one column. `Count` counts the rows of the
/// row-identity column, named `ID`.
#[derive(Debug)]
pub enum Aggregation {
    Count,
    Sum(String),
    Avg(String),
    Min(String),
    Max(String),
}

/// A structured query, as the external parser produces it.
#[derive(Debug)]
pub enum Query {
    Select { table: String, columns: Vec<String>, condition: Option<Condition> },
    SelectAggregate { table: String, aggregations: Vec<Aggregation>, condition: Option<Condition> },
    Join {
        left_table: String,
        right_table: String,
        left_column: String,
        right_column: String,
        columns: Vec<String>,
        condition: Option<Condition>,
    },
    Insert { table: String, values: Vec<Value> },
    CreateTable { table: String, columns: Vec<(String, DataType)> },
    Delete { table: String, condition: Option<Condition> },
    DropTable { table: String },
    StartTransaction,
    Commit,
    Rollback,
}

/// One aggregation's outcome. `Count`, `Min` and `Max` finish inside the
/// engine; `Sum` and `Avg` hand out the exact numeric terms in row order,
/// for the caller to fold in floating-point arithmetic, which this
/// library does not perform. An `Avg` divides the folded sum by the
/// number of terms (zero terms yield zero).
#[derive(Debug)]
pub enum AggResult {
    Scalar(Value),
    Sum { terms: Vec<Value> },
    Avg { terms: Vec<Value> },
}

/// The mathematical shape of an aggregation outcome.
pub enum AggView {
    Scalar(ValueView),
    Sum(Seq<ValueView>),
    Avg(Seq<ValueView>),
}

impl View for AggResult {
    type V = AggView;

    open spec fn view(&self) -> AggView {
        match self {
            AggResult::Scalar(v) => AggView::Scalar(v@),
            AggResult::Sum { terms } => AggView::Sum(terms.deep_view()),
            AggResult::Avg { terms } => AggView::Avg(terms.deep_view()),
        }
    }
}

impl DeepView for AggResult {
    type V = AggView;

    open spec fn deep_view(&self) -> AggView {
        self.view()
    }
}

/// What a query evaluates to: a set of rows, or one aggregation outcome
/// per requested aggregation (together they form one output row).
#[derive(Debug)]
pub enum Execution {
    Rows(Vec<Vec<Value>>),
    Aggregates(Vec<AggResult>),
}

/// The projected column names of a select: the requested ones, or all of
/// the table's columns in declared order when none were requested.
pub open spec fn resolved_columns(t: Table, columns: Seq<String>) -> Seq<Seq<char>> {
    if columns.len() == 0 {
        t.columns@.map_values(|c: Column| c.name@)
    } else {
        columns.map_values(|s: String| s@)
    }
}

/// One projected output row: the named columns' values at row `i`.
pub open spec fn spec_row(batch: BatchView, proj: Seq<Seq<char>>, i: int) -> Seq<ValueView> {
    proj.map_values(|name: Seq<char>| batch[batch_at(batch, name)].1[i])
}

/// The full select result: the projection of every row the predicate
/// keeps, in storage row order.
pub open spec fn spec_select_rows(
    e: TableStore,
    proj: Seq<Seq<char>>,
    cond: Option<Condition>,
) -> Result<Seq<Seq<ValueView>>, ()> {
    match spec_selected(cond, e.batch(), e.metadata.row_count as int) {
        Ok(sel) => Ok(sel.map_values(|i: int| spec_row(e.batch(), proj, i))),
        Err(()) => Err(()),
    }
}

/// Whether every name of `proj` is a column of `t`.
pub open spec fn columns_exist(t: Table, proj: Seq<Seq<char>>) -> bool {
    forall|k: int| 0 <= k < proj.len() ==> has_column(t.columns@, #[trigger] proj[k])
}

/// Whether every column the predicate touches is a column of `t`.
pub open spec fn cond_columns_exist(t: Table, cond: Option<Condition>) -> bool {
    match cond {
        Option::None => true,
        Option::Some(c) => forall|s: Seq<char>|
            cond_columns(c).contains(s) ==> has_column(t.columns@, s),
    }
}

/// The query engine; it owns the storage manager it reads from.
#[derive(Debug)]
pub struct QueryEngine {
    pub storage: StorageManager,
}

impl QueryEngine {
    /// The engine is well formed when its storage is.
    pub open spec fn wf(self) -> bool {
        self.storage.wf()
    }

    /// An engine over the given storage manager.
    pub fn new(storage: StorageManager) -> (r: QueryEngine)
        requires
            storage.wf(),
        ensures
            r.wf(),
            r.storage == storage,
    {
        QueryEngine { storage }
    }

    /// Filtered projection over one table. Validates every requested and
    /// predicate-referenced column against the catalog before touching
    /// the stores; the rows come back in storage row order.
    fn execute_select(&self, table: &str, columns: &Vec<String>, condition: Option<&Condition>)
        -> (r: Result<Vec<Vec<Value>>, DbError>)
        requires
            self.wf(),
        ensures
            r is Ok <==> store_has(self.storage.tables@, table@) && ({
                let e = self.storage.tables@[store_at(self.storage.tables@, table@)];
                &&& columns_exist(e.table, columns@.map_values(|s: String| s@))
                &&& cond_columns_exist(e.table, cond_of(condition))
                &&& spec_selected(
                    cond_of(condition),
                    e.batch(),
                    e.metadata.row_count as int,
                ) is Ok
            }),
            r matches Ok(rows) ==> ({
                let e = self.storage.tables@[store_at(self.storage.tables@, table@)];
                spec_select_rows(e, columns@.map_values(|s: String| s@), cond_of(condition))
                    matches Ok(out) && rows.deep_view() == out
            }),
            r matches Err(e) ==> (e matches DbError::InvalidData(_) || e matches
                DbError::TypeMismatch),
    {
        let idx = match self.storage.find_index(table) {
            Some(i) => i,
            None => {
                return Err(DbError::InvalidData(String::from_str("table not found")));
            },
        };
        let ghost e = self.storage.tables@[idx as int];
        let ghost proj = columns@.map_values(|s: String| s@);
        // validate the projection against the catalog
        let ncols = columns.len();
        let mut m: usize = 0;
        while m < ncols
            invariant
                self.wf(),
                idx < self.storage.tables@.len(),
                store_has(self.storage.tables@, table@),
                store_at(self.storage.tables@, table@) == idx as int,
                e == self.storage.tables@[idx as int],
                proj == columns@.map_values(|s: String| s@),
                ncols == columns@.len(),
                0 <= m <= ncols,
                forall|k: int| 0 <= k < m ==> has_column(e.table.columns@, #[trigger] proj[k]),
            decreases ncols - m,
        {
            if !self.storage.tables[idx].table.has_column_named(columns[m].as_str()) {
                proof {
                    assert(proj[m as int] == columns@[m as int]@);
                    assert(!columns_exist(e.table, proj));
                }
                return Err(DbError::InvalidData(String::from_str("column not found")));
            }
            m = m + 1;
        }
        // validate every column the predicate touches
        if let Some(c) = condition {
            proof {
                assert(cond_of(condition) == Option::Some(*c));
            }
            let referenced = collect_condition_columns(c);
            let nref = referenced.len();
            let mut m2: usize = 0;
            while m2 < nref
                invariant
                    self.wf(),
                    idx < self.storage.tables@.len(),
                    store_has(self.storage.tables@, table@),
                    store_at(self.storage.tables@, table@) == idx as int,
                    e == self.storage.tables@[idx as int],
                    nref == referenced@.len(),
                    cond_of(condition) == Option::Some(*c),
                    0 <= m2 <= nref,
                    crate::condition::names_set(referenced@) == cond_columns(*c),
                    forall|k: int|
                        0 <= k < m2 ==> has_column(e.table.columns@, #[trigger] referenced@[k]@),
                decreases nref - m2,
            {
                if !self.storage.tables[idx].table.has_column_named(referenced[m2].as_str()) {
                    proof {
                        let nm = referenced@[m2 as int]@;
                        assert(names_contain(referenced@, nm)) by {
                            assert((m2 as int) < referenced@.len());
                            assert(referenced@[m2 as int]@ == nm);
                        }
                        assert(crate::condition::names_set(referenced@).contains(nm));
                        assert(cond_columns(*c).contains(nm));
                        assert(cond_of(condition) == Option::Some(*c));
                        assert(!has_column(e.table.columns@, nm));
                        assert(!cond_columns_exist(e.table, cond_of(condition)));
                    }
                    return Err(
                        DbError::InvalidData(String::from_str("column not found in condition")),
                    );
                }
                m2 = m2 + 1;
            }
            proof {
                assert forall|s: Seq<char>|
                    cond_columns(*c).contains(s) implies has_column(e.table.columns@, s) by {
                    assert(crate::condition::names_set(referenced@).contains(s));
                    assert(names_contain(referenced@, s));
                    let k = choose|k: int| 0 <= k < referenced@.len() && referenced@[k]@ == s;
                    assert(has_column(e.table.columns@, referenced@[k]@));
                }
            }
        }
        // materialize all of the table's columns and filter row by row
        let batch = self.storage.entry_batch(idx);
        let nrows = self.storage.tables[idx].columns[0].len();
        proof {
            assert(e.columns@[0]@.len() == e.metadata.row_count);
        }
        let mut out: Vec<Vec<Value>> = Vec::new();
        let mut i: usize = 0;
        while i < nrows
            invariant
                self.wf(),
                idx < self.storage.tables@.len(),
                store_has(self.storage.tables@, table@),
                store_at(self.storage.tables@, table@) == idx as int,
                e == self.storage.tables@[idx as int],
                e.wf(),
                proj == columns@.map_values(|s: String| s@),
                columns_exist(e.table, proj),
                ncols == columns@.len(),
                batch.wf(),
                batch@ == e.batch(),
                nrows == e.metadata.row_count,
                0 <= i <= nrows,
                spec_selected(cond_of(condition), e.batch(), i as int) matches Ok(sel)
                    && out.deep_view() == sel.map_values(|t: int| spec_row(e.batch(), proj, t)),
            decreases nrows - i,
        {
            let ghost sel = spec_selected(cond_of(condition), e.batch(), i as int)->Ok_0;
            let keep = match condition {
                Some(c) => {
                    match evaluate_condition_row(c, &batch, i) {
                        Ok(b) => b,
                        Err(err) => {
                            proof {
                                crate::storage::lemma_selected_err_mono(
                                    cond_of(condition),
                                    e.batch(),
                                    i as int + 1,
                                    nrows as int,
                                );
                            }
                            return Err(err);
                        },
                    }
                },
                None => true,
            };
            if keep {
                let mut row: Vec<Value> = Vec::new();
                let mut p: usize = 0;
                while p < ncols
                    invariant
                        self.wf(),
                        idx < self.storage.tables@.len(),
                        e == self.storage.tables@[idx as int],
                        e.wf(),
                        proj == columns@.map_values(|s: String| s@),
                        columns_exist(e.table, proj),
                        ncols == columns@.len(),
                        batch.wf(),
                        batch@ == e.batch(),
                        nrows == e.metadata.row_count,
                        i < nrows,
                        0 <= p <= ncols,
                        row@.len() == p,
                        forall|k: int|
                            0 <= k < p ==> (#[trigger] row@[k])@ == spec_row(
                                e.batch(),
                                proj,
                                i as int,
                            )[k],
                    decreases ncols - p,
                {
                    proof {
                        assert(has_column(e.table.columns@, proj[p as int]));
                        let ci = column_at(e.table.columns@, proj[p as int]);
                        assert(e.batch()[ci].0 == proj[p as int]);
                        assert(batch_has(e.batch(), proj[p as int]));
                    }
                    let vals = match batch.get(columns[p].as_str()) {
                        Some(v) => v,
                        None => {
                            proof {
                                assert(false);
                            }
                            return Err(DbError::InvalidData(String::from_str("column vanished")));
                        },
                    };
                    proof {
                        let ghost bi = batch_at(e.batch(), proj[p as int]);
                        assert(e.batch()[bi].1.len() == e.columns@[bi]@.len());
                        assert(vals.deep_view() == e.batch()[bi].1);
                        assert(vals@.len() == vals.deep_view().len());
                    }
                    row.push(vals[i].clone());
                    proof {
                        assert(row@[p as int]@ == vals@[i as int]@);
                        assert(vals@[i as int]@ == vals.deep_view()[i as int]);
                        assert(spec_row(e.batch(), proj, i as int)[p as int] == e.batch()[batch_at(
                            e.batch(),
                            proj[p as int],
                        )].1[i as int]);
                    }
                    p = p + 1;
                }
                let ghost pre_out = out.deep_view();
                out.push(row);
                proof {
                    assert(row.deep_view() =~= spec_row(e.batch(), proj, i as int));
                    assert(out.deep_view() =~= sel.map_values(
                        |t: int| spec_row(e.batch(), proj, t),
                    ).push(spec_row(e.batch(), proj, i as int)));
                    assert(sel.push(i as int).map_values(|t: int| spec_row(e.batch(), proj, t))
                        =~= sel.map_values(|t: int| spec_row(e.batch(), proj, t)).push(
                        spec_row(e.batch(), proj, i as int),
                    ));
                }
            }
            i = i + 1;
        }
        Ok(out)
    }

    /// Executes one structured query. Reads leave the storage unchanged;
    /// mutations behave as the storage manager's corresponding operation;
    /// transaction markers are accepted as no-ops. Row-producing queries
    /// answer with `Rows`, aggregations with one outcome per request.
    pub fn execute(&mut self, query: Query) -> (r: Result<Execution, DbError>)
        requires
            old(self).wf(),
        ensures
            final(self).wf(),
            match query {
                Query::Select { table, columns, condition } => ({
                    let ts = old(self).storage.tables@;
                    &&& final(self).storage == old(self).storage
                    &&& (r is Ok <==> store_has(ts, table@) && ({
                        let e = ts[store_at(ts, table@)];
                        &&& columns_exist(e.table, resolved_columns(e.table, columns@))
                        &&& cond_columns_exist(e.table, condition)
                        &&& spec_selected(condition, e.batch(), e.metadata.row_count as int) is Ok
                    }))
                    &&& (r matches Ok(ex) ==> (ex matches Execution::Rows(rows) && ({
                        let e = ts[store_at(ts, table@)];
                        spec_select_rows(e, resolved_columns(e.table, columns@), condition)
                            matches Ok(out) && rows.deep_view() == out
                    })))
                    &&& (r matches Err(e2) ==> (e2 matches DbError::InvalidData(_) || e2 matches
                        DbError::TypeMismatch))
                }),
                Query::SelectAggregate { table, aggregations, condition } => ({
                    let ts = old(self).storage.tables@;
                    &&& final(self).storage == old(self).storage
                    &&& (r is Ok <==> store_has(ts, table@) && spec_aggregate(
                        aggregations@,
                        ts[store_at(ts, table@)],
                        condition,
                    ) is Ok)
                    &&& (r matches Ok(ex) ==> (ex matches Execution::Aggregates(rs)
                        && spec_aggregate(aggregations@, ts[store_at(ts, table@)], condition)
                        matches Ok(out) && rs.deep_view() == out))
                    &&& (r matches Err(e2) ==> (e2 matches DbError::InvalidData(_) || e2 matches
                        DbError::TypeMismatch))
                }),
                Query::Join {
                    left_table,
                    right_table,
                    left_column,
                    right_column,
                    columns,
                    condition,
                } => ({
                    let ts = old(self).storage.tables@;
                    &&& final(self).storage == old(self).storage
                    &&& (r is Ok <==> ({
                        &&& read_ok(ts, left_table@, left_column@, condition)
                        &&& read_ok(ts, right_table@, right_column@, condition)
                        &&& ({
                            let lv = read_vals(ts, left_table@, left_column@, condition);
                            let rv = read_vals(ts, right_table@, right_column@, condition);
                            spec_join_setup(
                                ts,
                                columns@,
                                left_table@,
                                right_table@,
                                condition,
                                columns@.len() as int,
                                lv.len() as int,
                                rv.len() as int,
                            ) matches Ok(su) && spec_join_from(lv, rv, su.0, su.1, su.2, 0, 0)
                                is Ok
                        })
                    }))
                    &&& (r matches Ok(ex) ==> (ex matches Execution::Rows(rows) && ({
                        let lv = read_vals(ts, left_table@, left_column@, condition);
                        let rv = read_vals(ts, right_table@, right_column@, condition);
                        spec_join_setup(
                            ts,
                            columns@,
                            left_table@,
                            right_table@,
                            condition,
                            columns@.len() as int,
                            lv.len() as int,
                            rv.len() as int,
                        ) matches Ok(su) && (spec_join_from(lv, rv, su.0, su.1, su.2, 0, 0)
                            matches Ok(rws) && rows.deep_view() == rws)
                    })))
                    &&& (r matches Err(e2) ==> (e2 matches DbError::SchemaError(_) || e2 matches
                        DbError::InvalidData(_) || e2 matches DbError::TypeMismatch))
                }),
                Query::Insert { table, values } => ({
                    let ts = old(self).storage.tables@;
                    &&& (r is Ok <==> store_has(ts, table@) && ({
                        let e = ts[store_at(ts, table@)];
                        &&& values@.len() == e.table.columns@.len()
                        &&& (forall|j: int|
                            0 <= j < values@.len() ==> (#[trigger] values@[j])@.data_type()
                                == e.table.columns@[j].data_type)
                        &&& e.metadata.row_count < u64::MAX
                    }))
                    &&& (r matches Ok(ex) ==> (ex matches Execution::Rows(rows) && rows@.len()
                        == 0) && ({
                        let i = store_at(ts, table@);
                        &&& final(self).storage.tables@.len() == ts.len()
                        &&& (forall|k: int|
                            0 <= k < ts.len() && k != i ==> final(self).storage.tables@[k]
                                == ts[k])
                        &&& final(self).storage.tables@[i].table == ts[i].table
                        &&& final(self).storage.tables@[i].metadata.row_count == ts[
                            i
                        ].metadata.row_count + 1
                        &&& (forall|j: int|
                            0 <= j < values@.len()
                                ==> (#[trigger] final(self).storage.tables@[i].columns@[j])@ == ts[
                                i
                            ].columns@[j]@.push(values@[j]))
                    }))
                    &&& (r is Err ==> final(self).storage == old(self).storage)
                }),
                Query::CreateTable { table, columns } => ({
                    let ts = old(self).storage.tables@;
                    &&& (r is Ok <==> !store_has(ts, table@) && columns@.len() > 0 && (forall|
                        a: int,
                        b: int,
                    |
                        0 <= a < b < columns@.len() ==> (#[trigger] columns@[a]).0@ != (
                        #[trigger] columns@[b]).0@) && old(self).storage.next_table_id < u64::MAX)
                    &&& (r matches Ok(ex) ==> (ex matches Execution::Rows(rows) && rows@.len()
                        == 0) && ({
                        let e = final(self).storage.tables@.last();
                        &&& final(self).storage.tables@.len() == ts.len() + 1
                        &&& final(self).storage.tables@.drop_last() == ts
                        &&& e.table.name@ == table@
                        &&& e.table.columns@.len() == columns@.len()
                        &&& (forall|j: int|
                            0 <= j < columns@.len() ==> (#[trigger] e.table.columns@[j]).name@
                                == columns@[j].0@ && e.table.columns@[j].data_type
                                == columns@[j].1)
                        &&& e.metadata.row_count == 0
                    }))
                    &&& (r is Err ==> final(self).storage == old(self).storage)
                }),
                Query::Delete { table, condition } => ({
                    let ts = old(self).storage.tables@;
                    &&& (r is Ok <==> store_has(ts, table@) && ({
                        let e = ts[store_at(ts, table@)];
                        crate::storage::spec_remaining(
                            condition,
                            e.batch(),
                            e.metadata.row_count as int,
                        ) is Ok
                    }))
                    &&& (r matches Ok(ex) ==> (ex matches Execution::Rows(rows) && rows@.len()
                        == 0) && ({
                        let i = store_at(ts, table@);
                        let e = ts[i];
                        crate::storage::spec_remaining(
                            condition,
                            e.batch(),
                            e.metadata.row_count as int,
                        ) matches Ok(rem) && {
                            &&& final(self).storage.tables@.len() == ts.len()
                            &&& (forall|k: int|
                                0 <= k < ts.len() && k != i ==> final(self).storage.tables@[k]
                                    == ts[k])
                            &&& final(self).storage.tables@[i].table == e.table
                            &&& final(self).storage.tables@[i].metadata.row_count == rem.len()
                            &&& (forall|j: int|
                                0 <= j < e.columns@.len() ==> (#[trigger] final(self).storage.tables@[i].columns@[j]).deep_view() == project(
                                    e.columns@[j].deep_view(),
                                    rem,
                                ))
                        }
                    }))
                    &&& (r is Err ==> final(self).storage == old(self).storage)
                }),
                Query::DropTable { table } => ({
                    let ts = old(self).storage.tables@;
                    &&& (r is Ok <==> store_has(ts, table@))
                    &&& (r matches Ok(ex) ==> (ex matches Execution::Rows(rows) && rows@.len()
                        == 0) && final(self).storage.tables@ == ts.remove(store_at(ts, table@)))
                    &&& (r is Err ==> final(self).storage == old(self).storage)
                }),
                Query::StartTransaction => r matches Ok(ex) && (ex matches Execution::Rows(rows)
                    && rows@.len() == 0) && final(self).storage == old(self).storage,
                Query::Commit => r matches Ok(ex) && (ex matches Execution::Rows(rows)
                    && rows@.len() == 0) && final(self).storage == old(self).storage,
                Query::Rollback => r matches Ok(ex) && (ex matches Execution::Rows(rows)
                    && rows@.len() == 0) && final(self).storage == old(self).storage,
            },
    {
        match query {
            Query::Select { table, columns, condition } => {
                let ghost gcols = columns@;
                let cols: Vec<String> = if columns.len() == 0 {
                    let idx = match self.storage.find_index(table.as_str()) {
                        Some(i) => i,
                        None => {
                            return Err(DbError::InvalidData(String::from_str("table not found")));
                        },
                    };
                    let ghost e = self.storage.tables@[idx as int];
                    let n = self.storage.tables[idx].table.columns.len();
                    let mut names: Vec<String> = Vec::new();
                    let mut j: usize = 0;
                    while j < n
                        invariant
                            self.wf(),
                            idx < self.storage.tables@.len(),
                            e == self.storage.tables@[idx as int],
                            n == e.table.columns@.len(),
                            0 <= j <= n,
                            names@.len() == j,
                            forall|k: int|
                                0 <= k < j ==> (#[trigger] names@[k])@ == e.table.columns@[k].name@,
                        decreases n - j,
                    {
                        names.push(self.storage.tables[idx].table.columns[j].name.clone());
                        j = j + 1;
                    }
                    proof {
                        assert(names@.map_values(|s: String| s@) =~= resolved_columns(
                            e.table,
                            gcols,
                        ));
                    }
                    names
                } else {
                    columns
                };
                match self.execute_select(table.as_str(), &cols, condition.as_ref()) {
                    Ok(rows) => Ok(Execution::Rows(rows)),
                    Err(err) => Err(err),
                }
            },
            Query::SelectAggregate { table, aggregations, condition } => {
                match self.execute_aggregate(table.as_str(), &aggregations, condition.as_ref()) {
                    Ok(rs) => Ok(Execution::Aggregates(rs)),
                    Err(err) => Err(err),
                }
            },
            Query::Join {
                left_table,
                right_table,
                left_column,
                right_column,
                columns,
                condition,
            } => {
                match self.execute_join(
                    left_table.as_str(),
                    right_table.as_str(),
                    left_column.as_str(),
                    right_column.as_str(),
                    &columns,
                    condition.as_ref(),
                ) {
                    Ok(rows) => Ok(Execution::Rows(rows)),
                    Err(err) => Err(err),
                }
            },
            Query::Insert { table, values } => {
                match self.storage.insert_row(table.as_str(), values) {
                    Ok(()) => Ok(Execution::Rows(Vec::new())),
                    Err(err) => Err(err),
                }
            },
            Query::CreateTable { table, columns } => {
                let npairs = columns.len();
                let mut defs: Vec<Column> = Vec::new();
                let mut j: usize = 0;
                let mut pairs = columns;
                while j < npairs
                    invariant
                        *self == *old(self),
                        self.wf(),
                        npairs == pairs@.len(),
                        0 <= j <= npairs,
                        defs@.len() == j,
                        forall|k: int|
                            0 <= k < j ==> (#[trigger] defs@[k]).name@ == pairs@[k].0@
                                && defs@[k].data_type == pairs@[k].1 && !defs@[k].is_nullable
                                && !defs@[k].is_primary_key && !defs@[k].is_unique
                                && defs@[k].default_value is None,
                    decreases npairs - j,
                {
                    defs.push(
                        Column {
                            name: pairs[j].0.clone(),
                            data_type: pairs[j].1,
                            is_nullable: false,
                            is_primary_key: false,
                            is_unique: false,
                            default_value: None,
                        },
                    );
                    j = j + 1;
                }
                let ghost gpairs = pairs@;
                let table_def = Table {
                    name: table,
                    columns: defs,
                    primary_key: None,
                    indexes: Vec::new(),
                    constraints: Vec::new(),
                };
                proof {
                    assert(crate::schema::distinct_columns(table_def.columns@) <==> (forall|
                        a: int,
                        b: int,
                    |
                        0 <= a < b < gpairs.len() ==> (#[trigger] gpairs[a]).0@ != (
                        #[trigger] gpairs[b]).0@)) by {
                        if crate::schema::distinct_columns(table_def.columns@) {
                            assert forall|a: int, b: int|
                                0 <= a < b < gpairs.len() implies (#[trigger] gpairs[a]).0@ != (
                                #[trigger] gpairs[b]).0@ by {
                                assert(table_def.columns@[a].name@ == gpairs[a].0@);
                                assert(table_def.columns@[b].name@ == gpairs[b].0@);
                            }
                        }
                        if forall|a: int, b: int|
                            0 <= a < b < gpairs.len() ==> (#[trigger] gpairs[a]).0@ != (
                            #[trigger] gpairs[b]).0@ {
                            assert forall|a: int, b: int|
                                0 <= a < b < table_def.columns@.len() implies table_def.columns@[
                                    a
                                ].name@ != table_def.columns@[b].name@ by {
                                assert(gpairs[a].0@ != gpairs[b].0@);
                            }
                        }
                    }
                }
                match self.storage.create_table(table_def) {
                    Ok(()) => Ok(Execution::Rows(Vec::new())),
                    Err(err) => Err(err),
                }
            },
            Query::Delete { table, condition } => {
                match self.storage.delete_rows(table.as_str(), condition.as_ref()) {
                    Ok(()) => Ok(Execution::Rows(Vec::new())),
                    Err(err) => Err(err),
                }
            },
            Query::DropTable { table } => {
                match self.storage.drop_table(table.as_str()) {
                    Ok(()) => Ok(Execution::Rows(Vec::new())),
                    Err(err) => Err(err),
                }
            },
            Query::StartTransaction => Ok(Execution::Rows(Vec::new())),
            Query::Commit => Ok(Execution::Rows(Vec::new())),
            Query::Rollback => Ok(Execution::Rows(Vec::new())),
        }
    }

    /// Nested-loop equality join. Both join columns and every projected
    /// column are read under the predicate; a combined row is emitted for
    /// each pair of row positions whose join values compare equal. The
    /// per-side row bounds are the minimum lengths among that side's read
    /// columns, the join columns included.
    fn execute_join(
        &self,
        left_table: &str,
        right_table: &str,
        left_column: &str,
        right_column: &str,
        columns: &Vec<String>,
        condition: Option<&Condition>,
    ) -> (r: Result<Vec<Vec<Value>>, DbError>)
        requires
            self.wf(),
        ensures
            r is Ok <==> ({
                let ts = self.storage.tables@;
                &&& read_ok(ts, left_table@, left_column@, cond_of(condition))
                &&& read_ok(ts, right_table@, right_column@, cond_of(condition))
                &&& ({
                    let lv = read_vals(ts, left_table@, left_column@, cond_of(condition));
                    let rv = read_vals(ts, right_table@, right_column@, cond_of(condition));
                    spec_join_setup(
                        ts,
                        columns@,
                        left_table@,
                        right_table@,
                        cond_of(condition),
                        columns@.len() as int,
                        lv.len() as int,
                        rv.len() as int,
                    ) matches Ok(su) && spec_join_from(lv, rv, su.0, su.1, su.2, 0, 0) is Ok
                })
            }),
            r matches Ok(rows) ==> ({
                let ts = self.storage.tables@;
                let lv = read_vals(ts, left_table@, left_column@, cond_of(condition));
                let rv = read_vals(ts, right_table@, right_column@, cond_of(condition));
                spec_join_setup(
                    ts,
                    columns@,
                    left_table@,
                    right_table@,
                    cond_of(condition),
                    columns@.len() as int,
                    lv.len() as int,
                    rv.len() as int,
                ) matches Ok(su) && (spec_join_from(lv, rv, su.0, su.1, su.2, 0, 0) matches Ok(
                    rws,
                ) && rows.deep_view() == rws)
            }),
            r matches Err(e) ==> (e matches DbError::SchemaError(_) || e matches
                DbError::InvalidData(_) || e matches DbError::TypeMismatch),
    {
        let ghost ts = self.storage.tables@;
        let ghost gcond = cond_of(condition);
        let left_values = match self.storage.read_column(left_table, left_column, condition) {
            Ok(v) => v,
            Err(err) => {
                proof {
                    assert(!read_ok(ts, left_table@, left_column@, gcond));
                }
                return Err(err);
            },
        };
        let right_values = match self.storage.read_column(right_table, right_column, condition) {
            Ok(v) => v,
            Err(err) => {
                proof {
                    assert(!read_ok(ts, right_table@, right_column@, gcond));
                }
                return Err(err);
            },
        };
        let ghost lv = left_values.deep_view();
        let ghost rv = right_values.deep_view();
        proof {
            assert(lv == read_vals(ts, left_table@, left_column@, gcond));
            assert(rv == read_vals(ts, right_table@, right_column@, gcond));
        }
        // resolve every projected column and its side
        let ncols = columns.len();
        let mut side_cols: Vec<(bool, Vec<Value>)> = Vec::new();
        let mut min_l: usize = left_values.len();
        let mut min_r: usize = right_values.len();
        let mut k: usize = 0;
        proof {
            assert(side_cols@.map_values(|p: (bool, Vec<Value>)| (p.0, p.1.deep_view()))
                =~= Seq::<(bool, Seq<ValueView>)>::empty());
        }
        while k < ncols
            invariant
                self.wf(),
                ts == self.storage.tables@,
                gcond == cond_of(condition),
                read_ok(ts, left_table@, left_column@, gcond),
                read_ok(ts, right_table@, right_column@, gcond),
                lv == read_vals(ts, left_table@, left_column@, gcond),
                rv == read_vals(ts, right_table@, right_column@, gcond),
                lv == left_values.deep_view(),
                rv == right_values.deep_view(),
                lv.len() == left_values@.len(),
                rv.len() == right_values@.len(),
                ncols == columns@.len(),
                0 <= k <= ncols,
                min_l <= lv.len(),
                min_r <= rv.len(),
                spec_join_setup(
                    ts,
                    columns@,
                    left_table@,
                    right_table@,
                    gcond,
                    k as int,
                    lv.len() as int,
                    rv.len() as int,
                ) == Ok::<(Seq<(bool, Seq<ValueView>)>, int, int), ()>(
                    (
                        side_cols@.map_values(|p: (bool, Vec<Value>)| (p.0, p.1.deep_view())),
                        min_l as int,
                        min_r as int,
                    ),
                ),
            decreases ncols - k,
        {
            let parts = split_qualified(columns[k].as_str(), left_table);
            let vals = match self.storage.read_column(
                parts.0.as_str(),
                parts.1.as_str(),
                condition,
            ) {
                Ok(v) => v,
                Err(err) => {
                    proof {
                        assert(!read_ok(ts, parts.0@, parts.1@, gcond));
                        assert(parts.0@ == qual_table(columns@[k as int]@, left_table@));
                        assert(parts.1@ == qual_column(columns@[k as int]@));
                        assert(spec_join_setup(
                            ts,
                            columns@,
                            left_table@,
                            right_table@,
                            gcond,
                            k as int + 1,
                            lv.len() as int,
                            rv.len() as int,
                        ) is Err);
                        lemma_setup_err_grows(
                            ts,
                            columns@,
                            left_table@,
                            right_table@,
                            gcond,
                            k as int + 1,
                            ncols as int,
                            lv.len() as int,
                            rv.len() as int,
                        );
                    }
                    return Err(err);
                },
            };
            let flag = str_has_prefix(columns[k].as_str(), right_table);
            let ghost pre_sc = side_cols@.map_values(|p: (bool, Vec<Value>)| (p.0, p.1.deep_view()));
            if str_eq(parts.0.as_str(), right_table) {
                if vals.len() < min_r {
                    min_r = vals.len();
                }
            } else {
                if vals.len() < min_l {
                    min_l = vals.len();
                }
            }
            side_cols.push((flag, vals));
            proof {
                assert(side_cols@.map_values(|p: (bool, Vec<Value>)| (p.0, p.1.deep_view()))
                    =~= pre_sc.push((flag, vals.deep_view())));
            }
            k = k + 1;
        }
        let ghost sc = side_cols@.map_values(|p: (bool, Vec<Value>)| (p.0, p.1.deep_view()));
        let nsc = side_cols.len();
        // nested-loop scan
        let mut out: Vec<Vec<Value>> = Vec::new();
        let mut i: usize = 0;
        proof {
            assert(out.deep_view() =~= Seq::<Seq<ValueView>>::empty());
            assert(out.deep_view() + spec_join_from(
                lv,
                rv,
                sc,
                min_l as int,
                min_r as int,
                0,
                0,
            )->Ok_0 =~= spec_join_from(lv, rv, sc, min_l as int, min_r as int, 0, 0)->Ok_0);
        }
        while i < min_l
            invariant
                ts == self.storage.tables@,
                gcond == cond_of(condition),
                read_ok(ts, left_table@, left_column@, gcond),
                read_ok(ts, right_table@, right_column@, gcond),
                lv == read_vals(ts, left_table@, left_column@, gcond),
                rv == read_vals(ts, right_table@, right_column@, gcond),
                ncols == columns@.len(),
                spec_join_setup(
                    ts,
                    columns@,
                    left_table@,
                    right_table@,
                    gcond,
                    ncols as int,
                    lv.len() as int,
                    rv.len() as int,
                ) == Ok::<(Seq<(bool, Seq<ValueView>)>, int, int), ()>(
                    (sc, min_l as int, min_r as int),
                ),
                nsc == side_cols@.len(),
                sc == side_cols@.map_values(|p: (bool, Vec<Value>)| (p.0, p.1.deep_view())),
                lv == left_values.deep_view(),
                rv == right_values.deep_view(),
                lv.len() == left_values@.len(),
                rv.len() == right_values@.len(),
                min_l <= lv.len(),
                min_r <= rv.len(),
                0 <= i <= min_l,
                match spec_join_from(lv, rv, sc, min_l as int, min_r as int, i as int, 0) {
                    Ok(rest) => spec_join_from(lv, rv, sc, min_l as int, min_r as int, 0, 0)
                        == Ok::<Seq<Seq<ValueView>>, ()>(out.deep_view() + rest),
                    Err(()) => spec_join_from(lv, rv, sc, min_l as int, min_r as int, 0, 0) is Err,
                },
            decreases min_l - i,
        {
            let mut j: usize = 0;
            while j < min_r
                invariant
                ts == self.storage.tables@,
                gcond == cond_of(condition),
                read_ok(ts, left_table@, left_column@, gcond),
                read_ok(ts, right_table@, right_column@, gcond),
                lv == read_vals(ts, left_table@, left_column@, gcond),
                rv == read_vals(ts, right_table@, right_column@, gcond),
                ncols == columns@.len(),
                spec_join_setup(
                    ts,
                    columns@,
                    left_table@,
                    right_table@,
                    gcond,
                    ncols as int,
                    lv.len() as int,
                    rv.len() as int,
                ) == Ok::<(Seq<(bool, Seq<ValueView>)>, int, int), ()>(
                    (sc, min_l as int, min_r as int),
                ),
                    nsc == side_cols@.len(),
                    sc == side_cols@.map_values(|p: (bool, Vec<Value>)| (p.0, p.1.deep_view())),
                    lv == left_values.deep_view(),
                    rv == right_values.deep_view(),
                    lv.len() == left_values@.len(),
                    rv.len() == right_values@.len(),
                    min_l <= lv.len(),
                    min_r <= rv.len(),
                    i < min_l,
                    0 <= j <= min_r,
                    match spec_join_from(lv, rv, sc, min_l as int, min_r as int, i as int, j as int) {
                        Ok(rest) => spec_join_from(lv, rv, sc, min_l as int, min_r as int, 0, 0)
                            == Ok::<Seq<Seq<ValueView>>, ()>(out.deep_view() + rest),
                        Err(()) => spec_join_from(
                            lv,
                            rv,
                            sc,
                            min_l as int,
                            min_r as int,
                            0,
                            0,
                        ) is Err,
                    },
                decreases min_r - j,
            {
                proof {
                    assert(lv[i as int] == left_values@[i as int]@);
                    assert(rv[j as int] == right_values@[j as int]@);
                }
                if left_values[i].eq(&right_values[j]) {
                    let mut row: Vec<Value> = Vec::new();
                    let mut c: usize = 0;
                    while c < nsc
                        invariant
                ts == self.storage.tables@,
                gcond == cond_of(condition),
                read_ok(ts, left_table@, left_column@, gcond),
                read_ok(ts, right_table@, right_column@, gcond),
                lv == read_vals(ts, left_table@, left_column@, gcond),
                rv == read_vals(ts, right_table@, right_column@, gcond),
                ncols == columns@.len(),
                spec_join_setup(
                    ts,
                    columns@,
                    left_table@,
                    right_table@,
                    gcond,
                    ncols as int,
                    lv.len() as int,
                    rv.len() as int,
                ) == Ok::<(Seq<(bool, Seq<ValueView>)>, int, int), ()>(
                    (sc, min_l as int, min_r as int),
                ),
                            nsc == side_cols@.len(),
                            sc == side_cols@.map_values(
                                |p: (bool, Vec<Value>)| (p.0, p.1.deep_view()),
                            ),
                            lv == left_values.deep_view(),
                            rv == right_values.deep_view(),
                            min_l <= lv.len(),
                            min_r <= rv.len(),
                            i < min_l,
                            j < min_r,
                            crate::types::value_eq(lv[i as int], rv[j as int]),
                            match spec_join_from(
                                lv,
                                rv,
                                sc,
                                min_l as int,
                                min_r as int,
                                i as int,
                                j as int,
                            ) {
                                Ok(rest) => spec_join_from(
                                    lv,
                                    rv,
                                    sc,
                                    min_l as int,
                                    min_r as int,
                                    0,
                                    0,
                                ) == Ok::<Seq<Seq<ValueView>>, ()>(out.deep_view() + rest),
                                Err(()) => spec_join_from(
                                    lv,
                                    rv,
                                    sc,
                                    min_l as int,
                                    min_r as int,
                                    0,
                                    0,
                                ) is Err,
                            },
                            0 <= c <= nsc,
                            forall|t: int|
                                0 <= t < c ==> (if (#[trigger] sc[t]).0 {
                                    j as int
                                } else {
                                    i as int
                                }) < sc[t].1.len(),
                            row@.len() == c,
                            forall|t: int|
                                0 <= t < c ==> (#[trigger] row@[t])@ == sc[t].1[if sc[t].0 {
                                    j as int
                                } else {
                                    i as int
                                }],
                        decreases nsc - c,
                    {
                        let pick: usize = if side_cols[c].0 {
                            j
                        } else {
                            i
                        };
                        proof {
                            assert(sc[c as int].0 == side_cols@[c as int].0);
                            assert(sc[c as int].1 == side_cols@[c as int].1.deep_view());
                        }
                        if pick >= side_cols[c].1.len() {
                            proof {
                                assert(join_row(sc, i as int, j as int) is None);
                                assert(spec_join_from(
                                    lv,
                                    rv,
                                    sc,
                                    min_l as int,
                                    min_r as int,
                                    i as int,
                                    j as int,
                                ) is Err);
                            }
                            return Err(DbError::InvalidData(String::from_str("index out of bounds for column")));
                        }
                        row.push(side_cols[c].1[pick].clone());
                        c = c + 1;
                    }
                    let ghost rowv = join_row(sc, i as int, j as int)->Some_0;
                    proof {
                        assert(join_row(sc, i as int, j as int) is Some);
                        assert(row.deep_view() =~= rowv);
                    }
                    let ghost pre_out = out.deep_view();
                    out.push(row);
                    proof {
                        assert(out.deep_view() =~= pre_out.push(rowv));
                        let suff = spec_join_from(
                            lv,
                            rv,
                            sc,
                            min_l as int,
                            min_r as int,
                            i as int,
                            j as int,
                        );
                        let nxt = spec_join_from(
                            lv,
                            rv,
                            sc,
                            min_l as int,
                            min_r as int,
                            i as int,
                            j as int + 1,
                        );
                        match nxt {
                            Ok(rest2) => {
                                assert(suff == Ok::<Seq<Seq<ValueView>>, ()>(
                                    seq![rowv] + rest2,
                                ));
                                assert(pre_out + (seq![rowv] + rest2) =~= out.deep_view()
                                    + rest2);
                            },
                            Err(()) => {
                                assert(suff is Err);
                            },
                        }
                    }
                }
                j = j + 1;
            }
            proof {
                assert(spec_join_from(lv, rv, sc, min_l as int, min_r as int, i as int, min_r as int)
                    == spec_join_from(lv, rv, sc, min_l as int, min_r as int, i as int + 1, 0));
            }
            i = i + 1;
        }
        proof {
            assert(spec_join_from(lv, rv, sc, min_l as int, min_r as int, min_l as int, 0)
                == Ok::<Seq<Seq<ValueView>>, ()>(Seq::empty()));
            assert(out.deep_view() + Seq::<Seq<ValueView>>::empty() =~= out.deep_view());
        }
        Ok(out)
    }

    /// Typed aggregation over one table. `Count`, `Min` and `Max` finish
    /// here; `Sum` and `Avg` validate that the column is numeric and hand
    /// out the filtered values as fold terms. One outcome per request.
    fn execute_aggregate(
        &self,
        table: &str,
        aggregations: &Vec<Aggregation>,
        condition: Option<&Condition>,
    ) -> (r: Result<Vec<AggResult>, DbError>)
        requires
            self.wf(),
        ensures
            r is Ok <==> store_has(self.storage.tables@, table@) && spec_aggregate(
                aggregations@,
                self.storage.tables@[store_at(self.storage.tables@, table@)],
                cond_of(condition),
            ) is Ok,
            r matches Ok(rs) ==> spec_aggregate(
                aggregations@,
                self.storage.tables@[store_at(self.storage.tables@, table@)],
                cond_of(condition),
            ) matches Ok(out) && rs.deep_view() == out,
            r matches Err(e) ==> (e matches DbError::InvalidData(_) || e matches
                DbError::TypeMismatch),
    {
        let idx = match self.storage.find_index(table) {
            Some(i) => i,
            None => {
                return Err(DbError::InvalidData(String::from_str("table not found")));
            },
        };
        let ghost e = self.storage.tables@[idx as int];
        let nagg = aggregations.len();
        let mut results: Vec<AggResult> = Vec::new();
        let mut k: usize = 0;
        proof {
            assert(aggregations@.take(0) =~= Seq::<Aggregation>::empty());
            assert(results.deep_view() =~= Seq::<AggView>::empty());
        }
        while k < nagg
            invariant
                self.wf(),
                idx < self.storage.tables@.len(),
                store_has(self.storage.tables@, table@),
                store_at(self.storage.tables@, table@) == idx as int,
                e == self.storage.tables@[idx as int],
                e.wf(),
                nagg == aggregations@.len(),
                0 <= k <= nagg,
                spec_aggregate(aggregations@.take(k as int), e, cond_of(condition)) == Ok::<
                    Seq<AggView>,
                    (),
                >(results.deep_view()),
            decreases nagg - k,
        {
            let colname: String = match &aggregations[k] {
                Aggregation::Count => String::from_str("ID"),
                Aggregation::Sum(c) => c.clone(),
                Aggregation::Avg(c) => c.clone(),
                Aggregation::Min(c) => c.clone(),
                Aggregation::Max(c) => c.clone(),
            };
            proof {
                assert(colname@ == agg_column(aggregations@[k as int]));
                assert(aggregations@.take(k as int + 1).drop_last() =~= aggregations@.take(
                    k as int,
                ));
                assert(aggregations@.take(k as int + 1).last() == aggregations@[k as int]);
            }
            let ci = match self.storage.find_column(idx, colname.as_str()) {
                Some(c) => c,
                None => {
                    proof {
                        lemma_aggregate_err_grows(
                            aggregations@,
                            e,
                            cond_of(condition),
                            k as int + 1,
                            nagg as int,
                        );
                    }
                    return Err(DbError::InvalidData(String::from_str("column not found")));
                },
            };
            let values = match self.storage.read_column(table, colname.as_str(), condition) {
                Ok(v) => v,
                Err(err) => {
                    proof {
                        lemma_aggregate_err_grows(
                            aggregations@,
                            e,
                            cond_of(condition),
                            k as int + 1,
                            nagg as int,
                        );
                    }
                    return Err(err);
                },
            };
            let result: AggResult = match &aggregations[k] {
                Aggregation::Count => AggResult::Scalar(Value::Int32(count_i32(values.len()))),
                Aggregation::Sum(_) => {
                    if !numeric_column(&self.storage.tables[idx].table.columns[ci].data_type) {
                        proof {
                            lemma_aggregate_err_grows(
                                aggregations@,
                                e,
                                cond_of(condition),
                                k as int + 1,
                                nagg as int,
                            );
                        }
                        return Err(
                            DbError::InvalidData(String::from_str("SUM not supported for type")),
                        );
                    }
                    AggResult::Sum { terms: values }
                },
                Aggregation::Avg(_) => {
                    if !numeric_column(&self.storage.tables[idx].table.columns[ci].data_type) {
                        proof {
                            lemma_aggregate_err_grows(
                                aggregations@,
                                e,
                                cond_of(condition),
                                k as int + 1,
                                nagg as int,
                            );
                        }
                        return Err(
                            DbError::InvalidData(String::from_str("AVG not supported for type")),
                        );
                    }
                    AggResult::Avg { terms: values }
                },
                Aggregation::Min(_) => AggResult::Scalar(value_min(&values)),
                Aggregation::Max(_) => AggResult::Scalar(value_max(&values)),
            };
            proof {
                assert(spec_aggregate_one(aggregations@[k as int], e, cond_of(condition)) == Ok::<
                    AggView,
                    (),
                >(result@));
            }
            let ghost pre = results.deep_view();
            results.push(result);
            proof {
                assert(results.deep_view() =~= pre.push(result@));
            }
            k = k + 1;
        }
        proof {
            assert(aggregations@.take(nagg as int) =~= aggregations@);
        }
        Ok(results)
    }
}


/// The column an aggregation reads: `Count` reads the row-identity
/// column `ID`.
pub open spec fn agg_column(a: Aggregation) -> Seq<char> {
    match a {
        Aggregation::Count => "ID"@,
        Aggregation::Sum(c) => c@,
        Aggregation::Avg(c) => c@,
        Aggregation::Min(c) => c@,
        Aggregation::Max(c) => c@,
    }
}

/// Whether sums and averages are defined over the column type.
pub open spec fn numeric_type(dt: DataType) -> bool {
    dt == DataType::Int32 || dt == DataType::Float32
}

/// Runtime test of `numeric_type`.
fn numeric_column(dt: &DataType) -> (r: bool)
    ensures
        r == numeric_type(*dt),
{
    matches!(dt, DataType::Int32 | DataType::Float32)
}

/// A row count collapsed to a signed 32-bit value, wrapping like an
/// `as i32` cast.
pub open spec fn i32_of_count(n: int) -> i32 {
    crate::codec::bits_i32((n % 0x1_0000_0000) as u32)
}

/// Runtime wrap of a row count into a signed 32-bit value.
fn count_i32(n: usize) -> (r: i32)
    ensures
        r == i32_of_count(n as int),
{
    let m = ((n as u64) % 0x1_0000_0000) as u32;
    proof {
        assert(m == (n as int % 0x1_0000_0000) as u32);
    }
    if m < 0x8000_0000 {
        m as i32
    } else {
        ((m as i64) - 0x1_0000_0000) as i32
    }
}

/// The running minimum of `vs` from position `i`, seeded with `acc`:
/// a later value replaces the seed only when strictly smaller, so the
/// first of equal minima wins.
pub open spec fn spec_min_from(vs: Seq<ValueView>, acc: ValueView, i: int) -> ValueView
    decreases vs.len() - i,
{
    if i < 0 || i >= vs.len() {
        acc
    } else {
        spec_min_from(
            vs,
            if crate::types::value_total_cmp(vs[i], acc) == core::cmp::Ordering::Less {
                vs[i]
            } else {
                acc
            },
            i + 1,
        )
    }
}

/// The minimum of a column under the forced total order; an empty
/// column defaults to the zero float.
pub open spec fn spec_min(vs: Seq<ValueView>) -> ValueView {
    if vs.len() == 0 {
        ValueView::Float32(0)
    } else {
        spec_min_from(vs, vs[0], 1)
    }
}

/// The running maximum of `vs` from position `i`: a later value replaces
/// the seed unless strictly smaller, so the last of equal maxima wins.
pub open spec fn spec_max_from(vs: Seq<ValueView>, acc: ValueView, i: int) -> ValueView
    decreases vs.len() - i,
{
    if i < 0 || i >= vs.len() {
        acc
    } else {
        spec_max_from(
            vs,
            if crate::types::value_total_cmp(acc, vs[i]) == core::cmp::Ordering::Greater {
                acc
            } else {
                vs[i]
            },
            i + 1,
        )
    }
}

/// The maximum of a column under the forced total order; an empty
/// column defaults to the zero float.
pub open spec fn spec_max(vs: Seq<ValueView>) -> ValueView {
    if vs.len() == 0 {
        ValueView::Float32(0)
    } else {
        spec_max_from(vs, vs[0], 1)
    }
}

/// The minimum value of a column vector.
fn value_min(values: &Vec<Value>) -> (r: Value)
    ensures
        r@ == spec_min(values.deep_view()),
{
    let ghost vs = values.deep_view();
    let n = values.len();
    if n == 0 {
        return Value::Float32(0);
    }
    let mut acc = values[0].clone();
    let mut i: usize = 1;
    while i < n
        invariant
            n == values@.len(),
            n == vs.len(),
            vs == values.deep_view(),
            n > 0,
            1 <= i <= n,
            spec_min(vs) == spec_min_from(vs, acc@, i as int),
        decreases n - i,
    {
        proof {
            assert(vs[i as int] == values@[i as int]@);
        }
        let less = matches!(values[i].compare(&acc), core::cmp::Ordering::Less);
        if less {
            acc = values[i].clone();
        }
        i = i + 1;
    }
    acc
}

/// The maximum value of a column vector.
fn value_max(values: &Vec<Value>) -> (r: Value)
    ensures
        r@ == spec_max(values.deep_view()),
{
    let ghost vs = values.deep_view();
    let n = values.len();
    if n == 0 {
        return Value::Float32(0);
    }
    let mut acc = values[0].clone();
    let mut i: usize = 1;
    while i < n
        invariant
            n == values@.len(),
            n == vs.len(),
            vs == values.deep_view(),
            n > 0,
            1 <= i <= n,
            spec_max(vs) == spec_max_from(vs, acc@, i as int),
        decreases n - i,
    {
        proof {
            assert(vs[i as int] == values@[i as int]@);
        }
        let greater = matches!(acc.compare(&values[i]), core::cmp::Ordering::Greater);
        if !greater {
            acc = values[i].clone();
        }
        i = i + 1;
    }
    acc
}

/// One aggregation's outcome over a table under a predicate: an error
/// when the column is unknown, a row fails to evaluate, or a sum or
/// average is asked of a non-numeric column.
pub open spec fn spec_aggregate_one(a: Aggregation, e: TableStore, cond: Option<Condition>)
    -> Result<AggView, ()> {
    let name = agg_column(a);
    if !has_column(e.table.columns@, name) {
        Err(())
    } else {
        match spec_selected(cond, e.batch(), e.metadata.row_count as int) {
            Err(()) => Err(()),
            Ok(sel) => {
                let ci = column_at(e.table.columns@, name);
                let vs = project(e.columns@[ci].deep_view(), sel);
                match a {
                    Aggregation::Count => Ok(
                        AggView::Scalar(ValueView::Int32(i32_of_count(vs.len() as int))),
                    ),
                    Aggregation::Sum(_) => if numeric_type(e.table.columns@[ci].data_type) {
                        Ok(AggView::Sum(vs))
                    } else {
                        Err(())
                    },
                    Aggregation::Avg(_) => if numeric_type(e.table.columns@[ci].data_type) {
                        Ok(AggView::Avg(vs))
                    } else {
                        Err(())
                    },
                    Aggregation::Min(_) => Ok(AggView::Scalar(spec_min(vs))),
                    Aggregation::Max(_) => Ok(AggView::Scalar(spec_max(vs))),
                }
            },
        }
    }
}

/// The outcomes of a list of aggregations, in order; the first failing
/// one fails the whole request.
pub open spec fn spec_aggregate(aggs: Seq<Aggregation>, e: TableStore, cond: Option<Condition>)
    -> Result<Seq<AggView>, ()>
    decreases aggs.len(),
{
    if aggs.len() == 0 {
        Ok(Seq::empty())
    } else {
        match spec_aggregate(aggs.drop_last(), e, cond) {
            Err(()) => Err(()),
            Ok(s) => match spec_aggregate_one(aggs.last(), e, cond) {
                Err(()) => Err(()),
                Ok(v) => Ok(s.push(v)),
            },
        }
    }
}

/// A failure among the first `m` aggregations fails every longer prefix.
proof fn lemma_aggregate_err_grows(
    aggs: Seq<Aggregation>,
    e: TableStore,
    cond: Option<Condition>,
    m: int,
    n: int,
)
    requires
        0 <= m <= n,
        n == aggs.len(),
        spec_aggregate(aggs.take(m), e, cond) is Err,
    ensures
        spec_aggregate(aggs.take(n), e, cond) is Err,
        spec_aggregate(aggs, e, cond) is Err,
    decreases n - m,
{
    if m < n {
        assert(aggs.take(m + 1).drop_last() =~= aggs.take(m));
        lemma_aggregate_err_grows(aggs, e, cond, m + 1, n);
    } else {
        assert(aggs.take(n) =~= aggs) by {
            assert(n == aggs.len());
        }
    }
}


/// Whether a name holds a dot qualifier.
pub open spec fn has_dot(s: Seq<char>) -> bool {
    exists|i: int| 0 <= i < s.len() && s[i] == '.'
}

/// The position of the first dot of a name.
pub open spec fn dot_at(s: Seq<char>) -> int {
    choose|i: int|
        0 <= i < s.len() && s[i] == '.' && (forall|k: int| 0 <= k < i ==> s[k] != '.')
}

/// The table a qualified column name addresses: the part before the
/// first dot, or the given default for an unqualified name.
pub open spec fn qual_table(s: Seq<char>, default: Seq<char>) -> Seq<char> {
    if has_dot(s) {
        s.take(dot_at(s))
    } else {
        default
    }
}

/// The bare column of a possibly qualified name.
pub open spec fn qual_column(s: Seq<char>) -> Seq<char> {
    if has_dot(s) {
        s.skip(dot_at(s) + 1)
    } else {
        s
    }
}

/// Whether `p` is a prefix of `s`.
pub open spec fn is_prefix(p: Seq<char>, s: Seq<char>) -> bool {
    p.len() <= s.len() && s.take(p.len() as int) == p
}

/// Splits a possibly qualified column name into its table (the default
/// when unqualified) and bare column parts.
fn split_qualified(col: &str, default: &str) -> (r: (String, String))
    ensures
        r.0@ == qual_table(col@, default@),
        r.1@ == qual_column(col@),
{
    let n = col.unicode_len();
    let mut i: usize = 0;
    while i < n
        invariant
            0 <= i <= n,
            n == col@.len(),
            forall|k: int| 0 <= k < i ==> col@[k] != '.',
        decreases n - i,
    {
        let c = col.get_char(i);
        if c == '.' {
            proof {
                let ii = i as int;
                assert(col@[ii] == '.');
                assert(has_dot(col@));
                let d = dot_at(col@);
                assert(0 <= d < col@.len() && col@[d] == '.' && (forall|k: int|
                    0 <= k < d ==> col@[k] != '.')) by {
                    assert(0 <= ii < col@.len() && col@[ii] == '.' && (forall|k: int|
                        0 <= k < ii ==> col@[k] != '.'));
                }
                if d < i as int {
                    assert(col@[d] != '.');
                }
                if (i as int) < d {
                    assert(col@[i as int] != '.');
                }
                assert(d == i as int);
            }
            let t = col.substring_char(0, i);
            let c2 = col.substring_char(i + 1, n);
            proof {
                assert(t@ =~= col@.take(dot_at(col@)));
                assert(c2@ =~= col@.skip(dot_at(col@) + 1));
            }
            return (String::from_str(t), String::from_str(c2));
        }
        i = i + 1;
    }
    proof {
        assert(!has_dot(col@));
    }
    (String::from_str(default), String::from_str(col))
}

/// Whether the string starts with the given prefix.
fn str_has_prefix(s: &str, p: &str) -> (r: bool)
    ensures
        r == is_prefix(p@, s@),
{
    let pn = p.unicode_len();
    let sn = s.unicode_len();
    if pn > sn {
        return false;
    }
    let mut i: usize = 0;
    while i < pn
        invariant
            0 <= i <= pn,
            pn == p@.len(),
            sn == s@.len(),
            pn <= sn,
            forall|k: int| 0 <= k < i ==> s@[k] == p@[k],
        decreases pn - i,
    {
        let cs = s.get_char(i);
        let cp = p.get_char(i);
        if !(cs == cp) {
            proof {
                assert(s@[i as int] != p@[i as int]);
                if is_prefix(p@, s@) {
                    assert(s@.take(pn as int)[i as int] == p@[i as int]);
                }
            }
            return false;
        }
        i = i + 1;
    }
    proof {
        assert(s@.take(pn as int) =~= p@);
    }
    true
}

/// Whether a read of one column under a predicate succeeds.
pub open spec fn read_ok(
    ts: Seq<TableStore>,
    table: Seq<char>,
    column: Seq<char>,
    cond: Option<Condition>,
) -> bool {
    &&& store_has(ts, table)
    &&& has_column(ts[store_at(ts, table)].table.columns@, column)
    &&& spec_selected(
        cond,
        ts[store_at(ts, table)].batch(),
        ts[store_at(ts, table)].metadata.row_count as int,
    ) is Ok
}

/// The values a successful column read returns.
pub open spec fn read_vals(
    ts: Seq<TableStore>,
    table: Seq<char>,
    column: Seq<char>,
    cond: Option<Condition>,
) -> Seq<ValueView> {
    let e = ts[store_at(ts, table)];
    project(
        e.columns@[column_at(e.table.columns@, column)].deep_view(),
        spec_selected(cond, e.batch(), e.metadata.row_count as int)->Ok_0,
    )
}

/// The resolution of the first `k` projected join columns: for each, the
/// side flag that picks its row index (right when the qualified name
/// starts with the right table's name) and its read values; alongside,
/// the running per-side row bounds. Fails when any read fails.
pub open spec fn spec_join_setup(
    ts: Seq<TableStore>,
    cols: Seq<String>,
    left: Seq<char>,
    right: Seq<char>,
    cond: Option<Condition>,
    k: int,
    init_l: int,
    init_r: int,
) -> Result<(Seq<(bool, Seq<ValueView>)>, int, int), ()>
    decreases k,
{
    if k <= 0 {
        Ok((Seq::empty(), init_l, init_r))
    } else {
        match spec_join_setup(ts, cols, left, right, cond, k - 1, init_l, init_r) {
            Err(()) => Err(()),
            Ok((acc, ml, mr)) => {
                let name = cols[k - 1]@;
                let tab = qual_table(name, left);
                let cn = qual_column(name);
                if !read_ok(ts, tab, cn, cond) {
                    Err(())
                } else {
                    let vals = read_vals(ts, tab, cn, cond);
                    let entry = (is_prefix(right, name), vals);
                    if tab == right {
                        Ok((acc.push(entry), ml, if vals.len() < mr {
                            vals.len() as int
                        } else {
                            mr
                        }))
                    } else {
                        Ok((acc.push(entry), if vals.len() < ml {
                            vals.len() as int
                        } else {
                            ml
                        }, mr))
                    }
                }
            },
        }
    }
}

/// One combined output row of a join: each projected column's value at
/// the row index its side flag picks; undefined when an index is out of
/// that column's bounds.
pub open spec fn join_row(cols: Seq<(bool, Seq<ValueView>)>, i: int, j: int) -> Option<
    Seq<ValueView>,
> {
    if forall|c: int|
        0 <= c < cols.len() ==> (if (#[trigger] cols[c]).0 {
            j
        } else {
            i
        }) < cols[c].1.len() {
        Some(
            Seq::new(
                cols.len(),
                |c: int| cols[c].1[if cols[c].0 {
                    j
                } else {
                    i
                }],
            ),
        )
    } else {
        Option::None
    }
}

/// The combined rows a nested-loop equality join emits from position
/// `(i, j)` on: for each left row below `min_l`, every right row below
/// `min_r` whose join value compares equal contributes one row.
pub open spec fn spec_join_from(
    lv: Seq<ValueView>,
    rv: Seq<ValueView>,
    cols: Seq<(bool, Seq<ValueView>)>,
    min_l: int,
    min_r: int,
    i: int,
    j: int,
) -> Result<Seq<Seq<ValueView>>, ()>
    decreases min_l - i, min_r - j,
{
    if i < 0 || j < 0 || i >= min_l {
        Ok(Seq::empty())
    } else if j >= min_r {
        spec_join_from(lv, rv, cols, min_l, min_r, i + 1, 0)
    } else if crate::types::value_eq(lv[i], rv[j]) {
        match join_row(cols, i, j) {
            Option::None => Err(()),
            Option::Some(row) => match spec_join_from(lv, rv, cols, min_l, min_r, i, j + 1) {
                Err(()) => Err(()),
                Ok(rest) => Ok(seq![row] + rest),
            },
        }
    } else {
        spec_join_from(lv, rv, cols, min_l, min_r, i, j + 1)
    }
}


/// A failed column resolution fails every longer prefix.
proof fn lemma_setup_err_grows(
    ts: Seq<TableStore>,
    cols: Seq<String>,
    left: Seq<char>,
    right: Seq<char>,
    cond: Option<Condition>,
    m: int,
    n: int,
    il: int,
    ir: int,
)
    requires
        0 <= m <= n,
        spec_join_setup(ts, cols, left, right, cond, m, il, ir) is Err,
    ensures
        spec_join_setup(ts, cols, left, right, cond, n, il, ir) is Err,
    decreases n - m,
{
    if m < n {
        lemma_setup_err_grows(ts, cols, left, right, cond, m + 1, n, il, ir);
    }
}

} // verus!
