//! The schema catalog: table definitions and the in-memory registry that
//! answers lookups by table name. The catalog is the single source of
//! truth for column existence and type, consulted before any storage work.

use vstd::prelude::*;

use crate::types::{str_eq, DataType, DbError, Value};

verus! {

/// A column definition: name, declared type, and structural flags.
#[derive(Debug)]
pub struct Column {
    pub name: String,
    pub data_type: DataType,
    pub is_nullable: bool,
    pub is_primary_key: bool,
    pub is_unique: bool,
    pub default_value: Option<Value>,
}

/// The kind of a declared index. Declarations are structural only: the
/// core query path scans full columns and does not exploit them.
#[derive(Clone, Copy, Debug, PartialEq, Eq, Structural)]
pub enum IndexType {
    BTree,
    Hash,
    FullText,
}

/// A declared index over one or more columns.
#[derive(Debug)]
pub struct Index {
    pub name: String,
    pub columns: Vec<String>,
    pub is_unique: bool,
    pub index_type: IndexType,
}

/// The kind of a declared constraint.
#[derive(Clone, Copy, Debug, PartialEq, Eq, Structural)]
pub enum ConstraintType {
    PrimaryKey,
    ForeignKey,
    Unique,
    Check,
    NotNull,
}

/// A declared constraint: kind, covered columns, optional check
/// expression, and optional foreign reference.
#[derive(Debug)]
pub struct Constraint {
    pub name: String,
    pub constraint_type: ConstraintType,
    pub columns: Vec<String>,
    pub check_condition: Option<String>,
    pub reference_table: Option<String>,
    pub reference_columns: Option<Vec<String>>,
}

/// A table definition: name, ordered column sequence, optional primary
/// key, and declared indexes and constraints.
#[derive(Debug)]
pub struct Table {
    pub name: String,
    pub columns: Vec<Column>,
    pub primary_key: Option<String>,
    pub indexes: Vec<Index>,
    pub constraints: Vec<Constraint>,
}

/// Whether some column of `cols` is named `name`.
pub open spec fn has_column(cols: Seq<Column>, name: Seq<char>) -> bool {
    exists|i: int| 0 <= i < cols.len() && cols[i].name@ == name
}

/// The index of the column named `name`; unambiguous when names are unique.
pub open spec fn column_at(cols: Seq<Column>, name: Seq<char>) -> int {
    choose|i: int| 0 <= i < cols.len() && cols[i].name@ == name
}

/// Whether the column names of `cols` are pairwise distinct.
pub open spec fn distinct_columns(cols: Seq<Column>) -> bool {
    forall|i: int, j: int| 0 <= i < j < cols.len() ==> cols[i].name@ != cols[j].name@
}

impl Table {
    /// The first column of this table carrying the given name, if any.
    pub fn get_column(&self, name: &str) -> (r: Option<&Column>)
        ensures
            match r {
                Some(c) => exists|i: int|
                    0 <= i < self.columns@.len() && *c == self.columns@[i] && self.columns@[i].name@
                        == name@ && (forall|k: int|
                        0 <= k < i ==> self.columns@[k].name@ != name@),
                None => !has_column(self.columns@, name@),
            },
            r matches Some(c) ==> c.name@ == name@ && has_column(self.columns@, name@),
    {
        let n = self.columns.len();
        let mut i: usize = 0;
        while i < n
            invariant
                0 <= i <= n,
                n == self.columns@.len(),
                forall|k: int| 0 <= k < i ==> self.columns@[k].name@ != name@,
            decreases n - i,
        {
            if str_eq(self.columns[i].name.as_str(), name) {
                assert(self.columns@[i as int].name@ == name@);
                return Some(&self.columns[i]);
            }
            i = i + 1;
        }
        None
    }

    /// Whether this table declares a column with the given name.
    pub fn has_column_named(&self, name: &str) -> (r: bool)
        ensures
            r == has_column(self.columns@, name@),
    {
        matches!(self.get_column(name), Some(_))
    }
}

/// Whether some table of `ts` is named `name`.
pub open spec fn has_table(ts: Seq<Table>, name: Seq<char>) -> bool {
    exists|i: int| 0 <= i < ts.len() && ts[i].name@ == name
}

/// The index of the table named `name`; unambiguous when names are unique.
pub open spec fn table_at(ts: Seq<Table>, name: Seq<char>) -> int {
    choose|i: int| 0 <= i < ts.len() && ts[i].name@ == name
}

/// The in-memory catalog: a registry of table definitions with unique
/// names.
#[derive(Debug)]
pub struct Schema {
    pub tables: Vec<Table>,
}

impl Schema {
    /// Table names are pairwise distinct.
    pub open spec fn wf(self) -> bool {
        forall|i: int, j: int|
            0 <= i < j < self.tables@.len() ==> self.tables@[i].name@ != self.tables@[j].name@
    }

    /// An empty catalog.
    pub fn new() -> (r: Schema)
        ensures
            r.wf(),
            r.tables@.len() == 0,
    {
        Schema { tables: Vec::new() }
    }

    /// The registered table of the given name, if any.
    pub fn get_table(&self, name: &str) -> (r: Option<&Table>)
        requires
            self.wf(),
        ensures
            match r {
                Some(t) => has_table(self.tables@, name@) && *t == self.tables@[table_at(
                    self.tables@,
                    name@,
                )],
                None => !has_table(self.tables@, name@),
            },
    {
        let n = self.tables.len();
        let mut i: usize = 0;
        while i < n
            invariant
                self.wf(),
                0 <= i <= n,
                n == self.tables@.len(),
                forall|k: int| 0 <= k < i ==> self.tables@[k].name@ != name@,
            decreases n - i,
        {
            if str_eq(self.tables[i].name.as_str(), name) {
                proof {
                    assert(self.tables@[i as int].name@ == name@);
                    assert(has_table(self.tables@, name@));
                    let j = table_at(self.tables@, name@);
                    assert(0 <= j < self.tables@.len() && self.tables@[j].name@ == name@);
                    if j < i as int {
                        assert(self.tables@[j].name@ != self.tables@[i as int].name@);
                    }
                    if (i as int) < j {
                        assert(self.tables@[i as int].name@ != self.tables@[j].name@);
                    }
                    assert(j == i as int);
                }
                return Some(&self.tables[i]);
            }
            i = i + 1;
        }
        None
    }

    /// Registers a table. Fails, leaving the catalog unchanged, exactly
    /// when a table of that name is already present.
    pub fn add_table(&mut self, table: Table) -> (r: Result<(), DbError>)
        requires
            old(self).wf(),
        ensures
            final(self).wf(),
            match r {
                Ok(()) => !has_table(old(self).tables@, table.name@) && final(self).tables@ == old(
                    self,
                ).tables@.push(table),
                Err(e) => has_table(old(self).tables@, table.name@) && (e matches
                    DbError::SchemaError(_)) && final(self).tables@ == old(self).tables@,
            },
    {
        if matches!(self.get_table(table.name.as_str()), Some(_)) {
            return Err(DbError::SchemaError(String::from_str("table already exists")));
        }
        self.tables.push(table);
        Ok(())
    }

    /// Unregisters the table of the given name. Fails, leaving the
    /// catalog unchanged, exactly when no such table is present.
    pub fn remove_table(&mut self, name: &str) -> (r: Result<(), DbError>)
        requires
            old(self).wf(),
        ensures
            final(self).wf(),
            match r {
                Ok(()) => has_table(old(self).tables@, name@) && final(self).tables@ == old(
                    self,
                ).tables@.remove(table_at(old(self).tables@, name@)),
                Err(e) => !has_table(old(self).tables@, name@) && (e matches
                    DbError::SchemaError(_)) && final(self).tables@ == old(self).tables@,
            },
    {
        let n = self.tables.len();
        let mut i: usize = 0;
        while i < n
            invariant
                self.wf(),
                self.tables@ == old(self).tables@,
                0 <= i <= n,
                n == self.tables@.len(),
                forall|k: int| 0 <= k < i ==> self.tables@[k].name@ != name@,
            decreases n - i,
        {
            if str_eq(self.tables[i].name.as_str(), name) {
                proof {
                    assert(self.tables@[i as int].name@ == name@);
                    assert(has_table(self.tables@, name@));
                    assert(table_at(self.tables@, name@) == i as int) by {
                        let j = table_at(self.tables@, name@);
                        assert(0 <= j < self.tables@.len() && self.tables@[j].name@ == name@);
                        if j < i as int {
                            assert(self.tables@[j].name@ != self.tables@[i as int].name@);
                        }
                        if (i as int) < j {
                            assert(self.tables@[i as int].name@ != self.tables@[j].name@);
                        }
                    }
                }
                self.tables.remove(i);
                proof {
                    old(self).tables@.remove_ensures(i as int);
                    assert forall|p: int, q: int|
                        0 <= p < q < self.tables@.len() implies self.tables@[p].name@
                        != self.tables@[q].name@ by {
                        assert(self.tables@[p] == if p < i as int {
                            old(self).tables@[p]
                        } else {
                            old(self).tables@[p + 1]
                        });
                        assert(self.tables@[q] == if q < i as int {
                            old(self).tables@[q]
                        } else {
                            old(self).tables@[q + 1]
                        });
                        if p < i as int && q < i as int {
                            assert(old(self).tables@[p].name@ != old(self).tables@[q].name@);
                        } else if p < i as int {
                            assert(old(self).tables@[p].name@ != old(self).tables@[q + 1].name@);
                        } else {
                            assert(old(self).tables@[p + 1].name@ != old(self).tables@[q
                                + 1].name@);
                        }
                    }
                }
                return Ok(());
            }
            i = i + 1;
        }
        Err(DbError::SchemaError(String::from_str("table not found")))
    }
}

} // verus!
