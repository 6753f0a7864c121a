//! The condition evaluator: a predicate tree over one row of
//! materialized column vectors, with static enumeration of the columns a
//! predicate touches.

use vstd::prelude::*;

use crate::types::{str_eq, value_partial_cmp, DbError, Value, ValueView};

verus! {

/// A comparison operator between a column's value and a literal.
#[derive(Clone, Copy, Debug, PartialEq, Eq, Structural)]
pub enum CompareOp {
    Eq,
    NotEq,
    LessThan,
    LessOrEqual,
    GreaterThan,
    GreaterOrEqual,
}

/// A predicate tree: comparisons of a named column against a literal
/// value, combined with conjunction, disjunction and negation.
#[derive(Debug)]
pub enum Condition {
    Compare { column: String, op: CompareOp, value: Value },
    And(Box<Condition>, Box<Condition>),
    Or(Box<Condition>, Box<Condition>),
    Not(Box<Condition>),
}

/// A set of materialized column vectors, addressed by column name.
#[derive(Debug)]
pub struct ColumnBatch {
    pub cols: Vec<(String, Vec<Value>)>,
}

/// The mathematical shape of a batch: named sequences of abstract values.
pub type BatchView = Seq<(Seq<char>, Seq<ValueView>)>;

/// Whether the batch carries a column of the given name.
pub open spec fn batch_has(batch: BatchView, name: Seq<char>) -> bool {
    exists|i: int| 0 <= i < batch.len() && batch[i].0 == name
}

/// The index of the column of the given name; unambiguous under `wf`.
pub open spec fn batch_at(batch: BatchView, name: Seq<char>) -> int {
    choose|i: int| 0 <= i < batch.len() && batch[i].0 == name
}

impl View for ColumnBatch {
    type V = BatchView;

    open spec fn view(&self) -> BatchView {
        self.cols@.map_values(|p: (String, Vec<Value>)| (p.0@, p.1.deep_view()))
    }
}

impl ColumnBatch {
    /// Column names are pairwise distinct.
    pub open spec fn wf(self) -> bool {
        forall|i: int, j: int| 0 <= i < j < self@.len() ==> self@[i].0 != self@[j].0
    }

    /// An empty batch.
    pub fn new() -> (r: ColumnBatch)
        ensures
            r.wf(),
            r@.len() == 0,
    {
        let r = ColumnBatch { cols: Vec::new() };
        proof {
            assert(r@.len() == 0);
        }
        r
    }

    /// The vector stored under the given column name, if any.
    pub fn get(&self, name: &str) -> (r: Option<&Vec<Value>>)
        requires
            self.wf(),
        ensures
            match r {
                Some(v) => batch_has(self@, name@) && v.deep_view() == self@[batch_at(
                    self@,
                    name@,
                )].1,
                None => !batch_has(self@, name@),
            },
    {
        let n = self.cols.len();
        let mut i: usize = 0;
        while i < n
            invariant
                self.wf(),
                0 <= i <= n,
                n == self@.len(),
                n == self.cols@.len(),
                forall|k: int| 0 <= k < i ==> self@[k].0 != name@,
            decreases n - i,
        {
            if str_eq(self.cols[i].0.as_str(), name) {
                proof {
                    assert(self@[i as int].0 == self.cols@[i as int].0@);
                    assert(self@[i as int].0 == name@);
                    assert(batch_has(self@, name@));
                    let j = batch_at(self@, name@);
                    assert(0 <= j < self@.len() && self@[j].0 == name@);
                    if j < i as int {
                        assert(self@[j].0 != self@[i as int].0);
                    }
                    if (i as int) < j {
                        assert(self@[i as int].0 != self@[j].0);
                    }
                    assert(self@[i as int].1 == self.cols@[i as int].1.deep_view());
                }
                return Some(&self.cols[i].1);
            }
            proof {
                assert(self@[i as int].0 == self.cols@[i as int].0@);
            }
            i = i + 1;
        }
        None
    }

    /// Adds a column vector under a name not present yet.
    pub fn add(&mut self, name: String, values: Vec<Value>)
        requires
            old(self).wf(),
            !batch_has(old(self)@, name@),
        ensures
            final(self).wf(),
            final(self)@ == old(self)@.push((name@, values.deep_view())),
    {
        let ghost pre = self@;
        self.cols.push((name, values));
        proof {
            assert(final(self)@ =~= pre.push((name@, values.deep_view())));
            assert forall|i: int, j: int|
                0 <= i < j < self@.len() implies self@[i].0 != self@[j].0 by {
                if j == pre.len() as int {
                    assert(!batch_has(pre, name@));
                    if self@[i].0 == name@ {
                        assert(pre[i].0 == name@);
                        assert(batch_has(pre, name@));
                    }
                }
            }
        }
    }

    /// Whether the batch carries the given column name.
    pub fn has(&self, name: &str) -> (r: bool)
        requires
            self.wf(),
        ensures
            r == batch_has(self@, name@),
    {
        matches!(self.get(name), Some(_))
    }
}

/// Why a condition failed to evaluate at a row: a referenced column is
/// absent from the batch, the row index is beyond a referenced vector,
/// or the compared values carry incompatible tags.
pub enum EvalFail {
    MissingColumn,
    RowOutOfRange,
    Incomparable,
}

/// Whether an ordering outcome satisfies a comparison operator.
pub open spec fn op_matches(op: CompareOp, o: core::cmp::Ordering) -> bool {
    match op {
        CompareOp::Eq => o == core::cmp::Ordering::Equal,
        CompareOp::NotEq => o != core::cmp::Ordering::Equal,
        CompareOp::LessThan => o == core::cmp::Ordering::Less,
        CompareOp::LessOrEqual => o != core::cmp::Ordering::Greater,
        CompareOp::GreaterThan => o == core::cmp::Ordering::Greater,
        CompareOp::GreaterOrEqual => o != core::cmp::Ordering::Less,
    }
}

/// The outcome of evaluating a condition at one row of a batch. The
/// evaluation fails when a referenced column is absent from the batch,
/// the row index is beyond a referenced vector, or compared values have
/// incompatible tags. Conjunction and disjunction short-circuit: the
/// right operand is not consulted when the left one decides.
pub open spec fn spec_eval(c: Condition, batch: BatchView, row: int) -> Result<bool, EvalFail>
    decreases c,
{
    match c {
        Condition::Compare { column, op, value } => {
            if !batch_has(batch, column@) {
                Err(EvalFail::MissingColumn)
            } else {
                let vals = batch[batch_at(batch, column@)].1;
                if row < 0 || row >= vals.len() {
                    Err(EvalFail::RowOutOfRange)
                } else {
                    match value_partial_cmp(vals[row], value@) {
                        Option::None => Err(EvalFail::Incomparable),
                        Option::Some(o) => Ok(op_matches(op, o)),
                    }
                }
            }
        },
        Condition::And(a, b) => match spec_eval(*a, batch, row) {
            Err(f) => Err(f),
            Ok(false) => Ok(false),
            Ok(true) => spec_eval(*b, batch, row),
        },
        Condition::Or(a, b) => match spec_eval(*a, batch, row) {
            Err(f) => Err(f),
            Ok(true) => Ok(true),
            Ok(false) => spec_eval(*b, batch, row),
        },
        Condition::Not(a) => match spec_eval(*a, batch, row) {
            Err(f) => Err(f),
            Ok(v) => Ok(!v),
        },
    }
}

/// The set of column names a condition touches.
pub open spec fn cond_columns(c: Condition) -> Set<Seq<char>>
    decreases c,
{
    match c {
        Condition::Compare { column, .. } => Set::empty().insert(column@),
        Condition::And(a, b) => cond_columns(*a).union(cond_columns(*b)),
        Condition::Or(a, b) => cond_columns(*a).union(cond_columns(*b)),
        Condition::Not(a) => cond_columns(*a),
    }
}

/// Evaluates a condition against one row of the supplied column vectors.
/// The batch must already contain every column the condition touches;
/// a missing column or row is an invalid-data failure and incomparable
/// tags are a type mismatch.
pub fn evaluate_condition_row(cond: &Condition, columns: &ColumnBatch, row: usize) -> (r: Result<
    bool,
    DbError,
>)
    requires
        columns.wf(),
    ensures
        match spec_eval(*cond, columns@, row as int) {
            Ok(b) => r matches Ok(rb) && rb == b,
            Err(EvalFail::Incomparable) => r matches Err(e) && e matches DbError::TypeMismatch,
            Err(_) => r matches Err(e) && (e matches DbError::InvalidData(_)),
        },
    decreases *cond,
{
    match cond {
        Condition::Compare { column, op, value } => {
            match columns.get(column.as_str()) {
                Option::None => Err(
                    DbError::InvalidData(String::from_str("column missing from batch")),
                ),
                Option::Some(vals) => {
                    proof {
                        assert(vals.deep_view().len() == vals@.len());
                    }
                    if row >= vals.len() {
                        Err(DbError::InvalidData(String::from_str("row index out of range")))
                    } else {
                        proof {
                            assert(vals.deep_view()[row as int] == vals@[row as int]@);
                        }
                        match vals[row].try_compare(value) {
                            Option::None => Err(DbError::TypeMismatch),
                            Option::Some(o) => {
                                let holds = match op {
                                    CompareOp::Eq => matches!(o, core::cmp::Ordering::Equal),
                                    CompareOp::NotEq => !matches!(o, core::cmp::Ordering::Equal),
                                    CompareOp::LessThan => matches!(o, core::cmp::Ordering::Less),
                                    CompareOp::LessOrEqual => !matches!(
                                        o,
                                        core::cmp::Ordering::Greater,
                                    ),
                                    CompareOp::GreaterThan => matches!(
                                        o,
                                        core::cmp::Ordering::Greater,
                                    ),
                                    CompareOp::GreaterOrEqual => !matches!(
                                        o,
                                        core::cmp::Ordering::Less,
                                    ),
                                };
                                Ok(holds)
                            },
                        }
                    }
                },
            }
        },
        Condition::And(a, b) => {
            let ra = evaluate_condition_row(a, columns, row)?;
            if !ra {
                Ok(false)
            } else {
                evaluate_condition_row(b, columns, row)
            }
        },
        Condition::Or(a, b) => {
            let ra = evaluate_condition_row(a, columns, row)?;
            if ra {
                Ok(true)
            } else {
                evaluate_condition_row(b, columns, row)
            }
        },
        Condition::Not(a) => {
            let ra = evaluate_condition_row(a, columns, row)?;
            Ok(!ra)
        },
    }
}

/// Whether some string of `v` reads `s`.
pub open spec fn names_contain(v: Seq<String>, s: Seq<char>) -> bool {
    exists|i: int| 0 <= i < v.len() && v[i]@ == s
}

/// Whether the strings of `v` are pairwise distinct.
pub open spec fn distinct_names(v: Seq<String>) -> bool {
    forall|i: int, j: int| 0 <= i < j < v.len() ==> v[i]@ != v[j]@
}

/// Whether `v` holds the given string.
pub fn names_contains(v: &Vec<String>, s: &str) -> (r: bool)
    ensures
        r == names_contain(v@, s@),
{
    let n = v.len();
    let mut i: usize = 0;
    while i < n
        invariant
            0 <= i <= n,
            n == v@.len(),
            forall|k: int| 0 <= k < i ==> v@[k]@ != s@,
        decreases n - i,
    {
        if str_eq(v[i].as_str(), s) {
            assert(v@[i as int]@ == s@);
            return true;
        }
        i = i + 1;
    }
    false
}

/// The set of names a vector of strings holds.
pub open spec fn names_set(v: Seq<String>) -> Set<Seq<char>> {
    Set::new(|s: Seq<char>| names_contain(v, s))
}

/// Appends to `acc` every column the condition touches that `acc` does
/// not already hold.
fn collect_into(cond: &Condition, acc: &mut Vec<String>)
    requires
        distinct_names(old(acc)@),
    ensures
        distinct_names(final(acc)@),
        names_set(final(acc)@) == names_set(old(acc)@).union(cond_columns(*cond)),
    decreases *cond,
{
    match cond {
        Condition::Compare { column, .. } => {
            if !names_contains(acc, column.as_str()) {
                let ghost pre = acc@;
                acc.push(column.clone());
                proof {
                    assert(names_set(acc@) =~= names_set(pre).union(cond_columns(*cond))) by {
                        assert forall|s: Seq<char>|
                            names_set(acc@).contains(s) == names_set(pre).union(
                            cond_columns(*cond),
                        ).contains(s) by {
                            if names_contain(acc@, s) {
                                let i = choose|i: int| 0 <= i < acc@.len() && acc@[i]@ == s;
                                if i < pre.len() {
                                    assert(pre[i]@ == s);
                                    assert(names_contain(pre, s));
                                } else {
                                    assert(acc@[i]@ == column@);
                                }
                            }
                            if names_contain(pre, s) {
                                let i = choose|i: int| 0 <= i < pre.len() && pre[i]@ == s;
                                assert(acc@[i]@ == s);
                                assert(names_contain(acc@, s));
                            }
                            if cond_columns(*cond).contains(s) {
                                assert(s == column@);
                                assert(acc@[pre.len() as int]@ == s);
                                assert(names_contain(acc@, s));
                            }
                        }
                    }
                    assert forall|i: int, j: int|
                        0 <= i < j < acc@.len() implies acc@[i]@ != acc@[j]@ by {
                        if j == pre.len() as int {
                            assert(!names_contain(pre, column@));
                            assert(acc@[i]@ == pre[i]@);
                            if acc@[i]@ == column@ {
                                assert(names_contain(pre, column@));
                            }
                        }
                    }
                }
            } else {
                proof {
                    assert(names_set(acc@) =~= names_set(old(acc)@).union(cond_columns(*cond)))
                        by {
                        assert forall|s: Seq<char>|
                            names_set(acc@).contains(s) == names_set(old(acc)@).union(
                            cond_columns(*cond),
                        ).contains(s) by {
                            if cond_columns(*cond).contains(s) {
                                assert(s == column@);
                                assert(names_contain(acc@, s));
                            }
                        }
                    }
                }
            }
        },
        Condition::And(a, b) => {
            collect_into(a, acc);
            collect_into(b, acc);
            proof {
                assert(names_set(acc@) =~= names_set(old(acc)@).union(cond_columns(*cond)));
            }
        },
        Condition::Or(a, b) => {
            collect_into(a, acc);
            collect_into(b, acc);
            proof {
                assert(names_set(acc@) =~= names_set(old(acc)@).union(cond_columns(*cond)));
            }
        },
        Condition::Not(a) => {
            collect_into(a, acc);
            proof {
                assert(names_set(acc@) =~= names_set(old(acc)@).union(cond_columns(*cond)));
            }
        },
    }
}

/// The distinct column names a condition touches, for column resolution
/// before any storage access.
pub fn collect_condition_columns(cond: &Condition) -> (r: Vec<String>)
    ensures
        distinct_names(r@),
        names_set(r@) == cond_columns(*cond),
        forall|s: Seq<char>| names_contain(r@, s) <==> cond_columns(*cond).contains(s),
{
    let mut out: Vec<String> = Vec::new();
    collect_into(cond, &mut out);
    proof {
        assert(names_set(out@) =~= cond_columns(*cond)) by {
            assert(forall|s: Seq<char>| !names_contain(Seq::<String>::empty(), s));
            assert(names_set(Seq::<String>::empty()) =~= Set::<Seq<char>>::empty());
        }
        assert forall|s: Seq<char>|
            names_contain(out@, s) <==> cond_columns(*cond).contains(s) by {
            assert(names_set(out@).contains(s) == names_contain(out@, s));
        }
    }
    out
}

} // verus!
