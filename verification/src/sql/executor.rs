//! The executor: pull-based operators that hand out rows in batches.

use crate::database::{rows_view, Database};
use crate::error::DatabaseError;
use crate::sql::analyzer::{AnalyzedExpression, FieldView, OutputSchema};
use crate::sql::evaluator::{
    evaluate, fault_is, passes, verdict, Evaluated, ExpressionEvaluator, Fault, FloatArithmetic,
};
use crate::sql::logical_planner::LogicalPlan;
use crate::table::Row;
use crate::types::{values_view, Value, ValueView};
use vstd::prelude::*;

verus! {

/// The number of rows that a scan hands out at a time.
pub const BATCH_SIZE: usize = 1024;

/// The rows that one call of `next` returns.
#[derive(Debug)]
pub struct RecordBatch {
    pub rows: Vec<Row>,
}

/// What an operator does to the rows of its input.
pub enum RowOp {
    /// Keep the rows on which the condition is true.
    Filter(AnalyzedExpression),
    /// Replace each row by the values of the expressions on it.
    Project(Seq<AnalyzedExpression>),
}

/// What an operator makes of one row.
pub enum RowResult {
    /// This row goes to the output.
    Keep(Seq<ValueView>),
    /// The row is left out.
    Drop,
    /// An expression fails on the row, with this fault.
    Fails(Fault),
    /// The outcome rests on floating-point arithmetic.
    Floating,
}

/// What a run of rows comes to once an operator has worked on it.
pub enum Output {
    /// These rows, in this order.
    Rows(Seq<Seq<ValueView>>),
    /// An expression fails on some row, with this fault, and no row before
    /// it rests on floating-point arithmetic.
    Fails(Fault),
    /// The outcome rests on floating-point arithmetic.
    Floating,
}

/// How a stream of batches ends.
pub enum End {
    /// With the last batch.
    Done,
    /// With this fault, in place of a further batch.
    Fails(Fault),
    /// In a way that rests on floating-point arithmetic.
    Floating,
}

/// What an operator has yet to hand out: batches, and then an end.
pub struct Stream {
    pub batches: Seq<Seq<Seq<ValueView>>>,
    pub end: End,
}

/// `head` in front of the rows of `tail`, where `tail` has rows.
pub open spec fn join(head: Seq<Seq<ValueView>>, tail: Output) -> Output {
    match tail {
        Output::Rows(rest) => Output::Rows(head + rest),
        other => other,
    }
}

/// The values of the expressions from index `k` on, on one row. The first
/// expression that does not come to a value decides.
pub open spec fn project_from(exprs: Seq<AnalyzedExpression>, row: Seq<ValueView>, k: int) -> RowResult
    decreases exprs.len() - k,
{
    if k < 0 || k >= exprs.len() {
        RowResult::Keep(Seq::empty())
    } else {
        match evaluate(exprs[k], row) {
            Evaluated::Value(v) => match project_from(exprs, row, k + 1) {
                RowResult::Keep(rest) => RowResult::Keep(seq![v] + rest),
                other => other,
            },
            Evaluated::Fails(f) => RowResult::Fails(f),
            Evaluated::Floating => RowResult::Floating,
        }
    }
}

/// A projection leaves no row out.
pub proof fn lemma_project_keeps(exprs: Seq<AnalyzedExpression>, row: Seq<ValueView>, k: int)
    ensures
        !(project_from(exprs, row, k) is Drop),
    decreases exprs.len() - k,
{
    if 0 <= k < exprs.len() {
        lemma_project_keeps(exprs, row, k + 1);
    }
}

/// What the operator makes of one row.
pub open spec fn row_result(op: RowOp, row: Seq<ValueView>) -> RowResult {
    match op {
        RowOp::Filter(condition) => match evaluate(condition, row) {
            Evaluated::Value(v) => if passes(v) {
                RowResult::Keep(row)
            } else {
                RowResult::Drop
            },
            Evaluated::Fails(f) => RowResult::Fails(f),
            Evaluated::Floating => RowResult::Floating,
        },
        RowOp::Project(exprs) => project_from(exprs, row, 0),
    }
}

/// What the operator makes of the rows of one batch from index `i` on: the
/// rows are worked on in order, and the first that does not come to a row
/// or to nothing decides the whole.
pub open spec fn transform(op: RowOp, rows: Seq<Seq<ValueView>>, i: int) -> Output
    decreases rows.len() - i,
{
    if i < 0 || i >= rows.len() {
        Output::Rows(Seq::empty())
    } else {
        match row_result(op, rows[i]) {
            RowResult::Keep(row) => join(seq![row], transform(op, rows, i + 1)),
            RowResult::Drop => transform(op, rows, i + 1),
            RowResult::Fails(f) => Output::Fails(f),
            RowResult::Floating => Output::Floating,
        }
    }
}

/// The batches that a scan hands out of `rows` from index `from` on: runs
/// of `BATCH_SIZE` rows, and a shorter one at the end.
pub open spec fn chunks(rows: Seq<Seq<ValueView>>, from: int) -> Seq<Seq<Seq<ValueView>>>
    decreases rows.len() - from,
{
    if from < 0 || from >= rows.len() {
        Seq::empty()
    } else {
        let end = if rows.len() - from > 1024 {
            from + 1024
        } else {
            rows.len() as int
        };
        seq![rows.subrange(from, end)] + chunks(rows, end)
    }
}

/// What an operator makes of the stream of its input from batch `i` on. It
/// works on one batch after the other. A batch of which no row is left is
/// passed over. A fault in a batch ends the stream in place of that batch,
/// whatever the input has behind it; otherwise the stream ends as the
/// input does.
pub open spec fn through(op: RowOp, input: Stream, i: int) -> Stream
    decreases input.batches.len() - i,
{
    if i < 0 || i >= input.batches.len() {
        Stream { batches: Seq::empty(), end: input.end }
    } else {
        match transform(op, input.batches[i], 0) {
            Output::Rows(rows) => {
                let rest = through(op, input, i + 1);
                if rows.len() == 0 {
                    rest
                } else {
                    Stream { batches: seq![rows] + rest.batches, end: rest.end }
                }
            },
            Output::Fails(f) => Stream { batches: Seq::empty(), end: End::Fails(f) },
            Output::Floating => Stream { batches: Seq::empty(), end: End::Floating },
        }
    }
}

/// `input` without its first batch.
pub open spec fn behind(input: Stream) -> Stream {
    Stream { batches: input.batches.skip(1), end: input.end }
}

/// Working on a stream from its second batch on is working on what lies
/// behind its first batch.
pub proof fn lemma_through_behind(op: RowOp, input: Stream, i: int)
    requires
        0 <= i,
        input.batches.len() > 0,
    ensures
        through(op, input, i + 1) == through(op, behind(input), i),
    decreases input.batches.len() - i,
{
    let rest = behind(input);
    if i + 1 < input.batches.len() {
        assert(rest.batches[i] == input.batches[i + 1]);
        lemma_through_behind(op, input, i + 1);
    }
}

/// The rows of the first `n` batches, one batch after the other.
pub open spec fn flatten(batches: Seq<Seq<Seq<ValueView>>>, n: int) -> Seq<Seq<ValueView>>
    decreases n,
{
    if n <= 0 {
        Seq::empty()
    } else {
        flatten(batches, n - 1) + batches[n - 1]
    }
}

/// What running a stream to its end comes to: all its rows, if it ends
/// with its last batch; else the fault it ends with.
pub open spec fn gathered(stream: Stream) -> Output {
    match stream.end {
        End::Done => Output::Rows(flatten(stream.batches, stream.batches.len() as int)),
        End::Fails(f) => Output::Fails(f),
        End::Floating => Output::Floating,
    }
}

/// Null in a condition: a filter leaves out every row on which its
/// condition comes to null.
pub proof fn lemma_null_row_is_dropped(condition: AnalyzedExpression, row: Seq<ValueView>)
    requires
        evaluate(condition, row) == Evaluated::Value(ValueView::Null),
    ensures
        row_result(RowOp::Filter(condition), row) == RowResult::Drop,
{
}

/// A tree of operators that produces rows on demand.
#[derive(Debug)]
pub enum PhysicalPlan {
    /// Streams the rows that a full scan of the table found when the plan
    /// was made, from `cursor` on.
    SeqScanExec { schema: OutputSchema, rows: Vec<Row>, cursor: usize },
    /// Keeps the rows of its input on which the condition is true.
    FilterExec { input: Box<PhysicalPlan>, condition: AnalyzedExpression },
    /// Reduces each row of its input to the values of the expressions on it.
    ProjectionExec {
        input: Box<PhysicalPlan>,
        expressions: Vec<AnalyzedExpression>,
        schema: OutputSchema,
    },
}

impl PhysicalPlan {
    /// The plan invariant: the cursor of every scan lies within its rows.
    pub open spec fn wf(self) -> bool
        decreases self,
    {
        match self {
            PhysicalPlan::SeqScanExec { rows, cursor, .. } => cursor <= rows@.len(),
            PhysicalPlan::FilterExec { input, .. } => input.wf(),
            PhysicalPlan::ProjectionExec { input, .. } => input.wf(),
        }
    }

    /// The number of operators above the scan.
    pub open spec fn depth(self) -> nat
        decreases self,
    {
        match self {
            PhysicalPlan::SeqScanExec { .. } => 0,
            PhysicalPlan::FilterExec { input, .. } => input.depth() + 1,
            PhysicalPlan::ProjectionExec { input, .. } => input.depth() + 1,
        }
    }

    /// The number of rows that the scan at the bottom has yet to hand out.
    pub open spec fn pending(self) -> nat
        decreases self,
    {
        match self {
            PhysicalPlan::SeqScanExec { rows, cursor, .. } => (rows@.len() - cursor) as nat,
            PhysicalPlan::FilterExec { input, .. } => input.pending(),
            PhysicalPlan::ProjectionExec { input, .. } => input.pending(),
        }
    }

    /// The fields of the rows that the plan produces.
    pub open spec fn fields(self) -> Seq<FieldView>
        decreases self,
    {
        match self {
            PhysicalPlan::SeqScanExec { schema, .. } => schema@,
            PhysicalPlan::FilterExec { input, .. } => input.fields(),
            PhysicalPlan::ProjectionExec { schema, .. } => schema@,
        }
    }

    /// All that the plan has yet to hand out.
    pub open spec fn output(self) -> Stream
        decreases self,
    {
        match self {
            PhysicalPlan::SeqScanExec { rows, cursor, .. } => Stream {
                batches: chunks(rows_view(rows@), cursor as int),
                end: End::Done,
            },
            PhysicalPlan::FilterExec { input, condition } => through(
                RowOp::Filter(condition),
                input.output(),
                0,
            ),
            PhysicalPlan::ProjectionExec { input, expressions, .. } => through(
                RowOp::Project(expressions@),
                input.output(),
                0,
            ),
        }
    }

    /// The schema of the rows that the plan produces.
    pub fn schema(&self) -> (schema: &OutputSchema)
        ensures
            schema@ == self.fields(),
        decreases self,
    {
        match self {
            PhysicalPlan::SeqScanExec { schema, .. } => schema,
            PhysicalPlan::FilterExec { input, .. } => input.schema(),
            PhysicalPlan::ProjectionExec { schema, .. } => schema,
        }
    }
}

/// Whether an error is a division by zero or a type mismatch.
pub open spec fn is_row_fault(e: DatabaseError) -> bool {
    e is DivisionByZero || e is TypeMismatch
}

/// Whether a stream has no batch left and an end that rests on
/// floating-point arithmetic.
pub open spec fn adrift(stream: Stream) -> bool {
    stream.batches.len() == 0 && stream.end is Floating
}

/// Whether what `next` returned, and the plan it left, go with what the
/// plan had yet to hand out. Where that has a batch, the batch is returned
/// and the plan has the rest to hand out. Where it has none, `None` comes
/// if the stream is done, and the error of the fault if it ends with one.
/// Where the end rests on floating-point arithmetic, only this is said:
/// that a failure is a division by zero or a type mismatch.
pub open spec fn step_agrees(
    before: Stream,
    r: Result<Option<RecordBatch>, DatabaseError>,
    after: Stream,
) -> bool {
    if before.batches.len() > 0 {
        r matches Ok(Some(batch)) && rows_view(batch.rows@) == before.batches[0] && after == behind(
            before,
        )
    } else {
        match before.end {
            End::Done => r matches Ok(None) && after == before,
            End::Fails(f) => r matches Err(e) && fault_is(e, f),
            End::Floating => r matches Err(e) ==> is_row_fault(e),
        }
    }
}

fn project_row<F: FloatArithmetic>(
    evaluator: &ExpressionEvaluator<F>,
    expressions: &Vec<AnalyzedExpression>,
    row: &Row,
) -> (r: Result<Row, DatabaseError>)
    ensures
        match project_from(expressions@, row@, 0) {
            RowResult::Keep(values) => r matches Ok(out) && out@ == values,
            RowResult::Fails(f) => r matches Err(e) && fault_is(e, f),
            _ => r matches Err(e) ==> is_row_fault(e),
        },
        r matches Err(e) ==> is_row_fault(e),
{
    let n: usize = expressions.len();
    let mut values: Vec<Value> = Vec::new();
    let mut k: usize = 0;
    while k < n
        invariant
            k <= n,
            n == expressions@.len(),
            project_from(expressions@, row@, 0) is Floating || project_from(
                expressions@,
                row@,
                0,
            ) == match project_from(expressions@, row@, k as int) {
                RowResult::Keep(rest) => RowResult::Keep(values_view(values@) + rest),
                other => other,
            },
        decreases n - k,
    {
        let ghost done = values_view(values@);
        match evaluator.evaluate(&expressions[k], row) {
            Ok(v) => {
                let ghost vv = v@;
                values.push(v);
                proof {
                    assert(values_view(values@) =~= done + seq![vv]);
                    if let RowResult::Keep(rest) = project_from(expressions@, row@, k + 1) {
                        assert(done + (seq![vv] + rest) =~= (done + seq![vv]) + rest);
                    }
                }
            },
            Err(e) => {
                return Err(e);
            },
        }
        k += 1;
    }
    let out = Row::new(values);
    assert(out@ =~= values_view(values@) + Seq::<ValueView>::empty());
    Ok(out)
}

/// The rows of a batch on which the condition is true.
fn filter_batch<F: FloatArithmetic>(
    evaluator: &ExpressionEvaluator<F>,
    condition: &AnalyzedExpression,
    batch: &RecordBatch,
) -> (r: Result<Vec<Row>, DatabaseError>)
    ensures
        match transform(RowOp::Filter(*condition), rows_view(batch.rows@), 0) {
            Output::Rows(rows) => r matches Ok(out) && rows_view(out@) == rows,
            Output::Fails(f) => r matches Err(e) && fault_is(e, f),
            Output::Floating => r matches Err(e) ==> is_row_fault(e),
        },
        r matches Err(e) ==> is_row_fault(e),
{
    let ghost op = RowOp::Filter(*condition);
    let ghost incoming = rows_view(batch.rows@);
    let n: usize = batch.rows.len();
    let mut out: Vec<Row> = Vec::new();
    let mut i: usize = 0;
    while i < n
        invariant
            i <= n,
            n == batch.rows@.len(),
            incoming == rows_view(batch.rows@),
            op == RowOp::Filter(*condition),
            transform(op, incoming, 0) is Floating || transform(op, incoming, 0) == join(
                rows_view(out@),
                transform(op, incoming, i as int),
            ),
        decreases n - i,
    {
        let row = &batch.rows[i];
        let ghost done = rows_view(out@);
        assert(incoming[i as int] == row@);
        let pass = match evaluator.evaluate(condition, row) {
            Ok(value) => verdict(&value),
            Err(e) => {
                return Err(e);
            },
        };
        if pass {
            out.push(row.duplicate());
            proof {
                assert(rows_view(out@) =~= done + seq![row@]);
                if let Output::Rows(rest) = transform(op, incoming, i + 1) {
                    assert(done + (seq![row@] + rest) =~= (done + seq![row@]) + rest);
                }
            }
        }
        i += 1;
    }
    proof {
        assert(rows_view(out@) + Seq::<Seq<ValueView>>::empty() =~= rows_view(out@));
    }
    Ok(out)
}

/// The rows of a batch, each reduced to the values of the expressions on it.
fn project_batch<F: FloatArithmetic>(
    evaluator: &ExpressionEvaluator<F>,
    expressions: &Vec<AnalyzedExpression>,
    batch: &RecordBatch,
) -> (r: Result<Vec<Row>, DatabaseError>)
    ensures
        match transform(RowOp::Project(expressions@), rows_view(batch.rows@), 0) {
            Output::Rows(rows) => r matches Ok(out) && rows_view(out@) == rows,
            Output::Fails(f) => r matches Err(e) && fault_is(e, f),
            Output::Floating => r matches Err(e) ==> is_row_fault(e),
        },
        r matches Ok(out) ==> out@.len() == batch.rows@.len(),
        r matches Err(e) ==> is_row_fault(e),
{
    let ghost op = RowOp::Project(expressions@);
    let ghost incoming = rows_view(batch.rows@);
    let n: usize = batch.rows.len();
    let mut out: Vec<Row> = Vec::new();
    let mut i: usize = 0;
    while i < n
        invariant
            i <= n,
            n == batch.rows@.len(),
            out@.len() == i,
            incoming == rows_view(batch.rows@),
            op == RowOp::Project(expressions@),
            transform(op, incoming, 0) is Floating || transform(op, incoming, 0) == join(
                rows_view(out@),
                transform(op, incoming, i as int),
            ),
        decreases n - i,
    {
        let row = &batch.rows[i];
        let ghost done = rows_view(out@);
        assert(incoming[i as int] == row@);
        proof {
            lemma_project_keeps(expressions@, row@, 0);
        }
        let projected = match project_row(evaluator, expressions, row) {
            Ok(p) => p,
            Err(e) => {
                return Err(e);
            },
        };
        let ghost pv = projected@;
        out.push(projected);
        proof {
            assert(rows_view(out@) =~= done + seq![pv]);
            if let Output::Rows(rest) = transform(op, incoming, i + 1) {
                assert(done + (seq![pv] + rest) =~= (done + seq![pv]) + rest);
            }
        }
        i += 1;
    }
    proof {
        assert(rows_view(out@) + Seq::<Seq<ValueView>>::empty() =~= rows_view(out@));
    }
    Ok(out)
}

impl PhysicalPlan {
    /// The next batch of rows, or `None` at the end of the stream.
    ///
    /// A scan hands out up to `BATCH_SIZE` rows at a time. A filter skips
    /// the batches of its input of which no row passes, so its batches are
    /// never empty. A projection gives one row for every row of the batch
    /// of its input. An expression that fails on a row of a batch ends the
    /// query with its error, in place of that batch.
    #[verifier::loop_isolation(false)]
    pub fn next<F: FloatArithmetic>(&mut self, evaluator: &ExpressionEvaluator<F>) -> (r: Result<
        Option<RecordBatch>,
        DatabaseError,
    >)
        requires
            old(self).wf(),
        ensures
            final(self).wf(),
            final(self).fields() == old(self).fields(),
            final(self).depth() == old(self).depth(),
            final(self).pending() <= old(self).pending(),
            r matches Ok(Some(batch)) ==> final(self).pending() < old(self).pending()
                && batch.rows@.len() > 0,
            r matches Err(e) ==> is_row_fault(e),
            step_agrees(old(self).output(), r, final(self).output()),
        decreases old(self).depth(),
    {
        match self {
            PhysicalPlan::SeqScanExec { schema, rows, cursor } => {
                let total: usize = rows.len();
                if *cursor >= total {
                    return Ok(None);
                }
                let start: usize = *cursor;
                let end: usize = if total - start > BATCH_SIZE {
                    start + BATCH_SIZE
                } else {
                    total
                };
                let mut batch: Vec<Row> = Vec::new();
                let mut i: usize = start;
                while i < end
                    invariant
                        start <= i <= end,
                        end <= total,
                        total == rows@.len(),
                        batch@.len() == i - start,
                        forall|k: int| 0 <= k < batch@.len() ==> batch@[k]@ == rows@[start + k]@,
                    decreases end - i,
                {
                    batch.push(rows[i].duplicate());
                    i += 1;
                }
                *cursor = end;
                proof {
                    let all = rows_view(rows@);
                    assert(rows_view(batch@) =~= all.subrange(start as int, end as int));
                    let before = chunks(all, start as int);
                    assert(before == seq![all.subrange(start as int, end as int)] + chunks(
                        all,
                        end as int,
                    ));
                    assert(before.skip(1) =~= chunks(all, end as int));
                }
                Ok(Some(RecordBatch { rows: batch }))
            },
            PhysicalPlan::FilterExec { input, condition } => {
                let ghost op = RowOp::Filter(*condition);
                let ghost start = old(self).output();
                loop
                    invariant
                        input.wf(),
                        input.fields() == old(self).fields(),
                        input.depth() + 1 == old(self).depth(),
                        input.pending() <= old(self).pending(),
                        op == RowOp::Filter(*condition),
                        start == old(self).output(),
                        adrift(start) || start == through(op, input.output(), 0),
                    decreases input.pending(),
                {
                    let ghost source = input.output();
                    let batch = match input.next(evaluator) {
                        Ok(Some(batch)) => batch,
                        Ok(None) => {
                            return Ok(None);
                        },
                        Err(e) => {
                            return Err(e);
                        },
                    };
                    proof {
                        if source.batches.len() > 0 {
                            lemma_through_behind(op, source, 0);
                        }
                    }
                    let kept = match filter_batch(evaluator, condition, &batch) {
                        Ok(kept) => kept,
                        Err(e) => {
                            return Err(e);
                        },
                    };
                    if kept.len() > 0 {
                        proof {
                            if !adrift(start) && source.batches.len() > 0 {
                                let rest = through(op, source, 1);
                                if let Output::Rows(rows) = transform(op, source.batches[0], 0) {
                                    assert((seq![rows] + rest.batches).skip(1) =~= rest.batches);
                                }
                            }
                        }
                        return Ok(Some(RecordBatch { rows: kept }));
                    }
                }
            },
            PhysicalPlan::ProjectionExec { input, expressions, schema } => {
                let ghost op = RowOp::Project(expressions@);
                let ghost source = input.output();
                let batch = match input.next(evaluator) {
                    Ok(Some(batch)) => batch,
                    Ok(None) => {
                        return Ok(None);
                    },
                    Err(e) => {
                        return Err(e);
                    },
                };
                proof {
                    if source.batches.len() > 0 {
                        lemma_through_behind(op, source, 0);
                    }
                }
                let out = match project_batch(evaluator, expressions, &batch) {
                    Ok(out) => out,
                    Err(e) => {
                        return Err(e);
                    },
                };
                proof {
                    if source.batches.len() > 0 {
                        let rest = through(op, source, 1);
                        if let Output::Rows(rows) = transform(op, source.batches[0], 0) {
                            assert((seq![rows] + rest.batches).skip(1) =~= rest.batches);
                        }
                    }
                }
                Ok(Some(RecordBatch { rows: out }))
            },
        }
    }

    /// Runs the plan to its end and gathers the rows of all batches.
    ///
    /// Fails with the error of the first expression that fails on a row;
    /// no row is then returned.
    #[verifier::loop_isolation(false)]
    pub fn collect<F: FloatArithmetic>(&mut self, evaluator: &ExpressionEvaluator<F>) -> (r: Result<
        Vec<Row>,
        DatabaseError,
    >)
        requires
            old(self).wf(),
        ensures
            final(self).wf(),
            r matches Err(e) ==> is_row_fault(e),
            match gathered(old(self).output()) {
                Output::Rows(all) => r matches Ok(rows) && rows_view(rows@) == all,
                Output::Fails(f) => r matches Err(e) && fault_is(e, f),
                Output::Floating => true,
            },
    {
        let mut found: Vec<Row> = Vec::new();
        let ghost start = old(self).output();
        let ghost done: Seq<Seq<Seq<ValueView>>> = Seq::empty();
        loop
            invariant
                self.wf(),
                start == old(self).output(),
                start.end is Floating || (start.batches == done + self.output().batches
                    && start.end == self.output().end && rows_view(found@) == flatten(
                    done,
                    done.len() as int,
                )),
            decreases self.pending(),
        {
            let ghost so_far = rows_view(found@);
            let ghost source = self.output();
            match self.next(evaluator) {
                Ok(Some(batch)) => {
                    let ghost incoming = rows_view(batch.rows@);
                    let n: usize = batch.rows.len();
                    let mut i: usize = 0;
                    while i < n
                        invariant
                            i <= n,
                            n == batch.rows@.len(),
                            rows_view(found@) == so_far + incoming.take(i as int),
                            incoming == rows_view(batch.rows@),
                        decreases n - i,
                    {
                        let ghost before = rows_view(found@);
                        found.push(batch.rows[i].duplicate());
                        i += 1;
                        assert(rows_view(found@) =~= before.push(incoming[i - 1]));
                        assert(incoming.take(i as int) =~= incoming.take(i - 1).push(
                            incoming[i - 1],
                        ));
                        assert(rows_view(found@) =~= so_far + incoming.take(i as int));
                    }
                    proof {
                        assert(incoming.take(n as int) =~= incoming);
                        if !(start.end is Floating) {
                            let grown = done.push(incoming);
                            assert(source.batches =~= seq![incoming] + self.output().batches);
                            assert(start.batches =~= grown + self.output().batches);
                            lemma_flatten_same(done, grown, done.len() as int);
                        }
                        done = done.push(incoming);
                    }
                },
                Ok(None) => {
                    proof {
                        if !(start.end is Floating) {
                            assert(start.batches =~= done);
                        }
                    }
                    return Ok(found);
                },
                Err(e) => {
                    return Err(e);
                },
            }
        }
    }
}

/// The first `n` batches give the same rows whatever comes behind them.
pub proof fn lemma_flatten_same(
    a: Seq<Seq<Seq<ValueView>>>,
    b: Seq<Seq<Seq<ValueView>>>,
    n: int,
)
    requires
        0 <= n <= a.len(),
        n <= b.len(),
        forall|i: int| 0 <= i < n ==> a[i] == b[i],
    ensures
        flatten(a, n) == flatten(b, n),
    decreases n,
{
    if n > 0 {
        lemma_flatten_same(a, b, n - 1);
    }
}

/// Whether every table that `plan` scans is in the catalog of `db`, with
/// stored tuples that all decode.
pub open spec fn scannable(plan: LogicalPlan, db: Database) -> bool
    decreases plan,
{
    match plan {
        LogicalPlan::Scan { table_name, .. } => db.has_table(table_name@) && db.scan(table_name@)
            is Some,
        LogicalPlan::Filter { input, .. } => scannable(*input, db),
        LogicalPlan::Projection { input, .. } => scannable(*input, db),
    }
}

/// The stream of batches that `plan` comes to on the tables of `db`.
pub open spec fn run(plan: LogicalPlan, db: Database) -> Stream
    decreases plan,
{
    match plan {
        LogicalPlan::Scan { table_name, .. } => Stream {
            batches: chunks(
                match db.scan(table_name@) {
                    Some(rows) => rows,
                    None => Seq::empty(),
                },
                0,
            ),
            end: End::Done,
        },
        LogicalPlan::Filter { input, condition } => through(
            RowOp::Filter(condition),
            run(*input, db),
            0,
        ),
        LogicalPlan::Projection { input, expressions, .. } => through(
            RowOp::Project(expressions@),
            run(*input, db),
            0,
        ),
    }
}

impl PhysicalPlan {
    /// Lowers a logical plan to operators of the same shape: a scan to a
    /// sequential scan, which reads the rows of its table at once, a filter
    /// to a filter, a projection to a projection.
    ///
    /// Fails with `TableNotFound` where a scanned table is not in the
    /// catalog, and with `SerializationError` where a stored tuple of it
    /// does not decode.
    pub fn from_logical_plan(logical_plan: LogicalPlan, database: &Database) -> (r: Result<
        PhysicalPlan,
        DatabaseError,
    >)
        requires
            database.wf(),
        ensures
            r is Ok <==> scannable(logical_plan, *database),
            r matches Ok(plan) ==> plan.wf() && plan.output() == run(logical_plan, *database)
                && plan.fields() == logical_plan.fields(),
            r matches Err(e) ==> e is TableNotFound || e is SerializationError,
        decreases logical_plan,
    {
        match logical_plan {
            LogicalPlan::Scan { table_name, schema } => {
                let rows = match database.get_rows(table_name.as_str()) {
                    Ok(rows) => rows,
                    Err(e) => {
                        return Err(e);
                    },
                };
                Ok(PhysicalPlan::SeqScanExec { schema, rows, cursor: 0 })
            },
            LogicalPlan::Filter { input, condition } => {
                let input = match Self::from_logical_plan(*input, database) {
                    Ok(p) => p,
                    Err(e) => {
                        return Err(e);
                    },
                };
                Ok(PhysicalPlan::FilterExec { input: Box::new(input), condition })
            },
            LogicalPlan::Projection { input, expressions, schema } => {
                let input = match Self::from_logical_plan(*input, database) {
                    Ok(p) => p,
                    Err(e) => {
                        return Err(e);
                    },
                };
                Ok(PhysicalPlan::ProjectionExec { input: Box::new(input), expressions, schema })
            },
        }
    }
}

} // verus!
