use crate::sql::analyzer::{AnalyzedExpression, FieldView, OutputSchema};
use vstd::prelude::*;

verus! {

/// A typed plan whose names are resolved.
#[derive(Debug, PartialEq)]
pub enum LogicalPlan {
    /// Reads a table; the schema is that of the table.
    Scan { table_name: String, schema: OutputSchema },
    /// Keeps the rows of the input on which the condition is true.
    Filter { input: Box<LogicalPlan>, condition: AnalyzedExpression },
    /// Computes one output column per expression.
    Projection { input: Box<LogicalPlan>, expressions: Vec<AnalyzedExpression>, schema: OutputSchema },
}

impl LogicalPlan {
    /// The fields that the plan produces.
    pub open spec fn fields(self) -> Seq<FieldView>
        decreases self,
    {
        match self {
            LogicalPlan::Scan { schema, .. } => schema@,
            LogicalPlan::Projection { schema, .. } => schema@,
            LogicalPlan::Filter { input, .. } => input.fields(),
        }
    }

    /// The schema of the rows that the plan produces: a filter has the
    /// schema of its input.
    pub fn schema(&self) -> (schema: &OutputSchema)
        ensures
            schema@ == self.fields(),
        decreases self,
    {
        match self {
            LogicalPlan::Scan { schema, .. } => schema,
            LogicalPlan::Projection { schema, .. } => schema,
            LogicalPlan::Filter { input, .. } => input.schema(),
        }
    }
}

/// The kinds of join.
#[derive(Debug, Clone, Copy, PartialEq, Eq, Structural)]
pub enum JoinType {
    Inner,
    Left,
    Right,
    Full,
}

/// The direction of a sort.
#[derive(Debug, Clone, Copy, PartialEq, Eq, Structural)]
pub enum SortDirection {
    Ascending,
    Descending,
}

/// Where nulls go in a sort.
#[derive(Debug, Clone, Copy, PartialEq, Eq, Structural)]
pub enum NullOrdering {
    NullsFirst,
    NullsLast,
}

} // verus!
