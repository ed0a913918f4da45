use crate::database::Database;
use crate::error::DatabaseError;
use crate::table::{Schema, TableDef};
use vstd::prelude::*;

verus! {

/// What the planner may read of the database: its catalog.
pub struct PlannerContext<'a> {
    pub database: &'a Database,
}

impl<'a> PlannerContext<'a> {
    pub fn new(database: &'a Database) -> (context: Self)
        ensures
            context.database == database,
    {
        Self { database }
    }

    /// The schema of the table `table_name`.
    ///
    /// Fails with `TableNotFound` exactly when the catalog has no such table.
    pub fn get_schema(&self, table_name: &str) -> (r: Result<&Schema, DatabaseError>)
        requires
            self.database.wf(),
        ensures
            match r {
                Ok(schema) => self.database.has_table(table_name@) && *schema
                    == self.database.table(table_name@).schema,
                Err(e) => !self.database.has_table(table_name@) && e.is_missing_table(table_name@),
            },
    {
        match self.database.get_table(table_name) {
            Ok(table) => Ok(&table.schema),
            Err(e) => Err(e),
        }
    }

    /// The table `table_name`.
    ///
    /// Fails with `TableNotFound` exactly when the catalog has no such table.
    pub fn get_table(&self, table_name: &str) -> (r: Result<&TableDef, DatabaseError>)
        requires
            self.database.wf(),
        ensures
            match r {
                Ok(table) => self.database.has_table(table_name@) && *table == self.database.table(
                    table_name@,
                ),
                Err(e) => !self.database.has_table(table_name@) && e.is_missing_table(table_name@),
            },
    {
        self.database.get_table(table_name)
    }
}

} // verus!
