use vstd::prelude::*;
use vstd::string::*;

verus! {

/// Everything that can go wrong inside the database.
#[derive(Debug, Clone, PartialEq, Eq)]
pub enum DatabaseError {
    /// A page could not be read from or written to its file.
    IoError(String),
    /// Stored bytes do not decode: a truncated row, invalid UTF-8, a bad page header.
    SerializationError(String),
    /// No table of this name is registered.
    TableNotFound(String),
    /// No column of this name exists in the input.
    ColumnNotFound(String),
    /// A value or an expression has the wrong type.
    TypeMismatch(String),
    /// The query text could not be lexed, parsed or planned.
    InvalidQuery(String),
    /// The right operand of a division was zero.
    DivisionByZero,
    /// The page has too little free space for the payload and its item pointer.
    NotEnoughSpace,
    /// The item id is out of range, or the item was deleted.
    ItemNotFound,
    /// Every page up to the search ceiling is full.
    NoFreePage,
}

impl DatabaseError {
    /// Whether this is `TableNotFound` for the table `name`.
    pub open spec fn is_missing_table(self, name: Seq<char>) -> bool {
        self matches DatabaseError::TableNotFound(n) && n@ == name
    }

    /// Whether this is `ColumnNotFound` for the column `name`.
    pub open spec fn is_missing_column(self, name: Seq<char>) -> bool {
        self matches DatabaseError::ColumnNotFound(n) && n@ == name
    }

    /// The text that [`DatabaseError::to_string`] returns.
    pub open spec fn message(self) -> Seq<char> {
        match self {
            DatabaseError::IoError(e) => "IO Error: "@ + e@,
            DatabaseError::SerializationError(e) => "Serialization Error: "@ + e@,
            DatabaseError::TableNotFound(name) => "Table not found: "@ + name@,
            DatabaseError::ColumnNotFound(name) => "Column not found: "@ + name@,
            DatabaseError::TypeMismatch(msg) => "Type mismatch: "@ + msg@,
            DatabaseError::InvalidQuery(msg) => "Invalid query: "@ + msg@,
            DatabaseError::DivisionByZero => "Division by zero"@,
            DatabaseError::NotEnoughSpace => "Not enough space in the page to add data."@,
            DatabaseError::ItemNotFound => "Item not found."@,
            DatabaseError::NoFreePage => "No free page available."@,
        }
    }

    /// A short human-readable message naming the offending table, column or value.
    pub fn to_string(&self) -> (text: String)
        ensures
            text@ == self.message(),
    {
        match self {
            DatabaseError::IoError(e) => String::from_str("IO Error: ").concat(e.as_str()),
            DatabaseError::SerializationError(e) => String::from_str(
                "Serialization Error: ",
            ).concat(e.as_str()),
            DatabaseError::TableNotFound(name) => String::from_str("Table not found: ").concat(
                name.as_str(),
            ),
            DatabaseError::ColumnNotFound(name) => String::from_str("Column not found: ").concat(
                name.as_str(),
            ),
            DatabaseError::TypeMismatch(msg) => String::from_str("Type mismatch: ").concat(
                msg.as_str(),
            ),
            DatabaseError::InvalidQuery(msg) => String::from_str("Invalid query: ").concat(
                msg.as_str(),
            ),
            DatabaseError::DivisionByZero => String::from_str("Division by zero"),
            DatabaseError::NotEnoughSpace => String::from_str(
                "Not enough space in the page to add data.",
            ),
            DatabaseError::ItemNotFound => String::from_str("Item not found."),
            DatabaseError::NoFreePage => String::from_str("No free page available."),
        }
    }
}

} // verus!
