//! An embeddable relational database: slotted heap pages, a row codec with a
//! null bitmap, and a small SQL read pipeline (lexer, parser, analyzer,
//! planner and pull-based executor).

pub mod buffer_manager;
pub mod btree;
pub mod bytes;
pub mod codec;
pub mod database;
pub mod error;
pub mod null_bitmap;
pub mod page;
pub mod sql;
pub mod table;
pub mod text;
pub mod types;

pub use database::{Database, QueryResponse};
pub use error::DatabaseError;
pub use page::{ItemId, ItemPointer, Page, PageHeader, PageId, PageType, PAGE_SIZE};
pub use table::{ColumnDef, Row, Schema, TableDef};
pub use types::{DataType, Value};
