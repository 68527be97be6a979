//! An in-memory, columnar SQL database engine.
//!
//! SQL text is tokenized, parsed into an AST, and executed against tables
//! stored column by column, each column pairing a typed buffer with a null
//! bitmap.

pub mod ast;
pub mod bits;
pub mod column;
pub mod data_type;
pub mod database;
pub mod parser;
pub mod decimal;
pub mod table;
pub mod tokenizer;
pub mod value;

pub use column::Column;
pub use data_type::DataType;
pub use database::Database;
pub use decimal::Decimal;
pub use table::{ColumnDef, Schema, Table};
pub use value::Value;
