//! Typed tables, their in-memory engine, transactions, and the log that
//! persists them.
pub mod api;
pub mod batch_laws;
pub mod durable;
pub mod engine;
pub mod log;
pub mod log_laws;
pub mod model;
pub mod number_laws;
pub mod store_laws;
pub mod stream;
pub mod table;
pub mod transaction;
pub mod transaction_laws;
pub mod value;
pub mod value_laws;

pub use api::Storage;
pub use engine::InMemoryStorage;
pub use transaction::Transaction;
pub use value::{format_decimal, ColumnSchema, ColumnType, TableSchema, Value};
