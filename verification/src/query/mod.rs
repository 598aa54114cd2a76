//! SQL parsing and execution.
pub mod ast;
pub mod column_laws;
pub mod create_laws;
pub mod eval;
pub mod executor;
pub mod filling_laws;
pub mod grammar;
pub mod insert_laws;
pub mod laws;
pub mod lexer;
pub mod message_laws;
pub mod order;
pub mod parse_laws;
pub mod parser;
pub mod placeholder_laws;
pub mod row_laws;
pub mod select_laws;
pub mod semantics;
pub mod spelling_laws;
pub mod split_laws;
pub mod synonym_laws;
pub mod table_laws;
pub mod typed_laws;
pub mod variable_laws;
pub mod variables;
pub mod written_laws;
