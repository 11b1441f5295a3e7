//! Nested, parameterised SQL endpoints: a template compiler, a scope-aware
//! variable resolver and an execution runtime, plus the schema helpers
//! that surround them.

pub mod text_map;
pub mod text;
pub mod template;
pub mod endpoint;
pub mod runtime;
pub mod schema;
pub mod mermaid;
pub mod table_sql;
pub mod access;
pub mod rows;
pub mod users;
