//! Rows read back from arbitrary queries, all values as text.

use crate::text_map::TextMap;
use vstd::prelude::*;

verus! {

/// One row of a query, by column name.
#[derive(Debug, PartialEq, Eq)]
pub struct ArbitrarySqlRow(pub TextMap);

impl ArbitrarySqlRow {
    pub fn into_map(self) -> (r: TextMap)
        ensures
            r == self.0,
    {
        self.0
    }
}

/// One row of a query, by column position.
#[derive(Debug, PartialEq, Eq)]
pub struct ArbitrarySqlArrayRow(Vec<String>);

impl ArbitrarySqlArrayRow {
    pub fn new(values: Vec<String>) -> (r: Self)
        ensures
            r.values() == values,
    {
        ArbitrarySqlArrayRow(values)
    }

    pub closed spec fn values(&self) -> Vec<String> {
        self.0
    }

    pub fn as_vec(&self) -> (r: &Vec<String>)
        ensures
            *r == self.values(),
    {
        &self.0
    }
}

/// The rows of a query with its column names.
#[derive(Debug, PartialEq, Eq)]
pub struct ArbitrarySqlArrayRowsAndNames {
    pub names: Vec<String>,
    pub rows: Vec<ArbitrarySqlArrayRow>,
}

/// Queries to run in one transaction, with optional before-and-after views.
#[derive(Debug, PartialEq, Eq)]
pub struct ExecuteQueriesRequest {
    pub queries: Vec<String>,
    pub diff_query: String,
    pub should_diff_query: bool,
    pub should_diff_mermaid: bool,
    pub execute: bool,
}

/// The rows of each query, and the views before and after them.
#[derive(Debug, PartialEq, Eq)]
pub struct ExecuteQueriesResponse {
    pub query_results: Vec<ArbitrarySqlArrayRowsAndNames>,
    pub query_diff: Option<Vec<ArbitrarySqlArrayRowsAndNames>>,
    pub mermaid_diff: Option<Vec<String>>,
}

} // verus!
