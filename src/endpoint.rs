//! Endpoint definitions: trees of named SQL templates, compiled node by node.

use crate::template::{compile, CompileError, SqlWithVariables};
use crate::text::texts;
use vstd::prelude::*;

verus! {

/// An endpoint definition as its author writes it.
#[derive(Debug, PartialEq, Eq)]
pub struct EndpointInfoCreateRequest {
    pub name: String,
    pub sql: String,
    pub children: Vec<EndpointInfoCreateRequest>,
}

/// A compiled endpoint node.
#[derive(Debug, PartialEq, Eq)]
pub struct EndpointInfo {
    pub name: String,
    pub original_sql: String,
    pub parsed_sql: String,
    pub variables: Vec<String>,
    pub children: Vec<EndpointInfo>,
}

/// Every template in the tree compiles.
pub open spec fn tree_compiles(req: EndpointInfoCreateRequest) -> bool
    decreases req,
{
    &&& compile(req.sql@) is Some
    &&& forall|i: int|
        0 <= i < req.children@.len() ==> tree_compiles(#[trigger] req.children@[i])
}

/// `info` is `req` with every template compiled.
pub open spec fn compiled_from(info: EndpointInfo, req: EndpointInfoCreateRequest) -> bool
    decreases req,
{
    &&& info.name@ == req.name@
    &&& info.original_sql@ == req.sql@
    &&& compile(req.sql@) == Some((info.parsed_sql@, texts(info.variables@)))
    &&& info.children@.len() == req.children@.len()
    &&& forall|i: int|
        0 <= i < req.children@.len() ==> compiled_from(
            info.children@[i],
            #[trigger] req.children@[i],
        )
}

/// `req` keeps the names, the templates and the shape of `info`.
pub open spec fn uncompiled_from(req: EndpointInfoCreateRequest, info: EndpointInfo) -> bool
    decreases info,
{
    &&& req.name@ == info.name@
    &&& req.sql@ == info.original_sql@
    &&& req.children@.len() == info.children@.len()
    &&& forall|i: int|
        0 <= i < info.children@.len() ==> uncompiled_from(
            req.children@[i],
            #[trigger] info.children@[i],
        )
}

/// Two definitions with the same names, templates and shape.
pub open spec fn same_definition(a: EndpointInfoCreateRequest, b: EndpointInfoCreateRequest) -> bool
    decreases a,
{
    &&& a.name@ == b.name@
    &&& a.sql@ == b.sql@
    &&& a.children@.len() == b.children@.len()
    &&& forall|i: int|
        0 <= i < a.children@.len() ==> same_definition(
            #[trigger] a.children@[i],
            b.children@[i],
        )
}

fn compile_node(req: &EndpointInfoCreateRequest) -> (r: Result<EndpointInfo, CompileError>)
    ensures
        r is Ok <==> tree_compiles(*req),
        r matches Ok(info) ==> compiled_from(info, *req),
    decreases *req,
{
    let compiled = match SqlWithVariables::from_sql(req.sql.as_str()) {
        Ok(c) => c,
        Err(e) => return Err(e),
    };
    let n = req.children.len();
    let mut children: Vec<EndpointInfo> = Vec::new();
    let mut i: usize = 0;
    while i < n
        invariant
            n == req.children@.len(),
            i <= n,
            children@.len() == i,
            forall|q: int| 0 <= q < i ==> tree_compiles(#[trigger] req.children@[q]),
            forall|q: int| 0 <= q < i ==> compiled_from(#[trigger] children@[q], req.children@[q]),
        decreases n - i,
    {
        match compile_node(&req.children[i]) {
            Ok(c) => children.push(c),
            Err(e) => {
                assert(!tree_compiles(req.children@[i as int]));
                return Err(e);
            },
        }
        i += 1;
    }
    let info = EndpointInfo {
        name: req.name.clone(),
        original_sql: req.sql.clone(),
        parsed_sql: compiled.sql,
        variables: compiled.variables,
        children,
    };
    Ok(info)
}

fn uncompile_node(info: &EndpointInfo) -> (r: EndpointInfoCreateRequest)
    ensures
        uncompiled_from(r, *info),
    decreases *info,
{
    let n = info.children.len();
    let mut children: Vec<EndpointInfoCreateRequest> = Vec::new();
    let mut i: usize = 0;
    while i < n
        invariant
            n == info.children@.len(),
            i <= n,
            children@.len() == i,
            forall|q: int|
                0 <= q < i ==> uncompiled_from(#[trigger] children@[q], info.children@[q]),
        decreases n - i,
    {
        children.push(uncompile_node(&info.children[i]));
        i += 1;
    }
    EndpointInfoCreateRequest { name: info.name.clone(), sql: info.original_sql.clone(), children }
}

impl EndpointInfo {
    /// Compiles every template of the definition tree; the first template
    /// that does not compile fails the whole tree.
    pub fn from_request(req: EndpointInfoCreateRequest) -> (r: Result<Self, CompileError>)
        ensures
            r is Ok <==> tree_compiles(req),
            r matches Ok(info) ==> compiled_from(info, req),
            r matches Err(e) ==> e == CompileError::UnterminatedVariableBlock,
    {
        compile_node(&req)
    }

    /// The definition this node was compiled from: names, templates and
    /// shape, without the compiled parts.
    pub fn to_request(self) -> (r: EndpointInfoCreateRequest)
        ensures
            uncompiled_from(r, self),
    {
        uncompile_node(&self)
    }
}

/// Compiling a definition and taking the definition back gives the
/// definition that was compiled.
pub proof fn lemma_definition_round_trip(
    req: EndpointInfoCreateRequest,
    info: EndpointInfo,
    back: EndpointInfoCreateRequest,
)
    requires
        compiled_from(info, req),
        uncompiled_from(back, info),
    ensures
        same_definition(back, req),
    decreases req,
{
    assert forall|i: int| 0 <= i < back.children@.len() implies same_definition(
        #[trigger] back.children@[i],
        req.children@[i],
    ) by {
        assert(compiled_from(info.children@[i], req.children@[i]));
        assert(uncompiled_from(back.children@[i], info.children@[i]));
        lemma_definition_round_trip(req.children@[i], info.children@[i], back.children@[i]);
    }
}

} // verus!
