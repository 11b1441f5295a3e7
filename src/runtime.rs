//! The execution runtime: walks a compiled endpoint tree, resolves each
//! variable against the request or an ancestor row, submits each query to
//! a query acceptor and assembles the nested result.

use crate::endpoint::EndpointInfo;
use crate::text::{has_prefix, push_text, starts_with, text_of, texts};
use crate::text_map::{
    is_private_key, lemma_without_private_lookup, lookup, without_private, Entry, TextMap,
};
use vstd::prelude::*;

verus! {

/// `req.`
pub open spec fn request_prefix() -> Seq<char> {
    seq!['r', 'e', 'q', '.']
}

/// `super.`
pub open spec fn ancestor_prefix() -> Seq<char> {
    seq!['s', 'u', 'p', 'e', 'r', '.']
}

/// How many `super.` the name starts with.
pub open spec fn super_count(name: Seq<char>) -> nat
    decreases name.len(),
{
    if has_prefix(name, ancestor_prefix()) {
        1 + super_count(name.subrange(6, name.len() as int))
    } else {
        0
    }
}

/// The name without its leading `super.`s.
pub open spec fn super_key(name: Seq<char>) -> Seq<char>
    decreases name.len(),
{
    if has_prefix(name, ancestor_prefix()) {
        super_key(name.subrange(6, name.len() as int))
    } else {
        name
    }
}

/// Why a variable could not be resolved, or an execution failed.
pub enum Failure {
    InvalidVariableName(Seq<char>),
    RequestKeyNotFound(Seq<char>),
    NegativeAncestorIndex(Seq<char>),
    AncestorKeyNotFound(Seq<char>),
    StackDisciplineViolation,
    Db(Seq<char>),
}

/// The value of the variable `name`: `req.<key>` reads the request,
/// `super.` repeated `c` times reads the row `c` levels up.
pub open spec fn resolve(name: Seq<char>, request: Seq<Entry>, scopes: Seq<Seq<Entry>>) -> Result<
    Seq<char>,
    Failure,
> {
    if has_prefix(name, request_prefix()) {
        let key = name.subrange(4, name.len() as int);
        match lookup(request, key) {
            Some(v) => Ok(v),
            None => Err(Failure::RequestKeyNotFound(key)),
        }
    } else if has_prefix(name, ancestor_prefix()) {
        let c = super_count(name);
        if c > scopes.len() {
            Err(Failure::NegativeAncestorIndex(name))
        } else {
            match lookup(scopes[scopes.len() - c], super_key(name)) {
                Some(v) => Ok(v),
                None => Err(Failure::AncestorKeyNotFound(name)),
            }
        }
    } else {
        Err(Failure::InvalidVariableName(name))
    }
}

/// The values of `names` in order, or the first failure.
pub open spec fn resolve_all(
    names: Seq<Seq<char>>,
    request: Seq<Entry>,
    scopes: Seq<Seq<Entry>>,
) -> Result<Seq<Seq<char>>, Failure>
    decreases names.len(),
{
    if names.len() == 0 {
        Ok(Seq::empty())
    } else {
        match resolve(names[0], request, scopes) {
            Err(e) => Err(e),
            Ok(v) => match resolve_all(names.drop_first(), request, scopes) {
                Ok(vs) => Ok(seq![v] + vs),
                Err(e) => Err(e),
            },
        }
    }
}

/// One query as the acceptor saw it: the SQL, the values bound to it, and
/// the rows (or the error) that came back.
pub type Exchange = (Seq<char>, Seq<Seq<char>>, Result<Seq<Seq<Entry>>, Seq<char>>);

/// The result for one row: its visible columns and its children's results.
pub struct ResultView {
    pub data: Seq<Entry>,
    pub children: Seq<(Seq<char>, Seq<ResultView>)>,
}

/// Results grouped by node name, groups in order of first appearance.
pub type Groups = Seq<(Seq<char>, Seq<ResultView>)>;

/// `groups` with `r` appended under `name`.
pub open spec fn add_to_group(groups: Groups, name: Seq<char>, r: ResultView) -> Groups
    decreases groups.len(),
{
    if groups.len() == 0 {
        seq![(name, seq![r])]
    } else if groups[0].0 == name {
        groups.update(0, (name, groups[0].1.push(r)))
    } else {
        seq![groups[0]] + add_to_group(groups.drop_first(), name, r)
    }
}

/// The end of an execution against `t`, the calls an acceptor logged: the
/// groups and the number of calls used, or the failure and the number
/// used, or `Unmatched` when the calls do not follow the queries the tree
/// asks for.
pub enum Outcome {
    Done(Groups, nat),
    Failed(Failure, nat),
    Unmatched,
}

/// `o` after `n` more exchanges.
pub open spec fn shifted(o: Outcome, n: nat) -> Outcome {
    match o {
        Outcome::Done(g, u) => Outcome::Done(g, u + n),
        Outcome::Failed(e, u) => Outcome::Failed(e, u + n),
        Outcome::Unmatched => Outcome::Unmatched,
    }
}

/// Runs `nodes` in order against `t`, the calls an acceptor logged, adding
/// to `acc`.
pub open spec fn run_nodes(
    request: Seq<Entry>,
    nodes: Seq<EndpointInfo>,
    scopes: Seq<Seq<Entry>>,
    t: Seq<Exchange>,
    acc: Groups,
) -> Outcome
    decreases nodes, 0nat, 0nat,
{
    if nodes.len() == 0 {
        Outcome::Done(acc, 0)
    } else {
        match run_node(request, nodes[0], scopes, t, acc) {
            Outcome::Done(acc2, u) => shifted(
                run_nodes(
                    request,
                    nodes.subrange(1, nodes.len() as int),
                    scopes,
                    t.subrange(u as int, t.len() as int),
                    acc2,
                ),
                u,
            ),
            other => other,
        }
    }
}

/// Runs one node: resolves its variables, submits its query (the first
/// exchange of `t`), then runs its children for each row that came back.
pub open spec fn run_node(
    request: Seq<Entry>,
    node: EndpointInfo,
    scopes: Seq<Seq<Entry>>,
    t: Seq<Exchange>,
    acc: Groups,
) -> Outcome
    decreases node, 1nat, 0nat,
{
    match resolve_all(texts(node.variables@), request, scopes) {
        Err(e) => Outcome::Failed(e, 0),
        Ok(values) => {
            if t.len() == 0 || t[0].0 != node.parsed_sql@ || t[0].1 != values {
                Outcome::Unmatched
            } else {
                match t[0].2 {
                    Err(m) => Outcome::Failed(Failure::Db(m), 1),
                    Ok(rows) => shifted(
                        run_rows(request, node, rows, scopes, t.subrange(1, t.len() as int), acc),
                        1,
                    ),
                }
            }
        },
    }
}

/// Runs the children of `node` once for each of `rows`, in order, and
/// files each row's result under the node's name.
pub open spec fn run_rows(
    request: Seq<Entry>,
    node: EndpointInfo,
    rows: Seq<Seq<Entry>>,
    scopes: Seq<Seq<Entry>>,
    t: Seq<Exchange>,
    acc: Groups,
) -> Outcome
    decreases node, 0nat, rows.len(),
{
    if rows.len() == 0 {
        Outcome::Done(acc, 0)
    } else {
        let row = rows[0];
        match run_nodes(request, node.children@, scopes.push(row), t, Seq::empty()) {
            Outcome::Done(children, u) => {
                let r = ResultView { data: without_private(row), children };
                shifted(
                    run_rows(
                        request,
                        node,
                        rows.drop_first(),
                        scopes,
                        t.subrange(u as int, t.len() as int),
                        add_to_group(acc, node.name@, r),
                    ),
                    u,
                )
            },
            other => other,
        }
    }
}

/// A node with a variable that cannot be resolved fails before its query
/// is submitted: it uses none of the acceptor's logged calls, whatever the
/// acceptor would answer. With the contract of `execute`, which equates the
/// calls used with what the acceptor's log gained, its query never reaches
/// the acceptor.
pub proof fn lemma_unresolved_node_submits_nothing(
    request: Seq<Entry>,
    node: EndpointInfo,
    scopes: Seq<Seq<Entry>>,
    t: Seq<Exchange>,
    acc: Groups,
)
    requires
        resolve_all(texts(node.variables@), request, scopes) is Err,
    ensures
        run_node(request, node, scopes, t, acc) == Outcome::Failed(
            resolve_all(texts(node.variables@), request, scopes)->Err_0,
            0,
        ),
        run_nodes(request, seq![node], scopes, t, acc) == Outcome::Failed(
            resolve_all(texts(node.variables@), request, scopes)->Err_0,
            0,
        ),
{
}

/// A `private_` column of a row can be read by the row's children through
/// `super.`, and is left out of the row's own data.
pub proof fn lemma_private_column_scoped_not_shown(
    row: Seq<Entry>,
    key: Seq<char>,
    request: Seq<Entry>,
    scopes: Seq<Seq<Entry>>,
)
    requires
        is_private_key(key),
        lookup(row, key) is Some,
    ensures
        resolve(ancestor_prefix() + key, request, scopes.push(row)) == Ok::<Seq<char>, Failure>(
            lookup(row, key)->0,
        ),
        lookup(without_private(row), key) is None,
{
    let name = ancestor_prefix() + key;
    assert(has_prefix(name, ancestor_prefix())) by {
        assert(name.subrange(0, 6) =~= ancestor_prefix());
    }
    assert(name.subrange(6, name.len() as int) =~= key);
    assert(!has_prefix(key, ancestor_prefix())) by {
        if has_prefix(key, ancestor_prefix()) {
            assert(key.subrange(0, 6)[0] == key.subrange(0, 8)[0]);
        }
    }
    assert(!has_prefix(name, request_prefix())) by {
        if has_prefix(name, request_prefix()) {
            assert(name.subrange(0, 4)[0] == name[0]);
        }
    }
    assert(super_count(key) == 0);
    assert(super_count(name) == 1);
    assert(super_key(key) == key);
    assert(super_key(name) == super_key(name.subrange(6, name.len() as int)));
    assert(super_key(name) == key);
    let sp = scopes.push(row);
    assert(sp[sp.len() - 1] == row);
    lemma_without_private_lookup(row);
}

/// The number of exchanges an outcome used.
pub open spec fn used(o: Outcome) -> nat {
    match o {
        Outcome::Done(_, u) => u,
        Outcome::Failed(_, u) => u,
        Outcome::Unmatched => 0,
    }
}

proof fn lemma_frame_nodes(
    request: Seq<Entry>,
    nodes: Seq<EndpointInfo>,
    scopes: Seq<Seq<Entry>>,
    t: Seq<Exchange>,
    acc: Groups,
    extra: Seq<Exchange>,
)
    requires
        !(run_nodes(request, nodes, scopes, t, acc) is Unmatched),
    ensures
        run_nodes(request, nodes, scopes, t + extra, acc) == run_nodes(request, nodes, scopes, t, acc),
        used(run_nodes(request, nodes, scopes, t, acc)) <= t.len(),
    decreases nodes, 0nat, 0nat,
{
    if nodes.len() > 0 {
        let o = run_node(request, nodes[0], scopes, t, acc);
        lemma_frame_node(request, nodes[0], scopes, t, acc, extra);
        match o {
            Outcome::Done(acc2, u) => {
                let t2 = t.subrange(u as int, t.len() as int);
                assert((t + extra).subrange(u as int, (t + extra).len() as int) =~= t2 + extra);
                lemma_frame_nodes(
                    request,
                    nodes.subrange(1, nodes.len() as int),
                    scopes,
                    t2,
                    acc2,
                    extra,
                );
            },
            _ => {},
        }
    }
}

proof fn lemma_frame_node(
    request: Seq<Entry>,
    node: EndpointInfo,
    scopes: Seq<Seq<Entry>>,
    t: Seq<Exchange>,
    acc: Groups,
    extra: Seq<Exchange>,
)
    requires
        !(run_node(request, node, scopes, t, acc) is Unmatched),
    ensures
        run_node(request, node, scopes, t + extra, acc) == run_node(request, node, scopes, t, acc),
        used(run_node(request, node, scopes, t, acc)) <= t.len(),
    decreases node, 1nat, 0nat,
{
    match resolve_all(texts(node.variables@), request, scopes) {
        Err(e) => {},
        Ok(values) => {
            assert((t + extra)[0] == t[0]);
            match t[0].2 {
                Err(m) => {},
                Ok(rows) => {
                    let t1 = t.subrange(1, t.len() as int);
                    assert((t + extra).subrange(1, (t + extra).len() as int) =~= t1 + extra);
                    lemma_frame_rows(request, node, rows, scopes, t1, acc, extra);
                },
            }
        },
    }
}

proof fn lemma_frame_rows(
    request: Seq<Entry>,
    node: EndpointInfo,
    rows: Seq<Seq<Entry>>,
    scopes: Seq<Seq<Entry>>,
    t: Seq<Exchange>,
    acc: Groups,
    extra: Seq<Exchange>,
)
    requires
        !(run_rows(request, node, rows, scopes, t, acc) is Unmatched),
    ensures
        run_rows(request, node, rows, scopes, t + extra, acc) == run_rows(
            request,
            node,
            rows,
            scopes,
            t,
            acc,
        ),
        used(run_rows(request, node, rows, scopes, t, acc)) <= t.len(),
    decreases node, 0nat, rows.len(),
{
    if rows.len() > 0 {
        let row = rows[0];
        lemma_frame_nodes(request, node.children@, scopes.push(row), t, Seq::empty(), extra);
        match run_nodes(request, node.children@, scopes.push(row), t, Seq::empty()) {
            Outcome::Done(children, u) => {
                let r = ResultView { data: without_private(row), children };
                let t2 = t.subrange(u as int, t.len() as int);
                assert((t + extra).subrange(u as int, (t + extra).len() as int) =~= t2 + extra);
                lemma_frame_rows(
                    request,
                    node,
                    rows.drop_first(),
                    scopes,
                    t2,
                    add_to_group(acc, node.name@, r),
                    extra,
                );
            },
            _ => {},
        }
    }
}

} // verus!

verus! {

/// Why an execution failed.
#[derive(Debug, PartialEq, Eq)]
pub enum ExecutionError {
    /// A variable that starts with neither `req.` nor `super.`.
    InvalidVariableName(String),
    /// A `req.` variable whose key the request lacks (holds the key).
    RequestKeyNotFound(String),
    /// A `super.` chain longer than the ancestor rows in scope.
    NegativeAncestorIndex(String),
    /// A `super.` variable whose row lacks the key (holds the whole name).
    AncestorKeyNotFound(String),
    /// A row frame that could not be popped.
    StackDisciplineViolation,
    /// What the query acceptor reported.
    Db(String),
}

impl View for ExecutionError {
    type V = Failure;

    open spec fn view(&self) -> Failure {
        match self {
            ExecutionError::InvalidVariableName(s) => Failure::InvalidVariableName(s@),
            ExecutionError::RequestKeyNotFound(s) => Failure::RequestKeyNotFound(s@),
            ExecutionError::NegativeAncestorIndex(s) => Failure::NegativeAncestorIndex(s@),
            ExecutionError::AncestorKeyNotFound(s) => Failure::AncestorKeyNotFound(s@),
            ExecutionError::StackDisciplineViolation => Failure::StackDisciplineViolation,
            ExecutionError::Db(s) => Failure::Db(s@),
        }
    }
}

fn framed(before: &str, middle: &String, after: &str) -> (r: String)
    ensures
        r@ == before@ + middle@ + after@,
{
    let mut r = text_of(before);
    push_text(&mut r, middle.as_str());
    push_text(&mut r, after);
    r
}

/// The message that describes a failure.
pub open spec fn failure_message(f: Failure) -> Seq<char> {
    match f {
        Failure::InvalidVariableName(n) => "Bad variable name ("@ + n
            + "). Should begin with super. or req."@,
        Failure::RequestKeyNotFound(k) => "Request key "@ + k + " not found"@,
        Failure::NegativeAncestorIndex(n) => "Too many 'super.'s, reached negative index ("@ + n
            + ")"@,
        Failure::AncestorKeyNotFound(n) => "Execution key "@ + n + " not found"@,
        Failure::StackDisciplineViolation => "Could not pop execution map"@,
        Failure::Db(m) => m,
    }
}

impl ExecutionError {
    /// The message that describes the error.
    pub fn to_string(&self) -> (r: String)
        ensures
            r@ == failure_message(self@),
    {
        match self {
            ExecutionError::InvalidVariableName(n) => framed(
                "Bad variable name (",
                n,
                "). Should begin with super. or req.",
            ),
            ExecutionError::RequestKeyNotFound(k) => framed("Request key ", k, " not found"),
            ExecutionError::NegativeAncestorIndex(n) => framed(
                "Too many 'super.'s, reached negative index (",
                n,
                ")",
            ),
            ExecutionError::AncestorKeyNotFound(n) => framed("Execution key ", n, " not found"),
            ExecutionError::StackDisciplineViolation => text_of("Could not pop execution map"),
            ExecutionError::Db(m) => m.clone(),
        }
    }
}

/// The result for one row: its columns without the private ones, and the
/// results of the node's children for that row.
#[derive(Debug, PartialEq, Eq)]
pub struct ExecutionResult {
    pub data: TextMap,
    pub children: ResultMap,
}

/// Results grouped by node name; groups keep the order in which their
/// name first came up, results the order in which they were added.
#[derive(Debug, PartialEq, Eq)]
pub struct ResultMap {
    pub groups: Vec<(String, Vec<ExecutionResult>)>,
}

/// `r` holds what `v` describes.
pub open spec fn result_is(r: ExecutionResult, v: ResultView) -> bool
    decreases r,
{
    &&& r.data@ == v.data
    &&& groups_are(r.children, v.children)
}

/// `m` holds what `g` describes.
pub open spec fn groups_are(m: ResultMap, g: Groups) -> bool
    decreases m,
{
    &&& m.groups@.len() == g.len()
    &&& forall|i: int|
        0 <= i < g.len() ==> {
            &&& (#[trigger] m.groups@[i]).0@ == g[i].0
            &&& m.groups@[i].1@.len() == g[i].1.len()
            &&& forall|j: int|
                0 <= j < g[i].1.len() ==> result_is(#[trigger] m.groups@[i].1@[j], g[i].1[j])
        }
}

proof fn lemma_add_to_group_found(g: Groups, name: Seq<char>, r: ResultView, i: int)
    requires
        0 <= i < g.len(),
        g[i].0 == name,
        forall|j: int| 0 <= j < i ==> g[j].0 != name,
    ensures
        add_to_group(g, name, r) == g.update(i, (name, g[i].1.push(r))),
    decreases i,
{
    if i > 0 {
        assert forall|j: int| 0 <= j < i - 1 implies g.drop_first()[j].0 != name by {
            assert(g.drop_first()[j] == g[j + 1]);
        }
        lemma_add_to_group_found(g.drop_first(), name, r, i - 1);
        assert(seq![g[0]] + g.drop_first().update(i - 1, (name, g[i].1.push(r))) =~= g.update(
            i,
            (name, g[i].1.push(r)),
        ));
    }
}

proof fn lemma_add_to_group_new(g: Groups, name: Seq<char>, r: ResultView)
    requires
        forall|j: int| 0 <= j < g.len() ==> g[j].0 != name,
    ensures
        add_to_group(g, name, r) == g.push((name, seq![r])),
    decreases g.len(),
{
    if g.len() > 0 {
        assert forall|j: int| 0 <= j < g.len() - 1 implies g.drop_first()[j].0 != name by {
            assert(g.drop_first()[j] == g[j + 1]);
        }
        lemma_add_to_group_new(g.drop_first(), name, r);
        assert(seq![g[0]] + g.drop_first().push((name, seq![r])) =~= g.push((name, seq![r])));
    }
}

impl ResultMap {
    /// No groups.
    pub fn new() -> (r: ResultMap)
        ensures
            groups_are(r, Seq::empty()),
    {
        ResultMap { groups: Vec::new() }
    }

    /// The results filed under `name`.
    pub fn get(&self, name: &str) -> (r: Option<&Vec<ExecutionResult>>)
        ensures
            match r {
                Some(v) => exists|i: int|
                    0 <= i < self.groups@.len() && self.groups@[i].0@ == name@ && self.groups@[i].1
                        == *v,
                None => forall|i: int|
                    0 <= i < self.groups@.len() ==> self.groups@[i].0@ != name@,
            },
    {
        let n = self.groups.len();
        let mut i: usize = 0;
        while i < n
            invariant
                n == self.groups@.len(),
                i <= n,
                forall|j: int| 0 <= j < i ==> self.groups@[j].0@ != name@,
            decreases n - i,
        {
            if crate::text::str_eq(self.groups[i].0.as_str(), name) {
                return Some(&self.groups[i].1);
            }
            i += 1;
        }
        None
    }

    /// Files `r` under `name`, after the results already there.
    pub(crate) fn add(&mut self, name: &String, r: ExecutionResult, Ghost(g): Ghost<Groups>, Ghost(
        v,
    ): Ghost<ResultView>)
        requires
            groups_are(*old(self), g),
            result_is(r, v),
        ensures
            groups_are(*final(self), add_to_group(g, name@, v)),
    {
        let n = self.groups.len();
        let mut i: usize = 0;
        while i < n
            invariant
                n == self.groups@.len(),
                groups_are(*self, g),
                result_is(r, v),
                i <= n,
                forall|j: int| 0 <= j < i ==> g[j].0 != name@,
            decreases n - i,
        {
            assert(self.groups@[i as int].0@ == g[i as int].0);
            if crate::text::str_eq(self.groups[i].0.as_str(), name.as_str()) {
                proof {
                    lemma_add_to_group_found(g, name@, v, i as int);
                }
                let ghost before = self.groups@;
                let ghost before_self = *self;
                assert(groups_are(before_self, g));
                let (gname, mut list) = self.groups.remove(i);
                let ghost old_list = list@;
                list.push(r);
                self.groups.insert(i, (gname, list));
                proof {
                    let g2 = g.update(i as int, (name@, g[i as int].1.push(v)));
                    assert(self.groups@ == before.update(i as int, (gname, list)));
                    assert forall|q: int| 0 <= q < g2.len() implies {
                        &&& (#[trigger] self.groups@[q]).0@ == g2[q].0
                        &&& self.groups@[q].1@.len() == g2[q].1.len()
                        &&& forall|j: int|
                            0 <= j < g2[q].1.len() ==> result_is(
                                #[trigger] self.groups@[q].1@[j],
                                g2[q].1[j],
                            )
                    } by {
                        if q == i {
                            assert forall|j: int| 0 <= j < g2[q].1.len() implies result_is(
                                #[trigger] self.groups@[q].1@[j],
                                g2[q].1[j],
                            ) by {
                                assert(old_list == before[q].1@);
                                assert(old_list.len() == g[q].1.len());
                                if j < old_list.len() {
                                    assert(g2[q].1[j] == g[q].1[j]);
                                    assert(self.groups@[q].1@[j] == before[q].1@[j]);
                                    assert(result_is(before[q].1@[j], g[q].1[j]));
                                } else {
                                    assert(self.groups@[q].1@[j] == r);
                                    assert(g2[q].1[j] == v);
                                }
                            }
                        } else {
                            assert(self.groups@[q] == before[q]);
                        }
                    }
                    assert(groups_are(*self, g2));
                }
                return ;
            }
            i += 1;
        }
        proof {
            lemma_add_to_group_new(g, name@, v);
        }
        let ghost before = self.groups@;
        let mut list: Vec<ExecutionResult> = Vec::new();
        list.push(r);
        self.groups.push((name.clone(), list));
        proof {
            let g2 = g.push((name@, seq![v]));
            assert forall|q: int| 0 <= q < g2.len() implies {
                &&& (#[trigger] self.groups@[q]).0@ == g2[q].0
                &&& self.groups@[q].1@.len() == g2[q].1.len()
                &&& forall|j: int|
                    0 <= j < g2[q].1.len() ==> result_is(#[trigger] self.groups@[q].1@[j], g2[q].1[j])
            } by {
                if q < g.len() {
                    assert(self.groups@[q] == before[q]);
                } else {
                    assert forall|j: int| 0 <= j < g2[q].1.len() implies result_is(
                        #[trigger] self.groups@[q].1@[j],
                        g2[q].1[j],
                    ) by {
                        assert(j == 0);
                        assert(self.groups@[q].1@[0] == r);
                    }
                }
            }
            assert(groups_are(*self, g2));
        }
    }
}

} // verus!

verus! {

/// Runs one parameterised query inside the caller's transaction and hands
/// back every row as a map from column name to text.
pub trait QueryAcceptor {
    /// What the acceptor was set up with; no call changes it.
    type Setup;

    /// The acceptor's setup.
    open spec fn setup(&self) -> Self::Setup {
        arbitrary()
    }

    /// Every query this acceptor has run, with the values bound to it and
    /// what it answered, oldest first. An acceptor that keeps no log states
    /// none.
    open spec fn log(&self) -> Seq<Exchange> {
        Seq::empty()
    }

    /// What the acceptor keeps true from one call to the next. An acceptor
    /// that does not define its log keeps nothing true, and the runtime
    /// promises nothing about what it is sent or returns.
    open spec fn inv(&self) -> bool {
        false
    }

    /// Runs `sql` with `params` bound to `$1`, `$2`, ... in order, and
    /// records the call and its answer in the log.
    fn submit(&mut self, sql: &String, params: &Vec<String>) -> (r: Result<Vec<TextMap>, String>)
        requires
            old(self).inv(),
        ensures
            final(self).inv(),
            final(self).setup() == old(self).setup(),
            final(self).log() == old(self).log().push((sql@, texts(params@), answer_of(r))),
    ;
}

/// The bound values of every call of `log`, in order.
pub open spec fn all_params(log: Seq<Exchange>) -> Seq<Seq<char>>
    decreases log.len(),
{
    if log.len() == 0 {
        Seq::empty()
    } else {
        all_params(log.drop_last()) + log.last().1
    }
}

/// How many of the prepared row sets `calls` calls use up.
pub open spec fn used_up(calls: nat, prepared: nat) -> nat {
    if calls < prepared {
        calls
    } else {
        prepared
    }
}

/// The answer to the `i`-th call of a double prepared with `prepared`: the
/// row sets from the last one down, then an error.
pub open spec fn prepared_answer(prepared: Seq<Seq<Seq<Entry>>>, i: int) -> Result<
    Seq<Seq<Entry>>,
    Seq<char>,
> {
    if i < prepared.len() {
        Ok(prepared[prepared.len() - 1 - i])
    } else {
        Err("no result set left for the query"@)
    }
}

/// The row sets, as specs see them.
pub open spec fn row_sets(stack: Seq<Vec<TextMap>>) -> Seq<Seq<Seq<Entry>>> {
    stack.map_values(|rows: Vec<TextMap>| scopes_of(rows@))
}

/// A query acceptor for tests: it records each query and each bound value,
/// and answers each query with the last row set of `result_stack`.
pub struct ExecutionMockService {
    pub bound_params: Vec<String>,
    pub called_queries: Vec<String>,
    pub result_stack: Vec<Vec<TextMap>>,
    /// Every call so far, with its bound values and answer.
    pub history: Ghost<Seq<Exchange>>,
    /// The row sets the double was made with.
    pub prepared: Ghost<Seq<Seq<Seq<Entry>>>>,
}

impl ExecutionMockService {
    /// Every call so far, with its bound values and answer.
    pub open spec fn history(&self) -> Seq<Exchange> {
        self.history@
    }

    /// The row sets the double was made with.
    pub open spec fn prepared(&self) -> Seq<Seq<Seq<Entry>>> {
        self.prepared@
    }

    /// The public records agree with the history: one called query per
    /// call, the bound values of all calls in order, the answers taken from
    /// the prepared row sets, last first, and the row sets not yet used.
    pub open spec fn faithful(&self) -> bool {
        &&& texts(self.called_queries@) == self.history().map_values(|e: Exchange| e.0)
        &&& texts(self.bound_params@) == all_params(self.history())
        &&& forall|i: int|
            0 <= i < self.history().len() ==> (#[trigger] self.history()[i]).2 == prepared_answer(
                self.prepared(),
                i,
            )
        &&& row_sets(self.result_stack@) == self.prepared().subrange(
            0,
            self.prepared().len() - used_up(self.history().len(), self.prepared().len()),
        )
    }

    /// A double that will answer with `result_stack`, last entry first.
    pub fn new(result_stack: Vec<Vec<TextMap>>) -> (r: Self)
        ensures
            r.result_stack == result_stack,
            r.called_queries@.len() == 0,
            r.bound_params@.len() == 0,
            r.history() == Seq::<Exchange>::empty(),
            r.prepared() == row_sets(result_stack@),
            r.faithful(),
    {
        let ghost p = row_sets(result_stack@);
        let r = ExecutionMockService {
            result_stack,
            called_queries: Vec::new(),
            bound_params: Vec::new(),
            history: Ghost(Seq::empty()),
            prepared: Ghost(p),
        };
        assert(texts(r.called_queries@) =~= r.history().map_values(|e: Exchange| e.0));
        assert(texts(r.bound_params@) =~= all_params(r.history()));
        assert(r.prepared().subrange(0, r.prepared().len() as int) =~= r.prepared());
        r
    }

    /// Records a bound value.
    pub fn bind(&mut self, param: &str)
        ensures
            texts(final(self).bound_params@) == texts(old(self).bound_params@).push(param@),
            final(self).called_queries == old(self).called_queries,
            final(self).result_stack == old(self).result_stack,
            final(self).history() == old(self).history(),
            final(self).prepared() == old(self).prepared(),
    {
        let ghost before = texts(self.bound_params@);
        self.bound_params.push(text_of(param));
        assert(texts(self.bound_params@) =~= before.push(param@));
    }

    /// Records a query and answers it with the last row set.
    pub fn simulate_call(&mut self, query: &str) -> (r: Vec<TextMap>)
        requires
            old(self).result_stack@.len() > 0,
        ensures
            r == old(self).result_stack@.last(),
            final(self).result_stack@ == old(self).result_stack@.drop_last(),
            texts(final(self).called_queries@) == texts(old(self).called_queries@).push(query@),
            final(self).bound_params == old(self).bound_params,
            final(self).history() == old(self).history(),
            final(self).prepared() == old(self).prepared(),
    {
        let ghost before = texts(self.called_queries@);
        self.called_queries.push(text_of(query));
        assert(texts(self.called_queries@) =~= before.push(query@));
        match self.result_stack.pop() {
            Some(rows) => rows,
            None => Vec::new(),
        }
    }
}

impl QueryAcceptor for ExecutionMockService {
    type Setup = Seq<Seq<Seq<Entry>>>;

    open spec fn setup(&self) -> Seq<Seq<Seq<Entry>>> {
        self.prepared()
    }

    open spec fn log(&self) -> Seq<Exchange> {
        self.history()
    }

    open spec fn inv(&self) -> bool {
        self.faithful()
    }

    fn submit(&mut self, sql: &String, params: &Vec<String>) -> (r: Result<Vec<TextMap>, String>) {
        let ghost h0 = self.history();
        let ghost b0 = texts(self.bound_params@);
        let ghost stack0 = row_sets(self.result_stack@);
        let ghost p = self.prepared();
        let n = params.len();
        let mut i: usize = 0;
        while i < n
            invariant
                n == params@.len(),
                i <= n,
                texts(self.bound_params@) == b0 + texts(params@).subrange(0, i as int),
                self.called_queries == old(self).called_queries,
                self.result_stack == old(self).result_stack,
                self.history() == h0,
                self.prepared() == p,
            decreases n - i,
        {
            self.bind(params[i].as_str());
            assert(texts(params@).subrange(0, i + 1) =~= texts(params@).subrange(0, i as int).push(
                params@[i as int]@,
            ));
            i += 1;
        }
        assert(texts(params@).subrange(0, n as int) =~= texts(params@));
        let r = if self.result_stack.len() == 0 {
            let ghost before = texts(self.called_queries@);
            self.called_queries.push(text_of(sql.as_str()));
            assert(texts(self.called_queries@) =~= before.push(sql@));
            Err(text_of("no result set left for the query"))
        } else {
            Ok(self.simulate_call(sql.as_str()))
        };
        let ghost entry: Exchange = (sql@, texts(params@), answer_of(r));
        self.history = Ghost(h0.push(entry));
        proof {
            let h1 = h0.push(entry);
            assert(h1.drop_last() =~= h0);
            assert(texts(self.called_queries@) =~= h1.map_values(|e: Exchange| e.0));
            assert(texts(self.bound_params@) =~= all_params(h1));
            let k = h0.len() as int;
            if stack0.len() == 0 {
                assert(p.len() - used_up(h0.len(), p.len()) == 0);
                assert(used_up(h0.len(), p.len()) == p.len());
                assert(!(k < p.len()));
                assert(row_sets(self.result_stack@) =~= p.subrange(
                    0,
                    p.len() - used_up(h1.len(), p.len()),
                ));
            } else {
                assert(k < p.len());
                assert(stack0.last() == p[p.len() - 1 - k]);
                assert(row_sets(self.result_stack@) =~= stack0.drop_last());
                assert(row_sets(self.result_stack@) =~= p.subrange(
                    0,
                    p.len() - used_up(h1.len(), p.len()),
                ));
            }
            assert(h1[k].2 == prepared_answer(p, k));
            assert forall|j: int| 0 <= j < h1.len() implies (#[trigger] h1[j]).2
                == prepared_answer(p, j) by {
                if j < k {
                    assert(h1[j] == h0[j]);
                }
            }
        }
        r
    }
}

/// The rows, as specs see them.
pub open spec fn scopes_of(maps: Seq<TextMap>) -> Seq<Seq<Entry>> {
    maps.map_values(|m: TextMap| m@)
}

/// What came back from the acceptor, as specs see it.
pub open spec fn answer_of(a: Result<Vec<TextMap>, String>) -> Result<Seq<Seq<Entry>>, Seq<char>> {
    match a {
        Ok(rows) => Ok(scopes_of(rows@)),
        Err(m) => Err(m@),
    }
}

/// `after` continues `before`.
pub open spec fn extends(before: Seq<Exchange>, after: Seq<Exchange>) -> bool {
    before.len() <= after.len() && after.subrange(0, before.len() as int) == before
}

/// What `after` added to `before`.
pub open spec fn since(before: Seq<Exchange>, after: Seq<Exchange>) -> Seq<Exchange> {
    after.subrange(before.len() as int, after.len() as int)
}

/// `r` is what the outcome `o` describes, after `n` exchanges.
pub open spec fn finished_as(o: Outcome, r: Result<ResultMap, ExecutionError>, n: nat) -> bool {
    match o {
        Outcome::Done(g, u) => u == n && match r {
            Ok(m) => groups_are(m, g),
            Err(_) => false,
        },
        Outcome::Failed(e, u) => u == n && match r {
            Ok(_) => false,
            Err(x) => x@ == e,
        },
        Outcome::Unmatched => false,
    }
}

/// `r` and `results` are what the outcome `o` of one node describes.
pub open spec fn node_finished_as(
    o: Outcome,
    r: Result<(), ExecutionError>,
    results: ResultMap,
    n: nat,
) -> bool {
    match o {
        Outcome::Done(g, u) => u == n && r is Ok && groups_are(results, g),
        Outcome::Failed(e, u) => u == n && match r {
            Ok(_) => false,
            Err(x) => x@ == e,
        },
        Outcome::Unmatched => false,
    }
}

/// Executes endpoint trees for one request.
pub struct EndpointExecutionRuntime {
    request_map: TextMap,
    execution_maps: Vec<TextMap>,
}

proof fn lemma_extends_refl(t: Seq<Exchange>)
    ensures
        extends(t, t),
{
    assert(t.subrange(0, t.len() as int) =~= t);
}

proof fn lemma_extends_push(t: Seq<Exchange>, x: Exchange)
    ensures
        extends(t, t.push(x)),
{
    assert(t.push(x).subrange(0, t.len() as int) =~= t);
}

proof fn lemma_extends_trans(a: Seq<Exchange>, b: Seq<Exchange>, c: Seq<Exchange>)
    requires
        extends(a, b),
        extends(b, c),
    ensures
        extends(a, c),
{
    assert(c.subrange(0, a.len() as int) =~= b.subrange(0, a.len() as int));
}

proof fn lemma_extends(before: Seq<Exchange>, after: Seq<Exchange>)
    requires
        extends(before, after),
    ensures
        after == before + since(before, after),
{
    assert(after =~= before + since(before, after));
}

impl EndpointExecutionRuntime {
    /// The request's variables.
    pub closed spec fn request(&self) -> Seq<Entry> {
        self.request_map@
    }

    /// The ancestor rows in scope, outermost first.
    pub closed spec fn scopes(&self) -> Seq<Seq<Entry>> {
        scopes_of(self.execution_maps@)
    }

    /// A runtime for one request, with no row in scope.
    pub fn new(request_variables: TextMap) -> (r: Self)
        ensures
            r.request() == request_variables@,
            r.scopes() == Seq::<Seq<Entry>>::empty(),
    {
        let r = EndpointExecutionRuntime {
            request_map: request_variables,
            execution_maps: Vec::new(),
        };
        assert(r.scopes() =~= Seq::<Seq<Entry>>::empty());
        r
    }

    fn push_execution_map(&mut self, map: TextMap)
        ensures
            final(self).scopes() == old(self).scopes().push(map@),
            final(self).request() == old(self).request(),
    {
        let ghost before = self.scopes();
        let ghost m = map@;
        self.execution_maps.push(map);
        assert(self.scopes() =~= before.push(m));
    }

    fn pop_execution_map(&mut self) -> (r: Option<TextMap>)
        ensures
            old(self).scopes().len() > 0 ==> (r matches Some(m) && m@ == old(self).scopes().last()
                && final(self).scopes() == old(self).scopes().drop_last()),
            old(self).scopes().len() == 0 ==> r is None && final(self).scopes() == old(
                self,
            ).scopes(),
            final(self).request() == old(self).request(),
    {
        let ghost before = self.scopes();
        let r = self.execution_maps.pop();
        assert(before.len() > 0 ==> self.scopes() =~= before.drop_last());
        r
    }

    /// The value of the variable `key`; see [`resolve`].
    fn get_variable_clone(&self, key: &str) -> (r: Result<String, ExecutionError>)
        ensures
            match r {
                Ok(v) => resolve(key@, self.request(), self.scopes()) == Ok::<Seq<char>, Failure>(
                    v@,
                ),
                Err(e) => resolve(key@, self.request(), self.scopes()) == Err::<Seq<char>, Failure>(
                    e@,
                ),
            },
    {
        proof {
            reveal_strlit("req.");
            reveal_strlit("super.");
            assert("req."@ =~= request_prefix());
            assert("super."@ =~= ancestor_prefix());
        }
        if starts_with(key, "req.") {
            let k = key.substring_char(4, key.unicode_len());
            match self.request_map.get(k) {
                Some(v) => Ok(v.clone()),
                None => Err(ExecutionError::RequestKeyNotFound(text_of(k))),
            }
        } else if starts_with(key, "super.") {
            let mut counter: usize = 0;
            let mut inner: &str = key;
            let klen = key.unicode_len();
            while starts_with(inner, "super.")
                invariant
                    "super."@ == ancestor_prefix(),
                    klen == key@.len(),
                    super_count(key@) == counter + super_count(inner@),
                    super_key(key@) == super_key(inner@),
                    counter + inner@.len() <= key@.len(),
                decreases inner@.len(),
            {
                inner = inner.substring_char(6, inner.unicode_len());
                counter += 1;
            }
            let depth = self.execution_maps.len();
            if counter > depth {
                return Err(ExecutionError::NegativeAncestorIndex(text_of(key)));
            }
            let map = &self.execution_maps[depth - counter];
            assert(map@ == self.scopes()[depth - counter]);
            match map.get(inner) {
                Some(v) => Ok(v.clone()),
                None => Err(ExecutionError::AncestorKeyNotFound(text_of(key))),
            }
        } else {
            Err(ExecutionError::InvalidVariableName(text_of(key)))
        }
    }
}


proof fn lemma_resolve_step(
    names: Seq<Seq<char>>,
    i: int,
    request: Seq<Entry>,
    scopes: Seq<Seq<Entry>>,
)
    requires
        0 <= i < names.len(),
    ensures
        resolve_all(names.subrange(i, names.len() as int), request, scopes) == match resolve(
            names[i],
            request,
            scopes,
        ) {
            Err(e) => Err(e),
            Ok(v) => match resolve_all(names.subrange(i + 1, names.len() as int), request, scopes) {
                Ok(vs) => Ok(seq![v] + vs),
                Err(e) => Err(e),
            },
        },
{
    let s = names.subrange(i, names.len() as int);
    assert(s[0] == names[i]);
    assert(s.drop_first() =~= names.subrange(i + 1, names.len() as int));
}

impl EndpointExecutionRuntime {
    /// Runs one node: resolves its variables, submits its query, and for
    /// each row runs the children with the row in scope, then files the
    /// row's visible columns and the children's results under the node's
    /// name in `results`.
    fn execute_node<A: QueryAcceptor>(
        &mut self,
        acceptor: &mut A,
        query: &EndpointInfo,
        results: &mut ResultMap,
        Ghost(acc): Ghost<Groups>,
    ) -> (r: Result<(), ExecutionError>)
        requires
            groups_are(*old(results), acc),
            old(acceptor).inv(),
        ensures
            final(acceptor).inv(),
            final(acceptor).setup() == old(acceptor).setup(),
            final(self).request() == old(self).request(),
            final(self).scopes() == old(self).scopes(),
            extends(old(acceptor).log(), final(acceptor).log()),
            node_finished_as(
                run_node(old(self).request(), *query, old(self).scopes(), since(old(acceptor).log(), final(acceptor).log()), acc),
                r,
                *final(results),
                since(old(acceptor).log(), final(acceptor).log()).len(),
            ),
        decreases *query, 0nat,
    {
        let ghost req = self.request();
        let ghost sc = self.scopes();
        let ghost t0 = acceptor.log();
        let ghost names = texts(query.variables@);
        let n = query.variables.len();
        let mut values: Vec<String> = Vec::new();
        let mut i: usize = 0;
        proof {
            assert(names.subrange(0, n as int) =~= names);
            assert(texts(values@) =~= Seq::<Seq<char>>::empty());
            match resolve_all(names, req, sc) {
                Ok(vs) => {
                    assert(texts(values@) + vs =~= vs);
                },
                Err(_) => {},
            }
        }
        while i < n
            invariant
                n == query.variables@.len(),
                names == texts(query.variables@),
                acceptor.inv(),
                acceptor.setup() == old(acceptor).setup(),
                i <= n,
                self.request() == req,
                self.scopes() == sc,
                acceptor.log() == t0,
                req == old(self).request(),
                sc == old(self).scopes(),
                t0 == old(acceptor).log(),
                resolve_all(names, req, sc) == match resolve_all(
                    names.subrange(i as int, n as int),
                    req,
                    sc,
                ) {
                    Ok(vs) => Ok(texts(values@) + vs),
                    Err(e) => Err(e),
                },
            decreases n - i,
        {
            proof {
                lemma_resolve_step(names, i as int, req, sc);
            }
            match self.get_variable_clone(query.variables[i].as_str()) {
                Ok(v) => {
                    let ghost before = texts(values@);
                    values.push(v);
                    proof {
                        assert(texts(values@) =~= before.push(v@));
                        match resolve_all(names.subrange(i + 1, n as int), req, sc) {
                            Ok(vs) => {
                                assert(before + (seq![v@] + vs) =~= texts(values@) + vs);
                            },
                            Err(_) => {},
                        }
                    }
                },
                Err(e) => {
                    proof {
                        assert(since(t0, acceptor.log()) =~= Seq::<Exchange>::empty());
                        lemma_extends_refl(t0);
                    }
                    return Err(e);
                },
            }
            i += 1;
        }
        proof {
            assert(names.subrange(n as int, n as int) =~= Seq::<Seq<char>>::empty());
            assert(texts(values@) + Seq::<Seq<char>>::empty() =~= texts(values@));
        }
        let answer = acceptor.submit(&query.parsed_sql, &values);
        let ghost header: Exchange = (query.parsed_sql@, texts(values@), answer_of(answer));
        let ghost t1 = acceptor.log();
        proof {
            lemma_extends_push(t0, header);
            lemma_extends_refl(t1);
        }
        let rows = match answer {
            Err(m) => {
                proof {
                    assert(since(t0, acceptor.log()) =~= seq![header]);
                }
                return Err(ExecutionError::Db(m));
            },
            Ok(rows) => rows,
        };
        let ghost rows_v = scopes_of(rows@);
        let ghost acc_j = acc;
        let m = rows.len();
        let mut j: usize = 0;
        proof {
            assert(rows_v.subrange(0, m as int) =~= rows_v);
            assert forall|rest: Seq<Exchange>|
                #[trigger] run_rows(req, *query, rows_v, sc, since(t1, acceptor.log()) + rest, acc)
                    == shifted(
                    run_rows(req, *query, rows_v.subrange(0, m as int), sc, rest, acc_j),
                    since(t1, acceptor.log()).len(),
                ) by {
                assert(since(t1, acceptor.log()) + rest =~= rest);
            }
        }
        while j < m
            invariant
                m == rows@.len(),
                rows_v == scopes_of(rows@),
                acceptor.inv(),
                acceptor.setup() == old(acceptor).setup(),
                j <= m,
                self.request() == req,
                self.scopes() == sc,
                extends(t1, acceptor.log()),
                t1 == t0.push(header),
                extends(t0, t1),
                req == old(self).request(),
                sc == old(self).scopes(),
                t0 == old(acceptor).log(),
                header == (query.parsed_sql@, texts(values@), answer_of(Ok::<Vec<TextMap>, String>(rows))),
                resolve_all(names, req, sc) == Ok::<Seq<Seq<char>>, Failure>(texts(values@)),
                names == texts(query.variables@),
                groups_are(*results, acc_j),
                forall|rest: Seq<Exchange>|
                    #[trigger] run_rows(req, *query, rows_v, sc, since(t1, acceptor.log()) + rest, acc)
                        == shifted(
                        run_rows(req, *query, rows_v.subrange(j as int, m as int), sc, rest, acc_j),
                        since(t1, acceptor.log()).len(),
                    ),
            decreases m - j,
        {
            let ghost tr = acceptor.log();
            let ghost big_r = since(t1, tr);
            let ghost row = rows_v[j as int];
            let copy = rows[j].duplicate();
            self.push_execution_map(copy);
            let ghost tc0 = acceptor.log();
            let child = self.execute(acceptor, &query.children);
            let ghost tc = since(tc0, acceptor.log());
            proof {
                lemma_extends_trans(t1, tc0, acceptor.log());
                lemma_extends_trans(t0, t1, acceptor.log());
            }
            let ghost child_outcome = run_nodes(req, query.children@, sc.push(row), tc, Seq::empty());
            let popped = self.pop_execution_map();
            let data_map = match popped {
                Some(mm) => mm,
                None => {
                    assert(false);
                    return Err(ExecutionError::StackDisciplineViolation);
                },
            };
            assert(data_map@ == row);
            proof {
                lemma_extends(tc0, acceptor.log());
                lemma_extends(t1, tr);
                assert(since(t1, acceptor.log()) =~= big_r + tc);
                let rj = rows_v.subrange(j as int, m as int);
                assert(rj[0] == row);
                assert(rj.drop_first() =~= rows_v.subrange(j + 1, m as int));
            }
            match child {
                Err(e) => {
                    proof {
                        let rj = rows_v.subrange(j as int, m as int);
                        assert(run_rows(req, *query, rows_v, sc, big_r + tc, acc) == shifted(
                            run_rows(req, *query, rj, sc, tc, acc_j),
                            big_r.len(),
                        ));
                        assert(since(t1, acceptor.log()).subrange(0, 0) =~= Seq::<Exchange>::empty());
                        lemma_extends(t0, acceptor.log());
                        assert(since(t0, acceptor.log()) =~= seq![header] + (big_r + tc));
                        assert((seq![header] + (big_r + tc)).subrange(1, (seq![header] + (big_r + tc)).len() as int) =~= big_r + tc);
                        assert((seq![header] + (big_r + tc))[0] == header);
                    }
                    return Err(e);
                },
                Ok(ch) => {
                    let ghost g = match child_outcome {
                        Outcome::Done(g, _) => g,
                        _ => Seq::empty(),
                    };
                    let data = data_map.without_private();
                    let ghost rv = ResultView { data: without_private(row), children: g };
                    let er = ExecutionResult { data, children: ch };
                    results.add(&query.name, er, Ghost(acc_j), Ghost(rv));
                    proof {
                        let rj = rows_v.subrange(j as int, m as int);
                        let acc_next = add_to_group(acc_j, query.name@, rv);
                        assert forall|rest: Seq<Exchange>|
                            #[trigger] run_rows(req, *query, rows_v, sc, since(t1, acceptor.log()) + rest, acc)
                                == shifted(
                                run_rows(req, *query, rows_v.subrange(j + 1, m as int), sc, rest, acc_next),
                                since(t1, acceptor.log()).len(),
                            ) by {
                            assert(big_r + tc + rest =~= big_r + (tc + rest));
                            assert(run_rows(req, *query, rows_v, sc, big_r + (tc + rest), acc) == shifted(
                                run_rows(req, *query, rj, sc, tc + rest, acc_j),
                                big_r.len(),
                            ));
                            lemma_frame_nodes(req, query.children@, sc.push(row), tc, Seq::empty(), rest);
                            assert((tc + rest).subrange(tc.len() as int, (tc + rest).len() as int) =~= rest);
                        }
                        acc_j = acc_next;
                    }
                },
            }
            j += 1;
        }
        proof {
            let big_r = since(t1, acceptor.log());
            assert(big_r + Seq::<Exchange>::empty() =~= big_r);
            assert(run_rows(req, *query, rows_v, sc, big_r + Seq::<Exchange>::empty(), acc) == shifted(
                run_rows(req, *query, rows_v.subrange(m as int, m as int), sc, Seq::empty(), acc_j),
                big_r.len(),
            ));
            assert(rows_v.subrange(m as int, m as int) =~= Seq::<Seq<Entry>>::empty());
            lemma_extends(t1, acceptor.log());
            lemma_extends_trans(t0, t1, acceptor.log());
            lemma_extends(t0, acceptor.log());
            assert(since(t0, acceptor.log()) =~= seq![header] + big_r);
            assert((seq![header] + big_r).subrange(1, (seq![header] + big_r).len() as int) =~= big_r);
            assert((seq![header] + big_r)[0] == header);
        }
        Ok(())
    }

    /// Runs `endpoint_infos` in order and returns their results grouped by
    /// node name. The first failure ends the whole execution; the rows in
    /// scope are as they were before, whatever happens. The calls that the
    /// acceptor logs during the run are exactly the queries and values that
    /// `run_nodes` asks for, and the result is what `run_nodes` makes of the
    /// acceptor's answers.
    pub fn execute<A: QueryAcceptor>(&mut self, acceptor: &mut A, endpoint_infos: &Vec<EndpointInfo>) -> (r: Result<ResultMap, ExecutionError>)
        requires
            old(acceptor).inv(),
        ensures
            final(acceptor).inv(),
            final(acceptor).setup() == old(acceptor).setup(),
            final(self).request() == old(self).request(),
            final(self).scopes() == old(self).scopes(),
            extends(old(acceptor).log(), final(acceptor).log()),
            finished_as(
                run_nodes(old(self).request(), endpoint_infos@, old(self).scopes(), since(old(acceptor).log(), final(acceptor).log()), Seq::empty()),
                r,
                since(old(acceptor).log(), final(acceptor).log()).len(),
            ),
        decreases endpoint_infos@, 1nat,
    {
        let ghost req = self.request();
        let ghost sc = self.scopes();
        let ghost t0 = acceptor.log();
        let ghost nodes = endpoint_infos@;
        let ghost acc: Groups = Seq::empty();
        let mut final_results = ResultMap::new();
        let n = endpoint_infos.len();
        let mut i: usize = 0;
        proof {
            lemma_extends_refl(t0);
            assert(nodes.subrange(0, n as int) =~= nodes);
            assert forall|rest: Seq<Exchange>|
                #[trigger] run_nodes(req, nodes, sc, since(t0, acceptor.log()) + rest, Seq::empty())
                    == shifted(
                    run_nodes(req, nodes.subrange(0, n as int), sc, rest, acc),
                    since(t0, acceptor.log()).len(),
                ) by {
                assert(since(t0, acceptor.log()) + rest =~= rest);
            }
        }
        while i < n
            invariant
                n == nodes.len(),
                nodes == endpoint_infos@,
                acceptor.inv(),
                acceptor.setup() == old(acceptor).setup(),
                i <= n,
                self.request() == req,
                self.scopes() == sc,
                extends(t0, acceptor.log()),
                req == old(self).request(),
                sc == old(self).scopes(),
                t0 == old(acceptor).log(),
                groups_are(final_results, acc),
                forall|rest: Seq<Exchange>|
                    #[trigger] run_nodes(req, nodes, sc, since(t0, acceptor.log()) + rest, Seq::empty())
                        == shifted(
                        run_nodes(req, nodes.subrange(i as int, n as int), sc, rest, acc),
                        since(t0, acceptor.log()).len(),
                    ),
            decreases n - i,
        {
            let ghost tn0 = acceptor.log();
            let ghost s = since(t0, tn0);
            let ghost node = nodes[i as int];
            let res = self.execute_node(acceptor, &endpoint_infos[i], &mut final_results, Ghost(acc));
            let ghost tt = since(tn0, acceptor.log());
            proof {
                lemma_extends_trans(t0, tn0, acceptor.log());
                lemma_extends(tn0, acceptor.log());
                lemma_extends(t0, tn0);
                assert(since(t0, acceptor.log()) =~= s + tt);
                let ni = nodes.subrange(i as int, n as int);
                assert(ni[0] == node);
                assert(ni.subrange(1, ni.len() as int) =~= nodes.subrange(i + 1, n as int));
            }
            match res {
                Err(e) => {
                    proof {
                        assert(run_nodes(req, nodes, sc, s + tt, Seq::empty()) == shifted(
                            run_nodes(req, nodes.subrange(i as int, n as int), sc, tt, acc),
                            s.len(),
                        ));
                    }
                    return Err(e);
                },
                Ok(()) => {
                    proof {
                        let acc2 = match run_node(req, node, sc, tt, acc) {
                            Outcome::Done(g, _) => g,
                            _ => acc,
                        };
                        assert forall|rest: Seq<Exchange>|
                            #[trigger] run_nodes(req, nodes, sc, since(t0, acceptor.log()) + rest, Seq::empty())
                                == shifted(
                                run_nodes(req, nodes.subrange(i + 1, n as int), sc, rest, acc2),
                                since(t0, acceptor.log()).len(),
                            ) by {
                            assert(s + tt + rest =~= s + (tt + rest));
                            assert(run_nodes(req, nodes, sc, s + (tt + rest), Seq::empty()) == shifted(
                                run_nodes(req, nodes.subrange(i as int, n as int), sc, tt + rest, acc),
                                s.len(),
                            ));
                            lemma_frame_node(req, node, sc, tt, acc, rest);
                            assert((tt + rest).subrange(tt.len() as int, (tt + rest).len() as int) =~= rest);
                        }
                        acc = acc2;
                    }
                },
            }
            i += 1;
        }
        proof {
            let s = since(t0, acceptor.log());
            assert(s + Seq::<Exchange>::empty() =~= s);
            assert(run_nodes(req, nodes, sc, s + Seq::<Exchange>::empty(), Seq::empty()) == shifted(
                run_nodes(req, nodes.subrange(n as int, n as int), sc, Seq::empty(), acc),
                s.len(),
            ));
            assert(nodes.subrange(n as int, n as int) =~= Seq::<EndpointInfo>::empty());
        }
        Ok(final_results)
    }
}

} // verus!
