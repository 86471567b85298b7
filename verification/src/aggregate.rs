//! The task graph: named tasks with the tasks they depend on, and the decisions that
//! running a task makes (which tasks it waits for, how their results combine, and
//! what a failure reports).

use vstd::prelude::*;
use petgraph::graph::{Graph, NodeIndex};
use crate::vinyl::{Vinyl, VinylView, VinylError, joined_handles, joined_pairs};

verus! {

broadcast use vstd::string::group_string_axioms;

#[verifier::external_type_specification]
#[verifier::external_body]
#[verifier::reject_recursive_types(N)]
#[verifier::reject_recursive_types(E)]
#[verifier::reject_recursive_types(Ty)]
#[verifier::reject_recursive_types(Ix)]
pub struct ExGraph<N, E, Ty, Ix>(Graph<N, E, Ty, Ix>);

#[verifier::external_type_specification]
#[verifier::external_body]
pub struct ExDirected(petgraph::Directed);

/// A task of the graph: its name, and whether its runs are reported.
#[derive(Clone)]
pub struct ProcessTask {
    pub name: String,
    pub quiet: bool,
}

/// The tasks of a `petgraph` task graph, by index: name and quiet flag.
pub uninterp spec fn graph_tasks(g: Graph<ProcessTask, ()>) -> Seq<(Seq<char>, bool)>;

/// The edges of a `petgraph` task graph, in the order they were added: (from, to).
pub uninterp spec fn graph_edges(g: Graph<ProcessTask, ()>) -> Seq<(usize, usize)>;

/// The sources of the edges into `t`, the most recently added first.
pub open spec fn spec_incoming(edges: Seq<(usize, usize)>, t: usize) -> Seq<usize>
    decreases edges.len(),
{
    if edges.len() == 0 {
        Seq::empty()
    } else {
        let rest = spec_incoming(edges.drop_last(), t);
        if edges.last().1 == t {
            seq![edges.last().0].add(rest)
        } else {
            rest
        }
    }
}

/// `Graph::new`: a graph with no nodes and no edges.
#[verifier::external_body]
fn graph_new() -> (g: Graph<ProcessTask, ()>)
    ensures
        graph_tasks(g) == Seq::<(Seq<char>, bool)>::empty(),
        graph_edges(g) == Seq::<(usize, usize)>::empty(),
{
    Graph::new()
}

/// `Graph::add_node`: appends a node and gives its index. It panics when the node
/// count has reached `u32::MAX`.
#[verifier::external_body]
fn graph_add_node(g: &mut Graph<ProcessTask, ()>, task: ProcessTask) -> (r: usize)
    requires
        graph_tasks(*old(g)).len() < u32::MAX,
    ensures
        r == graph_tasks(*old(g)).len(),
        graph_tasks(*final(g)) == graph_tasks(*old(g)).push((task.name@, task.quiet)),
        graph_edges(*final(g)) == graph_edges(*old(g)),
{
    g.add_node(task).index()
}

/// `Graph::add_edge`: appends an edge from `a` to `b`. It panics when either node does
/// not exist or the edge count has reached `u32::MAX`.
#[verifier::external_body]
fn graph_add_edge(g: &mut Graph<ProcessTask, ()>, a: usize, b: usize)
    requires
        a < graph_tasks(*old(g)).len(),
        b < graph_tasks(*old(g)).len(),
        graph_tasks(*old(g)).len() <= u32::MAX,
        graph_edges(*old(g)).len() < u32::MAX,
    ensures
        graph_tasks(*final(g)) == graph_tasks(*old(g)),
        graph_edges(*final(g)) == graph_edges(*old(g)).push((a, b)),
{
    g.add_edge(NodeIndex::new(a), NodeIndex::new(b), ());
}

/// `Graph::node_weight` of an existing node.
#[verifier::external_body]
fn graph_node<'a>(g: &'a Graph<ProcessTask, ()>, i: usize) -> (r: &'a ProcessTask)
    requires
        i < graph_tasks(*g).len(),
        graph_tasks(*g).len() <= u32::MAX,
    ensures
        (r.name@, r.quiet) == graph_tasks(*g)[i as int],
{
    g.node_weight(NodeIndex::new(i)).unwrap()
}

/// `Graph::clone`: a graph with the same nodes and edges (the weights are cloned with
/// the derived `Clone` of `ProcessTask`, which copies name and flag).
#[verifier::external_body]
fn graph_clone(g: &Graph<ProcessTask, ()>) -> (r: Graph<ProcessTask, ()>)
    ensures
        graph_tasks(r) == graph_tasks(*g),
        graph_edges(r) == graph_edges(*g),
{
    g.clone()
}

/// `Graph::edge_count`.
#[verifier::external_body]
fn graph_edge_count(g: &Graph<ProcessTask, ()>) -> (r: usize)
    ensures
        r == graph_edges(*g).len(),
{
    g.edge_count()
}

/// `Graph::node_count`.
#[verifier::external_body]
fn graph_node_count(g: &Graph<ProcessTask, ()>) -> (r: usize)
    ensures
        r == graph_tasks(*g).len(),
{
    g.node_count()
}

/// `Graph::neighbors_directed(i, Incoming)` on a directed graph: the sources of the
/// edges into `i`, the most recently added edge first.
#[verifier::external_body]
fn graph_incoming(g: &Graph<ProcessTask, ()>, i: usize) -> (r: Vec<usize>)
    requires
        i < graph_tasks(*g).len(),
        graph_tasks(*g).len() <= u32::MAX,
    ensures
        r@ == spec_incoming(graph_edges(*g), i),
{
    g.neighbors_directed(NodeIndex::new(i), petgraph::Direction::Incoming).map(|n| n.index()).collect()
}

/// A graph of tasks; an edge from one task to another makes the second depend on
/// the first.
pub struct TaskGraph {
    graph: Graph<ProcessTask, ()>,
}

impl TaskGraph {
    /// The tasks, by index: name and quiet flag.
    pub closed spec fn tasks(&self) -> Seq<(Seq<char>, bool)> {
        graph_tasks(self.graph)
    }

    /// The dependency edges, in the order they were added: (dependency, dependent).
    pub closed spec fn edges(&self) -> Seq<(usize, usize)> {
        graph_edges(self.graph)
    }

    /// Every edge joins two tasks of the graph, and the indices fit the graph's index type.
    pub open spec fn wf(&self) -> bool {
        &&& self.tasks().len() <= u32::MAX
        &&& forall|k: int|
            0 <= k < self.edges().len() ==> (#[trigger] self.edges()[k]).0 < self.tasks().len()
                && self.edges()[k].1 < self.tasks().len()
    }

    /// The tasks that task `i` depends on, most recently added dependency first.
    pub open spec fn deps_of(&self, i: usize) -> Seq<usize> {
        spec_incoming(self.edges(), i)
    }

    /// A graph without tasks.
    pub fn new() -> (g: TaskGraph)
        ensures
            g.wf(),
            g.tasks().len() == 0,
            g.edges().len() == 0,
    {
        TaskGraph { graph: graph_new() }
    }

    /// The number of tasks.
    pub fn task_count(&self) -> (r: usize)
        ensures
            r == self.tasks().len(),
    {
        graph_node_count(&self.graph)
    }

    /// A copy of the graph.
    pub fn clone(&self) -> (r: TaskGraph)
        ensures
            r.tasks() == self.tasks(),
            r.edges() == self.edges(),
    {
        TaskGraph { graph: graph_clone(&self.graph) }
    }

    /// The number of dependency edges.
    pub fn edge_count(&self) -> (r: usize)
        ensures
            r == self.edges().len(),
    {
        graph_edge_count(&self.graph)
    }

    /// Task `i`.
    pub fn task(&self, i: usize) -> (r: &ProcessTask)
        requires
            self.wf(),
            i < self.tasks().len(),
        ensures
            (r.name@, r.quiet) == self.tasks()[i as int],
    {
        graph_node(&self.graph, i)
    }

    /// The tasks that task `i` depends on, most recently added dependency first.
    pub fn dependencies(&self, i: usize) -> (r: Vec<usize>)
        requires
            self.wf(),
            i < self.tasks().len(),
        ensures
            r@ == self.deps_of(i),
    {
        graph_incoming(&self.graph, i)
    }
}

/// The error a task run reports: the failing task's name and the message.
pub struct AggError {
    pub name: String,
    pub msg: String,
}

pub open spec fn agg_text_prefix() -> Seq<char> {
    seq!['A', 'g', 'g', 'E', 'r', 'r', 'o', 'r', ':', ' ']
}

pub open spec fn vinyl_text_prefix() -> Seq<char> {
    seq!['V', 'i', 'n', 'y', 'l', 'E', 'r', 'r', 'o', 'r', ':', ' ']
}

impl AggError {
    /// The error's text, `AggError: <name> <msg>`.
    pub fn to_string(&self) -> (r: String)
        ensures
            r@ == agg_text_prefix() + self.name@ + seq![' '] + self.msg@,
    {
        let mut r = String::from_str("AggError: ");
        r.append(self.name.as_str());
        r.append(" ");
        r.append(self.msg.as_str());
        proof {
            reveal_strlit("AggError: ");
            reveal_strlit(" ");
            assert(r@ =~= agg_text_prefix() + self.name@ + seq![' '] + self.msg@);
        }
        r
    }

    /// A file error met outside any task, reported under the name `vinyl`.
    pub fn from(e: VinylError) -> (r: AggError)
        ensures
            r.name@ == seq!['v', 'i', 'n', 'y', 'l'],
            r.msg@ == vinyl_text_prefix() + e.msg@,
    {
        proof {
            reveal_strlit("vinyl");
            assert("vinyl"@ =~= seq!['v', 'i', 'n', 'y', 'l']);
        }
        AggError { name: String::from_str("vinyl"), msg: e.to_string() }
    }

    /// A copy of the error.
    pub fn clone(&self) -> (r: AggError)
        ensures
            r.name@ == self.name@,
            r.msg@ == self.msg@,
    {
        AggError { name: self.name.clone(), msg: self.msg.clone() }
    }
}

/// The results of the tasks that a task depends on, as views.
pub open spec fn result_views(rs: Seq<Result<Vinyl, AggError>>) -> Seq<Result<VinylView, (Seq<char>, Seq<char>)>> {
    rs.map_values(
        |r: Result<Vinyl, AggError>|
            match r {
                Ok(v) => Ok(v@),
                Err(e) => Err((e.name@, e.msg@)),
            },
    )
}

/// The index of the first failed result, if any.
pub open spec fn first_failure(rs: Seq<Result<VinylView, (Seq<char>, Seq<char>)>>) -> Option<int>
    decreases rs.len(),
{
    if rs.len() == 0 {
        None
    } else if rs[0] is Err {
        Some(0)
    } else {
        match first_failure(rs.drop_first()) {
            Some(k) => Some(k + 1),
            None => None,
        }
    }
}

pub open spec fn shifted(o: Option<int>, d: int) -> Option<int> {
    match o {
        Some(k) => Some(k + d),
        None => None,
    }
}

/// Past a run of successes, the first failure is found in the rest.
pub proof fn lemma_first_failure_skip(rs: Seq<Result<VinylView, (Seq<char>, Seq<char>)>>, i: int)
    requires
        0 <= i <= rs.len(),
        forall|j: int| 0 <= j < i ==> #[trigger] rs[j] is Ok,
    ensures
        first_failure(rs) == shifted(first_failure(rs.subrange(i, rs.len() as int)), i),
    decreases i,
{
    if i == 0 {
        assert(rs.subrange(0, rs.len() as int) =~= rs);
    } else {
        let t = rs.drop_first();
        assert forall|j: int| 0 <= j < i - 1 implies #[trigger] t[j] is Ok by {
            assert(t[j] == rs[j + 1]);
        }
        lemma_first_failure_skip(t, i - 1);
        assert(t.subrange(i - 1, t.len() as int) =~= rs.subrange(i, rs.len() as int));
    }
}

/// The vinyls of results that all succeeded.
pub open spec fn ok_views(rs: Seq<Result<VinylView, (Seq<char>, Seq<char>)>>) -> Seq<VinylView> {
    rs.map_values(|r: Result<VinylView, (Seq<char>, Seq<char>)>| r->Ok_0)
}

/// The runner of task graphs.
pub struct Aggregate();

impl Aggregate {
    /// Adds a task named `name` that depends on the tasks `dep_node_idx`, and gives its index.
    pub fn chain(g: &mut TaskGraph, name: String, dep_node_idx: Vec<usize>, q: bool) -> (r: usize)
        requires
            old(g).wf(),
            old(g).tasks().len() < u32::MAX,
            old(g).edges().len() + dep_node_idx@.len() <= u32::MAX,
            forall|k: int| 0 <= k < dep_node_idx@.len() ==> #[trigger] dep_node_idx@[k] <= old(g).tasks().len(),
        ensures
            final(g).wf(),
            r == old(g).tasks().len(),
            final(g).tasks() == old(g).tasks().push((name@, q)),
            final(g).edges() == old(g).edges() + dep_node_idx@.map_values(|d: usize| (d, r)),
    {
        let ghost name_view = name@;
        let node = graph_add_node(&mut g.graph, ProcessTask { name, quiet: q });
        let ghost mid = g.edges();
        for k in 0..dep_node_idx.len()
            invariant
                g.tasks() == old(g).tasks().push((name_view, q)),
                node == old(g).tasks().len(),
                old(g).wf(),
                old(g).tasks().len() < u32::MAX,
                old(g).edges().len() + dep_node_idx@.len() <= u32::MAX,
                forall|j: int| 0 <= j < dep_node_idx@.len() ==> #[trigger] dep_node_idx@[j] <= old(g).tasks().len(),
                g.edges() == old(g).edges() + dep_node_idx@.take(k as int).map_values(|d: usize| (d, node)),
        {
            let d = dep_node_idx[k];
            graph_add_edge(&mut g.graph, d, node);
            proof {
                assert(dep_node_idx@.take(k + 1) =~= dep_node_idx@.take(k as int).push(d));
                assert(old(g).edges() + dep_node_idx@.take(k + 1).map_values(|d: usize| (d, node))
                    =~= (old(g).edges() + dep_node_idx@.take(k as int).map_values(|d: usize| (d, node))).push((d, node)));
            }
        }
        proof {
            assert(dep_node_idx@.take(dep_node_idx@.len() as int) =~= dep_node_idx@);
            assert forall|k: int| 0 <= k < g.edges().len() implies (#[trigger] g.edges()[k]).0 < g.tasks().len()
                && g.edges()[k].1 < g.tasks().len() by {
                if k >= old(g).edges().len() {
                    let j = k - old(g).edges().len();
                    assert(g.edges()[k] == (dep_node_idx@[j], node));
                }
            }
        }
        node
    }

    /// The first task, by index, named `name`.
    pub fn task_by_name(g: &TaskGraph, name: &str) -> (r: Option<usize>)
        requires
            g.wf(),
        ensures
            match r {
                Some(i) => i < g.tasks().len() && g.tasks()[i as int].0 == name@ && forall|j: int|
                    0 <= j < i ==> #[trigger] g.tasks()[j].0 != name@,
                None => forall|j: int| 0 <= j < g.tasks().len() ==> #[trigger] g.tasks()[j].0 != name@,
            },
    {
        let wanted = name.to_owned();
        let n = g.task_count();
        for i in 0..n
            invariant
                g.wf(),
                n == g.tasks().len(),
                wanted@ == name@,
                forall|j: int| 0 <= j < i ==> #[trigger] g.tasks()[j].0 != name@,
        {
            let t = g.task(i);
            if t.name == wanted {
                return Some(i);
            }
        }
        None
    }

    /// The first task named `name`, or, where there is none, the error that running
    /// the name gives: `???` as both name and message.
    pub fn lookup(g: &TaskGraph, name: &str) -> (r: Result<usize, AggError>)
        requires
            g.wf(),
        ensures
            match r {
                Ok(i) => i < g.tasks().len() && g.tasks()[i as int].0 == name@ && forall|j: int|
                    0 <= j < i ==> #[trigger] g.tasks()[j].0 != name@,
                Err(e) => e.name@ == seq!['?', '?', '?'] && e.msg@ == seq!['?', '?', '?'] && forall|j: int|
                    0 <= j < g.tasks().len() ==> #[trigger] g.tasks()[j].0 != name@,
            },
    {
        match Aggregate::task_by_name(g, name) {
            Some(i) => Ok(i),
            None => {
                proof {
                    reveal_strlit("???");
                    assert("???"@ =~= seq!['?', '?', '?']);
                }
                Err(AggError { name: String::from_str("???"), msg: String::from_str("???") })
            },
        }
    }

    /// The input of a task, from the results of the tasks it depends on, in the order of
    /// its dependencies: the first failure if one failed, else all their files and
    /// renamings one after the other (nothing, for a task without dependencies).
    pub fn gather(results: Vec<Result<Vinyl, AggError>>) -> (r: Result<Vinyl, AggError>)
        ensures
            match first_failure(result_views(results@)) {
                Some(k) => r matches Err(e) && result_views(results@)[k] == Err::<VinylView, (Seq<char>, Seq<char>)>((e.name@, e.msg@)),
                None => r matches Ok(v) && v@.handles == joined_handles(ok_views(result_views(results@)))
                    && v@.revision_pairs == joined_pairs(ok_views(result_views(results@))),
            },
    {
        let ghost all = result_views(results@);
        let mut pending = results;
        let mut oks: Vec<Vinyl> = Vec::new();
        let n = pending.len();
        let mut i: usize = 0;
        while i < n
            invariant
                n == all.len(),
                all == result_views(results@),
                i <= n,
                result_views(pending@) == all.subrange(i as int, n as int),
                oks@.map_values(|v: Vinyl| v@) == ok_views(all.take(i as int)),
                forall|j: int| 0 <= j < i ==> #[trigger] all[j] is Ok,
            decreases n - i,
        {
            let ghost rest = all.subrange(i as int, n as int);
            let ghost before = pending@;
            assert(result_views(before).len() == before.len());
            let x = pending.remove(0);
            proof {
                assert(pending@ =~= before.drop_first());
                assert(x == before[0]);
                assert(result_views(pending@) =~= result_views(before).drop_first());
            }
            match x {
                Ok(v) => {
                    proof {
                        assert(all[i as int] == rest[0]);
                        assert(rest[0] == Ok::<VinylView, (Seq<char>, Seq<char>)>(v@));
                        assert(rest.drop_first() =~= all.subrange(i + 1, n as int));
                        assert(ok_views(all.take(i + 1)) =~= ok_views(all.take(i as int)).push(v@));
                    }
                    let ghost vv = v@;
                    oks.push(v);
                    assert(oks@.map_values(|v: Vinyl| v@) =~= ok_views(all.take(i + 1)));
                },
                Err(e) => {
                    proof {
                        assert(all[i as int] == rest[0]);
                        assert(rest[0] == Err::<VinylView, (Seq<char>, Seq<char>)>((e.name@, e.msg@)));
                        assert(first_failure(rest) == Some(0int));
                        lemma_first_failure_skip(all, i as int);
                    }
                    return Err(e);
                },
            }
            i = i + 1;
        }
        proof {
            assert(all.take(n as int) =~= all);
            lemma_first_failure_skip(all, n as int);
        }
        Ok(Vinyl::flatten(oks))
    }

    /// The error a task reports when it fails: its name, and the file error's text.
    pub fn task_failure(name: &String, e: &VinylError) -> (r: AggError)
        ensures
            r.name@ == name@,
            r.msg@ == vinyl_text_prefix() + e.msg@,
    {
        AggError { name: name.clone(), msg: e.to_string() }
    }
}

/// Edges into other tasks leave the dependencies of `t` as they were.
pub proof fn lemma_incoming_append_other(es: Seq<(usize, usize)>, added: Seq<(usize, usize)>, t: usize)
    requires
        forall|k: int| 0 <= k < added.len() ==> (#[trigger] added[k]).1 != t,
    ensures
        spec_incoming(es + added, t) == spec_incoming(es, t),
    decreases added.len(),
{
    if added.len() > 0 {
        lemma_incoming_append_other(es, added.drop_last(), t);
        assert((es + added).drop_last() =~= es + added.drop_last());
    } else {
        assert(es + added =~= es);
    }
}

/// Edges into a task that had none give it those dependencies, the last added first.
pub proof fn lemma_incoming_of_new(es: Seq<(usize, usize)>, deps: Seq<usize>, t: usize)
    requires
        forall|k: int| 0 <= k < es.len() ==> (#[trigger] es[k]).1 != t,
    ensures
        spec_incoming(es + deps.map_values(|d: usize| (d, t)), t) == deps.reverse(),
    decreases deps.len(),
{
    if deps.len() == 0 {
        assert(es + deps.map_values(|d: usize| (d, t)) =~= es);
        lemma_incoming_none(es, t);
        assert(deps.reverse() =~= Seq::<usize>::empty());
    } else {
        let front = deps.drop_last();
        lemma_incoming_of_new(es, front, t);
        assert((es + deps.map_values(|d: usize| (d, t))).drop_last() =~= es + front.map_values(
            |d: usize| (d, t),
        ));
        assert(deps.reverse() =~= seq![deps.last()].add(front.reverse()));
    }
}

proof fn lemma_incoming_none(es: Seq<(usize, usize)>, t: usize)
    requires
        forall|k: int| 0 <= k < es.len() ==> (#[trigger] es[k]).1 != t,
    ensures
        spec_incoming(es, t) == Seq::<usize>::empty(),
    decreases es.len(),
{
    if es.len() > 0 {
        lemma_incoming_none(es.drop_last(), t);
    }
}

/// Chaining a task gives it exactly the dependencies it was chained with, reported
/// most recent first, and leaves the dependencies of every other task as they were.
pub proof fn lemma_chain_dependencies(before: TaskGraph, after: TaskGraph, deps: Seq<usize>, r: usize)
    requires
        before.wf(),
        r == before.tasks().len(),
        after.edges() == before.edges() + deps.map_values(|d: usize| (d, r)),
    ensures
        after.deps_of(r) == deps.reverse(),
        forall|i: usize| i != r ==> #[trigger] after.deps_of(i) == before.deps_of(i),
{
    lemma_incoming_of_new(before.edges(), deps, r);
    assert forall|i: usize| i != r implies #[trigger] after.deps_of(i) == before.deps_of(i) by {
        lemma_incoming_append_other(before.edges(), deps.map_values(|d: usize| (d, r)), i);
    }
}

} // verus!
