//! Processors turn a configuration module into tasks; the planning they do is here:
//! task names, the paths that tasks read and write, and what a page template expands to.

use vstd::prelude::*;
use crate::config::ConfigMeta;
use crate::paths::{join, spec_join, strip_prefix, path_strip_prefix};
use crate::vinyl::{string_views, Vinyl, TaskOutcome, revisable, revised_view, saves_of};
use crate::aggregate::{Aggregate, TaskGraph, lemma_incoming_append_other, lemma_incoming_of_new};

pub mod clone;
pub mod concat;
pub mod htmlpages;
pub mod js;

verus! {

broadcast use vstd::string::group_string_axioms;

/// `build:<name>`, the name of a module's build task.
pub open spec fn spec_build_name(name: Seq<char>) -> Seq<char> {
    seq!['b', 'u', 'i', 'l', 'd', ':'] + name
}

/// `deploy:<name>`, the name of a module's deploy task.
pub open spec fn spec_deploy_name(name: Seq<char>) -> Seq<char> {
    seq!['d', 'e', 'p', 'l', 'o', 'y', ':'] + name
}

/// `<parent>:<part>`, the name of a task under another one.
pub open spec fn spec_sub_name(parent: Seq<char>, part: Seq<char>) -> Seq<char> {
    parent + seq![':'] + part
}

pub fn build_name(name: &str) -> (r: String)
    ensures
        r@ == spec_build_name(name@),
{
    let mut r = String::from_str("build:");
    proof {
        reveal_strlit("build:");
    }
    r.append(name);
    r
}

pub fn deploy_name(name: &str) -> (r: String)
    ensures
        r@ == spec_deploy_name(name@),
{
    let mut r = String::from_str("deploy:");
    proof {
        reveal_strlit("deploy:");
    }
    r.append(name);
    r
}

pub fn sub_name(parent: &str, part: &str) -> (r: String)
    ensures
        r@ == spec_sub_name(parent@, part@),
{
    let mut r = parent.to_owned();
    r.append(":");
    proof {
        reveal_strlit(":");
    }
    r.append(part);
    r
}

/// `<base>/<sources>`.
pub open spec fn spec_src_dir(meta: ConfigMeta) -> Seq<char> {
    spec_join(meta.base_path@, meta.src_path@)
}

/// `<base>/<build>`.
pub open spec fn spec_build_dir(meta: ConfigMeta) -> Seq<char> {
    spec_join(meta.base_path@, meta.build_path@)
}

/// `<base>/<deploy>`.
pub open spec fn spec_deploy_dir(meta: ConfigMeta) -> Seq<char> {
    spec_join(meta.base_path@, meta.deploy_path@)
}

pub fn src_dir(meta: &ConfigMeta) -> (r: String)
    ensures
        r@ == spec_src_dir(*meta),
{
    join(meta.base_path.as_str(), meta.src_path.as_str())
}

pub fn build_dir(meta: &ConfigMeta) -> (r: String)
    ensures
        r@ == spec_build_dir(*meta),
{
    join(meta.base_path.as_str(), meta.build_path.as_str())
}

pub fn deploy_dir(meta: &ConfigMeta) -> (r: String)
    ensures
        r@ == spec_deploy_dir(*meta),
{
    join(meta.base_path.as_str(), meta.deploy_path.as_str())
}

/// The paths under `base`, each made relative to it, in order; paths not under `base`
/// are left out.
pub open spec fn spec_strip_all(ps: Seq<Seq<char>>, base: Seq<char>) -> Seq<Seq<char>>
    decreases ps.len(),
{
    if ps.len() == 0 {
        Seq::empty()
    } else {
        let rest = spec_strip_all(ps.drop_last(), base);
        match path_strip_prefix(ps.last(), base) {
            Some(r) => rest.push(r),
            None => rest,
        }
    }
}

pub fn strip_all(ps: &Vec<String>, base: &String) -> (r: Vec<String>)
    ensures
        string_views(r@) == spec_strip_all(string_views(ps@), base@),
{
    let mut r: Vec<String> = Vec::new();
    for i in 0..ps.len()
        invariant
            string_views(r@) == spec_strip_all(string_views(ps@).take(i as int), base@),
    {
        proof {
            assert(string_views(ps@).take(i + 1).drop_last() =~= string_views(ps@).take(i as int));
            assert(string_views(ps@).take(i + 1).last() == ps@[i as int]@);
        }
        match strip_prefix(ps[i].as_str(), base.as_str()) {
            Some(q) => {
                let ghost before = r@;
                r.push(q);
                assert(string_views(r@) =~= string_views(before).push(r@.last()@));
            },
            None => {},
        }
    }
    assert(string_views(ps@).take(ps@.len() as int) =~= string_views(ps@));
    r
}

/// The tasks of entries that each have a build and a deploy task: entry by entry, the
/// build task, then the deploy task, all with the quiet flag `q`.
pub open spec fn interleaved(builds: Seq<Seq<char>>, deploys: Seq<Seq<char>>, q: bool) -> Seq<(Seq<char>, bool)>
    decreases builds.len(),
{
    if builds.len() == 0 {
        Seq::empty()
    } else {
        interleaved(builds.drop_last(), deploys.drop_last(), q) + seq![
            (builds.last(), q),
            (deploys.last(), q),
        ]
    }
}

/// The edges of a module whose `n` entries were added from index `start` on: from
/// each entry's build task to the module's build task `build`, then from each entry's
/// deploy task to the module's deploy task `deploy`.
pub open spec fn paired_edges(start: int, n: nat, build: usize, deploy: usize) -> Seq<(usize, usize)> {
    Seq::new(n, |i: int| ((start + 2 * i) as usize, build)) + Seq::new(
        n,
        |i: int| ((start + 2 * i + 1) as usize, deploy),
    )
}

/// `after` is `before` with a module's tasks added: each entry's build and deploy task
/// (see `interleaved`), then the module's build task `build`, which depends on every
/// entry's build task, and its deploy task `deploy`, which depends on every entry's
/// deploy task. `r` holds the indices of these last two; neither is quiet.
pub open spec fn module_wired(
    before: TaskGraph,
    after: TaskGraph,
    builds: Seq<Seq<char>>,
    deploys: Seq<Seq<char>>,
    q: bool,
    build: Seq<char>,
    deploy: Seq<char>,
    r: (usize, usize),
) -> bool {
    let s = before.tasks().len();
    &&& after.wf()
    &&& r.0 == s + 2 * builds.len()
    &&& r.1 == r.0 + 1
    &&& after.tasks() == before.tasks() + interleaved(builds, deploys, q) + seq![(build, false), (deploy, false)]
    &&& after.edges() == before.edges() + paired_edges(s as int, builds.len(), r.0, r.1)
}

proof fn lemma_interleaved_len(builds: Seq<Seq<char>>, deploys: Seq<Seq<char>>, q: bool)
    ensures
        interleaved(builds, deploys, q).len() == 2 * builds.len(),
    decreases builds.len(),
{
    if builds.len() > 0 {
        lemma_interleaved_len(builds.drop_last(), deploys.drop_last(), q);
    }
}

/// Adds a module's tasks to `g` (see `module_wired`) and gives the indices of its build
/// and deploy task.
pub fn chain_module(g: &mut TaskGraph, builds: Vec<String>, deploys: Vec<String>, q: bool, build: String, deploy: String) -> (r: (usize, usize))
    requires
        old(g).wf(),
        deploys@.len() == builds@.len(),
        old(g).tasks().len() + 2 * builds@.len() + 2 <= u32::MAX,
        old(g).edges().len() + 2 * builds@.len() <= u32::MAX,
    ensures
        module_wired(*old(g), *final(g), string_views(builds@), string_views(deploys@), q, build@, deploy@, r),
{
    let ghost bs = string_views(builds@);
    let ghost ds = string_views(deploys@);
    let ghost s = old(g).tasks().len();
    let n = builds.len();
    let mut build_nodes: Vec<usize> = Vec::new();
    let mut deploy_nodes: Vec<usize> = Vec::new();
    for i in 0..n
        invariant
            n == builds@.len(),
            deploys@.len() == n,
            bs == string_views(builds@),
            ds == string_views(deploys@),
            s == old(g).tasks().len(),
            s + 2 * n + 2 <= u32::MAX,
            old(g).edges().len() + 2 * n <= u32::MAX,
            g.wf(),
            g.tasks() == old(g).tasks() + interleaved(bs.take(i as int), ds.take(i as int), q),
            g.edges() == old(g).edges(),
            build_nodes@ == Seq::new(i as nat, |k: int| (s + 2 * k) as usize),
            deploy_nodes@ == Seq::new(i as nat, |k: int| (s + 2 * k + 1) as usize),
    {
        proof {
            lemma_interleaved_len(bs.take(i as int), ds.take(i as int), q);
        }
        let ghost e1 = g.edges();
        let b = Aggregate::chain(g, builds[i].clone(), Vec::new(), q);
        assert(g.edges() =~= e1);
        let ghost e2 = g.edges();
        let d = Aggregate::chain(g, deploys[i].clone(), Vec::new(), q);
        assert(g.edges() =~= e2);
        build_nodes.push(b);
        deploy_nodes.push(d);
        proof {
            assert(bs.take(i + 1).drop_last() =~= bs.take(i as int));
            assert(ds.take(i + 1).drop_last() =~= ds.take(i as int));
            assert(bs.take(i + 1).last() == bs[i as int]);
            assert(ds.take(i + 1).last() == ds[i as int]);
            assert(g.tasks() =~= old(g).tasks() + interleaved(bs.take(i + 1), ds.take(i + 1), q));
            assert(build_nodes@ =~= Seq::new((i + 1) as nat, |k: int| (s + 2 * k) as usize));
            assert(deploy_nodes@ =~= Seq::new((i + 1) as nat, |k: int| (s + 2 * k + 1) as usize));
        }
    }
    proof {
        assert(bs.take(n as int) =~= bs);
        assert(ds.take(n as int) =~= ds);
        lemma_interleaved_len(bs, ds, q);
    }
    let rb = Aggregate::chain(g, build, build_nodes, false);
    let rd = Aggregate::chain(g, deploy, deploy_nodes, false);
    proof {
        assert(g.tasks() =~= old(g).tasks() + interleaved(bs, ds, q) + seq![(build@, false), (deploy@, false)]);
        assert(Seq::new(n as nat, |k: int| (s + 2 * k) as usize).map_values(|d: usize| (d, rb))
            =~= Seq::new(n as nat, |k: int| ((s + 2 * k) as usize, rb)));
        assert(Seq::new(n as nat, |k: int| (s + 2 * k + 1) as usize).map_values(|d: usize| (d, rd))
            =~= Seq::new(n as nat, |k: int| ((s + 2 * k + 1) as usize, rd)));
        assert(g.edges() =~= old(g).edges() + paired_edges(s as int, bs.len(), rb, rd));
    }
    (rb, rd)
}

/// Once a module's tasks are added, its build task depends on exactly its entries'
/// build tasks and its deploy task on exactly their deploy tasks (reported the last
/// entry first), while every other task keeps the dependencies it had.
pub proof fn lemma_module_dependencies(
    before: TaskGraph,
    after: TaskGraph,
    builds: Seq<Seq<char>>,
    deploys: Seq<Seq<char>>,
    q: bool,
    build: Seq<char>,
    deploy: Seq<char>,
    r: (usize, usize),
)
    requires
        before.wf(),
        module_wired(before, after, builds, deploys, q, build, deploy, r),
    ensures
        after.deps_of(r.0) == Seq::new(builds.len(), |i: int| (before.tasks().len() + 2 * i) as usize).reverse(),
        after.deps_of(r.1) == Seq::new(builds.len(), |i: int| (before.tasks().len() + 2 * i + 1) as usize).reverse(),
        forall|i: usize| i != r.0 && i != r.1 ==> #[trigger] after.deps_of(i) == before.deps_of(i),
{
    let s = before.tasks().len() as int;
    let n = builds.len();
    let es = before.edges();
    let bi = Seq::new(n, |i: int| (s + 2 * i) as usize);
    let di = Seq::new(n, |i: int| (s + 2 * i + 1) as usize);
    let a = bi.map_values(|d: usize| (d, r.0));
    let b = di.map_values(|d: usize| (d, r.1));
    assert(a =~= Seq::new(n, |i: int| ((s + 2 * i) as usize, r.0)));
    assert(b =~= Seq::new(n, |i: int| ((s + 2 * i + 1) as usize, r.1)));
    assert(after.edges() =~= es + a + b);
    assert forall|k: int| 0 <= k < es.len() implies (#[trigger] es[k]).1 != r.0 && es[k].1 != r.1 by {
        assert(es[k].1 < before.tasks().len());
    }
    lemma_incoming_of_new(es, bi, r.0);
    lemma_incoming_append_other(es + a, b, r.0);
    assert forall|k: int| 0 <= k < (es + a).len() implies (#[trigger] (es + a)[k]).1 != r.1 by {
        if k >= es.len() {
            assert((es + a)[k] == a[k - es.len()]);
        }
    }
    lemma_incoming_of_new(es + a, di, r.1);
    assert forall|i: usize| i != r.0 && i != r.1 implies #[trigger] after.deps_of(i) == before.deps_of(i) by {
        assert(es + a + b =~= es + (a + b));
        lemma_incoming_append_other(es, a + b, i);
    }
}

/// The deploy task of a module, on the vinyl its entries' deploy tasks gathered: with
/// revisioning, every file is renamed after its checksum and all are saved; without,
/// the vinyl is passed on as it is.
pub fn module_deploy(v: Vinyl, revision: bool) -> (r: TaskOutcome)
    requires
        revision ==> forall|i: int| 0 <= i < v@.handles.len() ==> revisable(#[trigger] v@.handles[i]),
    ensures
        revision ==> r.vinyl@ == revised_view(v@) && saves_of(r.vinyl@.handles, r.writes@, r.failure),
        !revision ==> r.vinyl@ == v@ && r.writes@.len() == 0 && r.failure is None,
{
    if revision {
        let ghost before = v@;
        let w = v.revisions();
        assert(w@.handles =~= revised_view(before).handles);
        assert(w@.revision_pairs =~= revised_view(before).revision_pairs);
        w.saved()
    } else {
        v.unsaved()
    }
}

} // verus!
