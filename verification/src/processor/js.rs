//! The script processor joins, for each key of its content, the files that the key's
//! patterns match under `<sources>/<prefix>/<key>` into `<build>/<dest>/<key>.js`.

use vstd::prelude::*;
use crate::config::{ConfigMeta, ConfigModule};
use crate::paths::{join, spec_join};
use crate::processor::{
    build_name, deploy_name, sub_name, spec_build_name, spec_deploy_name, spec_sub_name, src_dir,
    spec_src_dir, build_dir, spec_build_dir,
};
use crate::aggregate::{Aggregate, TaskGraph};

verus! {

broadcast use vstd::string::group_string_axioms;

/// The options of a script module: the directory under the sources that the keys are
/// in, and the output directory under the build directory.
pub struct OptionsJS {
    pub prefix: String,
    pub dest: String,
}

/// The script processor.
pub struct ProcessorJS();

/// The build task of one key: its name, the file it writes, and the patterns of the
/// files it joins.
pub struct JsEntry {
    pub sub_build_name: String,
    pub build_file_path: String,
    pub patterns: Vec<String>,
}

/// The tasks of a script module.
pub struct JsPlan {
    pub build_name: String,
    pub deploy_name: String,
    pub entries: Vec<JsEntry>,
}

pub open spec fn js_key(conf: ConfigModule<OptionsJS, Vec<(String, Vec<String>)>>, i: int) -> Seq<char> {
    conf.content@[i].0@
}

/// What the `i`th key becomes.
pub open spec fn js_entry_ok(e: JsEntry, meta: ConfigMeta, conf: ConfigModule<OptionsJS, Vec<(String, Vec<String>)>>, i: int) -> bool {
    let key_dir = spec_join(spec_join(spec_src_dir(meta), conf.options.prefix@), js_key(conf, i));
    &&& e.sub_build_name@ == spec_sub_name(spec_build_name(conf.name@), js_key(conf, i))
    &&& e.build_file_path@ == spec_join(
        spec_join(spec_build_dir(meta), conf.options.dest@),
        js_key(conf, i) + seq!['.', 'j', 's'],
    )
    &&& e.patterns@.len() == conf.content@[i].1@.len()
    &&& forall|j: int|
        0 <= j < e.patterns@.len() ==> #[trigger] e.patterns@[j]@ == spec_join(
            key_dir,
            conf.content@[i].1@[j]@,
        )
}

impl ProcessorJS {
    /// The tasks of a script module, one build task per key.
    pub fn plan(meta: &ConfigMeta, conf: &ConfigModule<OptionsJS, Vec<(String, Vec<String>)>>) -> (r: JsPlan)
        ensures
            r.build_name@ == spec_build_name(conf.name@),
            r.deploy_name@ == spec_deploy_name(conf.name@),
            r.entries@.len() == conf.content@.len(),
            forall|i: int| 0 <= i < r.entries@.len() ==> js_entry_ok(#[trigger] r.entries@[i], *meta, *conf, i),
    {
        let bname = build_name(conf.name.as_str());
        let out_dir = join(build_dir(meta).as_str(), conf.options.dest.as_str());
        let prefix_dir = join(src_dir(meta).as_str(), conf.options.prefix.as_str());
        let mut entries: Vec<JsEntry> = Vec::new();
        for i in 0..conf.content.len()
            invariant
                bname@ == spec_build_name(conf.name@),
                out_dir@ == spec_join(spec_build_dir(*meta), conf.options.dest@),
                prefix_dir@ == spec_join(spec_src_dir(*meta), conf.options.prefix@),
                entries@.len() == i,
                forall|k: int| 0 <= k < i ==> js_entry_ok(#[trigger] entries@[k], *meta, *conf, k),
        {
            let entry = &conf.content[i];
            let dir = join(prefix_dir.as_str(), entry.0.as_str());
            let mut ps: Vec<String> = Vec::new();
            for j in 0..entry.1.len()
                invariant
                    dir@ == spec_join(prefix_dir@, entry.0@),
                    ps@.len() == j,
                    forall|q: int| 0 <= q < j ==> #[trigger] ps@[q]@ == spec_join(dir@, entry.1@[q]@),
            {
                ps.push(join(dir.as_str(), entry.1[j].as_str()));
            }
            let mut file_name = entry.0.clone();
            file_name.append(".js");
            proof {
                reveal_strlit(".js");
                assert(file_name@ =~= js_key(*conf, i as int) + seq!['.', 'j', 's']);
            }
            let e = JsEntry {
                sub_build_name: sub_name(bname.as_str(), entry.0.as_str()),
                build_file_path: join(out_dir.as_str(), file_name.as_str()),
                patterns: ps,
            };
            assert(js_entry_ok(e, *meta, *conf, i as int));
            entries.push(e);
        }
        JsPlan { build_name: bname, deploy_name: deploy_name(conf.name.as_str()), entries }
    }
}

/// `after` is `before` with a script module's tasks added: each key's build task, then
/// the module's build task, which depends on every key's build task, and its deploy
/// task, which depends on none. None is quiet; `r` holds the indices of the last two.
pub open spec fn js_wired(before: TaskGraph, after: TaskGraph, builds: Seq<Seq<char>>, build: Seq<char>, deploy: Seq<char>, r: (usize, usize)) -> bool {
    let s = before.tasks().len();
    &&& after.wf()
    &&& r.0 == s + builds.len()
    &&& r.1 == r.0 + 1
    &&& after.tasks() == before.tasks() + builds.map_values(|b: Seq<char>| (b, false)) + seq![(build, false), (deploy, false)]
    &&& after.edges() == before.edges() + Seq::new(builds.len(), |i: int| ((s + i) as usize, r.0))
}

impl ProcessorJS {
    /// Adds the tasks of `plan` to `g` (see `js_wired`).
    pub fn add_tasks(g: &mut TaskGraph, plan: &JsPlan) -> (r: (usize, usize))
        requires
            old(g).wf(),
            old(g).tasks().len() + plan.entries@.len() + 2 <= u32::MAX,
            old(g).edges().len() + plan.entries@.len() <= u32::MAX,
        ensures
            js_wired(
                *old(g),
                *final(g),
                plan.entries@.map_values(|e: JsEntry| e.sub_build_name@),
                plan.build_name@,
                plan.deploy_name@,
                r,
            ),
    {
        let ghost s = old(g).tasks().len();
        let ghost bs = plan.entries@.map_values(|e: JsEntry| e.sub_build_name@);
        let mut build_nodes: Vec<usize> = Vec::new();
        for i in 0..plan.entries.len()
            invariant
                s == old(g).tasks().len(),
                bs == plan.entries@.map_values(|e: JsEntry| e.sub_build_name@),
                s + plan.entries@.len() + 2 <= u32::MAX,
                old(g).edges().len() + plan.entries@.len() <= u32::MAX,
                g.wf(),
                g.tasks() == old(g).tasks() + bs.take(i as int).map_values(|b: Seq<char>| (b, false)),
                g.edges() == old(g).edges(),
                build_nodes@ == Seq::new(i as nat, |k: int| (s + k) as usize),
        {
            let ghost e1 = g.edges();
            let name = plan.entries[i].sub_build_name.clone();
            assert(name@ == bs[i as int]);
            let b = Aggregate::chain(g, name, Vec::new(), false);
            assert(g.edges() =~= e1);
            build_nodes.push(b);
            proof {
                assert(bs.take(i + 1) =~= bs.take(i as int).push(bs[i as int]));
                assert(g.tasks() =~= old(g).tasks() + bs.take(i + 1).map_values(|b: Seq<char>| (b, false)));
                assert(build_nodes@ =~= Seq::new((i + 1) as nat, |k: int| (s + k) as usize));
            }
        }
        assert(bs.take(bs.len() as int) =~= bs);
            let rb = Aggregate::chain(g, plan.build_name.clone(), build_nodes, false);
        let rd = Aggregate::chain(g, plan.deploy_name.clone(), Vec::new(), false);
        proof {
            assert(g.tasks() =~= old(g).tasks() + bs.map_values(|b: Seq<char>| (b, false)) + seq![
                (plan.build_name@, false),
                (plan.deploy_name@, false),
            ]);
            assert(Seq::new(bs.len(), |k: int| (s + k) as usize).map_values(|d: usize| (d, rb))
                =~= Seq::new(bs.len(), |k: int| ((s + k) as usize, rb)));
            assert(g.edges() =~= old(g).edges() + Seq::new(bs.len(), |k: int| ((s + k) as usize, rb)));
        }
        (rb, rd)
    }
}

} // verus!
