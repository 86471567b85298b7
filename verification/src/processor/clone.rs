//! The clone processor copies the files that its content patterns match, from under
//! `<sources>/<prefix>` to `<dest>` in the build and deploy directories.

use vstd::prelude::*;
use crate::config::{ConfigMeta, ConfigModule};
use crate::paths::{join, spec_join, strip_prefix, path_strip_prefix};
use crate::processor::{
    build_name, deploy_name, sub_name, spec_build_name, spec_deploy_name, spec_sub_name, src_dir,
    spec_src_dir, build_dir, spec_build_dir, deploy_dir, spec_deploy_dir, strip_all,
    spec_strip_all, chain_module, module_wired,
};
use crate::aggregate::TaskGraph;
use crate::vinyl::{string_views, Vinyl, FileHandle, FileView, TaskOutcome, VinylView, saves_of};

verus! {

broadcast use vstd::string::group_string_axioms;

/// The options of a clone module: the directory under the sources that the patterns
/// start from, the directory the copies go to, and whether deployed copies are revisioned.
pub struct OptionsClone {
    pub prefix: String,
    pub dest: String,
    pub revision: bool,
}

/// The clone processor.
pub struct ProcessorClone();

/// One file to copy: where it is under the sources, where it goes under the output
/// directory, and the names of its build and deploy tasks.
pub struct CloneItem {
    pub in_rel_path: String,
    pub out_rel_path: String,
    pub sub_build_name: String,
    pub sub_deploy_name: String,
}

/// The tasks of a clone module.
pub struct ClonePlan {
    pub build_name: String,
    pub deploy_name: String,
    pub src_path: String,
    pub out_path_build: String,
    pub out_path_deploy: String,
    pub revision: bool,
    pub items: Vec<CloneItem>,
}

/// The path of a found file under the clone prefix.
pub open spec fn unprefixed(rel: Seq<char>, prefix: Seq<char>) -> Seq<char> {
    path_strip_prefix(rel, prefix).unwrap()
}

/// Every found file lies under the clone prefix.
pub open spec fn all_under_prefix(rels: Seq<Seq<char>>, prefix: Seq<char>) -> bool {
    forall|i: int| 0 <= i < rels.len() ==> path_strip_prefix(#[trigger] rels[i], prefix) is Some
}

/// What one found file becomes.
pub open spec fn clone_item_ok(it: CloneItem, rel: Seq<char>, conf: ConfigModule<OptionsClone, Vec<String>>) -> bool {
    let np = unprefixed(rel, conf.options.prefix@);
    &&& it.in_rel_path@ == rel
    &&& it.out_rel_path@ == spec_join(conf.options.dest@, np)
    &&& it.sub_build_name@ == spec_sub_name(spec_build_name(conf.name@), np)
    &&& it.sub_deploy_name@ == spec_sub_name(spec_deploy_name(conf.name@), np)
}

impl ProcessorClone {
    /// The patterns to expand: each content entry under `<sources>/<prefix>`.
    pub fn patterns(meta: &ConfigMeta, conf: &ConfigModule<OptionsClone, Vec<String>>) -> (r: Vec<String>)
        ensures
            r@.len() == conf.content@.len(),
            forall|i: int|
                0 <= i < r@.len() ==> #[trigger] r@[i]@ == spec_join(
                    spec_join(spec_src_dir(*meta), conf.options.prefix@),
                    conf.content@[i]@,
                ),
    {
        let src = src_dir(meta);
        let base = join(src.as_str(), conf.options.prefix.as_str());
        let mut r: Vec<String> = Vec::new();
        for i in 0..conf.content.len()
            invariant
                base@ == spec_join(spec_src_dir(*meta), conf.options.prefix@),
                r@.len() == i,
                forall|j: int|
                    0 <= j < i ==> #[trigger] r@[j]@ == spec_join(base@, conf.content@[j]@),
        {
            r.push(join(base.as_str(), conf.content[i].as_str()));
        }
        r
    }

    /// The tasks for the files that the patterns matched (`wild_paths`): the files under
    /// the sources directory, each copied to `<dest>/<its path under the prefix>`.
    pub fn plan(meta: &ConfigMeta, conf: &ConfigModule<OptionsClone, Vec<String>>, wild_paths: &Vec<String>) -> (r: ClonePlan)
        requires
            all_under_prefix(
                spec_strip_all(string_views(wild_paths@), spec_src_dir(*meta)),
                conf.options.prefix@,
            ),
        ensures
            r.build_name@ == spec_build_name(conf.name@),
            r.deploy_name@ == spec_deploy_name(conf.name@),
            r.src_path@ == spec_src_dir(*meta),
            r.out_path_build@ == spec_build_dir(*meta),
            r.out_path_deploy@ == spec_deploy_dir(*meta),
            r.revision == conf.options.revision,
            r.items@.len() == spec_strip_all(string_views(wild_paths@), spec_src_dir(*meta)).len(),
            forall|i: int|
                0 <= i < r.items@.len() ==> clone_item_ok(
                    #[trigger] r.items@[i],
                    spec_strip_all(string_views(wild_paths@), spec_src_dir(*meta))[i],
                    *conf,
                ),
    {
        let bname = build_name(conf.name.as_str());
        let dname = deploy_name(conf.name.as_str());
        let src = src_dir(meta);
        let rels = strip_all(wild_paths, &src);
        let mut items: Vec<CloneItem> = Vec::new();
        for i in 0..rels.len()
            invariant
                string_views(rels@) == spec_strip_all(string_views(wild_paths@), spec_src_dir(*meta)),
                all_under_prefix(string_views(rels@), conf.options.prefix@),
                bname@ == spec_build_name(conf.name@),
                dname@ == spec_deploy_name(conf.name@),
                items@.len() == i,
                forall|j: int| 0 <= j < i ==> clone_item_ok(#[trigger] items@[j], string_views(rels@)[j], *conf),
        {
            let rel = &rels[i];
            assert(string_views(rels@)[i as int] == rel@);
            let np = match strip_prefix(rel.as_str(), conf.options.prefix.as_str()) {
                Some(p) => p,
                None => {
                    assert(path_strip_prefix(string_views(rels@)[i as int], conf.options.prefix@) is Some);
                    String::new()
                },
            };
            let item = CloneItem {
                in_rel_path: rel.clone(),
                out_rel_path: join(conf.options.dest.as_str(), np.as_str()),
                sub_build_name: sub_name(bname.as_str(), np.as_str()),
                sub_deploy_name: sub_name(dname.as_str(), np.as_str()),
            };
            items.push(item);
        }
        ClonePlan {
            build_name: bname,
            deploy_name: dname,
            src_path: src,
            out_path_build: build_dir(meta),
            out_path_deploy: deploy_dir(meta),
            revision: conf.options.revision,
            items,
        }
    }

    /// `plan`, where every matched file lies under the prefix; `None` where one does not.
    pub fn plan_checked(meta: &ConfigMeta, conf: &ConfigModule<OptionsClone, Vec<String>>, wild_paths: &Vec<String>) -> (r: Option<ClonePlan>)
        ensures
            r is Some <==> all_under_prefix(
                spec_strip_all(string_views(wild_paths@), spec_src_dir(*meta)),
                conf.options.prefix@,
            ),
            r matches Some(p) ==> p.items@.len() == spec_strip_all(string_views(wild_paths@), spec_src_dir(*meta)).len()
                && forall|i: int|
                0 <= i < p.items@.len() ==> clone_item_ok(
                    #[trigger] p.items@[i],
                    spec_strip_all(string_views(wild_paths@), spec_src_dir(*meta))[i],
                    *conf,
                ),
    {
        let src = src_dir(meta);
        let rels = strip_all(wild_paths, &src);
        for i in 0..rels.len()
            invariant
                string_views(rels@) == spec_strip_all(string_views(wild_paths@), spec_src_dir(*meta)),
                forall|j: int| 0 <= j < i ==> path_strip_prefix(#[trigger] string_views(rels@)[j], conf.options.prefix@) is Some,
        {
            assert(string_views(rels@)[i as int] == rels@[i as int]@);
            if strip_prefix(rels[i].as_str(), conf.options.prefix.as_str()).is_none() {
                return None;
            }
        }
        Some(ProcessorClone::plan(meta, conf, wild_paths))
    }

    /// The directories to watch and the tasks to run when something in them changes.
    pub fn watcher_dirs_and_tasks(meta: &ConfigMeta, conf: &ConfigModule<OptionsClone, Vec<String>>) -> (r: (Vec<String>, Vec<String>))
        ensures
            r.0@.len() == 1,
            r.0@[0]@ == spec_join(spec_src_dir(*meta), conf.options.prefix@),
            r.1@.len() == 1,
            r.1@[0]@ == spec_build_name(conf.name@),
    {
        let src = src_dir(meta);
        let clone_path = join(src.as_str(), conf.options.prefix.as_str());
        let mut dirs: Vec<String> = Vec::new();
        dirs.push(clone_path);
        let mut tasks: Vec<String> = Vec::new();
        tasks.push(build_name(conf.name.as_str()));
        (dirs, tasks)
    }
}

/// The outcome of a task that adds the copy of item `it`, holding `data`, under
/// `out_path` to the vinyl `v` and, where `save` holds, saves every file of it.
pub open spec fn copied_outcome(o: TaskOutcome, v: VinylView, it: CloneItem, out_path: Seq<char>, save: bool, data: Seq<u8>) -> bool {
    &&& o.vinyl@.handles == v.handles.push(FileView { out_path, rel_path: it.out_rel_path@, data })
    &&& o.vinyl@.revision_pairs == v.revision_pairs
    &&& if save {
        saves_of(o.vinyl@.handles, o.writes@, o.failure)
    } else {
        o.writes@.len() == 0 && o.failure is None
    }
}

impl ClonePlan {
    /// Adds the copy of item `i`, holding `data`, under `out_path` to `v`, and saves
    /// every file where `save` holds.
    fn copy_item(&self, i: usize, v: Vinyl, data: Vec<u8>, out_path: String, save: bool) -> (r: TaskOutcome)
        requires
            i < self.items@.len(),
        ensures
            copied_outcome(r, v@, self.items@[i as int], out_path@, save, data@),
    {
        let h = FileHandle::new(out_path, self.items[i].out_rel_path.clone(), data);
        let w = v.insert(h);
        if save {
            w.saved()
        } else {
            w.unsaved()
        }
    }

    /// The build task of item `i`, once the file at `<src_path>/<in_rel_path>` is read
    /// into `data`: its copy under the build directory added to `v`, and every file
    /// of `v` saved.
    pub fn build_task(&self, i: usize, v: Vinyl, data: Vec<u8>) -> (r: TaskOutcome)
        requires
            i < self.items@.len(),
        ensures
            copied_outcome(r, v@, self.items@[i as int], self.out_path_build@, true, data@),
    {
        self.copy_item(i, v, data, self.out_path_build.clone(), true)
    }

    /// The deploy task of item `i`, likewise, with the copy under the deploy directory;
    /// nothing is saved with revisioning.
    pub fn deploy_task(&self, i: usize, v: Vinyl, data: Vec<u8>) -> (r: TaskOutcome)
        requires
            i < self.items@.len(),
        ensures
            copied_outcome(r, v@, self.items@[i as int], self.out_path_deploy@, !self.revision, data@),
    {
        let (out, save) = self.deploy_target();
        self.copy_item(i, v, data, out, save)
    }

    /// Where a file's deploy task puts its copy, and whether it saves it: always under
    /// the deploy directory; saved only without revisioning (with it, the module's
    /// deploy task revisions and saves them all).
    pub fn deploy_target(&self) -> (r: (String, bool))
        ensures
            r.0@ == self.out_path_deploy@,
            r.1 == !self.revision,
    {
        (self.out_path_deploy.clone(), !self.revision)
    }
}

impl ProcessorClone {
    /// Adds the tasks of `plan` to `g`: each file's build and deploy task, which are
    /// quiet, then the module's build and deploy task (see `module_wired`).
    pub fn add_tasks(g: &mut TaskGraph, plan: &ClonePlan) -> (r: (usize, usize))
        requires
            old(g).wf(),
            old(g).tasks().len() + 2 * plan.items@.len() + 2 <= u32::MAX,
            old(g).edges().len() + 2 * plan.items@.len() <= u32::MAX,
        ensures
            module_wired(
                *old(g),
                *final(g),
                plan.items@.map_values(|e: CloneItem| e.sub_build_name@),
                plan.items@.map_values(|e: CloneItem| e.sub_deploy_name@),
                true,
                plan.build_name@,
                plan.deploy_name@,
                r,
            ),
    {
        let mut builds: Vec<String> = Vec::new();
        let mut deploys: Vec<String> = Vec::new();
        for i in 0..plan.items.len()
            invariant
                string_views(builds@) == plan.items@.take(i as int).map_values(|e: CloneItem| e.sub_build_name@),
                string_views(deploys@) == plan.items@.take(i as int).map_values(|e: CloneItem| e.sub_deploy_name@),
        {
            let ghost (b0, d0) = (builds@, deploys@);
            let e = &plan.items[i];
            let b = e.sub_build_name.clone();
            let d = e.sub_deploy_name.clone();
            builds.push(b);
            deploys.push(d);
            proof {
                assert(plan.items@.take(i + 1) =~= plan.items@.take(i as int).push(*e));
                assert(string_views(b0.push(b)) =~= string_views(b0).push(b@));
                assert(string_views(d0.push(d)) =~= string_views(d0).push(d@));
                assert(string_views(builds@) =~= plan.items@.take(i + 1).map_values(|e: CloneItem| e.sub_build_name@));
                assert(string_views(deploys@) =~= plan.items@.take(i + 1).map_values(|e: CloneItem| e.sub_deploy_name@));
            }
        }
        proof {
            assert(plan.items@.take(plan.items@.len() as int) =~= plan.items@);
        }
        chain_module(g, builds, deploys, true, plan.build_name.clone(), plan.deploy_name.clone())
    }
}

} // verus!
