//! The concat processor joins, for each key of its content, the files that the key's
//! patterns match under `<sources>/<prefix>/<key>` into one file `<dest>/<key>.<ext>`.

use vstd::prelude::*;
use crate::config::{ConfigMeta, ConfigModule};
use crate::paths::{join, spec_join};
use crate::processor::{
    build_name, deploy_name, sub_name, spec_build_name, spec_deploy_name, spec_sub_name, src_dir,
    spec_src_dir, build_dir, spec_build_dir, deploy_dir, spec_deploy_dir, strip_all,
    spec_strip_all, chain_module, module_wired,
};
use crate::aggregate::TaskGraph;
use crate::vinyl::{
    string_views, Vinyl, TaskOutcome, FileView, saves_of, dedup_paths, joined_contents,
    lemma_joined_data_contents, clone_strings,
};

verus! {

broadcast use vstd::string::group_string_axioms;

/// The options of a concat module: the directory under the sources that the keys are
/// in, the output directory, the extension of the joined files, and whether deployed
/// files are revisioned.
pub struct OptionsConcat {
    pub prefix: String,
    pub dest: String,
    pub ext: String,
    pub revision: bool,
}

/// The concat processor.
pub struct ProcessorConcat();

/// The task of one key: its names, the files it joins (relative to the sources
/// directory), and the joined file's path under the output directory.
pub struct ConcatEntry {
    pub sub_build_name: String,
    pub sub_deploy_name: String,
    pub rel_paths: Vec<String>,
    pub out_rel_path: String,
}

/// The tasks of a concat module.
pub struct ConcatPlan {
    pub build_name: String,
    pub deploy_name: String,
    pub src_path: String,
    pub out_path_build: String,
    pub out_path_deploy: String,
    pub revision: bool,
    pub entries: Vec<ConcatEntry>,
}

/// The content of a concat module: each key with its patterns, in the order given.
pub open spec fn key_of(conf: ConfigModule<OptionsConcat, Vec<(String, Vec<String>)>>, i: int) -> Seq<char> {
    conf.content@[i].0@
}

/// `<sources>/<prefix>/<key>`.
pub open spec fn key_dir(meta: ConfigMeta, conf: ConfigModule<OptionsConcat, Vec<(String, Vec<String>)>>, i: int) -> Seq<char> {
    spec_join(spec_join(spec_src_dir(meta), conf.options.prefix@), key_of(conf, i))
}

/// `<key>.<ext>`.
pub open spec fn joined_name(key: Seq<char>, ext: Seq<char>) -> Seq<char> {
    key + seq!['.'] + ext
}

/// What the `i`th key becomes, given the files its patterns matched.
pub open spec fn concat_entry_ok(e: ConcatEntry, meta: ConfigMeta, conf: ConfigModule<OptionsConcat, Vec<(String, Vec<String>)>>, i: int, wild: Seq<Seq<char>>) -> bool {
    &&& e.sub_build_name@ == spec_sub_name(spec_build_name(conf.name@), key_of(conf, i))
    &&& e.sub_deploy_name@ == spec_sub_name(spec_deploy_name(conf.name@), key_of(conf, i))
    &&& string_views(e.rel_paths@) == spec_strip_all(wild, spec_src_dir(meta))
    &&& e.out_rel_path@ == spec_join(conf.options.dest@, joined_name(key_of(conf, i), conf.options.ext@))
}

impl ProcessorConcat {
    /// The patterns of each key, under `<sources>/<prefix>/<key>`.
    pub fn patterns(meta: &ConfigMeta, conf: &ConfigModule<OptionsConcat, Vec<(String, Vec<String>)>>) -> (r: Vec<Vec<String>>)
        ensures
            r@.len() == conf.content@.len(),
            forall|i: int|
                0 <= i < r@.len() ==> (#[trigger] r@[i])@.len() == conf.content@[i].1@.len()
                    && forall|j: int|
                    0 <= j < r@[i]@.len() ==> #[trigger] r@[i]@[j]@ == spec_join(
                        key_dir(*meta, *conf, i),
                        conf.content@[i].1@[j]@,
                    ),
    {
        let src = src_dir(meta);
        let prefix_dir = join(src.as_str(), conf.options.prefix.as_str());
        let mut r: Vec<Vec<String>> = Vec::new();
        for i in 0..conf.content.len()
            invariant
                prefix_dir@ == spec_join(spec_src_dir(*meta), conf.options.prefix@),
                r@.len() == i,
                forall|k: int|
                    0 <= k < i ==> (#[trigger] r@[k])@.len() == conf.content@[k].1@.len()
                        && forall|j: int|
                        0 <= j < r@[k]@.len() ==> #[trigger] r@[k]@[j]@ == spec_join(
                            key_dir(*meta, *conf, k),
                            conf.content@[k].1@[j]@,
                        ),
        {
            let entry = &conf.content[i];
            let dir = join(prefix_dir.as_str(), entry.0.as_str());
            let mut ps: Vec<String> = Vec::new();
            for j in 0..entry.1.len()
                invariant
                    dir@ == key_dir(*meta, *conf, i as int),
                    *entry == conf.content@[i as int],
                    ps@.len() == j,
                    forall|q: int|
                        0 <= q < j ==> #[trigger] ps@[q]@ == spec_join(dir@, entry.1@[q]@),
            {
                ps.push(join(dir.as_str(), entry.1[j].as_str()));
            }
            r.push(ps);
        }
        r
    }

    /// The tasks for the files that each key's patterns matched (`wild_paths`, one list
    /// per key, in the order of the content).
    pub fn plan(meta: &ConfigMeta, conf: &ConfigModule<OptionsConcat, Vec<(String, Vec<String>)>>, wild_paths: &Vec<Vec<String>>) -> (r: ConcatPlan)
        requires
            wild_paths@.len() == conf.content@.len(),
        ensures
            r.build_name@ == spec_build_name(conf.name@),
            r.deploy_name@ == spec_deploy_name(conf.name@),
            r.src_path@ == spec_src_dir(*meta),
            r.out_path_build@ == spec_build_dir(*meta),
            r.out_path_deploy@ == spec_deploy_dir(*meta),
            r.revision == conf.options.revision,
            r.entries@.len() == conf.content@.len(),
            forall|i: int|
                0 <= i < r.entries@.len() ==> concat_entry_ok(
                    #[trigger] r.entries@[i],
                    *meta,
                    *conf,
                    i,
                    string_views(wild_paths@[i]@),
                ),
    {
        let bname = build_name(conf.name.as_str());
        let dname = deploy_name(conf.name.as_str());
        let src = src_dir(meta);
        let mut entries: Vec<ConcatEntry> = Vec::new();
        for i in 0..conf.content.len()
            invariant
                wild_paths@.len() == conf.content@.len(),
                src@ == spec_src_dir(*meta),
                bname@ == spec_build_name(conf.name@),
                dname@ == spec_deploy_name(conf.name@),
                entries@.len() == i,
                forall|k: int|
                    0 <= k < i ==> concat_entry_ok(
                        #[trigger] entries@[k],
                        *meta,
                        *conf,
                        k,
                        string_views(wild_paths@[k]@),
                    ),
        {
            let key = &conf.content[i].0;
            let mut file_name = key.clone();
            file_name.append(".");
            file_name.append(conf.options.ext.as_str());
            proof {
                reveal_strlit(".");
                assert(key@ == key_of(*conf, i as int));
                assert(file_name@ =~= joined_name(key_of(*conf, i as int), conf.options.ext@));
            }
            let entry = ConcatEntry {
                sub_build_name: sub_name(bname.as_str(), key.as_str()),
                sub_deploy_name: sub_name(dname.as_str(), key.as_str()),
                rel_paths: strip_all(&wild_paths[i], &src),
                out_rel_path: join(conf.options.dest.as_str(), file_name.as_str()),
            };
            assert(concat_entry_ok(entry, *meta, *conf, i as int, string_views(wild_paths@[i as int]@)));
            entries.push(entry);
        }
        ConcatPlan {
            build_name: bname,
            deploy_name: dname,
            src_path: src,
            out_path_build: build_dir(meta),
            out_path_deploy: deploy_dir(meta),
            revision: conf.options.revision,
            entries,
        }
    }

    /// The directories to watch and the tasks to run when something in them changes.
    pub fn watcher_dirs_and_tasks(meta: &ConfigMeta, conf: &ConfigModule<OptionsConcat, Vec<(String, Vec<String>)>>) -> (r: (Vec<String>, Vec<String>))
        ensures
            r.0@.len() == 1,
            r.0@[0]@ == spec_join(spec_src_dir(*meta), conf.options.prefix@),
            r.1@.len() == 1,
            r.1@[0]@ == spec_build_name(conf.name@),
    {
        let src = src_dir(meta);
        let prefix_path = join(src.as_str(), conf.options.prefix.as_str());
        let mut dirs: Vec<String> = Vec::new();
        dirs.push(prefix_path);
        let mut tasks: Vec<String> = Vec::new();
        tasks.push(build_name(conf.name.as_str()));
        (dirs, tasks)
    }
}

/// The joined file of an entry under `out_path`, from the bytes `contents` of the files
/// it loads.
pub open spec fn joined_file(e: ConcatEntry, out_path: Seq<char>, contents: Seq<Vec<u8>>) -> FileView {
    FileView { out_path, rel_path: e.out_rel_path@, data: joined_contents(contents) }
}

/// The outcome of a task that joins the files of entry `e` into one under `out_path`
/// and, where `save` holds, saves it; `contents` are the bytes of the files that
/// `Vinyl::load_paths` names for the entry, read in that order.
pub open spec fn joined_outcome(r: Option<TaskOutcome>, e: ConcatEntry, out_path: Seq<char>, save: bool, contents: Seq<Vec<u8>>) -> bool {
    match r {
        None => contents.len() != dedup_paths(string_views(e.rel_paths@)).len(),
        Some(o) => {
            &&& contents.len() == dedup_paths(string_views(e.rel_paths@)).len()
            &&& o.vinyl@.handles == seq![joined_file(e, out_path, contents)]
            &&& o.vinyl@.revision_pairs.len() == 0
            &&& if save {
                saves_of(o.vinyl@.handles, o.writes@, o.failure)
            } else {
                o.writes@.len() == 0 && o.failure is None
            }
        },
    }
}

impl ConcatPlan {
    /// Joins the files of entry `i`, read into `contents`, into one file under
    /// `out_path`, and saves it where `save` holds.
    fn join_entry(&self, i: usize, contents: Vec<Vec<u8>>, out_path: String, save: bool) -> (r: Option<TaskOutcome>)
        requires
            i < self.entries@.len(),
        ensures
            joined_outcome(r, self.entries@[i as int], out_path@, save, contents@),
    {
        let ghost cs = contents@;
        let e = &self.entries[i];
        match Vinyl::load_checked(self.src_path.clone(), clone_strings(&e.rel_paths), contents) {
            None => None,
            Some(v) => {
                proof {
                    lemma_joined_data_contents(v@.handles, cs);
                }
                let c = v.concat(out_path, e.out_rel_path.clone());
                if save {
                    Some(c.saved())
                } else {
                    Some(c.unsaved())
                }
            },
        }
    }

    /// The build task of entry `i`, once the files that `Vinyl::load_paths` names for it
    /// are read into `contents`: their bytes joined into one file under the build
    /// directory, saved; `None` where `contents` does not hold one entry per file.
    pub fn build_task(&self, i: usize, contents: Vec<Vec<u8>>) -> (r: Option<TaskOutcome>)
        requires
            i < self.entries@.len(),
        ensures
            joined_outcome(r, self.entries@[i as int], self.out_path_build@, true, contents@),
    {
        self.join_entry(i, contents, self.out_path_build.clone(), true)
    }

    /// The deploy task of entry `i`, likewise: the joined file goes where
    /// `deploy_target` says, and is saved only without revisioning.
    pub fn deploy_task(&self, i: usize, contents: Vec<Vec<u8>>) -> (r: Option<TaskOutcome>)
        requires
            i < self.entries@.len(),
        ensures
            joined_outcome(
                r,
                self.entries@[i as int],
                if self.revision {
                    self.out_path_deploy@
                } else {
                    self.out_path_build@
                },
                !self.revision,
                contents@,
            ),
    {
        let (out, save) = self.deploy_target();
        self.join_entry(i, contents, out, save)
    }

    /// Where a key's deploy task puts the joined file, and whether it saves it: with
    /// revisioning, under the deploy directory and unsaved (the module's deploy task
    /// revisions and saves them all); without, under the build directory, saved.
    pub fn deploy_target(&self) -> (r: (String, bool))
        ensures
            r.0@ == if self.revision {
                self.out_path_deploy@
            } else {
                self.out_path_build@
            },
            r.1 == !self.revision,
    {
        if self.revision {
            (self.out_path_deploy.clone(), false)
        } else {
            (self.out_path_build.clone(), true)
        }
    }
}

impl ProcessorConcat {
    /// Adds the tasks of `plan` to `g`: each key's build and deploy task, then the
    /// module's build and deploy task (see `module_wired`); none is quiet.
    pub fn add_tasks(g: &mut TaskGraph, plan: &ConcatPlan) -> (r: (usize, usize))
        requires
            old(g).wf(),
            old(g).tasks().len() + 2 * plan.entries@.len() + 2 <= u32::MAX,
            old(g).edges().len() + 2 * plan.entries@.len() <= u32::MAX,
        ensures
            module_wired(
                *old(g),
                *final(g),
                plan.entries@.map_values(|e: ConcatEntry| e.sub_build_name@),
                plan.entries@.map_values(|e: ConcatEntry| e.sub_deploy_name@),
                false,
                plan.build_name@,
                plan.deploy_name@,
                r,
            ),
    {
        let mut builds: Vec<String> = Vec::new();
        let mut deploys: Vec<String> = Vec::new();
        for i in 0..plan.entries.len()
            invariant
                string_views(builds@) == plan.entries@.take(i as int).map_values(|e: ConcatEntry| e.sub_build_name@),
                string_views(deploys@) == plan.entries@.take(i as int).map_values(|e: ConcatEntry| e.sub_deploy_name@),
        {
            let ghost (b0, d0) = (builds@, deploys@);
            let e = &plan.entries[i];
            let b = e.sub_build_name.clone();
            let d = e.sub_deploy_name.clone();
            builds.push(b);
            deploys.push(d);
            proof {
                assert(plan.entries@.take(i + 1) =~= plan.entries@.take(i as int).push(*e));
                assert(string_views(b0.push(b)) =~= string_views(b0).push(b@));
                assert(string_views(d0.push(d)) =~= string_views(d0).push(d@));
                assert(string_views(builds@) =~= plan.entries@.take(i + 1).map_values(|e: ConcatEntry| e.sub_build_name@));
                assert(string_views(deploys@) =~= plan.entries@.take(i + 1).map_values(|e: ConcatEntry| e.sub_deploy_name@));
            }
        }
        proof {
            assert(plan.entries@.take(plan.entries@.len() as int) =~= plan.entries@);
        }
        chain_module(g, builds, deploys, false, plan.build_name.clone(), plan.deploy_name.clone())
    }
}

} // verus!
