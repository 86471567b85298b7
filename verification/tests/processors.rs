use aggregate::aggregate::{Aggregate, TaskGraph};
use aggregate::config::{ConfigMeta, ConfigModule};
use aggregate::processor::module_deploy;
use aggregate::vinyl::{FileHandle, Vinyl};
use aggregate::processor::clone::{OptionsClone, ProcessorClone};
use aggregate::processor::concat::{OptionsConcat, ProcessorConcat};
use aggregate::processor::js::{OptionsJS, ProcessorJS};

fn meta() -> ConfigMeta {
    ConfigMeta {
        base_path: "site".to_string(),
        src_path: "src".to_string(),
        build_path: "build".to_string(),
        deploy_path: "deploy".to_string(),
    }
}

fn clone_conf() -> ConfigModule<OptionsClone, Vec<String>> {
    ConfigModule {
        name: "img".to_string(),
        processor: "clone".to_string(),
        options: OptionsClone { prefix: "img".to_string(), dest: "static".to_string(), revision: true },
        content: vec!["*.png".to_string(), "icons/*.svg".to_string()],
    }
}

#[test]
fn clone_patterns_and_plan() {
    let conf = clone_conf();
    assert_eq!(ProcessorClone::patterns(&meta(), &conf), vec!["site/src/img/*.png", "site/src/img/icons/*.svg"]);
    let wild = vec![
        "site/src/img/a.png".to_string(),
        "elsewhere/b.png".to_string(),
        "site/src/img/icons/c.svg".to_string(),
    ];
    let plan = ProcessorClone::plan(&meta(), &conf, &wild);
    assert_eq!(plan.build_name, "build:img");
    assert_eq!(plan.deploy_name, "deploy:img");
    assert_eq!(plan.src_path, "site/src");
    assert_eq!(plan.out_path_build, "site/build");
    assert_eq!(plan.out_path_deploy, "site/deploy");
    assert!(plan.revision);
    assert_eq!(plan.items.len(), 2);
    assert_eq!(plan.items[0].in_rel_path, "img/a.png");
    assert_eq!(plan.items[0].out_rel_path, "static/a.png");
    assert_eq!(plan.items[0].sub_build_name, "build:img:a.png");
    assert_eq!(plan.items[1].sub_deploy_name, "deploy:img:icons/c.svg");
    assert_eq!(plan.items[1].out_rel_path, "static/icons/c.svg");
}

#[test]
fn clone_plan_checked_refuses_files_outside_the_prefix() {
    let conf = clone_conf();
    let wild = vec!["site/src/other/a.png".to_string()];
    assert!(ProcessorClone::plan_checked(&meta(), &conf, &wild).is_none());
    let wild = vec!["site/src/img/a.png".to_string()];
    assert_eq!(ProcessorClone::plan_checked(&meta(), &conf, &wild).unwrap().items.len(), 1);
}

#[test]
fn clone_watch() {
    let (dirs, tasks) = ProcessorClone::watcher_dirs_and_tasks(&meta(), &clone_conf());
    assert_eq!(dirs, vec!["site/src/img"]);
    assert_eq!(tasks, vec!["build:img"]);
}

fn concat_conf() -> ConfigModule<OptionsConcat, Vec<(String, Vec<String>)>> {
    ConfigModule {
        name: "css".to_string(),
        processor: "concat".to_string(),
        options: OptionsConcat { prefix: "css".to_string(), dest: "assets".to_string(), ext: "css".to_string(), revision: false },
        content: vec![
            ("main".to_string(), vec!["reset.css".to_string(), "*.css".to_string()]),
            ("print".to_string(), vec![]),
        ],
    }
}

#[test]
fn concat_patterns_and_plan() {
    let conf = concat_conf();
    let pats = ProcessorConcat::patterns(&meta(), &conf);
    assert_eq!(pats, vec![vec!["site/src/css/main/reset.css".to_string(), "site/src/css/main/*.css".to_string()], vec![]]);
    let wild = vec![vec!["site/src/css/main/reset.css".to_string(), "x/y.css".to_string()], vec![]];
    let plan = ProcessorConcat::plan(&meta(), &conf, &wild);
    assert_eq!(plan.entries.len(), 2);
    assert_eq!(plan.entries[0].sub_build_name, "build:css:main");
    assert_eq!(plan.entries[0].sub_deploy_name, "deploy:css:main");
    assert_eq!(plan.entries[0].rel_paths, vec!["css/main/reset.css"]);
    assert_eq!(plan.entries[0].out_rel_path, "assets/main.css");
    assert_eq!(plan.entries[1].out_rel_path, "assets/print.css");
    assert!(!plan.revision);
    let (dirs, tasks) = ProcessorConcat::watcher_dirs_and_tasks(&meta(), &conf);
    assert_eq!(dirs, vec!["site/src/css"]);
    assert_eq!(tasks, vec!["build:css"]);
}

#[test]
fn js_plan() {
    let conf = ConfigModule {
        name: "js".to_string(),
        processor: "js".to_string(),
        options: OptionsJS { prefix: "scripts".to_string(), dest: "js".to_string() },
        content: vec![("app".to_string(), vec!["a.js".to_string(), "lib/*.js".to_string()])],
    };
    let plan = ProcessorJS::plan(&meta(), &conf);
    assert_eq!(plan.build_name, "build:js");
    assert_eq!(plan.deploy_name, "deploy:js");
    assert_eq!(plan.entries[0].sub_build_name, "build:js:app");
    assert_eq!(plan.entries[0].build_file_path, "site/build/js/app.js");
    assert_eq!(plan.entries[0].patterns, vec!["site/src/scripts/app/a.js", "site/src/scripts/app/lib/*.js"]);
}

fn tasks_of(g: &TaskGraph) -> Vec<(String, bool)> {
    (0..g.task_count()).map(|i| (g.task(i).name.clone(), g.task(i).quiet)).collect()
}

#[test]
fn concat_add_tasks_wires_keys_under_the_module() {
    let conf = concat_conf();
    let wild = vec![vec!["site/src/css/main/reset.css".to_string()], vec![]];
    let plan = ProcessorConcat::plan(&meta(), &conf, &wild);
    let mut g = TaskGraph::new();
    let first = Aggregate::chain(&mut g, "earlier".to_string(), vec![], true);
    let (b, d) = ProcessorConcat::add_tasks(&mut g, &plan);
    assert_eq!((first, b, d), (0, 5, 6));
    assert_eq!(
        tasks_of(&g),
        vec![
            ("earlier".to_string(), true),
            ("build:css:main".to_string(), false),
            ("deploy:css:main".to_string(), false),
            ("build:css:print".to_string(), false),
            ("deploy:css:print".to_string(), false),
            ("build:css".to_string(), false),
            ("deploy:css".to_string(), false),
        ]
    );
    assert_eq!(g.edge_count(), 4);
    assert_eq!(g.dependencies(5), vec![3, 1]);
    assert_eq!(g.dependencies(6), vec![4, 2]);
    assert!(g.dependencies(1).is_empty());
    assert!(g.dependencies(0).is_empty());
}

#[test]
fn concat_deploy_target_follows_revision() {
    let mut conf = concat_conf();
    let plan = ProcessorConcat::plan(&meta(), &conf, &vec![vec![], vec![]]);
    assert_eq!(plan.deploy_target(), ("site/build".to_string(), true));
    conf.options.revision = true;
    let plan = ProcessorConcat::plan(&meta(), &conf, &vec![vec![], vec![]]);
    assert_eq!(plan.deploy_target(), ("site/deploy".to_string(), false));
}

#[test]
fn clone_add_tasks_are_quiet_per_file() {
    let conf = clone_conf();
    let wild = vec!["site/src/img/a.png".to_string()];
    let plan = ProcessorClone::plan(&meta(), &conf, &wild);
    let mut g = TaskGraph::new();
    let (b, d) = ProcessorClone::add_tasks(&mut g, &plan);
    assert_eq!((b, d), (2, 3));
    assert_eq!(
        tasks_of(&g),
        vec![
            ("build:img:a.png".to_string(), true),
            ("deploy:img:a.png".to_string(), true),
            ("build:img".to_string(), false),
            ("deploy:img".to_string(), false),
        ]
    );
    assert_eq!(g.dependencies(2), vec![0]);
    assert_eq!(g.dependencies(3), vec![1]);
    assert_eq!(plan.deploy_target(), ("site/deploy".to_string(), false));
    let mut conf = clone_conf();
    conf.options.revision = false;
    let plan = ProcessorClone::plan(&meta(), &conf, &wild);
    assert_eq!(plan.deploy_target(), ("site/deploy".to_string(), true));
}

#[test]
fn js_add_tasks_has_a_deploy_task_without_dependencies() {
    let conf = ConfigModule {
        name: "js".to_string(),
        processor: "js".to_string(),
        options: OptionsJS { prefix: "scripts".to_string(), dest: "js".to_string() },
        content: vec![("app".to_string(), vec![]), ("vendor".to_string(), vec![])],
    };
    let plan = ProcessorJS::plan(&meta(), &conf);
    let mut g = TaskGraph::new();
    let (b, d) = ProcessorJS::add_tasks(&mut g, &plan);
    assert_eq!((b, d), (2, 3));
    assert_eq!(
        tasks_of(&g),
        vec![
            ("build:js:app".to_string(), false),
            ("build:js:vendor".to_string(), false),
            ("build:js".to_string(), false),
            ("deploy:js".to_string(), false),
        ]
    );
    assert_eq!(g.dependencies(2), vec![1, 0]);
    assert!(g.dependencies(3).is_empty());
    assert_eq!(g.edge_count(), 2);
}

#[test]
fn concat_tasks_join_and_save() {
    let conf = concat_conf();
    let wild = vec![vec!["site/src/css/main/a.css".to_string(), "site/src/css/main/a.css".to_string(), "site/src/css/main/b.css".to_string()], vec![]];
    let plan = ProcessorConcat::plan(&meta(), &conf, &wild);
    let o = plan.build_task(0, vec![b"x{}".to_vec(), b"y{}".to_vec()]).unwrap();
    assert_eq!(o.vinyl.handles.len(), 1);
    assert_eq!(o.vinyl.handles[0].out_path, "site/build");
    assert_eq!(o.vinyl.handles[0].rel_path, "assets/main.css");
    assert_eq!(o.vinyl.handles[0].data, b"x{}y{}".to_vec());
    assert_eq!(o.writes.len(), 1);
    assert_eq!(o.writes[0].path, "site/build/assets/main.css");
    assert!(o.failure.is_none());
    // one content per file that the load keeps, no more, no fewer
    assert!(plan.build_task(0, vec![b"x".to_vec()]).is_none());
    // nothing to join: the empty file is refused
    let o = plan.build_task(1, vec![]).unwrap();
    assert!(o.writes.is_empty());
    let (path, e) = o.failure.unwrap();
    assert_eq!(path, "site/build/assets/print.css");
    assert_eq!(e.msg, "Data corrupted/empty");
    // without revisioning, deploy tasks write to the build directory
    let o = plan.deploy_task(0, vec![b"x".to_vec(), b"y".to_vec()]).unwrap();
    assert_eq!(o.writes[0].path, "site/build/assets/main.css");
    let mut conf = concat_conf();
    conf.options.revision = true;
    let plan = ProcessorConcat::plan(&meta(), &conf, &wild);
    let o = plan.deploy_task(0, vec![b"x".to_vec(), b"y".to_vec()]).unwrap();
    assert_eq!(o.vinyl.handles[0].out_path, "site/deploy");
    assert!(o.writes.is_empty());
    assert!(o.failure.is_none());
}

#[test]
fn clone_tasks_add_the_copy() {
    let wild = vec!["site/src/img/a.png".to_string()];
    let plan = ProcessorClone::plan(&meta(), &clone_conf(), &wild);
    let v = Vinyl::new(vec![FileHandle::new("o".to_string(), "x.png".to_string(), b"1".to_vec())]);
    let o = plan.build_task(0, v.clone(), b"PNG".to_vec());
    assert_eq!(o.vinyl.handles.len(), 2);
    assert_eq!(o.vinyl.handles[1].out_path, "site/build");
    assert_eq!(o.vinyl.handles[1].rel_path, "static/a.png");
    let paths: Vec<String> = o.writes.iter().map(|w| w.path.clone()).collect();
    assert_eq!(paths, vec!["o/x.png", "site/build/static/a.png"]);
    // with revisioning, the deploy copy is only added
    let o = plan.deploy_task(0, v, b"PNG".to_vec());
    assert_eq!(o.vinyl.handles[1].out_path, "site/deploy");
    assert!(o.writes.is_empty());
}

#[test]
fn module_deploy_revisions_and_saves() {
    let v = Vinyl::new(vec![FileHandle::new("d".to_string(), "a.js".to_string(), b"hello".to_vec())]);
    let o = module_deploy(v.clone(), true);
    assert_eq!(o.vinyl.handles[0].rel_path, "a-3610a686.js");
    assert_eq!(o.vinyl.revision_pairs, vec![("a.js".to_string(), "a-3610a686.js".to_string())]);
    assert_eq!(o.writes[0].path, "d/a-3610a686.js");
    let o = module_deploy(v, false);
    assert_eq!(o.vinyl.handles[0].rel_path, "a.js");
    assert!(o.writes.is_empty() && o.failure.is_none());
}
