use aggregate::aggregate::TaskGraph;
use aggregate::vinyl::{FileHandle, Vinyl};
use aggregate::config::{ConfigMeta, ConfigModule};
use aggregate::processor::htmlpages::{OptionsHTMLPages, ProcessorHTMLPages, TemplatePart};

fn meta() -> ConfigMeta {
    ConfigMeta {
        base_path: "site".to_string(),
        src_path: "src".to_string(),
        build_path: "build".to_string(),
        deploy_path: "deploy".to_string(),
    }
}

fn text(p: &TemplatePart) -> String {
    match p {
        TemplatePart::Text(s) => format!("T:{}", s),
        TemplatePart::Import(s) => format!("I:{}", s),
        TemplatePart::Script(s) => format!("S:{}", s),
    }
}

#[test]
fn import_arg_from_sources_or_template_dir() {
    assert_eq!(
        ProcessorHTMLPages::format_import_arg("/parts/head.html".to_string(), "site/src/pages/a".to_string(), meta()),
        "site/src/parts/head.html"
    );
    assert_eq!(
        ProcessorHTMLPages::format_import_arg("body.html".to_string(), "site/src/pages/a".to_string(), meta()),
        "site/src/pages/a/body.html"
    );
}

#[test]
fn template_parts_expand_commands() {
    let t = "<h1><!--@import /head.html --></h1>\n<!--@import-js app.js -->\n<!--@unknown x -->!\n<!--@output-begin index.html -->\nB\n<!--@output-end index.html -->".to_string();
    let parts = ProcessorHTMLPages::template_parts(&"site/src/pages/home".to_string(), &meta(), &t);
    let shown: Vec<String> = parts.iter().map(text).collect();
    assert_eq!(
        shown,
        vec![
            "T:<h1>",
            "I:site/src/head.html",
            "T:</h1>\n",
            "S:site/src/pages/home/app.js",
            "T:\n",
            "T:!\n",
            "T:<!--@output-begin index.html -->",
            "T:\nB\n",
            "T:<!--@output-end index.html -->",
            "T:",
        ]
    );
    let out = ProcessorHTMLPages::assemble(&parts, &vec!["HEAD".to_string(), "CODE".to_string()]);
    assert_eq!(
        out,
        "<h1>HEAD</h1>\n<script>CODE</script>\n!\n<!--@output-begin index.html -->\nB\n<!--@output-end index.html -->"
    );
}

#[test]
fn template_without_commands_is_kept() {
    let t = "plain <!-- comment --> text".to_string();
    let parts = ProcessorHTMLPages::template_parts(&"d".to_string(), &meta(), &t);
    assert_eq!(ProcessorHTMLPages::assemble(&parts, &vec![]), t);
}

#[test]
fn marked_template_is_unchanged() {
    let t = "a<!--@output-begin x.html -->\nb\n<!--@output-end x.html -->c".to_string();
    let parts = ProcessorHTMLPages::template_parts(&"d".to_string(), &meta(), &t);
    assert_eq!(ProcessorHTMLPages::assemble(&parts, &vec![]), t);
}

#[test]
fn unreadable_import_argument_is_detected() {
    assert!(!ProcessorHTMLPages::imports_readable(&"<!--@import é.html -->".to_string()));
    assert!(ProcessorHTMLPages::imports_readable(&"<!--@other é.html -->".to_string()));
    assert!(ProcessorHTMLPages::imports_readable(&"<!--@import a.html -->".to_string()));
}

#[test]
fn process_template_uses_the_parent_directory() {
    let t = "<!--@import x.html -->".to_string();
    let parts = ProcessorHTMLPages::process_template(&"site/src/pages/a/template.html".to_string(), &meta(), &t);
    assert_eq!(text(&parts[1]), "I:site/src/pages/a/x.html");
    let checked = ProcessorHTMLPages::process_template_checked(&"site/src/pages/a/template.html".to_string(), &meta(), &t).unwrap();
    assert_eq!(text(&checked.0[1]), "I:site/src/pages/a/x.html");
    assert!(checked.1.is_none());
    // a template path without a parent directory cannot be expanded
    assert!(ProcessorHTMLPages::process_template_checked(&"/".to_string(), &meta(), &t).is_none());
}

#[test]
fn output_files_cut_pages() {
    let stage1 = "<!--@output-begin a.html -->\nAAA\n<!--@output-end a.html -->\n<!--@output-end b.html -->\n<!--@output-begin b.html -->\né\n<!--@output-begin b.html -->B\n<!--@output-end b.html -->".to_string();
    let files = ProcessorHTMLPages::output_files(&"home".to_string(), &stage1, &"site/build".to_string());
    assert_eq!(files.len(), 2);
    assert_eq!(files[0].out_path, "site/build");
    assert_eq!(files[0].rel_path, "home/a.html");
    assert_eq!(files[0].data, b"\nAAA\n".to_vec());
    assert_eq!(files[1].rel_path, "home/b.html");
    assert_eq!(files[1].data, b"B\n".to_vec());
}

#[test]
fn write_outputs_relative_to_the_pages_directory() {
    let stage1 = "<!--@output-begin a.html -->\nx\n<!--@output-end a.html -->".to_string();
    let files = ProcessorHTMLPages::write_outputs(
        &"site/src/pages/home/template.html".to_string(),
        &meta(),
        &stage1,
        &"site/src/pages".to_string(),
        &"site/build".to_string(),
    );
    assert_eq!(files.len(), 1);
    assert_eq!(files[0].file_path(), "site/build/home/a.html");
    let checked = ProcessorHTMLPages::write_outputs_checked(
        &"site/src/pages/home/template.html".to_string(),
        &meta(),
        &stage1,
        &"site/src/pages".to_string(),
        &"site/build".to_string(),
    )
    .unwrap();
    assert_eq!(checked[0].file_path(), "site/build/home/a.html");
    // a page outside the pages directory cannot be placed
    assert!(ProcessorHTMLPages::write_outputs_checked(
        &"elsewhere/template.html".to_string(),
        &meta(),
        &stage1,
        &"site/src/pages".to_string(),
        &"site/build".to_string()
    )
    .is_none());
    // nor a template path without a parent directory
    assert!(ProcessorHTMLPages::write_outputs_checked(
        &"/".to_string(),
        &meta(),
        &stage1,
        &"site/src/pages".to_string(),
        &"site/build".to_string()
    )
    .is_none());
    // unless nothing is cut out
    assert!(ProcessorHTMLPages::write_outputs(
        &"elsewhere/template.html".to_string(),
        &meta(),
        &"no pages".to_string(),
        &"site/src/pages".to_string(),
        &"site/build".to_string()
    )
    .is_empty());
}

#[test]
fn pages_between_markers() {
    let stage1 = "<!--@output-begin a.html -->\n<!--@output-end a.html -->".to_string();
    let files = ProcessorHTMLPages::output_files(&"p".to_string(), &stage1, &"o".to_string());
    assert_eq!(files.len(), 1);
    assert_eq!(files[0].data, b"\n".to_vec());
    let stage1 = "<!--@output-begin a.html -->x\n<!--@output-begin b.html -->\n<!--@output-end a.html -->".to_string();
    let files = ProcessorHTMLPages::output_files(&"p".to_string(), &stage1, &"o".to_string());
    assert_eq!(files.len(), 1);
    assert_eq!(files[0].rel_path, "p/a.html");
    assert_eq!(files[0].data, b"x\n<!--@output-begin b.html -->\n".to_vec());
}

#[test]
fn pages_plan_and_watch() {
    let conf = ConfigModule {
        name: "pages".to_string(),
        processor: "htmlpages".to_string(),
        options: OptionsHTMLPages { prefix: "pages".to_string(), dest: "".to_string() },
        content: vec!["home".to_string(), "about".to_string()],
    };
    let plan = ProcessorHTMLPages::plan(&meta(), &conf);
    assert_eq!(plan.build_name, "build:pages");
    assert_eq!(plan.deploy_name, "deploy:pages");
    assert_eq!(plan.build_prefix, "site/build/");
    assert_eq!(plan.deploy_prefix, "site/deploy/");
    assert_eq!(plan.path_prefix, "site/src/pages");
    assert_eq!(plan.pages[1].build_name_page, "build:pages:about");
    assert_eq!(plan.pages[1].deploy_name_page, "deploy:pages:about");
    assert_eq!(plan.pages[0].template_path, "site/src/pages/home/template.html");
    let (dirs, tasks) = ProcessorHTMLPages::watcher_dirs_and_tasks(&meta(), &conf);
    assert_eq!(dirs, vec!["site/src/pages", "site/src/requires"]);
    assert_eq!(tasks, vec!["build:pages"]);
}

#[test]
fn pages_add_tasks_pairs_build_and_deploy_per_page() {
    let conf = ConfigModule {
        name: "pages".to_string(),
        processor: "htmlpages".to_string(),
        options: OptionsHTMLPages { prefix: "pages".to_string(), dest: "".to_string() },
        content: vec!["home".to_string(), "about".to_string()],
    };
    let plan = ProcessorHTMLPages::plan(&meta(), &conf);
    let mut g = TaskGraph::new();
    let (b, d) = ProcessorHTMLPages::add_tasks(&mut g, &plan);
    assert_eq!((b, d), (4, 5));
    let names: Vec<String> = (0..g.task_count()).map(|i| g.task(i).name.clone()).collect();
    assert_eq!(
        names,
        vec!["build:pages:home", "deploy:pages:home", "build:pages:about", "deploy:pages:about", "build:pages", "deploy:pages"]
    );
    assert!((0..g.task_count()).all(|i| !g.task(i).quiet));
    assert_eq!(g.dependencies(4), vec![2, 0]);
    assert_eq!(g.dependencies(5), vec![3, 1]);
}

#[test]
fn expansion_stops_at_the_first_unreadable_import() {
    let t = "a<!--@import x.html -->\nb<!--@import-js é.js -->\nc<!--@import y.html -->".to_string();
    let (parts, bad) = ProcessorHTMLPages::template_parts_until_unreadable(&"d".to_string(), &meta(), &t);
    assert_eq!(bad, Some(1));
    let texts: Vec<String> = parts.iter().map(text).collect();
    assert_eq!(texts, vec!["T:a", "I:d/x.html"]);
    let (parts, bad) = ProcessorHTMLPages::process_template_checked(&"d/template.html".to_string(), &meta(), &t).unwrap();
    assert_eq!(bad, Some(1));
    assert_eq!(parts.len(), 2);
    let ok = "a<!--@import x.html -->b".to_string();
    let (parts, bad) = ProcessorHTMLPages::template_parts_until_unreadable(&"d".to_string(), &meta(), &ok);
    assert!(bad.is_none());
    assert_eq!(parts.len(), 3);
    assert!(ProcessorHTMLPages::process_template_checked(&"/".to_string(), &meta(), &t).is_none());
}

#[test]
fn page_task_saves_the_pages_and_passes_the_vinyl_on() {
    let t = "<!--@import part.html -->\n<!--@output-end a.html -->\n<!--@output-end b.html -->".to_string();
    let parts = ProcessorHTMLPages::process_template(&"site/src/pages/home/template.html".to_string(), &meta(), &t);
    let contents = vec!["<!--@output-begin a.html -->\nA".to_string()];
    let v = Vinyl::new(vec![FileHandle::new("o".to_string(), "x".to_string(), b"1".to_vec())]);
    let o = ProcessorHTMLPages::page_task(
        &"site/src/pages/home/template.html".to_string(),
        &meta(),
        &parts,
        &contents,
        &"site/src/pages".to_string(),
        &"site/build".to_string(),
        v,
    )
    .unwrap();
    assert_eq!(o.vinyl.handles.len(), 1);
    assert_eq!(o.vinyl.handles[0].rel_path, "x");
    assert_eq!(o.writes.len(), 1);
    assert_eq!(o.writes[0].path, "site/build/home/a.html");
    assert_eq!(o.writes[0].data, b"\nA\n".to_vec());
    assert!(o.failure.is_none());
    assert!(ProcessorHTMLPages::page_task(
        &"elsewhere/template.html".to_string(),
        &meta(),
        &parts,
        &contents,
        &"site/src/pages".to_string(),
        &"site/build".to_string(),
        Vinyl::default(),
    )
    .is_none());
}
