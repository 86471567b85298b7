use aggregate::vinyl::{refers_to_files, FileHandle, Vinyl, VinylError};

fn fh(out: &str, rel: &str, data: &[u8]) -> FileHandle {
    FileHandle::new(out.to_string(), rel.to_string(), data.to_vec())
}

fn rels(v: &Vinyl) -> Vec<String> {
    v.handles.iter().map(|h| h.rel_path.clone()).collect()
}

#[test]
fn file_path_joins_out_and_rel() {
    assert_eq!(fh("build", "js/app.js", b"x").file_path(), "build/js/app.js");
    assert_eq!(fh("build/", "js/app.js", b"x").file_path(), "build/js/app.js");
}

#[test]
fn save_asks_for_a_write_of_nonempty_data() {
    let w = fh("out", "a.txt", b"abc").save().ok().unwrap();
    assert_eq!(w.path, "out/a.txt");
    assert_eq!(w.data, b"abc".to_vec());
}

#[test]
fn save_refuses_empty_data() {
    let e = fh("out", "a.txt", b"").save().err().unwrap();
    assert_eq!(e.msg, "Data corrupted/empty");
    assert_eq!(e.to_string(), "VinylError: Data corrupted/empty");
}

#[test]
fn concat_joins_bytes_in_order() {
    let v = Vinyl::new(vec![fh("o", "a", b"ab"), fh("o", "b", b"cd"), fh("o", "c", b"")]);
    let c = v.concat("out".to_string(), "all.js".to_string());
    assert_eq!(c.handles.len(), 1);
    assert_eq!(c.handles[0].data, b"abcd".to_vec());
    assert_eq!(c.handles[0].out_path, "out");
    assert_eq!(c.handles[0].rel_path, "all.js");
    assert!(c.revision_pairs.is_empty());
}

#[test]
fn concat_of_a_concat_keeps_the_bytes() {
    let v = Vinyl::new(vec![fh("o", "a", b"x"), fh("o", "b", b"y")]);
    let once = v.concat("o".to_string(), "one".to_string());
    let twice = once.concat("p".to_string(), "two".to_string());
    assert_eq!(twice.handles[0].data, b"xy".to_vec());
}

#[test]
fn flatten_keeps_order_of_files_and_renamings() {
    let mut a = Vinyl::new(vec![fh("o", "a", b"1")]);
    a.revision_pairs.push(("a".to_string(), "a2".to_string()));
    let b = Vinyl::new(vec![fh("o", "b", b"2"), fh("o", "c", b"3")]);
    let mut c = Vinyl::default();
    c.revision_pairs.push(("c".to_string(), "c2".to_string()));
    let f = Vinyl::flatten(vec![a, b, c]);
    assert_eq!(rels(&f), vec!["a", "b", "c"]);
    assert_eq!(f.revision_pairs, vec![("a".to_string(), "a2".to_string()), ("c".to_string(), "c2".to_string())]);
}

#[test]
fn flatten_of_nothing_is_empty() {
    let f = Vinyl::flatten(vec![]);
    assert!(f.handles.is_empty());
    assert!(f.revision_pairs.is_empty());
}

#[test]
fn flatten_is_associative() {
    let mk = |n: &str| Vinyl::new(vec![fh("o", n, n.as_bytes())]);
    let left = Vinyl::flatten(vec![Vinyl::flatten(vec![mk("a"), mk("b")]), mk("c")]);
    let right = Vinyl::flatten(vec![mk("a"), Vinyl::flatten(vec![mk("b"), mk("c")])]);
    assert_eq!(rels(&left), rels(&right));
}

#[test]
fn insert_appends() {
    let v = Vinyl::new(vec![fh("o", "a", b"1")]).insert(fh("o", "b", b"2"));
    assert_eq!(rels(&v), vec!["a", "b"]);
}

#[test]
fn revisions_rename_with_crc32() {
    // crc32("hello") = 0x3610a686
    let v = Vinyl::new(vec![fh("dist", "js/app.js", b"hello"), fh("dist", "style.min.css", b"")]);
    let r = v.revisions();
    assert_eq!(rels(&r), vec!["js/app-3610a686.js", "style.min-0.css"]);
    assert_eq!(r.handles[0].out_path, "dist");
    assert_eq!(r.handles[0].data, b"hello".to_vec());
    assert_eq!(
        r.revision_pairs,
        vec![
            ("js/app.js".to_string(), "js/app-3610a686.js".to_string()),
            ("style.min.css".to_string(), "style.min-0.css".to_string()),
        ]
    );
}

#[test]
fn revisions_accumulate() {
    let v = Vinyl::new(vec![fh("d", "a.js", b"hello")]).revisions().revisions();
    assert_eq!(v.revision_pairs.len(), 2);
    assert_eq!(v.revision_pairs[1].0, "a-3610a686.js");
    assert_eq!(v.revision_pairs[1].1, v.handles[0].rel_path);
}

#[test]
fn save_all_writes_every_file_with_data() {
    let v = Vinyl::new(vec![fh("o", "a", b"1"), fh("o", "b/c", b"2")]);
    let (writes, err) = v.save_all();
    assert!(err.is_none());
    let paths: Vec<String> = writes.iter().map(|w| w.path.clone()).collect();
    assert_eq!(paths, vec!["o/a", "o/b/c"]);
}

#[test]
fn save_all_stops_at_first_empty_file() {
    let v = Vinyl::new(vec![fh("o", "a", b"1"), fh("o", "b", b""), fh("o", "c", b"3")]);
    let (writes, err) = v.save_all();
    assert_eq!(writes.len(), 1);
    assert_eq!(writes[0].path, "o/a");
    let (path, e) = err.unwrap();
    assert_eq!(path, "o/b");
    assert_eq!(e.msg, "Data corrupted/empty");
}

#[test]
fn load_paths_cut_runs_of_equal_paths() {
    let files: Vec<String> = vec!["a", "a", "b", "a", "x/y", "x//y", "x/./y/"].into_iter().map(String::from).collect();
    let paths = Vinyl::load_paths(&"out".to_string(), &files);
    assert_eq!(paths, vec!["out/a", "out/b", "out/a", "out/x/y"]);
}

#[test]
fn load_builds_handles_from_contents() {
    let files: Vec<String> = vec!["a.js", "a.js", "b.js"].into_iter().map(String::from).collect();
    let v = Vinyl::load("src".to_string(), files, vec![b"A".to_vec(), b"B".to_vec()]);
    assert_eq!(rels(&v), vec!["a.js", "b.js"]);
    assert_eq!(v.handles[1].data, b"B".to_vec());
    assert_eq!(v.handles[0].out_path, "src");
}

#[test]
fn clone_is_equal() {
    let mut v = Vinyl::new(vec![fh("o", "a", b"1")]);
    v.revision_pairs.push(("p".to_string(), "q".to_string()));
    let c = v.clone();
    assert_eq!(rels(&c), rels(&v));
    assert_eq!(c.revision_pairs, v.revision_pairs);
    let e = VinylError { msg: "m".to_string() }.clone();
    assert_eq!(e.msg, "m");
}

#[test]
fn renamings_are_applied_in_order() {
    let mut v = Vinyl::default();
    v.revision_pairs.push(("app.js".to_string(), "app-1.js".to_string()));
    v.revision_pairs.push(("app-1.js".to_string(), "app-2.js".to_string()));
    let out = v.apply_renamings(&"<script src=\"app.js\"></script>".to_string());
    assert_eq!(out, "<script src=\"app-2.js\"></script>");
}

#[test]
fn only_html_js_css_refer_to_files() {
    assert!(refers_to_files("deploy/index.html"));
    assert!(refers_to_files("a/b.js"));
    assert!(refers_to_files("s.css"));
    assert!(!refers_to_files("img.png"));
    assert!(!refers_to_files("html"));
}

#[test]
fn flatten_of_one_is_that_vinyl() {
    let mut a = Vinyl::new(vec![fh("o", "a", b"1"), fh("o", "b", b"2")]);
    a.revision_pairs.push(("a".to_string(), "b".to_string()));
    let f = Vinyl::flatten(vec![a.clone()]);
    assert_eq!(rels(&f), rels(&a));
    assert_eq!(f.revision_pairs, a.revision_pairs);
}

#[test]
fn load_checked_needs_one_content_per_path() {
    let files: Vec<String> = vec!["a.js", "a.js", "b.js"].into_iter().map(String::from).collect();
    let v = Vinyl::load_checked("src".to_string(), files.clone(), vec![b"A".to_vec(), b"B".to_vec()]).unwrap();
    assert_eq!(rels(&v), vec!["a.js", "b.js"]);
    assert_eq!(v.handles[0].data, b"A".to_vec());
    assert!(Vinyl::load_checked("src".to_string(), files.clone(), vec![b"A".to_vec()]).is_none());
    assert!(Vinyl::load_checked("src".to_string(), files, vec![b"A".to_vec(), b"B".to_vec(), b"C".to_vec()]).is_none());
}

#[test]
fn revision_names_carry_the_crc32_check_value() {
    let v = Vinyl::new(vec![fh("o", "x/check.txt", b"123456789")]).revisions();
    assert_eq!(v.handles[0].rel_path, "x/check-cbf43926.txt");
}
