use aggregate::paths::{extension, file_name, file_stem, join};
use aggregate::text::{lower_hex, replace_all};
use std::path::Path;

#[test]
fn join_puts_one_separator_between() {
    assert_eq!(join("a", "b"), "a/b");
    assert_eq!(join("a/", "b"), "a/b");
    assert_eq!(join("", "b"), "b");
    assert_eq!(join("a", ""), "a/");
}

#[test]
fn join_absolute_replaces() {
    assert_eq!(join("a/b", "/c"), "/c");
}

#[test]
fn join_agrees_with_std() {
    let cases = [("base", "src"), ("base/", "src"), ("", "x"), ("a", "/abs"), ("./a", "b/c"), ("a", "")];
    for (a, b) in cases.iter() {
        let expected = Path::new(a).join(b).to_str().unwrap().to_string();
        assert_eq!(join(a, b), expected, "join({:?}, {:?})", a, b);
    }
}

#[test]
fn file_name_cases() {
    assert_eq!(file_name("a/b.js"), Some("b.js".to_string()));
    assert_eq!(file_name("a/b/"), Some("b".to_string()));
    assert_eq!(file_name("a/."), Some("a".to_string()));
    assert_eq!(file_name("a/.."), None);
    assert_eq!(file_name("/"), None);
    assert_eq!(file_name("."), None);
    assert_eq!(file_name(""), None);
}

#[test]
fn stem_and_extension_cases() {
    assert_eq!(file_stem("x.tar.gz"), Some("x.tar".to_string()));
    assert_eq!(extension("x.tar.gz"), Some("gz".to_string()));
    assert_eq!(file_stem(".bashrc"), Some(".bashrc".to_string()));
    assert_eq!(extension(".bashrc"), None);
    assert_eq!(file_stem("a."), Some("a".to_string()));
    assert_eq!(extension("a."), Some("".to_string()));
    assert_eq!(file_stem("dir/plain"), Some("plain".to_string()));
    assert_eq!(extension("dir/plain"), None);
}

#[test]
fn path_parts_agree_with_std() {
    let cases = [
        "a/b.js", "a/b/", "a/.", "a/..", "/", ".", "", "./x.css", "x.tar.gz", ".bashrc", "a.", "..",
        "a//b.c", "/abs/dir/file.html", "a/./b.d/", "é/ü.ö",
    ];
    for p in cases.iter() {
        let path = Path::new(p);
        let name = path.file_name().map(|s| s.to_str().unwrap().to_string());
        let stem = path.file_stem().map(|s| s.to_str().unwrap().to_string());
        let ext = path.extension().map(|s| s.to_str().unwrap().to_string());
        assert_eq!(file_name(p), name, "file_name({:?})", p);
        assert_eq!(file_stem(p), stem, "file_stem({:?})", p);
        assert_eq!(extension(p), ext, "extension({:?})", p);
    }
}

#[test]
fn stem_dot_extension_is_the_name() {
    let p = "js/app.min.js";
    let rebuilt = format!("{}.{}", file_stem(p).unwrap(), extension(p).unwrap());
    assert_eq!(Some(rebuilt), file_name(p));
}

#[test]
fn replace_all_agrees_with_std() {
    let cases = [
        ("a.js b.js", "a.js", "a-1.js"),
        ("aaa", "aa", "b"),
        ("abc", "", "-"),
        ("", "", "x"),
        ("", "a", "x"),
        ("xyz", "q", "r"),
        ("ééé", "é", "e"),
        ("src=\"js/app.js\"", "js/app.js", "js/app-3610a686.js"),
    ];
    for (s, p, r) in cases.iter() {
        assert_eq!(replace_all(s, p, r), s.replace(p, r), "replace({:?}, {:?}, {:?})", s, p, r);
    }
}

#[test]
fn lower_hex_formats_like_std() {
    for n in [0u32, 9, 10, 15, 16, 255, 0x3610a686, u32::MAX].iter() {
        assert_eq!(lower_hex(*n), format!("{:x}", n));
    }
}
