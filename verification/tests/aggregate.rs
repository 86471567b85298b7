use aggregate::aggregate::{AggError, Aggregate, TaskGraph};
use aggregate::vinyl::{FileHandle, Vinyl, VinylError};

fn one(rel: &str) -> Vinyl {
    Vinyl::new(vec![FileHandle::new("o".to_string(), rel.to_string(), b"x".to_vec())])
}

#[test]
fn chain_adds_a_task_with_its_dependencies() {
    let mut g = TaskGraph::new();
    let a = Aggregate::chain(&mut g, "a".to_string(), vec![], false);
    let b = Aggregate::chain(&mut g, "b".to_string(), vec![], true);
    let c = Aggregate::chain(&mut g, "c".to_string(), vec![a, b], false);
    assert_eq!((a, b, c), (0, 1, 2));
    assert_eq!(g.task_count(), 3);
    assert_eq!(g.task(1).name, "b");
    assert!(g.task(1).quiet);
    // most recently added dependency first
    assert_eq!(g.dependencies(c), vec![b, a]);
    assert!(g.dependencies(a).is_empty());
    let d = Aggregate::chain(&mut g, "d".to_string(), vec![c], false);
    assert_eq!(g.dependencies(d), vec![c]);
    assert_eq!(g.dependencies(c), vec![b, a]);
}

#[test]
fn a_task_may_depend_on_itself() {
    let mut g = TaskGraph::new();
    let a = Aggregate::chain(&mut g, "a".to_string(), vec![0], false);
    assert_eq!(g.dependencies(a), vec![a]);
}

#[test]
fn task_by_name_finds_the_first() {
    let mut g = TaskGraph::new();
    Aggregate::chain(&mut g, "build".to_string(), vec![], false);
    Aggregate::chain(&mut g, "deploy".to_string(), vec![], false);
    Aggregate::chain(&mut g, "build".to_string(), vec![], false);
    assert_eq!(Aggregate::task_by_name(&g, "build"), Some(0));
    assert_eq!(Aggregate::task_by_name(&g, "deploy"), Some(1));
    assert_eq!(Aggregate::task_by_name(&g, "watch"), None);
}

#[test]
fn gather_without_dependencies_is_empty() {
    let v = Aggregate::gather(vec![]).ok().unwrap();
    assert!(v.handles.is_empty());
    assert!(v.revision_pairs.is_empty());
}

#[test]
fn gather_flattens_successes_in_order() {
    let v = Aggregate::gather(vec![Ok(one("a")), Ok(one("b"))]).ok().unwrap();
    let rels: Vec<String> = v.handles.iter().map(|h| h.rel_path.clone()).collect();
    assert_eq!(rels, vec!["a", "b"]);
}

#[test]
fn gather_reports_the_first_failure() {
    let e1 = AggError { name: "t1".to_string(), msg: "m1".to_string() };
    let e2 = AggError { name: "t2".to_string(), msg: "m2".to_string() };
    let r = Aggregate::gather(vec![Ok(one("a")), Err(e1), Err(e2)]);
    let e = r.err().unwrap();
    assert_eq!(e.name, "t1");
    assert_eq!(e.to_string(), "AggError: t1 m1");
}

#[test]
fn failures_carry_the_task_name() {
    let e = Aggregate::task_failure(&"build:js".to_string(), &VinylError { msg: "gone".to_string() });
    assert_eq!(e.name, "build:js");
    assert_eq!(e.msg, "VinylError: gone");
    let v = AggError::from(VinylError { msg: "bad".to_string() });
    assert_eq!(v.name, "vinyl");
    assert_eq!(v.msg, "VinylError: bad");
}

#[test]
fn a_copied_graph_has_the_same_tasks_and_dependencies() {
    let mut g = TaskGraph::new();
    let a = Aggregate::chain(&mut g, "a".to_string(), vec![], false);
    let b = Aggregate::chain(&mut g, "b".to_string(), vec![a], true);
    let c = g.clone();
    assert_eq!(c.task_count(), 2);
    assert_eq!(c.edge_count(), 1);
    assert_eq!(c.task(b).name, "b");
    assert_eq!(c.dependencies(b), vec![a]);
}

#[test]
fn lookup_of_a_missing_task_answers_question_marks() {
    let mut g = TaskGraph::new();
    Aggregate::chain(&mut g, "a".to_string(), vec![], false);
    Aggregate::chain(&mut g, "b".to_string(), vec![], false);
    Aggregate::chain(&mut g, "b".to_string(), vec![], false);
    assert_eq!(Aggregate::lookup(&g, "b").ok(), Some(1));
    let e = Aggregate::lookup(&g, "c").err().unwrap();
    assert_eq!(e.name, "???");
    assert_eq!(e.msg, "???");
}
