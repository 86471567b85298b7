use aggregate::task::{FileHandle, ProcessTask, Vinyl};
use petgraph::Graph;

fn walk(g: &Graph<ProcessTask<fn()>, ()>, start: petgraph::graph::NodeIndex) -> Vec<String> {
    let mut seen = Vec::new();
    let mut optional = Some(start);
    while let Some(node) = optional {
        let process = g.node_weight(node.clone()).unwrap();
        (process.fnc)();
        seen.push(process.name.clone());
        optional = g.neighbors(node).collect::<Vec<_>>().first().map(|n| n.clone())
    }
    seen
}

fn line_graph() -> (Graph<ProcessTask<fn()>, ()>, petgraph::graph::NodeIndex) {
    let mut g = Graph::<ProcessTask<fn()>, ()>::new();
    let start = g.add_node(ProcessTask { name: String::from("start"), fnc: || { println!("start"); } });
    let t1 = g.add_node(ProcessTask { name: String::from("t1"), fnc: || { println!("t1"); } });
    g.add_edge(start.clone(), t1.clone(), ());
    let t2 = g.add_node(ProcessTask { name: String::from("t2"), fnc: || { println!("t2"); } });
    g.add_edge(t1.clone(), t2.clone(), ());
    let end = g.add_node(ProcessTask { name: String::from("end"), fnc: || { println!("end"); } });
    g.add_edge(t2.clone(), end.clone(), ());
    (g, start)
}

#[test]
fn process_print_parallel() {
    let (g, start) = line_graph();
    assert_eq!(walk(&g, start), vec!["start", "t1", "t2", "end"]);
}

#[test]
fn process_print_series() {
    let (g, start) = line_graph();
    assert_eq!(walk(&g, start), vec!["start", "t1", "t2", "end"]);
}

#[test]
fn chain() {
    let mut g = Graph::<i64, ()>::new();
    let start = g.add_node(64);
    let t1 = g.add_node(63);
    g.add_edge(start.clone(), t1.clone(), ());
    let t2 = g.add_node(62);
    g.add_edge(t1.clone(), t2.clone(), ());
    let end = g.add_node(61);
    g.add_edge(t2.clone(), end.clone(), ());
    let mut seen = Vec::new();
    let mut optional = Some(start);
    while let Some(node) = optional {
        println!("{}", g.node_weight(node.clone()).unwrap());
        seen.push(*g.node_weight(node.clone()).unwrap());
        optional = g.neighbors(node).collect::<Vec<_>>().first().map(|n| n.clone())
    }
    assert_eq!(seen, vec![64, 63, 62, 61]);
}

#[test]
fn text_vinyl_load_keeps_readable_files() {
    let v = Vinyl::load(
        vec!["a".to_string(), "b".to_string(), "c".to_string()],
        vec![Some("A".to_string()), None, Some("C".to_string())],
    );
    let names: Vec<String> = v.handles().iter().map(|h| h.file_path.clone()).collect();
    assert_eq!(names, vec!["a", "c"]);
}

#[test]
fn text_vinyl_concat_and_save_all() {
    let v = Vinyl::load(vec!["a".to_string(), "b".to_string()], vec![Some("x".to_string()), Some("y".to_string())]);
    let c = v.concat("out.js".to_string());
    assert_eq!(c.handles().len(), 1);
    assert_eq!(c.handles()[0].file_path, "out.js");
    assert_eq!(c.handles()[0].data, "xy");
    let s = c.save_all();
    assert_eq!(s.handles()[0].data, "xy");
    let f = FileHandle::new("p".to_string(), "d".to_string()).clone();
    assert_eq!(f.file_path, "p");
}
