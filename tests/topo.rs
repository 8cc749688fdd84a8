use devpp::topo::stable_topo_sort;
use devpp::topo::TopoError;

fn s(v: &[&str]) -> Vec<String> {
    v.iter().map(|x| x.to_string()).collect()
}

fn e(v: &[(&str, &str)]) -> Vec<(String, String)> {
    v.iter().map(|(a, b)| (a.to_string(), b.to_string())).collect()
}

fn position(r: &[String], x: &str) -> usize {
    r.iter().position(|y| y == x).unwrap()
}

#[test]
fn topo_no_edges_keeps_input_order() {
    assert_eq!(stable_topo_sort(&s(&["B", "A"]), &[]).unwrap(), s(&["B", "A"]));
    assert_eq!(stable_topo_sort(&s(&["c", "a", "b"]), &[]).unwrap(), s(&["c", "a", "b"]));
}

#[test]
fn topo_empty_input() {
    assert_eq!(stable_topo_sort(&[], &[]).unwrap(), Vec::<String>::new());
}

#[test]
fn topo_cycle_detected() {
    let r = stable_topo_sort(&s(&["A", "B"]), &e(&[("A", "B"), ("B", "A")]));
    assert_eq!(r, Err(TopoError::CycleDetected));
}

#[test]
fn topo_self_loop_is_a_cycle() {
    let r = stable_topo_sort(&s(&["A"]), &e(&[("A", "A")]));
    assert_eq!(r, Err(TopoError::CycleDetected));
}

#[test]
fn topo_edges_respected() {
    let nodes = s(&["d", "c", "b", "a"]);
    let edges = e(&[("a", "b"), ("b", "c"), ("a", "d")]);
    let r = stable_topo_sort(&nodes, &edges).unwrap();
    assert_eq!(r.len(), 4);
    for (a, b) in &edges {
        assert!(position(&r, a) < position(&r, b));
    }
    assert_eq!(r, s(&["a", "d", "b", "c"]));
}

#[test]
fn topo_dependencies_in_edge_order() {
    let nodes = s(&["x", "p", "q"]);
    let edges = e(&[("q", "x"), ("p", "x")]);
    assert_eq!(stable_topo_sort(&nodes, &edges).unwrap(), s(&["q", "p", "x"]));
}

#[test]
fn topo_is_deterministic() {
    let nodes = s(&["m", "k", "z", "a"]);
    let edges = e(&[("z", "m"), ("a", "k")]);
    let r1 = stable_topo_sort(&nodes, &edges).unwrap();
    let r2 = stable_topo_sort(&nodes, &edges).unwrap();
    assert_eq!(r1, r2);
    assert_eq!(r1, s(&["z", "m", "a", "k"]));
}

#[test]
fn topo_absent_dependency_is_kept() {
    let r = stable_topo_sort(&s(&["a"]), &e(&[("ghost", "a")])).unwrap();
    assert_eq!(r, s(&["ghost", "a"]));
}

#[test]
fn topo_repeated_nodes_once() {
    let r = stable_topo_sort(&s(&["a", "b", "a"]), &[]).unwrap();
    assert_eq!(r, s(&["a", "b"]));
}

#[test]
fn topo_absent_edge_target_is_kept() {
    let r = stable_topo_sort(&s(&["a"]), &e(&[("a", "b")])).unwrap();
    assert_eq!(r, s(&["a", "b"]));
}
