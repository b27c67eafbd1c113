use sporec_typeck::hole::{json_escape, EdgeKind, HoleDependencyGraph};

#[test]
fn empty_graph() {
    let g = HoleDependencyGraph::new();
    assert!(g.is_empty());
    assert_eq!(g.len(), 0);
    assert_eq!(g.roots(), Vec::<String>::new());
    assert_eq!(g.topological_order(), Vec::<String>::new());
    assert!(g.clusters().is_empty());
}

#[test]
fn single_hole_is_root() {
    let mut g = HoleDependencyGraph::new();
    g.add_hole("?impl".into());
    assert_eq!(g.len(), 1);
    assert!(!g.is_empty());
    assert_eq!(g.roots(), vec!["?impl"]);
    assert_eq!(g.topological_order(), vec!["?impl"]);
    assert_eq!(g.clusters(), vec![vec!["?impl".to_string()]]);
}

#[test]
fn dependency_ordering() {
    let mut g = HoleDependencyGraph::new();
    g.add_dependency("?b".into(), "?a".into());
    assert_eq!(g.roots(), vec!["?a"]);
    let order = g.topological_order();
    let a_pos = order.iter().position(|x| x == "?a").unwrap();
    let b_pos = order.iter().position(|x| x == "?b").unwrap();
    assert!(a_pos < b_pos);
}

#[test]
fn dependency_queries() {
    let mut g = HoleDependencyGraph::new();
    g.add_dependency("?b".into(), "?a".into());
    g.add_dependency("?c".into(), "?a".into());
    assert_eq!(g.dependencies_of("?b"), vec!["?a"]);
    assert_eq!(g.dependencies_of("?a"), Vec::<String>::new());
    assert_eq!(g.dependents_of("?a"), vec!["?b", "?c"]);
    assert_eq!(g.dependents_of("?b"), Vec::<String>::new());
}

#[test]
fn independent_clusters() {
    let mut g = HoleDependencyGraph::new();
    g.add_dependency("?b".into(), "?a".into());
    g.add_hole("?c".into());
    let clusters = g.clusters();
    assert_eq!(clusters.len(), 2);
    assert!(clusters[0].contains(&"?a".to_string()));
    assert!(clusters[0].contains(&"?b".to_string()));
    assert_eq!(clusters[1], vec!["?c".to_string()]);
}

#[test]
fn chain_dependency_order() {
    let mut g = HoleDependencyGraph::new();
    g.add_dependency("?c".into(), "?b".into());
    g.add_dependency("?b".into(), "?a".into());
    assert_eq!(g.roots(), vec!["?a"]);
    let order = g.topological_order();
    assert_eq!(order, vec!["?a", "?b", "?c"]);
    assert_eq!(g.clusters().len(), 1);
}

#[test]
fn cycle_handling() {
    let mut g = HoleDependencyGraph::new();
    g.add_dependency("?a".into(), "?b".into());
    g.add_dependency("?b".into(), "?a".into());
    let order = g.topological_order();
    assert_eq!(order.len(), 2);
    assert!(order.contains(&"?a".to_string()));
    assert!(order.contains(&"?b".to_string()));
}

#[test]
fn diamond_dependency() {
    let mut g = HoleDependencyGraph::new();
    g.add_dependency("?b".into(), "?a".into());
    g.add_dependency("?c".into(), "?a".into());
    g.add_dependency("?d".into(), "?b".into());
    g.add_dependency("?d".into(), "?c".into());
    assert_eq!(g.roots(), vec!["?a"]);
    let order = g.topological_order();
    let a_pos = order.iter().position(|x| x == "?a").unwrap();
    let b_pos = order.iter().position(|x| x == "?b").unwrap();
    let c_pos = order.iter().position(|x| x == "?c").unwrap();
    let d_pos = order.iter().position(|x| x == "?d").unwrap();
    assert!(a_pos < b_pos);
    assert!(a_pos < c_pos);
    assert!(b_pos < d_pos);
    assert!(c_pos < d_pos);
}

#[test]
fn diamond_order_is_breadth_first() {
    let mut g = HoleDependencyGraph::new();
    g.add_dependency("?d".into(), "?b".into());
    g.add_dependency("?d".into(), "?c".into());
    g.add_dependency("?b".into(), "?a".into());
    g.add_dependency("?c".into(), "?a".into());
    assert_eq!(g.topological_order(), vec!["?a", "?b", "?c", "?d"]);
}

#[test]
fn fill_order_follows_the_queue_not_the_names() {
    let mut g = HoleDependencyGraph::new();
    g.add_dependency("?c".into(), "?b".into());
    g.add_dependency("?b".into(), "?a".into());
    g.add_dependency("?d".into(), "?a".into());
    g.add_hole("?e".into());
    // roots first (?a, ?e); filling ?a readies ?b and ?d; filling ?b readies ?c.
    assert_eq!(g.topological_order(), vec!["?a", "?e", "?b", "?d", "?c"]);
}

#[test]
fn cycle_detection() {
    let mut g = HoleDependencyGraph::new();
    g.add_dependency("?b".into(), "?a".into());
    assert!(!g.has_cycle());
    g.add_dependency("?a".into(), "?b".into());
    assert!(g.has_cycle());
    // a hole waiting on the cycle is stuck too; an independent one is not
    g.add_dependency("?c".into(), "?b".into());
    g.add_hole("?z".into());
    assert_eq!(g.layered_topological_order(), Err(vec!["?a".to_string(), "?b".to_string(), "?c".to_string()]));
    assert_eq!(g.topological_order(), vec!["?z", "?a", "?b", "?c"]);
}

#[test]
fn self_dependency_is_a_cycle() {
    let mut g = HoleDependencyGraph::new();
    g.add_dependency("?a".into(), "?a".into());
    assert!(g.has_cycle());
    assert_eq!(g.roots(), Vec::<String>::new());
}

#[test]
fn layered_order_groups_parallel_holes() {
    let mut g = HoleDependencyGraph::new();
    g.add_dependency("?b".into(), "?a".into());
    g.add_dependency("?c".into(), "?a".into());
    g.add_dependency("?d".into(), "?b".into());
    g.add_dependency("?d".into(), "?c".into());
    g.add_hole("?e".into());
    let layers = g.layered_topological_order().unwrap();
    assert_eq!(
        layers,
        vec![
            vec!["?a".to_string(), "?e".to_string()],
            vec!["?b".to_string(), "?c".to_string()],
            vec!["?d".to_string()],
        ]
    );
}

#[test]
fn layered_order_of_empty_graph() {
    let g = HoleDependencyGraph::default();
    assert_eq!(g.layered_topological_order(), Ok(Vec::<Vec<String>>::new()));
}

#[test]
fn clusters_follow_dependents_and_dependencies() {
    let mut g = HoleDependencyGraph::new();
    g.add_dependency("?x".into(), "?m".into());
    g.add_dependency("?a".into(), "?m".into());
    g.add_hole("?b".into());
    g.add_dependency_typed("?q".into(), "?b".into(), EdgeKind::Cost);
    assert_eq!(
        g.clusters(),
        vec![
            vec!["?a".to_string(), "?m".to_string(), "?x".to_string()],
            vec!["?b".to_string(), "?q".to_string()],
        ]
    );
}

#[test]
fn adding_a_hole_twice_keeps_its_dependencies() {
    let mut g = HoleDependencyGraph::new();
    g.add_dependency("?b".into(), "?a".into());
    g.add_hole("?b".into());
    assert_eq!(g.len(), 2);
    assert_eq!(g.dependencies_of("?b"), vec!["?a"]);
    assert_eq!(g.dependencies_of("?missing"), Vec::<String>::new());
}

#[test]
fn json_serialization() {
    let mut g = HoleDependencyGraph::new();
    g.add_dependency("?b".into(), "?a".into());
    let json = g.to_json_string();
    assert!(json.contains("\"dependencies\""));
    assert!(json.contains("\"roots\""));
    assert!(json.contains("\"suggested_order\""));
    assert!(json.contains("\"?a\""));
    assert!(json.contains("\"?b\""));
}

#[test]
fn json_text_is_exact() {
    let mut g = HoleDependencyGraph::new();
    g.add_dependency_typed("?b".into(), "?a".into(), EdgeKind::Value);
    g.add_dependency("?c".into(), "?a".into());
    g.add_dependency_typed("?b".into(), "?a".into(), EdgeKind::Cost);
    let json = g.to_json_string();
    let expected = "{\n    \"dependencies\": {\"?a\": [], \"?b\": [\"?a\"], \"?c\": [\"?a\"]},\n    \"edges\": [{\"from\": \"?a\", \"to\": \"?b\", \"kind\": \"value\"}, {\"from\": \"?a\", \"to\": \"?b\", \"kind\": \"cost\"}, {\"from\": \"?a\", \"to\": \"?c\", \"kind\": \"type\"}],\n    \"roots\": [\"?a\"],\n    \"suggested_order\": [\"?a\", \"?b\", \"?c\"]\n  }";
    assert_eq!(json, expected);
}

#[test]
fn json_escapes_special_characters() {
    assert_eq!(json_escape("plain"), "\"plain\"");
    assert_eq!(json_escape("a\"b\\c"), "\"a\\\"b\\\\c\"");
    assert_eq!(json_escape("x\ny\tz\r"), "\"x\\ny\\tz\\r\"");
    assert_eq!(json_escape("\u{1}\u{1f}"), "\"\\u0001\\u001f\"");
    assert_eq!(json_escape("héllo"), "\"héllo\"");
}
