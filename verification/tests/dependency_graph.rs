use draox_plugins::dependency_graph::{DependencyError, DependencyGraph, PluginId};

fn pid(s: &str) -> PluginId {
    s.to_string()
}

#[test]
fn test_add_plugin() {
    let mut graph = DependencyGraph::new();
    graph.add_plugin(pid("A"));
    graph.add_plugin(pid("B"));

    assert!(graph.dependencies_of(&pid("A")).is_empty());
    assert!(graph.dependencies_of(&pid("B")).is_empty());
    assert!(graph.dependents_of(&pid("A")).is_empty());
    assert!(graph.dependents_of(&pid("B")).is_empty());
}

#[test]
fn test_add_dependency() {
    let mut graph = DependencyGraph::new();
    graph.add_plugin(pid("A"));
    graph.add_plugin(pid("B"));

    graph.add_dependency(&pid("A"), &pid("B")).unwrap();

    assert!(graph.dependencies_of(&pid("A")).contains(&pid("B")));
    assert!(graph.dependents_of(&pid("B")).contains(&pid("A")));
}

#[test]
fn test_cycle_detection() {
    let mut graph = DependencyGraph::new();
    graph.add_plugin(pid("A"));
    graph.add_plugin(pid("B"));
    graph.add_plugin(pid("C"));

    graph.add_dependency(&pid("A"), &pid("B")).unwrap();
    graph.add_dependency(&pid("B"), &pid("C")).unwrap();

    let result = graph.add_dependency(&pid("C"), &pid("A"));
    assert!(result.is_err());
    match result.unwrap_err() {
        DependencyError::CycleDetected { path } => {
            assert!(!path.is_empty());
        }
        other => panic!("expected CycleDetected, got: {:?}", other),
    }
}

#[test]
fn test_topological_sort() {
    let mut graph = DependencyGraph::new();
    graph.add_plugin(pid("A"));
    graph.add_plugin(pid("B"));
    graph.add_plugin(pid("C"));

    graph.add_dependency(&pid("A"), &pid("B")).unwrap();
    graph.add_dependency(&pid("B"), &pid("C")).unwrap();

    let order = graph.activation_order().unwrap();
    assert_eq!(order.len(), 3);

    let pos_a = order.iter().position(|x| x == &pid("A")).unwrap();
    let pos_b = order.iter().position(|x| x == &pid("B")).unwrap();
    let pos_c = order.iter().position(|x| x == &pid("C")).unwrap();

    assert!(pos_c < pos_b);
    assert!(pos_b < pos_a);
}

#[test]
fn test_can_deactivate() {
    let mut graph = DependencyGraph::new();
    graph.add_plugin(pid("A"));
    graph.add_plugin(pid("B"));

    graph.add_dependency(&pid("A"), &pid("B")).unwrap();

    let active: Vec<PluginId> = vec![pid("A"), pid("B")];
    assert!(!graph.can_deactivate(&pid("B"), &active));

    assert!(graph.can_deactivate(&pid("A"), &active));

    let only_b: Vec<PluginId> = vec![pid("B")];
    assert!(graph.can_deactivate(&pid("B"), &only_b));
}

#[test]
fn dependency_graph_test_remove_plugin() {
    let mut graph = DependencyGraph::new();
    graph.add_plugin(pid("A"));
    graph.add_plugin(pid("B"));
    graph.add_plugin(pid("C"));

    graph.add_dependency(&pid("A"), &pid("B")).unwrap();
    graph.add_dependency(&pid("B"), &pid("C")).unwrap();

    graph.remove_plugin(&pid("B"));

    assert!(!graph.dependencies_of(&pid("A")).contains(&pid("B")));
    assert!(!graph.dependents_of(&pid("C")).contains(&pid("B")));
    assert!(graph.dependencies_of(&pid("B")).is_empty());
    assert!(graph.dependents_of(&pid("B")).is_empty());
}

#[test]
fn test_self_loop_detection() {
    let mut graph = DependencyGraph::new();
    graph.add_plugin(pid("A"));

    let result = graph.add_dependency(&pid("A"), &pid("A"));
    assert!(result.is_err());
}

#[test]
fn test_plugin_not_found() {
    let mut graph = DependencyGraph::new();
    graph.add_plugin(pid("A"));

    let result = graph.add_dependency(&pid("A"), &pid("B"));
    assert!(result.is_err());
    match result.unwrap_err() {
        DependencyError::PluginNotFound(id) => {
            assert_eq!(id, pid("B"));
        }
        other => panic!("expected PluginNotFound, got: {:?}", other),
    }
}

#[test]
fn test_default_trait() {
    let graph = DependencyGraph::default();
    assert!(graph.activation_order().unwrap().is_empty());
}

#[test]
fn test_dependency_error_display() {
    let err = DependencyError::PluginNotFound(pid("com.example.plugin"));
    assert!(err.message().contains("com.example.plugin"));

    let err = DependencyError::CycleDetected {
        path: vec![pid("A"), pid("B"), pid("A")],
    };
    assert!(err.message().contains("cycle detected"));
}

#[test]
fn error_messages_are_exact() {
    let err = DependencyError::PluginNotFound(pid("x.y"));
    assert_eq!(err.message(), "plugin not found: x.y");
    let err = DependencyError::CycleDetected { path: vec![pid("A"), pid("B"), pid("A")] };
    assert_eq!(err.message(), "cycle detected: A -> B -> A");
}

#[test]
fn cycle_path_walks_the_cycle() {
    let mut graph = DependencyGraph::new();
    graph.add_plugin(pid("A"));
    graph.add_plugin(pid("B"));
    graph.add_plugin(pid("C"));
    graph.add_dependency(&pid("A"), &pid("B")).unwrap();
    graph.add_dependency(&pid("B"), &pid("C")).unwrap();
    match graph.add_dependency(&pid("C"), &pid("A")) {
        Err(DependencyError::CycleDetected { path }) => {
            assert_eq!(path.first(), Some(&pid("C")));
            assert_eq!(path.last(), Some(&pid("C")));
            assert!(path.contains(&pid("A")));
        }
        other => panic!("expected a cycle, got {:?}", other),
    }
    // The refused edge left the graph unchanged.
    assert!(graph.dependencies_of(&pid("C")).is_empty());
}

#[test]
fn activation_order_lists_every_plugin_once() {
    let mut graph = DependencyGraph::new();
    for id in ["D", "A", "C", "B"] {
        graph.add_plugin(pid(id));
    }
    graph.add_dependency(&pid("A"), &pid("D")).unwrap();
    graph.add_dependency(&pid("C"), &pid("D")).unwrap();
    let order = graph.activation_order().unwrap();
    assert_eq!(order.len(), 4);
    let pos = |x: &str| order.iter().position(|y| y == x).unwrap();
    assert!(pos("D") < pos("A"));
    assert!(pos("D") < pos("C"));
    // Ready plugins are taken in id order.
    assert_eq!(order, vec![pid("B"), pid("D"), pid("A"), pid("C")]);
}

#[test]
fn readding_a_removed_plugin_starts_without_edges() {
    let mut graph = DependencyGraph::new();
    graph.add_plugin(pid("A"));
    graph.add_plugin(pid("B"));
    graph.add_dependency(&pid("A"), &pid("B")).unwrap();
    graph.remove_plugin(&pid("A"));
    graph.add_plugin(pid("A"));
    assert!(graph.dependencies_of(&pid("A")).is_empty());
    assert!(graph.dependents_of(&pid("B")).is_empty());
    assert_eq!(graph.activation_order().unwrap().len(), 2);
}

#[test]
fn independent_plugins_activate_in_id_order() {
    let mut g = DependencyGraph::new();
    g.add_plugin(pid("C"));
    g.add_plugin(pid("A"));
    g.add_plugin(pid("B"));
    assert_eq!(g.activation_order().unwrap(), vec![pid("A"), pid("B"), pid("C")]);
}

#[test]
fn refused_cycle_leaves_graph_unchanged() {
    let mut g = DependencyGraph::new();
    g.add_plugin(pid("A"));
    g.add_plugin(pid("B"));
    g.add_plugin(pid("C"));
    g.add_dependency(&pid("A"), &pid("B")).unwrap();
    g.add_dependency(&pid("B"), &pid("C")).unwrap();
    let before: Vec<_> = ["A", "B", "C"].iter().map(|x| (g.dependencies_of(&pid(x)), g.dependents_of(&pid(x)))).collect();
    assert!(matches!(g.add_dependency(&pid("C"), &pid("A")), Err(DependencyError::CycleDetected { .. })));
    let after: Vec<_> = ["A", "B", "C"].iter().map(|x| (g.dependencies_of(&pid(x)), g.dependents_of(&pid(x)))).collect();
    assert_eq!(before, after);
}

#[test]
fn plugins_follow_their_latest_dependency_then_id() {
    let mut graph = DependencyGraph::new();
    for id in ["f", "e", "d", "c", "b", "a"] {
        graph.add_plugin(pid(id));
    }
    graph.add_dependency(&pid("c"), &pid("b")).unwrap();
    graph.add_dependency(&pid("e"), &pid("a")).unwrap();
    graph.add_dependency(&pid("d"), &pid("a")).unwrap();
    graph.add_dependency(&pid("f"), &pid("d")).unwrap();
    graph.add_dependency(&pid("f"), &pid("c")).unwrap();
    let order = graph.activation_order().unwrap();
    assert_eq!(order, vec![pid("a"), pid("b"), pid("d"), pid("e"), pid("c"), pid("f")]);
}
