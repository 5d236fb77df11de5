use vigil::config::{DependencyConfig, DependencyType};
use vigil::dep::DepGraph;

fn dep_after(service: &str) -> DependencyConfig {
    DependencyConfig {
        service: service.to_string(),
        kind: DependencyType::After,
        required: true,
    }
}

fn dep_before(service: &str) -> DependencyConfig {
    DependencyConfig {
        service: service.to_string(),
        kind: DependencyType::Before,
        required: true,
    }
}

fn dep_wants(service: &str) -> DependencyConfig {
    DependencyConfig {
        service: service.to_string(),
        kind: DependencyType::Wants,
        required: false,
    }
}

#[test]
fn test_simple_order() {
    let mut graph = DepGraph::new();
    graph.add_service("a".into());
    graph.add_service("b".into());
    graph.add_dependency("b", &dep_after("a"));

    let order = graph.resolve_order(&["a".into(), "b".into()]).unwrap();
    assert_eq!(order, vec!["a", "b"]);
}

#[test]
fn test_cycle_detection() {
    let mut graph = DepGraph::new();
    graph.add_service("a".into());
    graph.add_service("b".into());
    graph.add_dependency("a", &dep_after("b"));
    graph.add_dependency("b", &dep_after("a"));

    assert!(graph.resolve_order(&["a".into(), "b".into()]).is_err());
}

#[test]
fn test_before_dependency() {
    let mut graph = DepGraph::new();
    graph.add_service("a".into());
    graph.add_service("b".into());
    graph.add_dependency("a", &dep_before("b"));

    let order = graph.resolve_order(&["a".into(), "b".into()]).unwrap();
    assert_eq!(order, vec!["a", "b"]);
}

#[test]
fn test_chain_propagates_to_leaf() {
    let mut graph = DepGraph::new();
    for s in ["a", "b", "c", "d"] {
        graph.add_service(s.into());
    }
    graph.add_dependency("b", &dep_after("a"));
    graph.add_dependency("c", &dep_after("b"));
    graph.add_dependency("d", &dep_after("c"));

    let order = graph
        .resolve_order(&["a".into(), "b".into(), "c".into(), "d".into()])
        .unwrap();
    assert_eq!(order, vec!["a", "b", "c", "d"]);
}

#[test]
fn test_order_is_deterministic() {
    let mut graph = DepGraph::new();
    for s in ["a", "b", "c", "d", "e", "f"] {
        graph.add_service(s.into());
    }
    graph.add_dependency("d", &dep_after("b"));
    graph.add_dependency("e", &dep_after("b"));
    graph.add_dependency("f", &dep_after("c"));

    let input: Vec<String> = vec![
        "d".into(),
        "b".into(),
        "f".into(),
        "c".into(),
        "e".into(),
        "a".into(),
    ];
    let first = graph.resolve_order(&input).unwrap();
    let second = graph.resolve_order(&input).unwrap();
    assert_eq!(first, second);
}

#[test]
fn test_missing_required_only_for_known_services() {
    let mut graph = DepGraph::new();
    graph.add_service("a".into());
    graph.add_dependency("a", &dep_after("ghost"));

    let available: Vec<String> = vec!["a".into()];
    let missing = graph.get_missing_required(&available);
    assert_eq!(missing.len(), 1);
    assert_eq!(missing[0], ("a".to_string(), "ghost".to_string()));
}

#[test]
fn test_wants_are_recorded_but_ordering_neutral() {
    let mut graph = DepGraph::new();
    graph.add_service("a".into());
    graph.add_service("b".into());
    graph.add_service("c".into());
    graph.add_dependency("a", &dep_wants("b"));
    graph.add_dependency("b", &dep_after("c"));

    assert_eq!(graph.get_wanted_services("a"), vec!["b".to_string()]);

    let order = graph
        .resolve_order(&["a".into(), "b".into(), "c".into()])
        .unwrap();
    assert!(
        order.iter().position(|s| s == "c").unwrap() < order.iter().position(|s| s == "b").unwrap()
    );
}

#[test]
fn order_picks_least_available_name() {
    let mut graph = DepGraph::new();
    graph.add_dependency("d", &dep_after("b"));
    graph.add_dependency("e", &dep_after("b"));
    graph.add_dependency("f", &dep_after("c"));
    graph.add_dependency("a", &dep_after("f"));

    let input: Vec<String> = ["d", "b", "f", "c", "e", "a"].iter().map(|s| s.to_string()).collect();
    let order = graph.resolve_order(&input).unwrap();
    assert_eq!(order, vec!["b", "c", "d", "e", "f", "a"]);
}

#[test]
fn order_ignores_listing_order() {
    let mut graph = DepGraph::new();
    graph.add_dependency("net", &dep_after("udev"));
    graph.add_dependency("udev", &dep_before("disk"));
    let one: Vec<String> = vec!["net".into(), "disk".into(), "udev".into()];
    let two: Vec<String> = vec!["udev".into(), "net".into(), "disk".into()];
    assert_eq!(graph.resolve_order(&one), graph.resolve_order(&two));
    assert_eq!(graph.resolve_order(&one).unwrap(), vec!["udev", "disk", "net"]);
}

#[test]
fn edges_outside_the_list_do_not_count() {
    let mut graph = DepGraph::new();
    graph.add_dependency("a", &dep_after("absent"));
    graph.add_dependency("absent", &dep_after("a"));
    assert_eq!(graph.resolve_order(&["a".into()]).unwrap(), vec!["a"]);
}

#[test]
fn self_dependency_and_repetition_have_no_order() {
    let mut graph = DepGraph::new();
    graph.add_dependency("a", &dep_after("a"));
    assert_eq!(
        graph.resolve_order(&["a".into()]),
        Err("dependency cycle detected".to_string())
    );
    let plain = DepGraph::default();
    assert!(plain.resolve_order(&["x".into(), "x".into()]).is_err());
    assert_eq!(plain.resolve_order(&[]).unwrap(), Vec::<String>::new());
}

#[test]
fn repeated_edges_do_not_block() {
    let mut graph = DepGraph::new();
    graph.add_dependency("b", &dep_after("a"));
    graph.add_dependency("b", &dep_after("a"));
    graph.add_dependency("a", &dep_before("b"));
    let order = graph.resolve_order(&["b".into(), "a".into()]).unwrap();
    assert_eq!(order, vec!["a", "b"]);
}

#[test]
fn services_and_missing_pairs_are_recorded_once() {
    let mut graph = DepGraph::new();
    graph.add_service("a".into());
    graph.add_service("a".into());
    graph.add_service("b".into());
    assert_eq!(graph.services(), &vec!["a".to_string(), "b".to_string()]);
    graph.add_dependency("a", &dep_after("ghost"));
    graph.add_dependency("a", &dep_before("ghost"));
    graph.add_dependency("gone", &dep_after("ghost"));
    graph.add_dependency("b", &dep_wants("ghost"));
    let available: Vec<String> = vec!["a".into(), "b".into()];
    assert_eq!(
        graph.get_missing_required(&available),
        vec![("a".to_string(), "ghost".to_string())]
    );
    let copy = graph.clone();
    assert_eq!(copy.get_missing_required(&available).len(), 1);
    assert_eq!(copy.get_wanted_services("b"), vec!["ghost".to_string()]);
}
