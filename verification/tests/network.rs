use mvr::network::{create_network, try_create_network, NetworkError, Node};
use mvr::structs::Opts;

fn mock_opts(source: &str, dest: &str, files: Vec<&str>) -> Opts {
    Opts {
        source_pattern: source.to_string(),
        dest_pattern: dest.to_string(),
        files: files.into_iter().map(|f| f.to_string()).collect(),
        move_bool: true,
        copy_bool: false,
        force_run: false,
        log_bool: false,
    }
}

#[test]
fn test_independent_moves() {
    let opts = mock_opts(r"(.*)\.txt", "$1.bak", vec!["a.txt", "b.txt", "c.txt"]);
    let (sources, destinations, edges) = create_network(&opts);

    assert_eq!(edges.len(), 3);
    assert_eq!(sources.len(), 3);
    assert_eq!(destinations.len(), 3);

    assert_eq!(sources[0].n_out, 1);
    assert_eq!(destinations[0].n_in, 1);

    assert_eq!(destinations[0].file, "a.bak");
    assert_eq!(destinations[1].file, "b.bak");
    assert_eq!(destinations[2].file, "c.bak");
}

#[test]
#[should_panic]
fn network_test_collision_detection() {
    let opts = mock_opts(r"([a-z])([a-z])", "$2$1", vec!["ab", "ac", "ba"]);
    let (_sources, _destinations, _edges) = create_network(&opts);
}

#[test]
fn test_chain_move() {
    // Chaining not possible with regexp matching
}

#[test]
fn network_ids_and_edges() {
    let opts = mock_opts(r"(.*)\.txt", "$1.bak", vec!["a.txt", "b.txt"]);
    let (sources, destinations, edges) = create_network(&opts);
    assert_eq!((sources[0].id, destinations[0].id), (1, 2));
    assert_eq!((sources[1].id, destinations[1].id), (3, 4));
    assert_eq!(edges.get(&1), Some(&2));
    assert_eq!(edges.get(&3), Some(&4));
}

#[test]
fn network_source_that_is_a_destination() {
    // "abc" -> "bca", then "bca" -> "cab": the second source is the first
    // destination, which gains an outgoing edge instead of a new node.
    let opts = mock_opts(r"^(.)(.)(.)$", "$2$3$1", vec!["abc", "bca"]);
    let (sources, destinations, edges) = create_network(&opts);
    assert_eq!(sources.len(), 1);
    assert_eq!(destinations.len(), 2);
    assert_eq!(destinations[0].n_out, 1);
    assert_eq!(destinations[1].file, "cab");
    assert_eq!(destinations[1].id, 3);
    assert_eq!(edges.get(&2), Some(&3));
}

#[test]
fn network_balanced_nodes() {
    let opts = mock_opts(r"(.*)\.txt", "$1.bak", vec!["x/a.txt", "x/b.txt", "y/a.txt"]);
    let (sources, destinations, _edges) = create_network(&opts);
    for s in &sources {
        assert_eq!((s.n_in, s.n_out), (0, 1));
    }
    for d in &destinations {
        assert_eq!(d.n_in, 1);
    }
}

#[test]
fn network_error_irregular_pattern() {
    let opts = mock_opts(r"(", "x", vec!["a.txt"]);
    match try_create_network(&opts) {
        Err(NetworkError::IrregularPattern { pattern, reason }) => {
            assert_eq!(pattern, "(");
            assert!(!reason.is_empty());
        }
        _ => panic!("expected a refused pattern"),
    }
}

#[test]
fn network_error_no_file_name() {
    let opts = mock_opts(r"a", "b", vec![".."]);
    assert!(matches!(try_create_network(&opts), Err(NetworkError::NoFileName(p)) if p == ".."));
}

#[test]
fn network_error_repeated_source() {
    let opts = mock_opts(r"a", "b", vec!["a.txt", "a.txt"]);
    assert!(matches!(try_create_network(&opts), Err(NetworkError::RepeatedSource(p)) if p == "a.txt"));
}

#[test]
fn network_error_repeated_destination() {
    let opts = mock_opts(r".*", "out", vec!["a.txt", "b.txt"]);
    assert!(matches!(try_create_network(&opts), Err(NetworkError::RepeatedDestination(p)) if p == "out"));
}

#[test]
fn network_error_source_and_destination_known() {
    let opts = mock_opts(r"([a-z])([a-z])", "$2$1", vec!["ab", "ba"]);
    assert!(matches!(
        try_create_network(&opts),
        Err(NetworkError::SourceAndDestinationKnown(s, d)) if s == "ba" && d == "ab"
    ));
}

#[test]
fn network_error_destination_is_source() {
    let opts = mock_opts(r"^(.)(.)(.)$", "$2$3$1", vec!["abc", "cab"]);
    assert!(matches!(try_create_network(&opts), Err(NetworkError::DestinationIsSource(p)) if p == "abc"));
}

#[test]
fn network_node_new() {
    let node = Node::new("a".to_string(), 7, 1, 2);
    assert_eq!((node.file.as_str(), node.id, node.n_in, node.n_out), ("a", 7, 1, 2));
}

#[test]
fn network_try_create_agrees_on_success() {
    let opts = mock_opts(r"(.*)\.txt", "$1.bak", vec!["a.txt", "b.txt"]);
    let (sources, destinations, edges) = try_create_network(&opts).unwrap();
    assert_eq!(sources.len(), 2);
    assert_eq!(destinations[1].file, "b.bak");
    assert_eq!(edges.len(), 2);
}

#[test]
fn network_shape_ids_and_edges() {
    let opts = mock_opts(r"^(.)(.)(.)$", "$2$3$1", vec!["abc", "bca", "xyz"]);
    let (sources, destinations, edges) = create_network(&opts);
    assert_eq!(destinations.len(), 3);
    assert!(sources.len() <= destinations.len());
    let mut ids: Vec<usize> = sources.iter().chain(destinations.iter()).map(|n| n.id).collect();
    ids.sort();
    assert_eq!(ids, (1..=sources.len() + destinations.len()).collect::<Vec<usize>>());
    for s in &sources {
        assert!(edges.contains_key(&s.id));
    }
    for d in &destinations {
        assert!(d.n_out <= 1);
        assert_eq!(edges.contains_key(&d.id), d.n_out == 1);
    }
    assert_eq!(edges.len(), opts.files.len());
    let mut targets: Vec<usize> = edges.values().copied().collect();
    targets.sort();
    targets.dedup();
    assert_eq!(targets.len(), edges.len());
    for t in &targets {
        assert!(destinations.iter().any(|d| d.id == *t));
    }
}
