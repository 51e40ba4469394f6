use mvr::graph::{decimal_string, InputFile, LinkCheck, PlanError, Probe, UniqueLinks};
use mvr::structs::Color;

fn found(paths: &[&str]) -> Vec<InputFile> {
    paths
        .iter()
        .map(|p| InputFile { path: Some(p.to_string()), probe: Probe::Found })
        .collect()
}

#[test]
fn plan_ids_follow_first_mention() {
    let links = UniqueLinks::new(&found(&["d/a.txt", "d/b.txt"]), r"\.txt$", ".md", true).unwrap();
    assert_eq!(links.sources, vec![0, 2]);
    assert_eq!(links.destinations, vec![1, 3]);
    assert_eq!(links.id_to_path.get(&0).unwrap(), "d/a.txt");
    assert_eq!(links.id_to_path.get(&1).unwrap(), "d/a.md");
    assert_eq!(links.id_to_path.get(&3).unwrap(), "d/b.md");
    assert_eq!(links.id_to_path.len(), 4);
}

#[test]
fn plan_repeated_file_keeps_its_ids() {
    // The same file twice: one id per path, one link, and the check passes.
    let links = UniqueLinks::new(&found(&["a.txt", "a.txt"]), "a", "b", true).unwrap();
    assert_eq!(links.sources, vec![0, 0]);
    assert_eq!(links.destinations, vec![1, 1]);
    assert_eq!(links.link_map.len(), 1);
    assert_eq!(links.link_check(), LinkCheck::OneToOne);
    assert_eq!(links.link_pairs(), vec![("a.txt".to_string(), "b.txt".to_string())]);
}

#[test]
fn plan_collision_means_shared_destination() {
    let links = UniqueLinks::new(&found(&["x1", "x2"]), r"\d", "", true).unwrap();
    assert_eq!(links.destinations, vec![1, 1]);
    assert_eq!(links.link_check(), LinkCheck::Collision);
}

#[test]
fn plan_chain_when_a_destination_is_moved() {
    let links = UniqueLinks::new(&found(&["a1", "a"]), r"1$", "", true).unwrap();
    // "a1" -> "a", and "a" itself keeps its name: no chain among the moves.
    assert_eq!(links.processing_file_count, 1);
    assert_eq!(links.link_check(), LinkCheck::OneToOne);
    let links = UniqueLinks::new(&found(&["ab", "b"]), r"^a|^b$", "c", true).unwrap();
    // "ab" -> "cb"?  no: "ab" -> "cb", "b" -> "c"; then "cb" is not a source.
    assert_eq!(links.link_check(), LinkCheck::OneToOne);
    let links = UniqueLinks::new(&found(&["ab", "b"]), r"^a", "", true).unwrap();
    // "ab" -> "b", and "b" is listed unchanged: still no chain among moves.
    assert_eq!(links.link_check(), LinkCheck::OneToOne);
    let links = UniqueLinks::new(&found(&["ab", "bb"]), r"^.", "", true).unwrap();
    // "ab" -> "b", "bb" -> "b": a collision.
    assert_eq!(links.link_check(), LinkCheck::Collision);
    let links = UniqueLinks::new(&found(&["ab", "b"]), r"^a|b$", "", true).unwrap();
    // "ab" -> "" ... and "b" -> "": both go to the directory itself.
    assert_eq!(links.link_check(), LinkCheck::Collision);
    let links = UniqueLinks::new(&found(&["aab", "ab"]), r"^a", "", true).unwrap();
    // "aab" -> "ab", "ab" -> "b": the first destination is the second source.
    assert_eq!(links.link_check(), LinkCheck::Chain);
}

#[test]
fn plan_irregular_pattern() {
    match UniqueLinks::new(&found(&["a"]), "(", "x", true) {
        Err(PlanError::IrregularPattern { pattern, .. }) => assert_eq!(pattern, "("),
        Ok(_) => panic!("an unbalanced group is not a regex"),
    }
}

#[test]
fn plan_skips_unreadable_and_nameless_paths() {
    let files = vec![
        InputFile { path: None, probe: Probe::Found },
        InputFile { path: Some("/".to_string()), probe: Probe::Found },
        InputFile { path: Some("d/locked.txt".to_string()), probe: Probe::Failed },
        InputFile { path: Some("d/gone.txt".to_string()), probe: Probe::NotFound },
        InputFile { path: Some("d/a.txt".to_string()), probe: Probe::Found },
    ];
    let links = UniqueLinks::new(&files, r"\.txt", ".md", false).unwrap();
    assert_eq!(links.input_file_count, 5);
    assert_eq!(links.processing_file_count, 1);
    assert_eq!(links.missing_sources.len(), 1);
    // The failed lookup and the missing file still got ids for their paths.
    assert_eq!(links.id_to_path.len(), 6);
    // In test mode the lookups are not consulted.
    let links = UniqueLinks::new(&files, r"\.txt", ".md", true).unwrap();
    assert_eq!(links.processing_file_count, 3);
    assert!(links.missing_sources.is_empty());
}

#[test]
fn plan_graph_lines() {
    let links = UniqueLinks::new(&found(&["a.txt"]), "a", "b", true).unwrap();
    assert_eq!(links.graph_lines(false), vec!["0  -->  1".to_string()]);
    assert_eq!(
        links.graph_lines(true),
        vec!["\x1b[31ma\x1b[0m.txt  -->  \x1b[32mb\x1b[0m.txt".to_string()]
    );
}

#[test]
fn plan_error_codes() {
    assert_eq!(
        UniqueLinks::get_err_code(" ERN1 : rename failed: twice"),
        ("ERN1".to_string(), "ERN1".to_string())
    );
    assert_eq!(
        UniqueLinks::get_err_code("  nothing here \n"),
        ("UNKNOWN".to_string(), "nothing here".to_string())
    );
    assert_eq!(UniqueLinks::get_err_code(":x"), (String::new(), String::new()));
}

#[test]
fn plan_decimal() {
    assert_eq!(decimal_string(0), "0");
    assert_eq!(decimal_string(7), "7");
    assert_eq!(decimal_string(1234), "1234");
    assert_eq!(decimal_string(usize::MAX), usize::MAX.to_string());
}

#[test]
fn plan_highlight_insert_only() {
    assert_eq!(UniqueLinks::highlight_path_diff("ab", "axb", Color::Green), "ab");
}

#[test]
fn plan_counts_every_input_once() {
    let files = vec![
        InputFile { path: Some("d/a.txt".to_string()), probe: Probe::Found },
        InputFile { path: Some("d/b.md".to_string()), probe: Probe::Found },
        InputFile { path: Some("d/gone.txt".to_string()), probe: Probe::NotFound },
    ];
    let links = UniqueLinks::new(&files, r"\.txt$", ".md", false).unwrap();
    assert_eq!(
        links.sources.len() + links.unchanged_sources.len() + links.missing_sources.len(),
        files.len()
    );
    assert_eq!(links.missing_sources.len(), 1);
    let links = UniqueLinks::new(&files, r"\.txt$", ".md", true).unwrap();
    assert!(links.missing_sources.is_empty());
    assert_eq!(links.sources.len() + links.unchanged_sources.len(), files.len());
}

#[test]
fn plan_highlight_keeps_the_old_path() {
    let shown = UniqueLinks::highlight_path_diff("dir/report_v1.txt", "dir/report_v2.md", Color::Red);
    let plain = shown.replace("\x1b[31m", "").replace("\x1b[0m", "");
    assert_eq!(plain, "dir/report_v1.txt");
}
