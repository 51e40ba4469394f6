use std::collections::HashMap;
use std::path::Path;

use mvr::graph::{InputFile, LinkCheck, PlanError, Probe, UniqueLinks};
use mvr::structs::Color;

fn found(paths: &[&str]) -> Vec<InputFile> {
    paths
        .iter()
        .map(|p| InputFile { path: Some(p.to_string()), probe: Probe::Found })
        .collect()
}

#[test]
fn test_collision_detection() {
    // Two files mapping to the same output: a collision.
    let input_files = found(&["/work/a.txt", "/work/b.txt"]);
    let unique_links = UniqueLinks::new(&input_files, r".*", "out.txt", false).unwrap();
    assert_eq!(unique_links.link_check(), LinkCheck::Collision);
}

#[test]
fn test_chain_detection() {
    let input_files = found(&["/work/a.txt", "/work/b.txt", "/work/c.txt"]);
    let unique_links = UniqueLinks::new(&input_files, r"(.*)", r"${1}", false).unwrap();
    // A chain: 1 is both a destination and a source.
    let unique_links = UniqueLinks {
        sources: vec![0, 1],
        destinations: vec![1, 2],
        link_map: HashMap::from([(0, 1), (1, 2)]),
        ..unique_links
    };
    assert_eq!(unique_links.link_check(), LinkCheck::Chain);
}

#[test]
fn test_new_valid_regex_mapping() {
    let input_files = found(&["/work/a.txt", "/work/b.txt"]);
    let unique_links =
        UniqueLinks::new(&input_files, r"(a|b)\.txt", "new_${0}", false).unwrap();
    assert_eq!(unique_links.input_file_count, 2);
    assert_eq!(unique_links.processing_file_count, 2);
    assert!(unique_links.unchanged_sources.is_empty());
    assert_eq!(unique_links.link_check(), LinkCheck::OneToOne);
}

#[test]
fn test_mix_changed_unchanged_files() {
    let input_files = found(&["/work/a.txt", "/work/b.txt"]);
    let unique_links = UniqueLinks::new(&input_files, r"a.txt", "2.txt", false).unwrap();
    assert_eq!(unique_links.input_file_count, 2);
    assert_eq!(unique_links.processing_file_count, 1);
    assert_eq!(unique_links.unchanged_sources.len(), 1);
}

#[test]
fn test_unchanged_files() {
    let input_files = found(&["/work/a.txt", "/work/b.txt"]);
    let unique_links = UniqueLinks::new(&input_files, r"a.txt", "a.txt", false).unwrap();
    assert_eq!(unique_links.input_file_count, 2);
    assert_eq!(unique_links.processing_file_count, 0);
    assert_eq!(unique_links.unchanged_sources.len(), 2);
}

#[test]
fn test_new_missing_files() {
    let input_files = vec![
        InputFile { path: Some("/work/exists.txt".to_string()), probe: Probe::Found },
        InputFile { path: Some("/work/missing.txt".to_string()), probe: Probe::NotFound },
    ];
    let unique_links = UniqueLinks::new(&input_files, r".*\.txt", "out.txt", false).unwrap();
    assert_eq!(unique_links.input_file_count, 2);
    assert_eq!(unique_links.processing_file_count, 1);
    assert_eq!(unique_links.missing_sources.len(), 1);
}

#[test]
// check if only the file name at the end of path is renamed
fn test_regex_transformation() {
    let files = found(&["build.txt/a.txt", "b.txt", "c.txt"]);
    let graph = UniqueLinks::new(&files, r"(.*)\.txt", "$1.bak", true).unwrap();

    let sour_p1 = graph.id_to_path.get(&graph.sources[0]).unwrap();
    let dest_p1 = graph.id_to_path.get(&graph.destinations[0]).unwrap();

    assert_eq!(Path::new(dest_p1), Path::new("build.txt/a.bak"));
    assert_eq!(
        Path::new(dest_p1).parent(),
        Path::new(sour_p1).parent(),
        "The parent directory names were changed, unwanted behaviour"
    );
}

#[test]
fn test_get_err_code() {
    let err = anyhow::Error::msg("ECP005: Source and destination are on different devices");
    let code = UniqueLinks::get_err_code(&format!("{:#}", err));
    assert_eq!(code.0, "ECP005");

    let err = anyhow::Error::msg("Some generic error");
    let code = UniqueLinks::get_err_code(&format!("{:#}", err));
    assert_eq!(code.0, "UNKNOWN");
}

#[test]
fn test_highlight_path_diff() {
    let result = UniqueLinks::highlight_path_diff("a.txt", "b.txt", Color::Red);
    assert!(result == "\x1b[31ma\x1b[0m.txt");

    let result = UniqueLinks::highlight_path_diff("same.txt", "same.txt", Color::Red);
    assert!(result == "same.txt");
}

#[test]
fn test_new_no_matching_files() {
    let input_files = found(&["/work/a.txt"]);
    let unique_links =
        UniqueLinks::new(&input_files, r"nonexistent\.txt", "new_$0.txt", true).unwrap();
    assert_eq!(unique_links.input_file_count, 1);
    assert_eq!(unique_links.processing_file_count, 0);
    assert!(unique_links.sources.is_empty());
    assert!(unique_links.destinations.is_empty());
}

#[test]
fn test_regex_special_chars_in_filenames() {
    let input_files = found(&["/work/file.$$.txt", "/work/data[1].log"]);
    let unique_links = UniqueLinks::new(
        &input_files,
        r"file\.\$\$\.txt|data\[1\]\.log",
        "new_$0",
        true,
    )
    .unwrap();
    assert_eq!(unique_links.processing_file_count, 2);
    assert_eq!(unique_links.link_check(), LinkCheck::OneToOne);
}

#[test]
fn test_no_ops() {
    let input_files: Vec<InputFile> = vec![];
    let unique_links = UniqueLinks::new(&input_files, r".*", "new_$0", true).unwrap();
    assert_eq!(unique_links.input_file_count, 0);
    assert_eq!(unique_links.processing_file_count, 0);
    assert!(unique_links.sources.is_empty());
    assert!(unique_links.destinations.is_empty());
}

#[test]
fn collision_check_accepts_a_safe_plan() {
    let input_files = found(&["/work/a.txt", "/work/b.txt"]);
    let unique_links = UniqueLinks::new(&input_files, r"\.txt$", ".md", true).unwrap();
    assert_eq!(unique_links.link_check(), LinkCheck::OneToOne);
    unique_links.collision_check();
}
