use nbsync::mapper::{destination_for, directive_for, discover, matches_pattern, Directive, Direction};
use nbsync::paths::{file_name_of, join_paths, parent_of, replace_all};

#[test]
fn test_find_all_files() {
    let tree = vec!["bar/baz.ipynb".to_string(), "baz.ipynb".to_string()];

    let renames = discover(Direction::ForwardToScript, &tree);

    let expected_renames = vec![
        Directive {
            source_path: "bar/baz.ipynb".into(),
            destination_path: "bar/.nb/baz.py".into(),
            direction: Direction::ForwardToScript,
        },
        Directive {
            source_path: "baz.ipynb".into(),
            destination_path: ".nb/baz.py".into(),
            direction: Direction::ForwardToScript,
        },
    ];

    assert_eq!(renames, expected_renames);
}

#[test]
fn test_find_all_files_reverse() {
    let tree = vec![".nb/baz.py".to_string(), "bar/.nb/baz.py".to_string()];

    let renames = discover(Direction::ReverseToNotebook, &tree);

    let expected_renames = vec![
        Directive {
            source_path: ".nb/baz.py".into(),
            destination_path: "baz.ipynb".into(),
            direction: Direction::ReverseToNotebook,
        },
        Directive {
            source_path: "bar/.nb/baz.py".into(),
            destination_path: "bar/baz.ipynb".into(),
            direction: Direction::ReverseToNotebook,
        },
    ];

    assert_eq!(renames, expected_renames);
}

#[test]
fn forward_discovery_skips_non_matching_files() {
    let tree = vec![
        "notes.txt".to_string(),
        "loose.py".to_string(),
        ".nb/converted.py".to_string(),
        "kept.ipynb".to_string(),
    ];

    let directives = discover(Direction::ForwardToScript, &tree);

    assert_eq!(directives.len(), 1);
    assert_eq!(directives[0].source_path, "kept.ipynb");
    assert_eq!(directives[0].destination_path, ".nb/kept.py");
}

#[test]
fn reverse_discovery_takes_only_scripts_directly_inside_nb() {
    let tree = vec![
        "loose.py".to_string(),
        "dir/loose.py".to_string(),
        "dir/.nb/inside.py".to_string(),
        ".nb/top.py".to_string(),
        "a/b/.nb/deep.py".to_string(),
        "dir/.nbx/other.py".to_string(),
        "dir/.nb/not_a_script.txt".to_string(),
    ];

    let directives = discover(Direction::ReverseToNotebook, &tree);

    let sources: Vec<&str> = directives.iter().map(|d| d.source_path.as_str()).collect();
    assert_eq!(sources, vec!["dir/.nb/inside.py", ".nb/top.py", "a/b/.nb/deep.py"]);
    assert_eq!(directives[2].destination_path, "a/b/deep.ipynb");
}

#[test]
fn matches_pattern_follows_the_two_conventions() {
    assert!(matches_pattern(Direction::ForwardToScript, "x.ipynb"));
    assert!(matches_pattern(Direction::ForwardToScript, "a/b/x.ipynb"));
    assert!(!matches_pattern(Direction::ForwardToScript, "x.py"));
    assert!(!matches_pattern(Direction::ForwardToScript, "x.ipynb.txt"));

    assert!(matches_pattern(Direction::ReverseToNotebook, ".nb/x.py"));
    assert!(matches_pattern(Direction::ReverseToNotebook, "d/.nb/x.py"));
    assert!(!matches_pattern(Direction::ReverseToNotebook, "x.py"));
    assert!(!matches_pattern(Direction::ReverseToNotebook, "d/x.py"));
    assert!(!matches_pattern(Direction::ReverseToNotebook, "d/.nbx/x.py"));
}

#[test]
fn forward_maps_any_depth_to_the_nb_sibling() {
    assert_eq!(destination_for(Direction::ForwardToScript, "baz.ipynb"), ".nb/baz.py");
    assert_eq!(destination_for(Direction::ForwardToScript, "bar/baz.ipynb"), "bar/.nb/baz.py");
    assert_eq!(
        destination_for(Direction::ForwardToScript, "a/b/c/baz.ipynb"),
        "a/b/c/.nb/baz.py"
    );
}

#[test]
fn reverse_maps_back_out_of_the_nb_directory() {
    assert_eq!(destination_for(Direction::ReverseToNotebook, ".nb/baz.py"), "baz.ipynb");
    assert_eq!(
        destination_for(Direction::ReverseToNotebook, "a/b/.nb/baz.py"),
        "a/b/baz.ipynb"
    );
}

#[test]
fn forward_then_reverse_round_trips() {
    let script = destination_for(Direction::ForwardToScript, "dir/name.ipynb");
    assert_eq!(script, "dir/.nb/name.py");
    assert!(matches_pattern(Direction::ReverseToNotebook, &script));
    let notebook = destination_for(Direction::ReverseToNotebook, &script);
    assert_eq!(notebook, "dir/name.ipynb");
}

#[test]
fn discovery_is_stable_across_repeated_calls() {
    let tree = vec![
        "baz.ipynb".to_string(),
        "bar/baz.ipynb".to_string(),
        "bar/other.txt".to_string(),
    ];

    let first = discover(Direction::ForwardToScript, &tree);
    let second = discover(Direction::ForwardToScript, &tree);

    assert_eq!(first, second);
    assert_eq!(first.len(), 2);
}

#[test]
fn directive_records_source_destination_and_direction() {
    let d = directive_for(Direction::ForwardToScript, "bar/baz.ipynb");
    assert_eq!(d.source_path, "bar/baz.ipynb");
    assert_eq!(d.destination_path, "bar/.nb/baz.py");
    assert_eq!(d.direction, Direction::ForwardToScript);
}

#[test]
fn extension_token_is_replaced_wherever_it_occurs() {
    // The replacement substitutes the token within the whole file name, as
    // the plain string replacement does; a name carrying it twice has both
    // occurrences rewritten.
    assert_eq!(destination_for(Direction::ForwardToScript, "a.ipynb.ipynb"), ".nb/a.py.py");
    assert_eq!(replace_all("a.py.py", ".py", ".ipynb"), "a.ipynb.ipynb");
    assert_eq!(replace_all("plain", "x", "y"), "plain");
}

#[test]
fn path_primitives_split_and_join() {
    assert_eq!(parent_of("bar/baz.ipynb"), "bar");
    assert_eq!(parent_of("baz.ipynb"), "");
    assert_eq!(parent_of("a/b/c"), "a/b");
    assert_eq!(file_name_of("bar/baz.ipynb"), "baz.ipynb");
    assert_eq!(file_name_of("baz.ipynb"), "baz.ipynb");
    assert_eq!(join_paths("", "x.py"), "x.py");
    assert_eq!(join_paths("a/b", "x.py"), "a/b/x.py");
}
