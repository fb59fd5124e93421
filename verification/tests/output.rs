use dnh_extract::output::{Output, OutputDirNode};
use dnh_extract::report::Warning;

fn fresh(stem: &str) -> Output {
    Output::for_path(stem, &Vec::new())
}

fn paths(out: &Output) -> Vec<String> {
    out.files().iter().map(|f| f.path.clone()).collect()
}

#[test]
fn root_is_named_after_the_container() {
    let out = fresh("game");
    assert_eq!(out.display_out_path(), "game_extracted");
    assert_eq!(out.write_count(), 0);
    assert!(out.files().is_empty());
    assert!(out.warnings().is_empty());
}

#[test]
fn root_avoids_existing_names() {
    let existing = vec!["game_extracted".to_string()];
    assert_eq!(Output::for_path("game", &existing).display_out_path(), "game_extracted_2");
    let existing = vec![
        "game_extracted_2".to_string(),
        "other".to_string(),
        "game_extracted".to_string(),
        "game_extracted_3".to_string(),
    ];
    assert_eq!(Output::for_path("game", &existing).display_out_path(), "game_extracted_4");
    let existing = vec!["game_extracted_2".to_string()];
    assert_eq!(Output::for_path("game", &existing).display_out_path(), "game_extracted");
}

#[test]
fn root_numbers_go_past_nine() {
    let mut existing = vec!["a_extracted".to_string()];
    for k in 2..=11 {
        existing.push(format!("a_extracted_{}", k));
    }
    assert_eq!(Output::for_path("a", &existing).display_out_path(), "a_extracted_12");
}

#[test]
fn new_node_is_empty() {
    let _node = OutputDirNode::new("base".to_string());
}

#[test]
fn file_is_created_in_the_root() {
    let mut out = fresh("a");
    let file = out.create("", "test.txt");
    assert_eq!(file, 0);
    assert_eq!(out.write_count(), 1);
    assert_eq!(paths(&out), vec!["a_extracted/test.txt"]);
    assert!(out.files()[0].data.is_empty());
    assert!(out.warnings().is_empty());
}

#[test]
fn file_is_created_in_nested_directories() {
    let mut out = fresh("a");
    let file = out.create("x/y\\z", "f.bin");
    assert_eq!(file, 0);
    assert_eq!(paths(&out), vec!["a_extracted/x/y/z/f.bin"]);
    let file = out.create("x//y", "g.bin");
    assert_eq!(file, 1);
    assert_eq!(paths(&out), vec!["a_extracted/x/y/z/f.bin", "a_extracted/x/y/g.bin"]);
    assert_eq!(out.write_count(), 2);
    assert!(out.warnings().is_empty());
}

#[test]
fn colliding_names_are_numbered() {
    let mut out = fresh("a");
    out.create("", "x.txt");
    out.create("", "x.txt");
    out.create("", "x.txt");
    assert_eq!(
        paths(&out),
        vec!["a_extracted/x.txt", "a_extracted/x.txt_2", "a_extracted/x.txt_3"]
    );
    assert_eq!(
        out.warnings(),
        &vec![
            Warning::DuplicateFile { path: "x.txt".to_string() },
            Warning::Renamed { path: "x.txt".to_string(), output: "x.txt_2".to_string() },
            Warning::DuplicateFile { path: "x.txt".to_string() },
            Warning::Renamed { path: "x.txt".to_string(), output: "x.txt_3".to_string() },
        ]
    );
}

#[test]
fn reserved_name_is_escaped_before_it_is_numbered() {
    let mut out = fresh("a");
    out.create("", "con");
    out.create("", "con");
    assert_eq!(paths(&out), vec!["a_extracted/con_", "a_extracted/con__2"]);
    assert_eq!(
        out.warnings(),
        &vec![
            Warning::InvalidFileName { path: "con".to_string() },
            Warning::Renamed { path: "con".to_string(), output: "con_".to_string() },
            Warning::DuplicateFile { path: "con".to_string() },
            Warning::InvalidFileName { path: "con".to_string() },
            Warning::Renamed { path: "con".to_string(), output: "con__2".to_string() },
        ]
    );
}

#[test]
fn different_names_with_one_safe_form_collide() {
    let mut out = fresh("a");
    out.create("", "a?b");
    out.create("", "a*b");
    out.create("", "a_b");
    assert_eq!(paths(&out), vec!["a_extracted/a_b", "a_extracted/a_b_2", "a_extracted/a_b_3"]);
    assert_eq!(
        out.warnings(),
        &vec![
            Warning::InvalidFileName { path: "a?b".to_string() },
            Warning::Renamed { path: "a?b".to_string(), output: "a_b".to_string() },
            Warning::InvalidFileName { path: "a*b".to_string() },
            Warning::Renamed { path: "a*b".to_string(), output: "a_b_2".to_string() },
            Warning::Renamed { path: "a_b".to_string(), output: "a_b_3".to_string() },
        ]
    );
}

#[test]
fn numbering_skips_names_that_are_taken() {
    let mut out = fresh("a");
    out.create("", "x_2");
    out.create("", "x");
    out.create("", "x");
    out.create("", "x");
    assert_eq!(
        paths(&out),
        vec!["a_extracted/x_2", "a_extracted/x", "a_extracted/x_3", "a_extracted/x_4"]
    );
}

#[test]
fn many_collisions_stay_distinct() {
    let mut out = fresh("a");
    for _ in 0..30 {
        out.create("d", "same");
    }
    let mut expected = vec!["a_extracted/d/same".to_string()];
    for k in 2..=30 {
        expected.push(format!("a_extracted/d/same_{}", k));
    }
    assert_eq!(paths(&out), expected);
}

#[test]
fn collisions_are_told_apart_per_directory() {
    let mut out = fresh("a");
    out.create("one", "f");
    out.create("two", "f");
    out.create("", "f");
    assert_eq!(paths(&out), vec!["a_extracted/one/f", "a_extracted/two/f", "a_extracted/f"]);
    assert!(out.warnings().is_empty());
}

#[test]
fn directory_and_file_share_the_names_of_their_parent() {
    let mut out = fresh("a");
    out.create("", "x");
    out.create("x", "f");
    assert_eq!(paths(&out), vec!["a_extracted/x", "a_extracted/x_2/f"]);
    assert_eq!(
        out.warnings(),
        &vec![
            Warning::DuplicateFile { path: "x/f".to_string() },
            Warning::Renamed { path: "x/f".to_string(), output: "x_2".to_string() },
        ]
    );
    out.create("x", "g");
    assert_eq!(out.files()[2].path, "a_extracted/x_2/g");
    assert_eq!(out.warnings().len(), 2);
}

#[test]
fn unsafe_directory_names_are_sanitized_once() {
    let mut out = fresh("a");
    out.create("con/sub", "f");
    out.create("con/sub", "g");
    assert_eq!(paths(&out), vec!["a_extracted/con_/sub/f", "a_extracted/con_/sub/g"]);
    assert_eq!(
        out.warnings(),
        &vec![
            Warning::InvalidFileName { path: "con/sub/f".to_string() },
            Warning::Renamed { path: "con/sub/f".to_string(), output: "con_".to_string() },
        ]
    );
}

#[test]
fn written_bytes_are_appended() {
    let mut out = fresh("a");
    let first = out.create("", "one");
    let second = out.create("", "two");
    out.write(first, b"he");
    out.write(second, b"x");
    out.write(first, b"llo");
    out.write(first, b"");
    assert_eq!(out.files()[0].data, b"hello");
    assert_eq!(out.files()[1].data, b"x");
    assert_eq!(out.write_count(), 2);
}

#[test]
fn warnings_are_kept_in_order() {
    let mut out = fresh("a");
    out.warn(Warning::Truncated { name: "n".to_string(), size: 3 });
    out.warn_all(vec![
        Warning::UndecodableName { name: "x".to_string() },
        Warning::UndecodableWideName { name: "y".to_string() },
    ]);
    assert_eq!(
        out.warnings(),
        &vec![
            Warning::Truncated { name: "n".to_string(), size: 3 },
            Warning::UndecodableName { name: "x".to_string() },
            Warning::UndecodableWideName { name: "y".to_string() },
        ]
    );
}

#[test]
fn no_path_is_used_twice() {
    let dirs = ["", "a", "a/b", "a_b", "a\\b", "A", " a ", "a.", "con", "con_", "a/b_2", "x/../x"];
    let names = ["a", "b", "a_b", "a/b", "a_2", "a", "con", "con_", "b_2", "", ".", "a?", "a_"];
    let mut out = fresh("t");
    for round in 0..3 {
        for dir in dirs.iter() {
            for name in names.iter() {
                let file = out.create(dir, name);
                assert_eq!(file, out.write_count() - 1);
            }
        }
        assert_eq!(out.write_count(), (round + 1) * dirs.len() * names.len());
    }
    let mut seen = std::collections::HashSet::new();
    for file in out.files() {
        assert!(file.path.starts_with("t_extracted/"));
        assert!(seen.insert(file.path.clone()), "{} is used twice", file.path);
    }
}

#[test]
fn file_and_directory_of_one_name_get_two_paths() {
    let mut out = fresh("t");
    out.create("a", "b");
    out.create("", "a");
    out.create("", "a/b");
    out.create("a_2", "b");
    assert_eq!(
        paths(&out),
        vec!["t_extracted/a/b", "t_extracted/a_2", "t_extracted/a_b", "t_extracted/a_2_2/b"]
    );
}
