use wav_files_convert::paths::join_paths;
use wav_files_convert::paths::output_path_for;
use wav_files_convert::paths::strip_path_prefix;

fn path(components: &[&str]) -> Vec<String> {
    components.iter().map(|c| c.to_string()).collect()
}

#[test]
fn strip_prefix_of_nested_path() {
    let full = path(&["in", "sub", "b.flac"]);
    let root = path(&["in"]);
    assert_eq!(strip_path_prefix(&full, &root), Some(path(&["sub", "b.flac"])));
}

#[test]
fn strip_prefix_of_whole_path_is_empty() {
    let full = path(&["in", "sub"]);
    let root = path(&["in", "sub"]);
    assert_eq!(strip_path_prefix(&full, &root), Some(path(&[])));
}

#[test]
fn strip_prefix_rejects_unrelated_root() {
    let full = path(&["elsewhere", "a.mp3"]);
    let root = path(&["in"]);
    assert_eq!(strip_path_prefix(&full, &root), None);
}

#[test]
fn strip_prefix_rejects_longer_root() {
    let full = path(&["in"]);
    let root = path(&["in", "sub"]);
    assert_eq!(strip_path_prefix(&full, &root), None);
}

#[test]
fn join_then_strip_round_trip() {
    let root = path(&["in", "nested"]);
    let rel = path(&["sub", "a.mp3"]);
    let full = join_paths(&root, &rel);
    assert_eq!(full, path(&["in", "nested", "sub", "a.mp3"]));
    assert_eq!(strip_path_prefix(&full, &root), Some(rel));
}

#[test]
fn output_path_mirrors_subdirectories() {
    let out_root = path(&["out"]);
    let rel = path(&["sub", "b.flac"]);
    assert_eq!(output_path_for(&out_root, &rel), path(&["out", "sub", "b.wav"]));
}

#[test]
fn output_path_for_top_level_file() {
    let out_root = path(&["out"]);
    let rel = path(&["a.mp3"]);
    assert_eq!(output_path_for(&out_root, &rel), path(&["out", "a.wav"]));
}
