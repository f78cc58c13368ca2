use wav_files_convert::convert::ffmpeg_args;
use wav_files_convert::convert::plan_all;
use wav_files_convert::convert::plan_conversion;
use wav_files_convert::convert::PathError;
use wav_files_convert::discover::FsEntry;

fn file(name: &str) -> FsEntry {
    FsEntry::File { name: name.to_string() }
}

fn dir(name: &str, entries: Vec<FsEntry>) -> FsEntry {
    FsEntry::Dir { name: name.to_string(), entries }
}

fn path(components: &[&str]) -> Vec<String> {
    components.iter().map(|c| c.to_string()).collect()
}

#[test]
fn plans_output_under_output_root_with_wav_extension() {
    let task = plan_conversion(&path(&["in"]), &path(&["out"]), &path(&["in", "sub", "b.flac"]))
        .expect("file lies under the input root");
    assert_eq!(task.input, path(&["in", "sub", "b.flac"]));
    assert_eq!(task.output, path(&["out", "sub", "b.wav"]));
}

#[test]
fn plan_rejects_file_outside_input_root() {
    let r = plan_conversion(&path(&["in"]), &path(&["out"]), &path(&["elsewhere", "a.mp3"]));
    assert!(matches!(r, Err(PathError::NotUnderRoot)));
}

#[test]
fn plan_rejects_the_input_root_itself() {
    let r = plan_conversion(&path(&["in"]), &path(&["out"]), &path(&["in"]));
    assert!(matches!(r, Err(PathError::NotUnderRoot)));
}

#[test]
fn path_error_has_a_description() {
    let r = plan_conversion(&path(&["in"]), &path(&["out"]), &path(&["other", "x.mp3"]));
    match r {
        Err(e) => assert_eq!(e.message(), "failed to compute a path relative to the input root"),
        Ok(_) => panic!("planning should have failed"),
    }
}

#[test]
fn ffmpeg_args_are_exactly_the_fixed_invocation() {
    let args = ffmpeg_args("in/a.mp3", "out/a.wav");
    assert_eq!(
        args,
        vec![
            "-i".to_string(),
            "in/a.mp3".to_string(),
            "-f".to_string(),
            "wav".to_string(),
            "-acodec".to_string(),
            "pcm_s16le".to_string(),
            "-ar".to_string(),
            "16000".to_string(),
            "-ac".to_string(),
            "1".to_string(),
            "-y".to_string(),
            "out/a.wav".to_string(),
        ]
    );
}

#[test]
fn ffmpeg_args_force_overwrite() {
    let args = ffmpeg_args("x.mp3", "x.wav");
    assert!(args.iter().any(|a| a == "-y"));
    assert_eq!(args.last().map(String::as_str), Some("x.wav"));
}

#[test]
fn end_to_end_plan_of_mixed_tree() {
    // Input tree in/a.mp3, in/sub/b.flac, in/notes.txt: exactly two files are
    // converted, mirroring the subdirectory structure, and notes.txt has no
    // counterpart.
    let tree = vec![file("a.mp3"), dir("sub", vec![file("b.flac")]), file("notes.txt")];
    let tasks = plan_all(&path(&["in"]), &path(&["out"]), &tree);
    assert_eq!(tasks.len(), 2);
    assert_eq!(tasks[0].input, path(&["in", "a.mp3"]));
    assert_eq!(tasks[0].output, path(&["out", "a.wav"]));
    assert_eq!(tasks[1].input, path(&["in", "sub", "b.flac"]));
    assert_eq!(tasks[1].output, path(&["out", "sub", "b.wav"]));
    let summary = format!("Conversion complete. Processed {} files.", tasks.len());
    assert_eq!(summary, "Conversion complete. Processed 2 files.");
}

#[test]
fn empty_input_plans_zero_conversions() {
    let tree = vec![file("readme.md"), dir("docs", vec![file("guide.pdf")])];
    let tasks = plan_all(&path(&["in"]), &path(&["out"]), &tree);
    assert_eq!(tasks.len(), 0);
    let summary = format!("Conversion complete. Processed {} files.", tasks.len());
    assert_eq!(summary, "Conversion complete. Processed 0 files.");
}

#[test]
fn planning_twice_gives_identical_tasks() {
    let tree = vec![file("a.mp3"), dir("sub", vec![file("b.flac")])];
    let first = plan_all(&path(&["in"]), &path(&["out"]), &tree);
    let second = plan_all(&path(&["in"]), &path(&["out"]), &tree);
    assert_eq!(first.len(), second.len());
    for (a, b) in first.iter().zip(second.iter()) {
        assert_eq!(a.input, b.input);
        assert_eq!(a.output, b.output);
    }
}

#[test]
fn output_directories_mirror_only_converted_files() {
    let tree = vec![
        dir("music", vec![file("a.mp3")]),
        dir("papers", vec![file("draft.tex")]),
    ];
    let tasks = plan_all(&path(&["in"]), &path(&["out"]), &tree);
    assert_eq!(tasks.len(), 1);
    assert_eq!(tasks[0].output, path(&["out", "music", "a.wav"]));
    // No planned output lies under out/papers.
    for t in &tasks {
        assert!(!(t.output.len() >= 2 && t.output[1] == "papers"));
    }
}
