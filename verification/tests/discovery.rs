use wav_files_convert::discover::find_audio_files;
use wav_files_convert::discover::FsEntry;

fn file(name: &str) -> FsEntry {
    FsEntry::File { name: name.to_string() }
}

fn dir(name: &str, entries: Vec<FsEntry>) -> FsEntry {
    FsEntry::Dir { name: name.to_string(), entries }
}

fn path(components: &[&str]) -> Vec<String> {
    components.iter().map(|c| c.to_string()).collect()
}

#[test]
fn discovers_matching_files_at_any_depth() {
    let tree = vec![
        file("a.mp3"),
        dir(
            "sub",
            vec![file("b.flac"), dir("deeper", vec![file("c.ogg"), file("skip.txt")])],
        ),
        file("notes.txt"),
    ];
    let found = find_audio_files(&tree);
    assert_eq!(
        found,
        vec![
            path(&["a.mp3"]),
            path(&["sub", "b.flac"]),
            path(&["sub", "deeper", "c.ogg"]),
        ]
    );
}

#[test]
fn discovery_keeps_traversal_order() {
    let tree = vec![file("z.wav"), file("a.mp3"), file("m.aac")];
    let found = find_audio_files(&tree);
    assert_eq!(found, vec![path(&["z.wav"]), path(&["a.mp3"]), path(&["m.aac"])]);
}

#[test]
fn empty_tree_discovers_nothing() {
    let tree: Vec<FsEntry> = Vec::new();
    assert_eq!(find_audio_files(&tree).len(), 0);
}

#[test]
fn tree_without_matches_discovers_nothing() {
    let tree = vec![
        file("readme.md"),
        dir("docs", vec![file("guide.pdf"), dir("img", vec![file("logo.png")])]),
    ];
    assert_eq!(find_audio_files(&tree).len(), 0);
}

#[test]
fn uppercase_extension_is_not_discovered() {
    let tree = vec![file("track.MP3"), file("track.mp3")];
    assert_eq!(find_audio_files(&tree), vec![path(&["track.mp3"])]);
}

#[test]
fn directory_names_with_audio_extensions_are_not_files() {
    let tree = vec![dir("fake.mp3", vec![file("real.mp3")])];
    assert_eq!(find_audio_files(&tree), vec![path(&["fake.mp3", "real.mp3"])]);
}
