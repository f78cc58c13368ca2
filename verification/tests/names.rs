use wav_files_convert::names::is_audio_file_name;
use wav_files_convert::names::replace_extension_with_wav;

#[test]
fn recognized_extensions_match() {
    let names = [
        "a.mp3", "b.wav", "c.flac", "d.ogg", "e.m4a", "f.aac", "g.wma", "h.aiff", "i.au", "j.mp2",
    ];
    for name in names {
        assert!(is_audio_file_name(name), "{name} should match");
    }
}

#[test]
fn uppercase_extension_not_matched() {
    assert!(!is_audio_file_name("track.MP3"));
    assert!(is_audio_file_name("track.mp3"));
}

#[test]
fn non_audio_names_not_matched() {
    assert!(!is_audio_file_name("notes.txt"));
    assert!(!is_audio_file_name("mp3"));
    assert!(!is_audio_file_name(""));
    assert!(!is_audio_file_name("song.mp3.bak"));
}

#[test]
fn hidden_file_without_extension_not_matched() {
    // A name whose only dot is the leading one has no extension.
    assert!(!is_audio_file_name(".mp3"));
    assert!(is_audio_file_name(".b.mp3"));
}

#[test]
fn double_dot_name_matches_on_last_extension() {
    assert!(is_audio_file_name("a..mp3"));
    assert!(!is_audio_file_name("a.mp3.x"));
}

#[test]
fn replace_extension_basic() {
    assert_eq!(replace_extension_with_wav("a.mp3"), "a.wav");
    assert_eq!(replace_extension_with_wav("b.flac"), "b.wav");
    assert_eq!(replace_extension_with_wav("song.wav"), "song.wav");
}

#[test]
fn replace_extension_keeps_earlier_dots() {
    assert_eq!(replace_extension_with_wav("archive.tar.gz"), "archive.tar.wav");
}

#[test]
fn replace_extension_appends_when_none() {
    assert_eq!(replace_extension_with_wav("noext"), "noext.wav");
    assert_eq!(replace_extension_with_wav(".hidden"), ".hidden.wav");
}

#[test]
fn replace_extension_on_trailing_dot() {
    assert_eq!(replace_extension_with_wav("trail."), "trail.wav");
}
