use collectune::classify::{extension_is_audio, is_audio_file};
use collectune::metadata::extension_to_format;
use collectune::prepare::{album_directory, is_disc_folder};

#[test]
fn extension_maps_to_canonical_format() {
    assert_eq!(extension_to_format("aac"), Some("aac"));
    assert_eq!(extension_to_format("aif"), Some("aiff"));
    assert_eq!(extension_to_format("aiff"), Some("aiff"));
    assert_eq!(extension_to_format("alac"), Some("alac"));
    assert_eq!(extension_to_format("ape"), Some("ape"));
    assert_eq!(extension_to_format("flac"), Some("flac"));
    assert_eq!(extension_to_format("m4a"), Some("mp4"));
    assert_eq!(extension_to_format("mp3"), Some("mp3"));
    assert_eq!(extension_to_format("ogg"), Some("ogg"));
    assert_eq!(extension_to_format("opus"), Some("opus"));
    assert_eq!(extension_to_format("wav"), Some("wav"));
    assert_eq!(extension_to_format("wma"), Some("wma"));
    assert_eq!(extension_to_format("wv"), Some("wv"));
}

#[test]
fn extension_is_matched_without_regard_to_case() {
    assert_eq!(extension_to_format("AIF"), Some("aiff"));
    assert_eq!(extension_to_format("FlAc"), Some("flac"));
    assert_eq!(extension_to_format("M4A"), Some("mp4"));
}

#[test]
fn unknown_extension_has_no_format() {
    assert_eq!(extension_to_format("txt"), None);
    assert_eq!(extension_to_format(""), None);
    assert_eq!(extension_to_format("mp4"), None);
    assert_eq!(extension_to_format("flac "), None);
    assert_eq!(extension_to_format(".flac"), None);
    assert_eq!(extension_to_format("mp3x"), None);
}

#[test]
fn audio_extensions_are_the_allow_list() {
    for ext in [
        "mp3", "flac", "ogg", "m4a", "opus", "wma", "aac", "aiff", "aif", "alac", "ape", "wav",
        "wv",
    ] {
        assert!(extension_is_audio(ext));
        assert!(extension_is_audio(&ext.to_uppercase()));
        assert!(extension_to_format(ext).is_some());
    }
    for ext in ["", "txt", "jpg", "mp4", "mood", "cue", "flacx"] {
        assert!(!extension_is_audio(ext));
        assert!(extension_to_format(ext).is_none());
    }
}

#[test]
fn audio_files_are_told_by_their_extension() {
    assert!(is_audio_file("A/01 - one.flac"));
    assert!(is_audio_file("song.MP3"));
    assert!(is_audio_file("/music/a.b/c.d.Ogg"));
    assert!(!is_audio_file("A/cover.jpg"));
    assert!(!is_audio_file("A/flac"));
    assert!(!is_audio_file("A/.flac"));
    assert!(!is_audio_file(""));
    assert!(!is_audio_file("notes.flac.txt"));
}

#[test]
fn disc_folders_match() {
    assert!(is_disc_folder("Disc 2"));
    assert!(is_disc_folder("CD01"));
    assert!(is_disc_folder("disk 3"));
    assert!(is_disc_folder("disc 1"));
    assert!(is_disc_folder("DISC12"));
    assert!(is_disc_folder("cd  7  "));
    assert!(is_disc_folder("Disk\t4"));
    assert!(is_disc_folder("cd\u{a0}5"));
}

#[test]
fn other_folders_do_not_match() {
    assert!(!is_disc_folder("CD"));
    assert!(!is_disc_folder("Disc A"));
    assert!(!is_disc_folder("Disc 2a"));
    assert!(!is_disc_folder("disc"));
    assert!(!is_disc_folder("disc "));
    assert!(!is_disc_folder(""));
    assert!(!is_disc_folder("A"));
    assert!(!is_disc_folder("discography 1"));
    assert!(!is_disc_folder("disc 1 2"));
    assert!(!is_disc_folder(" disc 1"));
    assert!(!is_disc_folder("2 disc"));
    assert!(!is_disc_folder("disc -1"));
    assert!(!is_disc_folder("disc \u{661}"));
}

#[test]
fn album_directory_is_the_parent() {
    assert_eq!(album_directory("A/01 - one.flac"), Some("A".to_string()));
    assert_eq!(album_directory("/music/B/x.mp3"), Some("/music/B".to_string()));
    assert_eq!(album_directory("music/A/CD/x.mp3"), Some("music/A/CD".to_string()));
}

#[test]
fn album_directory_looks_through_disc_folders() {
    assert_eq!(album_directory("A/disc 1/01 - one.flac"), Some("A".to_string()));
    assert_eq!(album_directory("/music/B/CD2/x.mp3"), Some("/music/B".to_string()));
    assert_eq!(album_directory("cd1/x.mp3"), Some("".to_string()));
}

#[test]
fn parent_without_a_name_holds_the_album() {
    assert_eq!(album_directory("./01.flac"), Some(".".to_string()));
    assert_eq!(album_directory("./Disc 2/01.flac"), Some(".".to_string()));
    assert_eq!(album_directory("./01.flac"), album_directory("./Disc 2/01.flac"));
    assert_eq!(album_directory("/01.flac"), Some("/".to_string()));
    assert_eq!(album_directory("/Disc 2/01.flac"), Some("/".to_string()));
    assert_eq!(album_directory("x.flac"), Some("".to_string()));
    assert_eq!(album_directory("cd1/x.flac"), Some("".to_string()));
    assert_eq!(album_directory("../x.flac"), Some("..".to_string()));
}

#[test]
fn album_directory_needs_a_parent() {
    assert_eq!(album_directory(""), None);
    assert_eq!(album_directory("/"), None);
}
