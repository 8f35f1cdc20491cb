use lings::clock::{now, stamp};
use lings::copies::{numbered_name, CopyName};
use lings::paths::{
    db_folder, file_extension, file_stem, is_audio_extension, is_installed_at, is_installed_dir,
    is_wave_file, library_name, library_name_at, library_place, lower_extension, text_path, DB_FILE,
};
use std::path::Path;

#[test]
fn detects_standard_install_locations() {
    assert!(is_installed_dir(Path::new("C:/Program Files/Lings"), false, None));
    assert!(is_installed_dir(
        Path::new("/Applications/Lings.app/Contents/MacOS"),
        false,
        None
    ));
    assert!(!is_installed_dir(Path::new("D:/Portable/Lings"), false, None))
}

#[test]
fn an_uninstaller_or_application_data_tell_of_an_installation() {
    assert!(is_installed_dir(Path::new("D:/Portable/Lings"), true, None));
    assert!(is_installed_at("C:\\Program Files (x86)\\Lings", None, false, None));
    assert!(!is_installed_at("C:\\Program Files", None, false, None));
    let local = Some("C:\\Users\\Me\\AppData\\Local");
    assert!(is_installed_at("c:/users/me/appdata/local/LINGS", Some("LINGS"), false, local));
    assert!(!is_installed_at("c:/users/me/appdata/local/Other", Some("Other"), false, local));
    assert!(!is_installed_at("d:/Lings", Some("Lings"), false, local));
    assert!(!is_installed_at("c:/users/me/appdata/local/x", None, false, local));
    assert!(is_installed_dir(Path::new("/home/me/.local/lings"), false, Some("/home/me")));
}

#[test]
fn folders_of_the_database() {
    assert_eq!(db_folder(true), "database");
    assert_eq!(db_folder(false), "Lings_db");
    assert_eq!(DB_FILE, "lings.db");
}

#[test]
fn parts_of_file_names_are_those_of_the_standard_library() {
    for name in ["a.wav", "a.b.c", "a", ".hidden", ".hidden.txt", "a.", "..a", "é.MP3"] {
        let path = Path::new(name);
        assert_eq!(file_stem(name), path.file_stem().unwrap().to_str().unwrap());
        assert_eq!(
            file_extension(name),
            path.extension().map(|e| e.to_str().unwrap().to_string())
        );
    }
    assert_eq!(text_path(Path::new("/a/é b.wav")), "/a/é b.wav");
}

#[test]
fn sound_files_are_known_by_their_extension() {
    for ext in [
        "wav", "wave", "mp3", "flac", "ogg", "oga", "opus", "m4a", "mp4", "aac", "aiff", "aif",
        "aifc", "wma", "ape", "wv", "caf", "ac3", "amr", "mid", "midi",
    ] {
        assert!(is_audio_extension(ext), "{}", ext);
    }
    for ext in ["", "txt", "WAV", "wa", "db"] {
        assert!(!is_audio_extension(ext), "{}", ext);
    }
    assert_eq!(lower_extension(Some("X.FLAC")), "flac");
    assert_eq!(lower_extension(Some(".wav")), "");
    assert_eq!(lower_extension(None), "");
    assert!(is_wave_file(Some("a.WaVe")));
    assert!(is_wave_file(Some("a.wav")));
    assert!(!is_wave_file(Some("a.aif")));
    assert!(!is_wave_file(Some("wav")));
    assert!(!is_wave_file(None));
}

#[test]
fn a_library_is_called_like_its_folder() {
    assert_eq!(library_name(Some("Sounds"), "/a/Sounds"), "Sounds");
    assert_eq!(library_name(None, "/"), "/");
    assert_eq!(library_name_at(Path::new("/a/Sounds")), "Sounds");
    assert_eq!(library_name_at(Path::new("/a/Sounds/.//")), "Sounds");
    assert_eq!(library_name_at(Path::new("/")), "/");
    assert_eq!(library_name_at(Path::new("/a/..")), "/a/..");
    assert_eq!(library_name_at(Path::new("")), "");
}

#[test]
fn a_library_is_looked_for_by_the_folder_of_a_file() {
    for (file, folder) in [
        ("/a/b/c.wav", Some("/a/b")),
        ("/c.wav", Some("/")),
        ("/./c.wav", Some("/")),
        ("a//b/./c.wav/", Some("a//b")),
        ("./c.wav", Some(".")),
        ("c.wav", Some("")),
        ("..", Some("")),
        (".", Some("")),
        ("a/..", Some("a")),
        ("//server/share/b/c.wav", Some("//server/share/b")),
        ("//server/share", Some("//server")),
        ("/", None),
        ("/.", None),
        ("", None),
    ] {
        assert_eq!(library_place(Path::new(file)), folder.map(Path::new), "{}", file);
    }
    for (file, folders) in [
        ("D:\\a\\c.wav", ["", "D:\\a"]),
        ("D:\\c.wav", ["", "D:\\"]),
        ("D:/a\\c.wav", ["D:", "D:/a"]),
        ("a\\b/c.wav", ["a\\b", "a\\b"]),
        ("\\\\s\\h\\c.wav", ["", "\\\\s\\h\\"]),
        ("\\\\s\\h\\b\\c.wav", ["", "\\\\s\\h\\b"]),
        ("\\\\?\\C:\\b\\c.wav", ["", "\\\\?\\C:\\b"]),
    ] {
        let folder = text_path(library_place(Path::new(file)).unwrap());
        assert!(folders.contains(&folder.as_str()), "{}: {}", file, folder);
    }
}

#[test]
fn copies_are_numbered_from_two() {
    assert_eq!(numbered_name("a.b.wav", 2), "a.b (2).wav");
    assert_eq!(numbered_name("a", 9999), "a (9999)");
    let mut c = CopyName::new("a.wav");
    assert_eq!(c.text(), "a.wav");
    c.step(true);
    assert_eq!(c.text(), "a (2).wav");
    c.step(true);
    assert_eq!(c.text(), "a (3).wav");
    assert!(!c.chosen);
    c.step(false);
    assert!(c.chosen);
    c.step(true);
    assert_eq!(c.text(), "a (3).wav");
}

#[test]
fn a_free_name_is_kept() {
    let mut c = CopyName::new("a.wav");
    c.step(false);
    assert!(c.chosen);
    assert_eq!(c.text(), "a.wav");
}

#[test]
fn when_every_name_is_taken_the_name_itself_is_used() {
    let mut c = CopyName::new("a.wav");
    let mut tries = 0;
    while !c.chosen {
        c.step(true);
        tries += 1;
    }
    assert_eq!(tries, 9999);
    assert_eq!(c.text(), "a.wav");
}

#[test]
fn a_time_stamp_counts_seconds() {
    assert_eq!(stamp(Some(1_700_000_000)), 1_700_000_000);
    assert_eq!(stamp(None), 0);
    assert_eq!(stamp(Some(u64::MAX)), -1);
    assert!(now() > 1_600_000_000);
}
