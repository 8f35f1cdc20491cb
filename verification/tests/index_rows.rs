use lings::catalog::{
    audio_item, audio_query, folder_error, library_item, migration_error, missing_columns, read_update,
    takes_over_legacy, AudioRow,
};
use lings::tags::{read_generic, retagged, TagText};
use lings::ucs::UcsMeta;

#[test]
fn views_have_their_conditions() {
    let all = audio_query("all");
    assert!(all.starts_with("SELECT a.id,a.path,a.name,a.ext,l.name,"));
    assert!(all.ends_with("FROM audio a JOIN libraries l ON l.id=a.library_id ORDER BY a.name COLLATE NOCASE"));
    assert!(audio_query("playlist").ends_with("l.id=a.library_id WHERE a.playlist=1 ORDER BY a.name COLLATE NOCASE"));
    assert!(audio_query("favorites").contains(" WHERE a.favorite=1 ORDER BY "));
    assert!(audio_query("recent").contains(" WHERE a.scanned_at >= strftime('%s','now')-604800 ORDER BY "));
    assert_eq!(audio_query("Recent"), all);
}

#[test]
fn lacking_columns_are_added_in_order() {
    let all = missing_columns(&vec![]);
    assert_eq!(all.len(), 10);
    assert_eq!(all[0], "ALTER TABLE audio ADD COLUMN cat_id TEXT NOT NULL DEFAULT ''");
    assert_eq!(all[9], "ALTER TABLE audio ADD COLUMN ucs_library TEXT NOT NULL DEFAULT ''");
    let names: Vec<String> = [
        "id", "cat_id", "category", "sub_category", "user_category", "vendor_category",
        "creator_id", "source_id", "ucs_library",
    ]
    .iter()
    .map(|s| s.to_string())
    .collect();
    assert_eq!(
        missing_columns(&names),
        vec![
            "ALTER TABLE audio ADD COLUMN fx_name TEXT NOT NULL DEFAULT ''".to_string(),
            "ALTER TABLE audio ADD COLUMN user_data TEXT NOT NULL DEFAULT ''".to_string(),
        ]
    );
}

#[test]
fn no_column_lacks_once_it_is_added() {
    let mut names = vec!["id".to_string(), "fx_name".to_string()];
    for statement in missing_columns(&names) {
        names.push(statement.split(' ').nth(5).unwrap().to_string());
    }
    assert!(missing_columns(&names).is_empty());
}

#[test]
fn an_old_database_is_taken_over_once() {
    assert!(takes_over_legacy(false, Some((true, false))));
    assert!(!takes_over_legacy(true, Some((true, false))));
    assert!(!takes_over_legacy(false, Some((true, true))));
    assert!(!takes_over_legacy(false, Some((false, false))));
    assert!(!takes_over_legacy(false, None));
}

#[test]
fn messages_name_place_and_cause() {
    assert_eq!(folder_error("/a", "denied"), "Cannot create database folder /a: denied");
    assert_eq!(migration_error("/b", "full"), "Cannot migrate existing database to /b: full");
}

#[test]
fn a_row_is_shown_with_what_was_seen() {
    let row = || AudioRow {
        id: 7,
        path: "/a/b.wav".to_string(),
        name: "b.wav".to_string(),
        ext: "wav".to_string(),
        library: "a".to_string(),
        description: "d".to_string(),
        duration: 1.5f64,
        rating: 4.0f64,
        artist: "ar".to_string(),
        album: "al".to_string(),
        genre: "g".to_string(),
        year: "1999".to_string(),
        tags: "t".to_string(),
        scanned_at: 12,
        favorite: true,
        ucs: UcsMeta { cat_id: "C".into(), ucs_library: "L".into(), ..Default::default() },
    };
    let item = audio_item(row(), true, Some(false));
    assert_eq!((item.id, item.duration, item.rating, item.scanned_at), (7, 1.5, 4.0, 12));
    assert_eq!((item.cat_id.as_str(), item.ucs_library.as_str()), ("C", "L"));
    assert_eq!((item.favorite, item.path_exists, item.library_exists), (true, true, false));
    assert!(audio_item(row(), false, Some(true)).library_exists);
    assert!(!audio_item(row(), false, None).library_exists);
}

#[test]
fn an_update_takes_each_text_under_its_name() {
    let pairs: Vec<(String, String)> = [("rating", "4.5"), ("cat_id", "AIRBlow"), ("cat_id", "late"), ("tags", "x, y"), ("other", "z")]
        .iter()
        .map(|(k, v)| (k.to_string(), v.to_string()))
        .collect();
    let u = read_update(&pairs);
    assert_eq!(u.rating, "4.5");
    assert_eq!(u.tags, "x, y");
    assert_eq!(u.description, "");
    assert_eq!(u.ucs.cat_id, "AIRBlow");
    assert_eq!(u.ucs.ucs_library, "");
}

fn tag(comment: Option<&str>, year: Option<u32>) -> TagText {
    TagText {
        comment: comment.map(|c| c.to_string()),
        artist: Some("artist".to_string()),
        album: None,
        genre: None,
        year,
        keywords: Some("wind".to_string()),
    }
}

#[test]
fn the_primary_tag_goes_before_the_first() {
    let g = read_generic(Some(tag(Some("one"), Some(2024))), Some(tag(Some("two"), None)));
    assert_eq!(g.description, "one");
    assert_eq!(g.year, "2024");
    assert_eq!(g.artist, "artist");
    assert_eq!(g.album, "");
    assert_eq!(g.tags, "wind");
    let g = read_generic(None, Some(tag(Some("two"), None)));
    assert_eq!(g.description, "two");
    assert_eq!(g.year, "");
    assert_eq!(read_generic(None, None).artist, "");
}

#[test]
fn written_tags_are_read() {
    let new = retagged(tag(Some("old"), Some(1999)), "new", "rain, wind");
    let g = read_generic(Some(new), None);
    assert_eq!(g.description, "new");
    assert_eq!(g.tags, "rain, wind");
    assert_eq!((g.artist.as_str(), g.year.as_str()), ("artist", "1999"));
}

#[test]
fn a_library_is_shown_with_what_was_seen() {
    let l = library_item(3, "/a".to_string(), "a".to_string(), true);
    assert_eq!((l.id, l.path.as_str(), l.name.as_str(), l.exists), (3, "/a", "a", true));
}
