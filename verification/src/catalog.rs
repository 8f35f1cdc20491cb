//! The database of the application: its statements, its rows and how they are
//! shown.
use crate::text::eq_text;
use crate::ucs::{Ucs, UcsMeta};
use vstd::prelude::*;

verus! {

/// Creates the tables and indices of a new database.
pub const SCHEMA: &'static str = "PRAGMA journal_mode=WAL; PRAGMA foreign_keys=ON; CREATE TABLE IF NOT EXISTS libraries(id INTEGER PRIMARY KEY,path TEXT NOT NULL UNIQUE,name TEXT NOT NULL,added_at INTEGER NOT NULL); CREATE TABLE IF NOT EXISTS audio(id INTEGER PRIMARY KEY,path TEXT NOT NULL UNIQUE,name TEXT NOT NULL,ext TEXT NOT NULL,library_id INTEGER NOT NULL,description TEXT NOT NULL DEFAULT '',duration REAL NOT NULL DEFAULT 0,rating REAL NOT NULL DEFAULT 0,artist TEXT NOT NULL DEFAULT '',album TEXT NOT NULL DEFAULT '',genre TEXT NOT NULL DEFAULT '',year TEXT NOT NULL DEFAULT '',tags TEXT NOT NULL DEFAULT '',scanned_at INTEGER NOT NULL,playlist INTEGER NOT NULL DEFAULT 0,favorite INTEGER NOT NULL DEFAULT 0,FOREIGN KEY(library_id) REFERENCES libraries(id) ON DELETE CASCADE); CREATE INDEX IF NOT EXISTS idx_audio_name ON audio(name); CREATE INDEX IF NOT EXISTS idx_audio_scan ON audio(scanned_at);";

/// Lists the columns of the table of files; the second column of the result is a
/// column's name.
pub const LIST_COLUMNS: &'static str = "PRAGMA table_info(audio)";

/// Enters a library: path, name and time.
pub const PUT_LIBRARY: &'static str = "INSERT INTO libraries(path,name,added_at) VALUES(?1,?2,?3) ON CONFLICT(path) DO UPDATE SET name=excluded.name";

/// Finds the number of a library by its path.
pub const FIND_LIBRARY: &'static str = "SELECT id FROM libraries WHERE path=?1";

/// Enters a file.
pub const PUT_AUDIO: &'static str = "INSERT INTO audio(path,name,ext,library_id,description,duration,artist,album,genre,year,tags,scanned_at,cat_id,category,sub_category,user_category,vendor_category,fx_name,creator_id,source_id,user_data,ucs_library) VALUES(?1,?2,?3,?4,?5,?6,?7,?8,?9,?10,?11,?12,?13,?14,?15,?16,?17,?18,?19,?20,?21,?22) ON CONFLICT(path) DO UPDATE SET name=excluded.name,ext=excluded.ext,library_id=excluded.library_id,description=excluded.description,duration=excluded.duration,artist=excluded.artist,album=excluded.album,genre=excluded.genre,year=excluded.year,tags=excluded.tags,scanned_at=excluded.scanned_at,cat_id=excluded.cat_id,category=excluded.category,sub_category=excluded.sub_category,user_category=excluded.user_category,vendor_category=excluded.vendor_category,fx_name=excluded.fx_name,creator_id=excluded.creator_id,source_id=excluded.source_id,user_data=excluded.user_data,ucs_library=excluded.ucs_library";

/// Removes the files of a library that were not entered since a time.
pub const PURGE_AUDIO: &'static str = "DELETE FROM audio WHERE library_id=?1 AND scanned_at<?2";

/// Removes a library, and with it its files.
pub const DROP_LIBRARY: &'static str = "DELETE FROM libraries WHERE id=?1";

/// Lists the libraries.
pub const LIST_LIBRARIES: &'static str = "SELECT id,path,name FROM libraries ORDER BY name COLLATE NOCASE";

/// Finds the path of a file.
pub const FIND_AUDIO: &'static str = "SELECT path FROM audio WHERE id=?1";

/// Puts a file into the playlist or takes it out.
pub const SET_PLAYLIST: &'static str = "UPDATE audio SET playlist=?1 WHERE id=?2";

/// Removes a file from the index.
pub const DROP_AUDIO: &'static str = "DELETE FROM audio WHERE id=?1";

/// Changes the metadata of a file.
pub const UPDATE_AUDIO: &'static str = "UPDATE audio SET description=?1,rating=?2,tags=?3,cat_id=?4,category=?5,sub_category=?6,user_category=?7,vendor_category=?8,fx_name=?9,creator_id=?10,source_id=?11,user_data=?12,ucs_library=?13 WHERE id=?14";

/// Writes everything into the main file of the database.
pub const CHECKPOINT: &'static str = "PRAGMA wal_checkpoint(FULL)";

/// Finds the main file of the database.
pub const FIND_DATABASE: &'static str = "SELECT file FROM pragma_database_list WHERE name='main'";

/// The columns that hold the texts of a record.
pub open spec fn ucs_columns() -> Seq<Seq<char>> {
    seq![
        "cat_id"@,
        "category"@,
        "sub_category"@,
        "user_category"@,
        "vendor_category"@,
        "fx_name"@,
        "creator_id"@,
        "source_id"@,
        "user_data"@,
        "ucs_library"@,
    ]
}

/// The statement that adds the column `name`.
pub open spec fn add_column(name: Seq<char>) -> Seq<char> {
    "ALTER TABLE audio ADD COLUMN "@ + name + " TEXT NOT NULL DEFAULT ''"@
}

/// The columns of `wanted` that are not among `existing`, in their order.
pub open spec fn lacking(wanted: Seq<Seq<char>>, existing: Seq<Seq<char>>) -> Seq<Seq<char>>
    decreases wanted.len(),
{
    if wanted.len() == 0 {
        Seq::empty()
    } else {
        let rest = lacking(wanted.drop_last(), existing);
        if existing.contains(wanted.last()) {
            rest
        } else {
            rest.push(wanted.last())
        }
    }
}

/// Whether a name is among the given ones.
fn is_among(names: &Vec<String>, name: &str) -> (r: bool)
    ensures
        r == names@.map_values(|n: String| n@).contains(name@),
{
    let ghost all = names@.map_values(|n: String| n@);
    let mut i: usize = 0;
    while i < names.len()
        invariant
            i <= names@.len(),
            all == names@.map_values(|n: String| n@),
            forall|j: int| 0 <= j < i ==> all[j] != name@,
        decreases names@.len() - i,
    {
        if eq_text(names[i].as_str(), name) {
            assert(all[i as int] == name@);
            return true;
        }
        i += 1;
    }
    false
}

/// Adds the statement for a column to `out`, unless the column is among
/// `existing`.
fn add_if_missing(
    out: &mut Vec<String>,
    existing: &Vec<String>,
    name: &str,
    Ghost(done): Ghost<Seq<Seq<char>>>,
)
    requires
        old(out)@.map_values(|s: String| s@) == lacking(
            done,
            existing@.map_values(|n: String| n@),
        ).map_values(|n: Seq<char>| add_column(n)),
    ensures
        final(out)@.map_values(|s: String| s@) == lacking(
            done.push(name@),
            existing@.map_values(|n: String| n@),
        ).map_values(|n: Seq<char>| add_column(n)),
{
    let ghost there = existing@.map_values(|n: String| n@);
    let ghost before = out@;
    assert(done.push(name@).drop_last() =~= done);
    if !is_among(existing, name) {
        let mut s: String = String::new();
        s.append("ALTER TABLE audio ADD COLUMN ");
        s.append(name);
        s.append(" TEXT NOT NULL DEFAULT ''");
        assert(s@ =~= add_column(name@));
        out.push(s);
        assert(out@.map_values(|s: String| s@) =~= before.map_values(|s: String| s@).push(s@));
        assert(lacking(done.push(name@), there).map_values(|n: Seq<char>| add_column(n)) =~= lacking(
            done,
            there,
        ).map_values(|n: Seq<char>| add_column(n)).push(add_column(name@)));
    }
}

/// The statements that add the columns which a database of an older version
/// lacks.
pub fn missing_columns(existing: &Vec<String>) -> (r: Vec<String>)
    ensures
        r@.map_values(|s: String| s@) == lacking(
            ucs_columns(),
            existing@.map_values(|n: String| n@),
        ).map_values(|n: Seq<char>| add_column(n)),
{
    let mut r: Vec<String> = Vec::new();
    let ghost all = ucs_columns();
    proof {
        assert forall|i: int| 0 <= i < 10 implies #[trigger] all.take(i).push(all[i]) == all.take(
            i + 1,
        ) by {
            assert(all.take(i).push(all[i]) =~= all.take(i + 1));
        }
        assert(all.take(10) =~= all);
    }
    assert(r@.map_values(|s: String| s@) =~= lacking(
        all.take(0),
        existing@.map_values(|n: String| n@),
    ).map_values(|n: Seq<char>| add_column(n)));
    add_if_missing(&mut r, existing, "cat_id", Ghost(all.take(0)));
    add_if_missing(&mut r, existing, "category", Ghost(all.take(1)));
    add_if_missing(&mut r, existing, "sub_category", Ghost(all.take(2)));
    add_if_missing(&mut r, existing, "user_category", Ghost(all.take(3)));
    add_if_missing(&mut r, existing, "vendor_category", Ghost(all.take(4)));
    add_if_missing(&mut r, existing, "fx_name", Ghost(all.take(5)));
    add_if_missing(&mut r, existing, "creator_id", Ghost(all.take(6)));
    add_if_missing(&mut r, existing, "source_id", Ghost(all.take(7)));
    add_if_missing(&mut r, existing, "user_data", Ghost(all.take(8)));
    add_if_missing(&mut r, existing, "ucs_library", Ghost(all.take(9)));
    r
}

/// Once the lacking columns are added, none is lacking.
pub proof fn law_no_column_lacks_twice(existing: Seq<Seq<char>>)
    ensures
        lacking(ucs_columns(), existing + lacking(ucs_columns(), existing)) == Seq::<
            Seq<char>,
        >::empty(),
{
    lemma_lacking_covers(ucs_columns(), existing);
    let more = existing + lacking(ucs_columns(), existing);
    lemma_nothing_lacks(ucs_columns(), more);
}

proof fn lemma_lacking_covers(wanted: Seq<Seq<char>>, existing: Seq<Seq<char>>)
    ensures
        forall|i: int|
            0 <= i < wanted.len() ==> (existing + lacking(wanted, existing)).contains(
                #[trigger] wanted[i],
            ),
    decreases wanted.len(),
{
    if wanted.len() > 0 {
        lemma_lacking_covers(wanted.drop_last(), existing);
        let less = existing + lacking(wanted.drop_last(), existing);
        let more = existing + lacking(wanted, existing);
        assert forall|i: int| 0 <= i < wanted.len() implies more.contains(#[trigger] wanted[i]) by {
            if i < wanted.len() - 1 {
                assert(wanted.drop_last()[i] == wanted[i]);
                let k = less.index_of(wanted[i]);
                assert(more[k] == wanted[i]);
            } else if existing.contains(wanted.last()) {
                let k = existing.index_of(wanted.last());
                assert(more[k] == wanted[i]);
            } else {
                assert(more[more.len() - 1] == wanted[i]);
            }
        }
    }
}

proof fn lemma_nothing_lacks(wanted: Seq<Seq<char>>, existing: Seq<Seq<char>>)
    requires
        forall|i: int| 0 <= i < wanted.len() ==> existing.contains(#[trigger] wanted[i]),
    ensures
        lacking(wanted, existing) == Seq::<Seq<char>>::empty(),
    decreases wanted.len(),
{
    if wanted.len() > 0 {
        assert(existing.contains(wanted[wanted.len() - 1]));
        assert forall|i: int| 0 <= i < wanted.drop_last().len() implies existing.contains(
            #[trigger] wanted.drop_last()[i],
        ) by {
            assert(wanted.drop_last()[i] == wanted[i]);
        }
        lemma_nothing_lacks(wanted.drop_last(), existing);
    }
}

/// Whether the database of an older version is taken over: there is none at its
/// new place yet, and there is one at another, old place. `legacy` tells of the
/// old place whether a database is there and whether it is the new place.
pub fn takes_over_legacy(target_exists: bool, legacy: Option<(bool, bool)>) -> (r: bool)
    ensures
        r == (!target_exists && (legacy matches Some((exists, same)) && exists && !same)),
{
    match legacy {
        Some((exists, same)) => !target_exists && exists && !same,
        None => false,
    }
}

/// The message when the folder of the database cannot be made.
pub fn folder_error(folder: &str, error: &str) -> (r: String)
    ensures
        r@ == "Cannot create database folder "@ + folder@ + ": "@ + error@,
{
    let mut r: String = String::new();
    r.append("Cannot create database folder ");
    r.append(folder);
    r.append(": ");
    r.append(error);
    assert(r@ =~= "Cannot create database folder "@ + folder@ + ": "@ + error@);
    r
}

/// The message when an older database cannot be taken over.
pub fn migration_error(target: &str, error: &str) -> (r: String)
    ensures
        r@ == "Cannot migrate existing database to "@ + target@ + ": "@ + error@,
{
    let mut r: String = String::new();
    r.append("Cannot migrate existing database to ");
    r.append(target);
    r.append(": ");
    r.append(error);
    assert(r@ =~= "Cannot migrate existing database to "@ + target@ + ": "@ + error@);
    r
}

/// The condition of a view of the files.
pub open spec fn view_condition(view: Seq<char>) -> Seq<char> {
    if view == "playlist"@ {
        " WHERE a.playlist=1"@
    } else if view == "favorites"@ {
        " WHERE a.favorite=1"@
    } else if view == "recent"@ {
        " WHERE a.scanned_at >= strftime('%s','now')-604800"@
    } else {
        Seq::empty()
    }
}

/// What the query of every view starts with.
pub const AUDIO_QUERY: &'static str = "SELECT a.id,a.path,a.name,a.ext,l.name,a.description,a.duration,a.rating,a.artist,a.album,a.genre,a.year,a.tags,a.scanned_at,a.favorite,a.cat_id,a.category,a.sub_category,a.user_category,a.vendor_category,a.fx_name,a.creator_id,a.source_id,a.user_data,a.ucs_library FROM audio a JOIN libraries l ON l.id=a.library_id";

/// The query of a view of the files: the playlist, the favorites, the files of
/// the last week or, under any other name, all files.
pub fn audio_query(view: &str) -> (r: String)
    ensures
        r@ == AUDIO_QUERY@ + view_condition(view@) + " ORDER BY a.name COLLATE NOCASE"@,
{
    let mut r: String = String::new();
    r.append(AUDIO_QUERY);
    if eq_text(view, "playlist") {
        r.append(" WHERE a.playlist=1");
    } else if eq_text(view, "favorites") {
        r.append(" WHERE a.favorite=1");
    } else if eq_text(view, "recent") {
        r.append(" WHERE a.scanned_at >= strftime('%s','now')-604800");
    }
    r.append(" ORDER BY a.name COLLATE NOCASE");
    assert(r@ =~= AUDIO_QUERY@ + view_condition(view@) + " ORDER BY a.name COLLATE NOCASE"@);
    r
}

/// A library as it is shown.
pub struct Library {
    pub id: i64,
    pub path: String,
    pub name: String,
    pub exists: bool,
}

/// Shows a library, with whether its folder was seen on the disk.
pub fn library_item(id: i64, path: String, name: String, exists: bool) -> (l: Library)
    ensures
        l.id == id,
        l.path == path,
        l.name == name,
        l.exists == exists,
{
    Library { id, path, name, exists }
}

/// A file as the database holds it; `F` is the type of its numbers.
pub struct AudioRow<F> {
    pub id: i64,
    pub path: String,
    pub name: String,
    pub ext: String,
    pub library: String,
    pub description: String,
    pub duration: F,
    pub rating: F,
    pub artist: String,
    pub album: String,
    pub genre: String,
    pub year: String,
    pub tags: String,
    pub scanned_at: i64,
    pub favorite: bool,
    pub ucs: UcsMeta,
}

/// A file as it is shown; `F` is the type of its numbers.
pub struct AudioItem<F> {
    pub id: i64,
    pub path: String,
    pub name: String,
    pub ext: String,
    pub library: String,
    pub description: String,
    pub duration: F,
    pub rating: F,
    pub artist: String,
    pub album: String,
    pub genre: String,
    pub year: String,
    pub tags: String,
    pub scanned_at: i64,
    pub favorite: bool,
    pub cat_id: String,
    pub category: String,
    pub sub_category: String,
    pub user_category: String,
    pub vendor_category: String,
    pub fx_name: String,
    pub creator_id: String,
    pub source_id: String,
    pub user_data: String,
    pub ucs_library: String,
    pub path_exists: bool,
    pub library_exists: bool,
}

/// Shows a file, with whether it was seen on the disk and, if its path has a folder,
/// whether that was seen. Its library counts as there if the folder was seen.
pub fn audio_item<F>(
    row: AudioRow<F>,
    path_exists: bool,
    folder_exists: Option<bool>,
) -> (item: AudioItem<F>)
    ensures
        item.id == row.id,
        item.path == row.path,
        item.name == row.name,
        item.ext == row.ext,
        item.library == row.library,
        item.description == row.description,
        item.duration == row.duration,
        item.rating == row.rating,
        item.artist == row.artist,
        item.album == row.album,
        item.genre == row.genre,
        item.year == row.year,
        item.tags == row.tags,
        item.scanned_at == row.scanned_at,
        item.favorite == row.favorite,
        item.cat_id == row.ucs.cat_id,
        item.category == row.ucs.category,
        item.sub_category == row.ucs.sub_category,
        item.user_category == row.ucs.user_category,
        item.vendor_category == row.ucs.vendor_category,
        item.fx_name == row.ucs.fx_name,
        item.creator_id == row.ucs.creator_id,
        item.source_id == row.ucs.source_id,
        item.user_data == row.ucs.user_data,
        item.ucs_library == row.ucs.ucs_library,
        item.path_exists == path_exists,
        item.library_exists == (folder_exists == Some(true)),
{
    AudioItem {
        id: row.id,
        path: row.path,
        name: row.name,
        ext: row.ext,
        library: row.library,
        description: row.description,
        duration: row.duration,
        rating: row.rating,
        artist: row.artist,
        album: row.album,
        genre: row.genre,
        year: row.year,
        tags: row.tags,
        scanned_at: row.scanned_at,
        favorite: row.favorite,
        cat_id: row.ucs.cat_id,
        category: row.ucs.category,
        sub_category: row.ucs.sub_category,
        user_category: row.ucs.user_category,
        vendor_category: row.ucs.vendor_category,
        fx_name: row.ucs.fx_name,
        creator_id: row.ucs.creator_id,
        source_id: row.ucs.source_id,
        user_data: row.ucs.user_data,
        ucs_library: row.ucs.ucs_library,
        path_exists,
        library_exists: match folder_exists {
            Some(seen) => seen,
            None => false,
        },
    }
}

/// Names and texts, as a user interface hands them over.
pub open spec fn pairs_view(pairs: Seq<(String, String)>) -> Seq<(Seq<char>, Seq<char>)> {
    pairs.map_values(|p: (String, String)| (p.0@, p.1@))
}

/// The text under `key` in a list of names and texts; empty if there is none.
pub open spec fn text_under(pairs: Seq<(Seq<char>, Seq<char>)>, key: Seq<char>) -> Seq<char>
    decreases pairs.len(),
{
    if pairs.len() == 0 {
        Seq::empty()
    } else if pairs[0].0 == key {
        pairs[0].1
    } else {
        text_under(pairs.drop_first(), key)
    }
}

/// Looks up the text under `key`.
fn look_up(pairs: &Vec<(String, String)>, key: &str) -> (r: String)
    ensures
        r@ == text_under(pairs_view(pairs@), key@),
{
    let ghost all = pairs_view(pairs@);
    let mut i: usize = 0;
    assert(all.skip(0) =~= all);
    while i < pairs.len()
        invariant
            i <= pairs@.len(),
            all == pairs_view(pairs@),
            text_under(all, key@) == text_under(all.skip(i as int), key@),
        decreases pairs@.len() - i,
    {
        assert(all.skip(i as int)[0] == all[i as int]);
        if eq_text(pairs[i].0.as_str(), key) {
            return pairs[i].1.clone();
        }
        assert(all.skip(i as int).drop_first() =~= all.skip(i + 1));
        i += 1;
    }
    String::new()
}

/// The metadata that a user has entered for a file.
pub struct MetadataUpdate {
    pub description: String,
    pub rating: String,
    pub tags: String,
    pub ucs: UcsMeta,
}

/// The record in a list of names and texts.
pub open spec fn ucs_under(pairs: Seq<(Seq<char>, Seq<char>)>) -> Ucs {
    Ucs {
        cat_id: text_under(pairs, "cat_id"@),
        category: text_under(pairs, "category"@),
        sub_category: text_under(pairs, "sub_category"@),
        user_category: text_under(pairs, "user_category"@),
        vendor_category: text_under(pairs, "vendor_category"@),
        fx_name: text_under(pairs, "fx_name"@),
        creator_id: text_under(pairs, "creator_id"@),
        source_id: text_under(pairs, "source_id"@),
        user_data: text_under(pairs, "user_data"@),
        ucs_library: text_under(pairs, "ucs_library"@),
    }
}

/// Reads the metadata that a user has entered, each text under its name; what is
/// not given is empty.
pub fn read_update(pairs: &Vec<(String, String)>) -> (r: MetadataUpdate)
    ensures
        r.description@ == text_under(pairs_view(pairs@), "description"@),
        r.rating@ == text_under(pairs_view(pairs@), "rating"@),
        r.tags@ == text_under(pairs_view(pairs@), "tags"@),
        r.ucs@ == ucs_under(pairs_view(pairs@)),
{
    MetadataUpdate {
        description: look_up(pairs, "description"),
        rating: look_up(pairs, "rating"),
        tags: look_up(pairs, "tags"),
        ucs: UcsMeta {
            cat_id: look_up(pairs, "cat_id"),
            category: look_up(pairs, "category"),
            sub_category: look_up(pairs, "sub_category"),
            user_category: look_up(pairs, "user_category"),
            vendor_category: look_up(pairs, "vendor_category"),
            fx_name: look_up(pairs, "fx_name"),
            creator_id: look_up(pairs, "creator_id"),
            source_id: look_up(pairs, "source_id"),
            user_data: look_up(pairs, "user_data"),
            ucs_library: look_up(pairs, "ucs_library"),
        },
    }
}

} // verus!
