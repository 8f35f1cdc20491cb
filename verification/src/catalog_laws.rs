//! Laws of the index: its statements and views, the tags of a file and time stamps.
use crate::catalog::{
    add_column, ucs_columns, view_condition, AUDIO_QUERY, CHECKPOINT, DROP_AUDIO, DROP_LIBRARY,
    FIND_AUDIO, FIND_DATABASE, FIND_LIBRARY, LIST_COLUMNS, LIST_LIBRARIES, PURGE_AUDIO, PUT_AUDIO,
    PUT_LIBRARY, SCHEMA, SET_PLAYLIST, UPDATE_AUDIO,
};
use crate::clock::stamp_of;
use crate::tags::{leading_tag, text_or_empty, TagText};
use vstd::prelude::*;

verus! {

/// The beginning of a statement with one more part.
proof fn lemma_next_part(s: Seq<char>, from: int, to: int, front: Seq<char>, part: Seq<char>)
    requires
        0 <= from <= to <= s.len(),
        s.take(from) == front,
        s.subrange(from, to) == part,
    ensures
        s.take(to) == front + part,
{
    assert(s.take(to) =~= s.take(from) + s.subrange(from, to));
}

/// The first `n` columns of a record, each behind `prefix` and before the suffix in its
/// place.
pub open spec fn listed(prefix: Seq<char>, suffixes: Seq<Seq<char>>, n: nat) -> Seq<char>
    decreases n,
{
    if n == 0 {
        Seq::empty()
    } else {
        listed(prefix, suffixes, (n - 1) as nat) + (prefix + ucs_columns()[n - 1] + suffixes[n - 1])
    }
}

/// One more column of a statement.
proof fn lemma_column(
    s: Seq<char>,
    head: Seq<char>,
    prefix: Seq<char>,
    suffixes: Seq<Seq<char>>,
    k: nat,
    from: int,
    to: int,
)
    requires
        0 <= from <= to <= s.len(),
        s.take(from) == head + listed(prefix, suffixes, k),
        s.subrange(from, to) =~= prefix + ucs_columns()[k as int] + suffixes[k as int],
    ensures
        s.take(to) == head + listed(prefix, suffixes, k + 1),
{
    let part = prefix + ucs_columns()[k as int] + suffixes[k as int];
    lemma_next_part(s, from, to, head + listed(prefix, suffixes, k), part);
    assert(head + listed(prefix, suffixes, k) + part =~= head + (listed(prefix, suffixes, k)
        + part));
}

/// A change of metadata sets the description, the rating and the tags, and then each column
/// of a record to the parameter in its place, of one file.
pub proof fn law_update_sets_each_column_of_a_record()
    ensures
        UPDATE_AUDIO@ == "UPDATE audio SET description=?1,rating=?2,tags=?3"@ + listed(
            ","@,
            seq![
                "=?4"@,
                "=?5"@,
                "=?6"@,
                "=?7"@,
                "=?8"@,
                "=?9"@,
                "=?10"@,
                "=?11"@,
                "=?12"@,
                "=?13"@,
            ],
            10,
        ) + " WHERE id=?14"@,
{
    let s = UPDATE_AUDIO@;
    reveal_strlit(",");
    reveal_strlit("=?4");
    reveal_strlit("=?5");
    reveal_strlit("=?6");
    reveal_strlit("=?7");
    reveal_strlit("=?8");
    reveal_strlit("=?9");
    reveal_strlit("=?10");
    reveal_strlit("=?11");
    reveal_strlit("=?12");
    reveal_strlit("=?13");
    reveal_strlit("cat_id");
    reveal_strlit("fx_name");
    reveal_strlit("category");
    reveal_strlit("source_id");
    reveal_strlit("user_data");
    reveal_strlit("creator_id");
    reveal_strlit("ucs_library");
    reveal_strlit("sub_category");
    reveal_strlit(" WHERE id=?14");
    reveal_strlit("user_category");
    reveal_strlit("vendor_category");
    reveal_strlit("UPDATE audio SET description=?1,rating=?2,tags=?3");
    reveal_strlit("UPDATE audio SET description=?1,rating=?2,tags=?3,cat_id=?4,category=?5,sub_category=?6,user_category=?7,vendor_category=?8,fx_name=?9,creator_id=?10,source_id=?11,user_data=?12,ucs_library=?13 WHERE id=?14");
    let suffixes = seq![
        "=?4"@,
        "=?5"@,
        "=?6"@,
        "=?7"@,
        "=?8"@,
        "=?9"@,
        "=?10"@,
        "=?11"@,
        "=?12"@,
        "=?13"@,
    ];
    assert(s.subrange(0, 49) =~= "UPDATE audio SET description=?1,rating=?2,tags=?3"@);
    assert(s.take(49) =~= s.subrange(0, 49));
    assert("UPDATE audio SET description=?1,rating=?2,tags=?3"@ + listed(","@, suffixes, 0) =~= "UPDATE audio SET description=?1,rating=?2,tags=?3"@);
    lemma_column(s, "UPDATE audio SET description=?1,rating=?2,tags=?3"@, ","@, suffixes, 0, 49, 59);
    lemma_column(s, "UPDATE audio SET description=?1,rating=?2,tags=?3"@, ","@, suffixes, 1, 59, 71);
    lemma_column(s, "UPDATE audio SET description=?1,rating=?2,tags=?3"@, ","@, suffixes, 2, 71, 87);
    lemma_column(s, "UPDATE audio SET description=?1,rating=?2,tags=?3"@, ","@, suffixes, 3, 87, 104);
    lemma_column(s, "UPDATE audio SET description=?1,rating=?2,tags=?3"@, ","@, suffixes, 4, 104, 123);
    lemma_column(s, "UPDATE audio SET description=?1,rating=?2,tags=?3"@, ","@, suffixes, 5, 123, 134);
    lemma_column(s, "UPDATE audio SET description=?1,rating=?2,tags=?3"@, ","@, suffixes, 6, 134, 149);
    lemma_column(s, "UPDATE audio SET description=?1,rating=?2,tags=?3"@, ","@, suffixes, 7, 149, 163);
    lemma_column(s, "UPDATE audio SET description=?1,rating=?2,tags=?3"@, ","@, suffixes, 8, 163, 177);
    lemma_column(s, "UPDATE audio SET description=?1,rating=?2,tags=?3"@, ","@, suffixes, 9, 177, 193);
    assert(s.subrange(193, 206) =~= " WHERE id=?14"@);
    lemma_next_part(s, 193, 206, "UPDATE audio SET description=?1,rating=?2,tags=?3"@ + listed(","@, suffixes, 10), " WHERE id=?14"@);
    assert(s.take(206) =~= s);
}

/// The query of a view lists what is shown of a file, the columns of a record last and in
/// their order, of the files of all libraries.
pub proof fn law_query_lists_each_column_of_a_record()
    ensures
        AUDIO_QUERY@ == "SELECT a.id,a.path,a.name,a.ext,l.name,a.description,a.duration,a.rating,a.artist,a.album,a.genre,a.year,a.tags,a.scanned_at,a.favorite"@ + listed(
            ",a."@,
            seq![
                ""@,
                ""@,
                ""@,
                ""@,
                ""@,
                ""@,
                ""@,
                ""@,
                ""@,
                ""@,
            ],
            10,
        ) + " FROM audio a JOIN libraries l ON l.id=a.library_id"@,
{
    let s = AUDIO_QUERY@;
    reveal_strlit("");
    reveal_strlit(",a.");
    reveal_strlit("cat_id");
    reveal_strlit("fx_name");
    reveal_strlit("category");
    reveal_strlit("source_id");
    reveal_strlit("user_data");
    reveal_strlit("creator_id");
    reveal_strlit("ucs_library");
    reveal_strlit("sub_category");
    reveal_strlit("user_category");
    reveal_strlit("vendor_category");
    reveal_strlit(" FROM audio a JOIN libraries l ON l.id=a.library_id");
    reveal_strlit("SELECT a.id,a.path,a.name,a.ext,l.name,a.description,a.duration,a.rating,a.artist,a.album,a.genre,a.year,a.tags,a.scanned_at,a.favorite");
    reveal_strlit("SELECT a.id,a.path,a.name,a.ext,l.name,a.description,a.duration,a.rating,a.artist,a.album,a.genre,a.year,a.tags,a.scanned_at,a.favorite,a.cat_id,a.category,a.sub_category,a.user_category,a.vendor_category,a.fx_name,a.creator_id,a.source_id,a.user_data,a.ucs_library FROM audio a JOIN libraries l ON l.id=a.library_id");
    let suffixes = seq![
        ""@,
        ""@,
        ""@,
        ""@,
        ""@,
        ""@,
        ""@,
        ""@,
        ""@,
        ""@,
    ];
    assert(s.subrange(0, 135) =~= "SELECT a.id,a.path,a.name,a.ext,l.name,a.description,a.duration,a.rating,a.artist,a.album,a.genre,a.year,a.tags,a.scanned_at,a.favorite"@);
    assert(s.take(135) =~= s.subrange(0, 135));
    assert("SELECT a.id,a.path,a.name,a.ext,l.name,a.description,a.duration,a.rating,a.artist,a.album,a.genre,a.year,a.tags,a.scanned_at,a.favorite"@ + listed(",a."@, suffixes, 0) =~= "SELECT a.id,a.path,a.name,a.ext,l.name,a.description,a.duration,a.rating,a.artist,a.album,a.genre,a.year,a.tags,a.scanned_at,a.favorite"@);
    lemma_column(s, "SELECT a.id,a.path,a.name,a.ext,l.name,a.description,a.duration,a.rating,a.artist,a.album,a.genre,a.year,a.tags,a.scanned_at,a.favorite"@, ",a."@, suffixes, 0, 135, 144);
    lemma_column(s, "SELECT a.id,a.path,a.name,a.ext,l.name,a.description,a.duration,a.rating,a.artist,a.album,a.genre,a.year,a.tags,a.scanned_at,a.favorite"@, ",a."@, suffixes, 1, 144, 155);
    lemma_column(s, "SELECT a.id,a.path,a.name,a.ext,l.name,a.description,a.duration,a.rating,a.artist,a.album,a.genre,a.year,a.tags,a.scanned_at,a.favorite"@, ",a."@, suffixes, 2, 155, 170);
    lemma_column(s, "SELECT a.id,a.path,a.name,a.ext,l.name,a.description,a.duration,a.rating,a.artist,a.album,a.genre,a.year,a.tags,a.scanned_at,a.favorite"@, ",a."@, suffixes, 3, 170, 186);
    lemma_column(s, "SELECT a.id,a.path,a.name,a.ext,l.name,a.description,a.duration,a.rating,a.artist,a.album,a.genre,a.year,a.tags,a.scanned_at,a.favorite"@, ",a."@, suffixes, 4, 186, 204);
    lemma_column(s, "SELECT a.id,a.path,a.name,a.ext,l.name,a.description,a.duration,a.rating,a.artist,a.album,a.genre,a.year,a.tags,a.scanned_at,a.favorite"@, ",a."@, suffixes, 5, 204, 214);
    lemma_column(s, "SELECT a.id,a.path,a.name,a.ext,l.name,a.description,a.duration,a.rating,a.artist,a.album,a.genre,a.year,a.tags,a.scanned_at,a.favorite"@, ",a."@, suffixes, 6, 214, 227);
    lemma_column(s, "SELECT a.id,a.path,a.name,a.ext,l.name,a.description,a.duration,a.rating,a.artist,a.album,a.genre,a.year,a.tags,a.scanned_at,a.favorite"@, ",a."@, suffixes, 7, 227, 239);
    lemma_column(s, "SELECT a.id,a.path,a.name,a.ext,l.name,a.description,a.duration,a.rating,a.artist,a.album,a.genre,a.year,a.tags,a.scanned_at,a.favorite"@, ",a."@, suffixes, 8, 239, 251);
    lemma_column(s, "SELECT a.id,a.path,a.name,a.ext,l.name,a.description,a.duration,a.rating,a.artist,a.album,a.genre,a.year,a.tags,a.scanned_at,a.favorite"@, ",a."@, suffixes, 9, 251, 265);
    assert(s.subrange(265, 316) =~= " FROM audio a JOIN libraries l ON l.id=a.library_id"@);
    lemma_next_part(s, 265, 316, "SELECT a.id,a.path,a.name,a.ext,l.name,a.description,a.duration,a.rating,a.artist,a.album,a.genre,a.year,a.tags,a.scanned_at,a.favorite"@ + listed(",a."@, suffixes, 10), " FROM audio a JOIN libraries l ON l.id=a.library_id"@);
    assert(s.take(316) =~= s);
}

/// Entering a file fills its columns, those of a record last and in their order, from the
/// parameters in their places; for a file that is known every column but its number, its
/// path and what the user has set is new.
pub proof fn law_entering_fills_each_column_of_a_record()
    ensures
        PUT_AUDIO@ == "INSERT INTO audio(path,name,ext,library_id,description,duration,artist,album,genre,year,tags,scanned_at"@ + listed(
            ","@,
            seq![
                ""@,
                ""@,
                ""@,
                ""@,
                ""@,
                ""@,
                ""@,
                ""@,
                ""@,
                ""@,
            ],
            10,
        ) + ") VALUES(?1,?2,?3,?4,?5,?6,?7,?8,?9,?10,?11,?12,?13,?14,?15,?16,?17,?18,?19,?20,?21,?22) ON CONFLICT(path) DO UPDATE SET name=excluded.name,ext=excluded.ext,library_id=excluded.library_id,description=excluded.description,duration=excluded.duration,artist=excluded.artist,album=excluded.album,genre=excluded.genre,year=excluded.year,tags=excluded.tags,scanned_at=excluded.scanned_at"@ + listed(
            ","@,
            seq![
                "=excluded.cat_id"@,
                "=excluded.category"@,
                "=excluded.sub_category"@,
                "=excluded.user_category"@,
                "=excluded.vendor_category"@,
                "=excluded.fx_name"@,
                "=excluded.creator_id"@,
                "=excluded.source_id"@,
                "=excluded.user_data"@,
                "=excluded.ucs_library"@,
            ],
            10,
        ),
{
    let s = PUT_AUDIO@;
    reveal_strlit("");
    reveal_strlit(",");
    reveal_strlit("cat_id");
    reveal_strlit("fx_name");
    reveal_strlit("category");
    reveal_strlit("source_id");
    reveal_strlit("user_data");
    reveal_strlit("creator_id");
    reveal_strlit("ucs_library");
    reveal_strlit("sub_category");
    reveal_strlit("user_category");
    reveal_strlit("vendor_category");
    reveal_strlit("=excluded.cat_id");
    reveal_strlit("=excluded.fx_name");
    reveal_strlit("=excluded.category");
    reveal_strlit("=excluded.source_id");
    reveal_strlit("=excluded.user_data");
    reveal_strlit("=excluded.creator_id");
    reveal_strlit("=excluded.ucs_library");
    reveal_strlit("=excluded.sub_category");
    reveal_strlit("=excluded.user_category");
    reveal_strlit("=excluded.vendor_category");
    reveal_strlit("INSERT INTO audio(path,name,ext,library_id,description,duration,artist,album,genre,year,tags,scanned_at");
    reveal_strlit(") VALUES(?1,?2,?3,?4,?5,?6,?7,?8,?9,?10,?11,?12,?13,?14,?15,?16,?17,?18,?19,?20,?21,?22) ON CONFLICT(path) DO UPDATE SET name=excluded.name,ext=excluded.ext,library_id=excluded.library_id,description=excluded.description,duration=excluded.duration,artist=excluded.artist,album=excluded.album,genre=excluded.genre,year=excluded.year,tags=excluded.tags,scanned_at=excluded.scanned_at");
    reveal_strlit("INSERT INTO audio(path,name,ext,library_id,description,duration,artist,album,genre,year,tags,scanned_at,cat_id,category,sub_category,user_category,vendor_category,fx_name,creator_id,source_id,user_data,ucs_library) VALUES(?1,?2,?3,?4,?5,?6,?7,?8,?9,?10,?11,?12,?13,?14,?15,?16,?17,?18,?19,?20,?21,?22) ON CONFLICT(path) DO UPDATE SET name=excluded.name,ext=excluded.ext,library_id=excluded.library_id,description=excluded.description,duration=excluded.duration,artist=excluded.artist,album=excluded.album,genre=excluded.genre,year=excluded.year,tags=excluded.tags,scanned_at=excluded.scanned_at,cat_id=excluded.cat_id,category=excluded.category,sub_category=excluded.sub_category,user_category=excluded.user_category,vendor_category=excluded.vendor_category,fx_name=excluded.fx_name,creator_id=excluded.creator_id,source_id=excluded.source_id,user_data=excluded.user_data,ucs_library=excluded.ucs_library");
    let one = seq![
        ""@,
        ""@,
        ""@,
        ""@,
        ""@,
        ""@,
        ""@,
        ""@,
        ""@,
        ""@,
    ];
    let two = seq![
        "=excluded.cat_id"@,
        "=excluded.category"@,
        "=excluded.sub_category"@,
        "=excluded.user_category"@,
        "=excluded.vendor_category"@,
        "=excluded.fx_name"@,
        "=excluded.creator_id"@,
        "=excluded.source_id"@,
        "=excluded.user_data"@,
        "=excluded.ucs_library"@,
    ];
    let head = "INSERT INTO audio(path,name,ext,library_id,description,duration,artist,album,genre,year,tags,scanned_at"@;
    let middle = ") VALUES(?1,?2,?3,?4,?5,?6,?7,?8,?9,?10,?11,?12,?13,?14,?15,?16,?17,?18,?19,?20,?21,?22) ON CONFLICT(path) DO UPDATE SET name=excluded.name,ext=excluded.ext,library_id=excluded.library_id,description=excluded.description,duration=excluded.duration,artist=excluded.artist,album=excluded.album,genre=excluded.genre,year=excluded.year,tags=excluded.tags,scanned_at=excluded.scanned_at"@;
    assert(s.subrange(0, 103) =~= head);
    assert(s.take(103) =~= s.subrange(0, 103));
    assert(head + listed(","@, one, 0) =~= head);
    lemma_column(s, head, ","@, one, 0, 103, 110);
    lemma_column(s, head, ","@, one, 1, 110, 119);
    lemma_column(s, head, ","@, one, 2, 119, 132);
    lemma_column(s, head, ","@, one, 3, 132, 146);
    lemma_column(s, head, ","@, one, 4, 146, 162);
    lemma_column(s, head, ","@, one, 5, 162, 170);
    lemma_column(s, head, ","@, one, 6, 170, 181);
    lemma_column(s, head, ","@, one, 7, 181, 191);
    lemma_column(s, head, ","@, one, 8, 191, 201);
    lemma_column(s, head, ","@, one, 9, 201, 213);
    assert(s.subrange(213, 594) =~= middle);
    lemma_next_part(s, 213, 594, head + listed(","@, one, 10), middle);
    let front = head + listed(","@, one, 10) + middle;
    assert(front + listed(","@, two, 0) =~= front);
    lemma_column(s, front, ","@, two, 0, 594, 617);
    lemma_column(s, front, ","@, two, 1, 617, 644);
    lemma_column(s, front, ","@, two, 2, 644, 679);
    lemma_column(s, front, ","@, two, 3, 679, 716);
    lemma_column(s, front, ","@, two, 4, 716, 757);
    lemma_column(s, front, ","@, two, 5, 757, 782);
    lemma_column(s, front, ","@, two, 6, 782, 813);
    lemma_column(s, front, ","@, two, 7, 813, 842);
    lemma_column(s, front, ","@, two, 8, 842, 871);
    lemma_column(s, front, ","@, two, 9, 871, 904);
    assert(s.take(904) =~= s);
}

/// A new database has a table of libraries and one of files, each with its paths told
/// apart; removing a library removes its files.
pub proof fn law_tables_of_the_index()
    ensures
        SCHEMA@ == "PRAGMA journal_mode=WAL; "@
            + "PRAGMA foreign_keys=ON; "@
            + "CREATE TABLE IF NOT EXISTS libraries(id INTEGER PRIMARY KEY,path TEXT NOT NULL UNIQUE,name TEXT NOT NULL,added_at INTEGER NOT NULL); "@
            + "CREATE TABLE IF NOT EXISTS audio(id INTEGER PRIMARY KEY,path TEXT NOT NULL UNIQUE,name TEXT NOT NULL,ext TEXT NOT NULL,library_id INTEGER NOT NULL,description TEXT NOT NULL DEFAULT '',duration REAL NOT NULL DEFAULT 0,rating REAL NOT NULL DEFAULT 0,artist TEXT NOT NULL DEFAULT '',album TEXT NOT NULL DEFAULT '',genre TEXT NOT NULL DEFAULT '',year TEXT NOT NULL DEFAULT '',tags TEXT NOT NULL DEFAULT '',scanned_at INTEGER NOT NULL,playlist INTEGER NOT NULL DEFAULT 0,favorite INTEGER NOT NULL DEFAULT 0,FOREIGN KEY(library_id) REFERENCES libraries(id) ON DELETE CASCADE); "@
            + "CREATE INDEX IF NOT EXISTS idx_audio_name ON audio(name); "@
            + "CREATE INDEX IF NOT EXISTS idx_audio_scan ON audio(scanned_at);"@,
{
    let s = SCHEMA@;
    reveal_strlit("PRAGMA journal_mode=WAL; PRAGMA foreign_keys=ON; CREATE TABLE IF NOT EXISTS libraries(id INTEGER PRIMARY KEY,path TEXT NOT NULL UNIQUE,name TEXT NOT NULL,added_at INTEGER NOT NULL); CREATE TABLE IF NOT EXISTS audio(id INTEGER PRIMARY KEY,path TEXT NOT NULL UNIQUE,name TEXT NOT NULL,ext TEXT NOT NULL,library_id INTEGER NOT NULL,description TEXT NOT NULL DEFAULT '',duration REAL NOT NULL DEFAULT 0,rating REAL NOT NULL DEFAULT 0,artist TEXT NOT NULL DEFAULT '',album TEXT NOT NULL DEFAULT '',genre TEXT NOT NULL DEFAULT '',year TEXT NOT NULL DEFAULT '',tags TEXT NOT NULL DEFAULT '',scanned_at INTEGER NOT NULL,playlist INTEGER NOT NULL DEFAULT 0,favorite INTEGER NOT NULL DEFAULT 0,FOREIGN KEY(library_id) REFERENCES libraries(id) ON DELETE CASCADE); CREATE INDEX IF NOT EXISTS idx_audio_name ON audio(name); CREATE INDEX IF NOT EXISTS idx_audio_scan ON audio(scanned_at);");
    reveal_strlit("PRAGMA journal_mode=WAL; ");
    reveal_strlit("PRAGMA foreign_keys=ON; ");
    reveal_strlit("CREATE TABLE IF NOT EXISTS libraries(id INTEGER PRIMARY KEY,path TEXT NOT NULL UNIQUE,name TEXT NOT NULL,added_at INTEGER NOT NULL); ");
    reveal_strlit("CREATE TABLE IF NOT EXISTS audio(id INTEGER PRIMARY KEY,path TEXT NOT NULL UNIQUE,name TEXT NOT NULL,ext TEXT NOT NULL,library_id INTEGER NOT NULL,description TEXT NOT NULL DEFAULT '',duration REAL NOT NULL DEFAULT 0,rating REAL NOT NULL DEFAULT 0,artist TEXT NOT NULL DEFAULT '',album TEXT NOT NULL DEFAULT '',genre TEXT NOT NULL DEFAULT '',year TEXT NOT NULL DEFAULT '',tags TEXT NOT NULL DEFAULT '',scanned_at INTEGER NOT NULL,playlist INTEGER NOT NULL DEFAULT 0,favorite INTEGER NOT NULL DEFAULT 0,FOREIGN KEY(library_id) REFERENCES libraries(id) ON DELETE CASCADE); ");
    reveal_strlit("CREATE INDEX IF NOT EXISTS idx_audio_name ON audio(name); ");
    reveal_strlit("CREATE INDEX IF NOT EXISTS idx_audio_scan ON audio(scanned_at);");
    assert(s.take(25) =~= "PRAGMA journal_mode=WAL; "@);
    assert(s.subrange(25, 49) =~= "PRAGMA foreign_keys=ON; "@);
    lemma_next_part(s, 25, 49, "PRAGMA journal_mode=WAL; "@, "PRAGMA foreign_keys=ON; "@);
    assert(s.subrange(49, 182) =~= "CREATE TABLE IF NOT EXISTS libraries(id INTEGER PRIMARY KEY,path TEXT NOT NULL UNIQUE,name TEXT NOT NULL,added_at INTEGER NOT NULL); "@);
    lemma_next_part(s, 49, 182, "PRAGMA journal_mode=WAL; "@ + "PRAGMA foreign_keys=ON; "@, "CREATE TABLE IF NOT EXISTS libraries(id INTEGER PRIMARY KEY,path TEXT NOT NULL UNIQUE,name TEXT NOT NULL,added_at INTEGER NOT NULL); "@);
    assert(s.subrange(182, 753) =~= "CREATE TABLE IF NOT EXISTS audio(id INTEGER PRIMARY KEY,path TEXT NOT NULL UNIQUE,name TEXT NOT NULL,ext TEXT NOT NULL,library_id INTEGER NOT NULL,description TEXT NOT NULL DEFAULT '',duration REAL NOT NULL DEFAULT 0,rating REAL NOT NULL DEFAULT 0,artist TEXT NOT NULL DEFAULT '',album TEXT NOT NULL DEFAULT '',genre TEXT NOT NULL DEFAULT '',year TEXT NOT NULL DEFAULT '',tags TEXT NOT NULL DEFAULT '',scanned_at INTEGER NOT NULL,playlist INTEGER NOT NULL DEFAULT 0,favorite INTEGER NOT NULL DEFAULT 0,FOREIGN KEY(library_id) REFERENCES libraries(id) ON DELETE CASCADE); "@);
    lemma_next_part(s, 182, 753, "PRAGMA journal_mode=WAL; "@ + "PRAGMA foreign_keys=ON; "@ + "CREATE TABLE IF NOT EXISTS libraries(id INTEGER PRIMARY KEY,path TEXT NOT NULL UNIQUE,name TEXT NOT NULL,added_at INTEGER NOT NULL); "@, "CREATE TABLE IF NOT EXISTS audio(id INTEGER PRIMARY KEY,path TEXT NOT NULL UNIQUE,name TEXT NOT NULL,ext TEXT NOT NULL,library_id INTEGER NOT NULL,description TEXT NOT NULL DEFAULT '',duration REAL NOT NULL DEFAULT 0,rating REAL NOT NULL DEFAULT 0,artist TEXT NOT NULL DEFAULT '',album TEXT NOT NULL DEFAULT '',genre TEXT NOT NULL DEFAULT '',year TEXT NOT NULL DEFAULT '',tags TEXT NOT NULL DEFAULT '',scanned_at INTEGER NOT NULL,playlist INTEGER NOT NULL DEFAULT 0,favorite INTEGER NOT NULL DEFAULT 0,FOREIGN KEY(library_id) REFERENCES libraries(id) ON DELETE CASCADE); "@);
    assert(s.subrange(753, 811) =~= "CREATE INDEX IF NOT EXISTS idx_audio_name ON audio(name); "@);
    lemma_next_part(s, 753, 811, "PRAGMA journal_mode=WAL; "@ + "PRAGMA foreign_keys=ON; "@ + "CREATE TABLE IF NOT EXISTS libraries(id INTEGER PRIMARY KEY,path TEXT NOT NULL UNIQUE,name TEXT NOT NULL,added_at INTEGER NOT NULL); "@ + "CREATE TABLE IF NOT EXISTS audio(id INTEGER PRIMARY KEY,path TEXT NOT NULL UNIQUE,name TEXT NOT NULL,ext TEXT NOT NULL,library_id INTEGER NOT NULL,description TEXT NOT NULL DEFAULT '',duration REAL NOT NULL DEFAULT 0,rating REAL NOT NULL DEFAULT 0,artist TEXT NOT NULL DEFAULT '',album TEXT NOT NULL DEFAULT '',genre TEXT NOT NULL DEFAULT '',year TEXT NOT NULL DEFAULT '',tags TEXT NOT NULL DEFAULT '',scanned_at INTEGER NOT NULL,playlist INTEGER NOT NULL DEFAULT 0,favorite INTEGER NOT NULL DEFAULT 0,FOREIGN KEY(library_id) REFERENCES libraries(id) ON DELETE CASCADE); "@, "CREATE INDEX IF NOT EXISTS idx_audio_name ON audio(name); "@);
    assert(s.subrange(811, 874) =~= "CREATE INDEX IF NOT EXISTS idx_audio_scan ON audio(scanned_at);"@);
    lemma_next_part(s, 811, 874, "PRAGMA journal_mode=WAL; "@ + "PRAGMA foreign_keys=ON; "@ + "CREATE TABLE IF NOT EXISTS libraries(id INTEGER PRIMARY KEY,path TEXT NOT NULL UNIQUE,name TEXT NOT NULL,added_at INTEGER NOT NULL); "@ + "CREATE TABLE IF NOT EXISTS audio(id INTEGER PRIMARY KEY,path TEXT NOT NULL UNIQUE,name TEXT NOT NULL,ext TEXT NOT NULL,library_id INTEGER NOT NULL,description TEXT NOT NULL DEFAULT '',duration REAL NOT NULL DEFAULT 0,rating REAL NOT NULL DEFAULT 0,artist TEXT NOT NULL DEFAULT '',album TEXT NOT NULL DEFAULT '',genre TEXT NOT NULL DEFAULT '',year TEXT NOT NULL DEFAULT '',tags TEXT NOT NULL DEFAULT '',scanned_at INTEGER NOT NULL,playlist INTEGER NOT NULL DEFAULT 0,favorite INTEGER NOT NULL DEFAULT 0,FOREIGN KEY(library_id) REFERENCES libraries(id) ON DELETE CASCADE); "@ + "CREATE INDEX IF NOT EXISTS idx_audio_name ON audio(name); "@, "CREATE INDEX IF NOT EXISTS idx_audio_scan ON audio(scanned_at);"@);
    assert(s.take(874) =~= s);
}

/// The other statements: a library is entered once for its path and keeps its number, a
/// purge removes the files of one library that are older than a time, and a file is found,
/// changed and removed by its number alone.
pub proof fn law_other_statements()
    ensures
        PUT_LIBRARY@ == "INSERT INTO libraries(path,name,added_at) VALUES(?1,?2,?3) ON CONFLICT(path) DO UPDATE SET name=excluded.name"@,
        FIND_LIBRARY@ == "SELECT id FROM libraries WHERE path=?1"@,
        PURGE_AUDIO@ == "DELETE FROM audio WHERE library_id=?1 AND scanned_at<?2"@,
        DROP_LIBRARY@ == "DELETE FROM libraries WHERE id=?1"@,
        LIST_LIBRARIES@ == "SELECT id,path,name FROM libraries ORDER BY name COLLATE NOCASE"@,
        FIND_AUDIO@ == "SELECT path FROM audio WHERE id=?1"@,
        SET_PLAYLIST@ == "UPDATE audio SET playlist=?1 WHERE id=?2"@,
        DROP_AUDIO@ == "DELETE FROM audio WHERE id=?1"@,
        LIST_COLUMNS@ == "PRAGMA table_info(audio)"@,
        CHECKPOINT@ == "PRAGMA wal_checkpoint(FULL)"@,
        FIND_DATABASE@ == "SELECT file FROM pragma_database_list WHERE name='main'"@,
{
}

/// A view of the files has the condition of its name; every other name shows all files.
pub proof fn law_views_have_their_conditions(view: Seq<char>)
    ensures
        view_condition("playlist"@) == " WHERE a.playlist=1"@,
        view_condition("favorites"@) == " WHERE a.favorite=1"@,
        view_condition("recent"@) == " WHERE a.scanned_at >= strftime('%s','now')-604800"@,
        view != "playlist"@ && view != "favorites"@ && view != "recent"@ ==> view_condition(
            view,
        ).len() == 0,
{
    reveal_strlit("playlist");
    reveal_strlit("favorites");
    reveal_strlit("recent");
    assert("playlist"@.len() == 8 && "favorites"@.len() == 9 && "recent"@.len() == 6);
}

/// A statement that adds a column names it and makes its texts empty.
pub proof fn law_added_columns_hold_empty_texts(name: Seq<char>)
    ensures
        add_column(name) == "ALTER TABLE audio ADD COLUMN "@ + name
            + " TEXT NOT NULL DEFAULT ''"@,
{
}

/// The primary tag of a file goes before its first, which counts if there is no primary
/// one.
pub proof fn law_primary_tag_goes_first(primary: TagText, first: Option<TagText>, text: String)
    ensures
        leading_tag(Some(primary), first) == Some(primary),
        leading_tag(None, first) == first,
        text_or_empty(Some(text)) == text@,
        text_or_empty(None).len() == 0,
{
}

/// A time stamp is the number of seconds since the epoch; a clock before the epoch shows
/// the epoch.
pub proof fn law_stamp_is_the_number_of_seconds(seconds: u64)
    ensures
        seconds <= i64::MAX ==> stamp_of(Some(seconds)) == seconds,
        stamp_of(None) == 0,
{
}

} // verus!
