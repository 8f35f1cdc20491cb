use lings::catalog::{FIND_LIBRARY, PURGE_AUDIO, PUT_AUDIO, PUT_LIBRARY, SCHEMA, missing_columns};
use lings::jobs::{Batch, BatchAction, CopyAction, CopyEvent, CopyJob, UpdateEvent, UpdateJob, UpdateStage};
use lings::library_scan::LibraryScan;
use lings::metadata::{audio_record, AudioRecord};
use lings::scan::{
    cancel_scan, file_entry, finish_scan, get_scan_status, start_scan, Entry, Outcome, ScanAction, ScanEvent,
    ScanJob, ScanStatus, Stage,
};
use lings::tags::read_generic;
use rusqlite::params_from_iter;
use rusqlite::types::Value;
use std::path::Path;

fn file(path: &str, name: &str) -> Entry {
    Entry::File { path: path.to_string(), name: Some(name.to_string()) }
}

fn audio_values(r: AudioRecord, library: i64, stamp: i64) -> Vec<Value> {
    vec![
        r.path.into(),
        r.name.into(),
        r.ext.into(),
        library.into(),
        r.tags.description.into(),
        0.0f64.into(),
        r.tags.artist.into(),
        r.tags.album.into(),
        r.tags.genre.into(),
        r.tags.year.into(),
        r.tags.tags.into(),
        stamp.into(),
        r.ucs.cat_id.into(),
        r.ucs.category.into(),
        r.ucs.sub_category.into(),
        r.ucs.user_category.into(),
        r.ucs.vendor_category.into(),
        r.ucs.fx_name.into(),
        r.ucs.creator_id.into(),
        r.ucs.source_id.into(),
        r.ucs.user_data.into(),
        r.ucs.ucs_library.into(),
    ]
}

#[test]
fn cancelled_scan_rolls_back_every_change() {
    let suffix = "1";
    let root = format!("lings_cancel_{suffix}");
    let mut entries: Vec<String> = (0..800).map(|i| format!("{root}/AIRBlow_test-{i}.wav")).collect();
    entries.push(format!("{root}/test.db"));
    let mut db = rusqlite::Connection::open_in_memory().unwrap();
    db.execute_batch("CREATE TABLE libraries(id INTEGER PRIMARY KEY,path TEXT UNIQUE,name TEXT,added_at INTEGER);CREATE TABLE audio(id INTEGER PRIMARY KEY,path TEXT UNIQUE,name TEXT,ext TEXT,library_id INTEGER,description TEXT DEFAULT '',duration REAL DEFAULT 0,rating REAL DEFAULT 0,artist TEXT DEFAULT '',album TEXT DEFAULT '',genre TEXT DEFAULT '',year TEXT DEFAULT '',tags TEXT DEFAULT '',scanned_at INTEGER,playlist INTEGER DEFAULT 0,favorite INTEGER DEFAULT 0,cat_id TEXT DEFAULT '',category TEXT DEFAULT '',sub_category TEXT DEFAULT '',user_category TEXT DEFAULT '',vendor_category TEXT DEFAULT '',fx_name TEXT DEFAULT '',creator_id TEXT DEFAULT '',source_id TEXT DEFAULT '',user_data TEXT DEFAULT '',ucs_library TEXT DEFAULT '',FOREIGN KEY(library_id) REFERENCES libraries(id) ON DELETE CASCADE);").unwrap();
    let mut status = ScanStatus::default();
    let mut job = ScanJob::new(&root);
    let mut walked = 0;
    let mut seen = 0;
    {
        let mut tx = None;
        let conn = &mut db;
        let mut conn = Some(conn);
        loop {
            let event = match job.action() {
                ScanAction::CheckRoot => ScanEvent::Root { is_dir: true },
                ScanAction::NextEntry => {
                    if walked < entries.len() {
                        let path = &entries[walked];
                        walked += 1;
                        ScanEvent::Entry { cancelled: false, entry: file_entry(Path::new(path)) }
                    } else {
                        ScanEvent::WalkEnded
                    }
                }
                ScanAction::OpenDatabase => ScanEvent::Opened(true),
                ScanAction::BeginTransaction => {
                    tx = conn.take().unwrap().transaction().ok();
                    ScanEvent::Begun(tx.as_ref().map(|_| 5))
                }
                ScanAction::RegisterLibrary { stamp } => {
                    let r = tx.as_ref().unwrap().execute(PUT_LIBRARY, (&root, "name", stamp));
                    ScanEvent::Registered(r.map(|_| ()).map_err(|e| e.to_string()))
                }
                ScanAction::FindLibrary => {
                    let r = tx.as_ref().unwrap().query_row(FIND_LIBRARY, [&root], |r| r.get(0));
                    ScanEvent::Found(r.map_err(|e| e.to_string()))
                }
                ScanAction::ReadCancel => {
                    if status.phase == "scanning" && status.current > 0 {
                        seen += 1;
                    }
                    ScanEvent::Cancel(seen > 400)
                }
                ScanAction::IndexFile { index, library, stamp } => {
                    let path = job.files[index].clone();
                    let record =
                        audio_record(Path::new(&path), read_generic(None, None), Some(b"not-a-wave"));
                    assert_eq!(record.ucs.cat_id, "AIRBlow");
                    let row = audio_values(record, library, stamp);
                    let r = tx.as_ref().unwrap().execute(PUT_AUDIO, params_from_iter(row));
                    ScanEvent::Indexed(r.map(|_| ()).map_err(|e| e.to_string()))
                }
                ScanAction::PurgeStale { library, stamp } => {
                    let r = tx.as_ref().unwrap().execute(PURGE_AUDIO, (library, stamp));
                    ScanEvent::Purged(r.map(|_| ()).map_err(|e| e.to_string()))
                }
                ScanAction::Commit => {
                    let r = tx.take().unwrap().commit();
                    ScanEvent::Committed(r.map_err(|e| e.to_string()))
                }
                ScanAction::Stop => break,
            };
            job.step(&mut status, event);
        }
        drop(tx);
    }
    let audio: i64 = db.query_row("SELECT count(*) FROM audio", [], |r| r.get(0)).unwrap();
    let libs: i64 = db.query_row("SELECT count(*) FROM libraries", [], |r| r.get(0)).unwrap();
    assert_eq!((audio, libs), (0, 0));
    assert_eq!(status.phase, "cancelled");
    assert_eq!(status.current, 401);
    assert_eq!(status.total, 800);
    assert!(!status.running);
}

#[test]
fn a_scan_starts_once() {
    let mut status = ScanStatus::default();
    assert_eq!(status.phase, "idle");
    let mut cancel = false;
    assert!(!cancel_scan(&status, &mut cancel));
    assert!(!cancel);
    assert_eq!(start_scan(&mut status, &mut cancel, "/a"), Ok(()));
    assert!(cancel_scan(&status, &mut cancel));
    assert!(cancel);
    assert_eq!(
        start_scan(&mut status, &mut cancel, "/b"),
        Err("A scan is already running".to_string())
    );
    assert!(cancel);
    let copy = get_scan_status(&status);
    assert_eq!((copy.phase.as_str(), copy.path.as_str(), copy.total), ("counting", "/a", 0));
    finish_scan(&mut status, "error", "why".to_string());
    assert_eq!((status.running, status.phase.as_str(), status.message.as_str()), (false, "error", "why"));
    assert_eq!(start_scan(&mut status, &mut cancel, "/b"), Ok(()));
    assert_eq!(status.message, "");
    assert!(!cancel);
}

fn scanning() -> (ScanJob, ScanStatus) {
    let mut status = ScanStatus::default();
    start_scan(&mut status, &mut false, "/s").unwrap();
    let mut job = ScanJob::new("/s");
    job.step(&mut status, ScanEvent::Root { is_dir: true });
    for entry in [
        Entry::Unreadable,
        Entry::NotAFile,
        file("/s/a.WAV", "a.WAV"),
        file("/s/b.txt", "b.txt"),
        Entry::File { path: "/s/..".to_string(), name: None },
        file("/s/c.mp3", "c.mp3"),
    ] {
        job.step(&mut status, ScanEvent::Entry { cancelled: false, entry });
    }
    assert_eq!((status.phase.as_str(), status.current, status.path.as_str()), ("counting", 2, "/s/c.mp3"));
    job.step(&mut status, ScanEvent::WalkEnded);
    assert_eq!((status.phase.as_str(), status.current, status.total, status.path.as_str()), ("scanning", 0, 2, "/s"));
    (job, status)
}

#[test]
fn a_whole_scan_completes() {
    let (mut job, mut status) = scanning();
    job.step(&mut status, ScanEvent::Opened(true));
    job.step(&mut status, ScanEvent::Begun(Some(9)));
    assert_eq!(job.action(), ScanAction::RegisterLibrary { stamp: 9 });
    job.step(&mut status, ScanEvent::Registered(Ok(())));
    job.step(&mut status, ScanEvent::Found(Ok(3)));
    for i in 0..2 {
        assert_eq!(job.action(), ScanAction::ReadCancel);
        job.step(&mut status, ScanEvent::Cancel(false));
        assert_eq!(job.action(), ScanAction::IndexFile { index: i, library: 3, stamp: 9 });
        job.step(&mut status, ScanEvent::Indexed(Ok(())));
        assert_eq!(status.current, i + 1);
    }
    job.step(&mut status, ScanEvent::Cancel(false));
    assert_eq!(job.action(), ScanAction::PurgeStale { library: 3, stamp: 9 });
    job.step(&mut status, ScanEvent::Purged(Ok(())));
    assert_eq!(job.action(), ScanAction::Commit);
    job.step(&mut status, ScanEvent::Committed(Ok(())));
    assert_eq!(job.action(), ScanAction::Stop);
    assert_eq!(job.stage, Stage::Over(Outcome::Completed));
    assert_eq!((status.phase.as_str(), status.message.as_str()), ("completed", "2"));
    job.step(&mut status, ScanEvent::Cancel(true));
    assert_eq!(status.phase, "completed");
}

fn failing(events: Vec<ScanEvent>) -> String {
    let (mut job, mut status) = scanning();
    for e in events {
        job.step(&mut status, e);
    }
    assert_eq!(job.stage, Stage::Over(Outcome::Failed));
    assert_eq!(status.phase, "error");
    status.message
}

#[test]
fn every_failure_ends_a_scan_with_its_message() {
    let no = || Err("no".to_string());
    let mut status = ScanStatus::default();
    let mut job = ScanJob::new("/s");
    job.step(&mut status, ScanEvent::Root { is_dir: false });
    assert_eq!((status.phase.as_str(), status.message.as_str()), ("error", "Folder does not exist"));
    assert_eq!(failing(vec![ScanEvent::Opened(false)]), "Cannot open database");
    assert_eq!(failing(vec![ScanEvent::Opened(true), ScanEvent::Begun(None)]), "Cannot begin database transaction");
    assert_eq!(failing(vec![ScanEvent::Opened(true), ScanEvent::Begun(Some(1)), ScanEvent::Registered(no())]), "no");
    assert_eq!(
        failing(vec![ScanEvent::Opened(true), ScanEvent::Begun(Some(1)), ScanEvent::Registered(Ok(())), ScanEvent::Found(Err("gone".to_string()))]),
        "gone"
    );
    let start = || {
        vec![ScanEvent::Opened(true), ScanEvent::Begun(Some(1)), ScanEvent::Registered(Ok(())), ScanEvent::Found(Ok(1)), ScanEvent::Cancel(false)]
    };
    let mut events = start();
    events.push(ScanEvent::Indexed(no()));
    assert_eq!(failing(events), "no");
    let rest = || {
        let mut events = start();
        events.extend([ScanEvent::Indexed(Ok(())), ScanEvent::Cancel(false), ScanEvent::Indexed(Ok(())), ScanEvent::Cancel(false)]);
        events
    };
    let mut events = rest();
    events.push(ScanEvent::Purged(no()));
    assert_eq!(failing(events), "no");
    let mut events = rest();
    events.extend([ScanEvent::Purged(Ok(())), ScanEvent::Committed(no())]);
    assert_eq!(failing(events), "no");
}

#[test]
fn a_walk_can_be_cancelled() {
    let mut status = ScanStatus::default();
    start_scan(&mut status, &mut false, "/s").unwrap();
    let mut job = ScanJob::new("/s");
    job.step(&mut status, ScanEvent::WalkEnded);
    assert_eq!(job.stage, Stage::Root);
    job.step(&mut status, ScanEvent::Root { is_dir: true });
    job.step(&mut status, ScanEvent::Entry { cancelled: true, entry: file("/s/a.wav", "a.wav") });
    assert_eq!(job.stage, Stage::Over(Outcome::Cancelled));
    assert_eq!((status.phase.as_str(), status.message.as_str(), status.running), ("cancelled", "", false));
}

#[test]
fn a_library_scan_counts_its_files() {
    let mut scan = LibraryScan::new("/s", 4);
    scan.step(ScanEvent::Root { is_dir: true });
    assert_eq!(scan.action(), ScanAction::RegisterLibrary { stamp: 4 });
    scan.step(ScanEvent::Registered(Ok(())));
    scan.step(ScanEvent::Found(Ok(2)));
    scan.step(ScanEvent::Entry { cancelled: false, entry: file("/s/x.txt", "x.txt") });
    assert_eq!(scan.action(), ScanAction::NextEntry);
    scan.step(ScanEvent::Entry { cancelled: false, entry: file("/s/x.wav", "x.wav") });
    assert_eq!(scan.action(), ScanAction::IndexFile { index: 0, library: 2, stamp: 4 });
    assert_eq!(scan.path, "/s/x.wav");
    scan.step(ScanEvent::Indexed(Ok(())));
    scan.step(ScanEvent::WalkEnded);
    assert_eq!(scan.result(), None);
    scan.step(ScanEvent::Purged(Ok(())));
    assert_eq!(scan.result(), Some(Ok(1)));
    let mut scan = LibraryScan::new("/s", 4);
    scan.step(ScanEvent::Root { is_dir: false });
    assert_eq!(scan.result(), Some(Err("Folder does not exist".to_string())));
    let mut scan = LibraryScan::new("/s", 4);
    scan.step(ScanEvent::Root { is_dir: true });
    scan.step(ScanEvent::Registered(Err("locked".to_string())));
    assert_eq!(scan.result(), Some(Err("locked".to_string())));
}

#[test]
fn files_are_copied_under_free_names() {
    let mut job = CopyJob::new(vec![1, 2, 3]);
    assert!(matches!(job.action(), CopyAction::MakeFolder));
    job.step(CopyEvent::MadeFolder(Ok(())));
    assert!(matches!(job.action(), CopyAction::Locate { id: 1 }));
    job.step(CopyEvent::Located(Ok(None)));
    assert!(matches!(job.action(), CopyAction::Locate { id: 2 }));
    job.step(CopyEvent::Located(Ok(Some("a.wav".to_string()))));
    job.step(CopyEvent::Exists(true));
    match job.action() {
        CopyAction::Probe { name } => assert_eq!(name, "a (2).wav"),
        _ => panic!("a name is tried"),
    }
    job.step(CopyEvent::Exists(false));
    match job.action() {
        CopyAction::Copy { name } => assert_eq!(name, "a (2).wav"),
        _ => panic!("a name is chosen"),
    }
    job.step(CopyEvent::Copied(Ok(())));
    job.step(CopyEvent::Located(Ok(Some("b".to_string()))));
    job.step(CopyEvent::Exists(false));
    assert_eq!(job.result(), None);
    job.step(CopyEvent::Copied(Ok(())));
    assert_eq!(job.result(), Some(Ok(2)));
    assert!(matches!(job.action(), CopyAction::Stop));
    let mut job = CopyJob::new(vec![]);
    job.step(CopyEvent::MadeFolder(Ok(())));
    assert_eq!(job.result(), Some(Ok(0)));
    let mut job = CopyJob::new(vec![1]);
    job.step(CopyEvent::MadeFolder(Err("full".to_string())));
    assert_eq!(job.result(), Some(Err("full".to_string())));
}

#[test]
fn a_batch_changes_all_files_or_none() {
    let mut batch = Batch::new(vec![5, 6]);
    assert_eq!(batch.action(), BatchAction::Begin);
    batch.step(Ok(()));
    assert_eq!(batch.action(), BatchAction::Change { id: 5 });
    batch.step(Ok(()));
    assert_eq!(batch.action(), BatchAction::Change { id: 6 });
    batch.step(Ok(()));
    assert_eq!(batch.action(), BatchAction::Commit);
    assert_eq!(batch.result(), None);
    batch.step(Ok(()));
    assert_eq!(batch.result(), Some(Ok(())));
    let mut batch = Batch::new(vec![5, 6]);
    batch.step(Ok(()));
    batch.step(Err("locked".to_string()));
    assert_eq!(batch.action(), BatchAction::Stop);
    assert_eq!(batch.result(), Some(Err("locked".to_string())));
    let mut batch = Batch::new(vec![]);
    batch.step(Ok(()));
    assert_eq!(batch.action(), BatchAction::Commit);
}

#[test]
fn only_wave_files_get_a_document() {
    let mut job = UpdateJob::new();
    job.step(UpdateEvent::Located(Ok(Some("a.Wave".to_string()))));
    job.step(UpdateEvent::Stored(Ok(())));
    job.step(UpdateEvent::Tagged);
    assert_eq!(job.stage, UpdateStage::Chunk);
    job.step(UpdateEvent::ChunkWritten(Err("RF64".to_string())));
    assert_eq!(job.result(), Some(Err("RF64".to_string())));
    let mut job = UpdateJob::new();
    job.step(UpdateEvent::Located(Ok(Some("a.mp3".to_string()))));
    job.step(UpdateEvent::Stored(Ok(())));
    assert_eq!(job.result(), None);
    job.step(UpdateEvent::Tagged);
    assert_eq!(job.result(), Some(Ok(())));
    let mut job = UpdateJob::new();
    job.step(UpdateEvent::Located(Err("no row".to_string())));
    assert_eq!(job.result(), Some(Err("no row".to_string())));
}

#[test]
fn both_scans_enter_the_same_files() {
    let entries = || {
        vec![file("/s/b.wav", "b.wav"), Entry::NotAFile, file("/s/c.txt", "c.txt"), file("/s/a.MID", "a.MID")]
    };
    let mut status = ScanStatus::default();
    let mut job = ScanJob::new("/s");
    job.step(&mut status, ScanEvent::Root { is_dir: true });
    for entry in entries() {
        job.step(&mut status, ScanEvent::Entry { cancelled: false, entry });
    }
    job.step(&mut status, ScanEvent::WalkEnded);
    job.step(&mut status, ScanEvent::Opened(true));
    job.step(&mut status, ScanEvent::Begun(Some(4)));
    job.step(&mut status, ScanEvent::Registered(Ok(())));
    job.step(&mut status, ScanEvent::Found(Ok(2)));
    while job.action() != ScanAction::Stop {
        let event = match job.action() {
            ScanAction::ReadCancel => ScanEvent::Cancel(false),
            ScanAction::IndexFile { .. } => ScanEvent::Indexed(Ok(())),
            ScanAction::PurgeStale { .. } => ScanEvent::Purged(Ok(())),
            _ => ScanEvent::Committed(Ok(())),
        };
        job.step(&mut status, event);
    }
    let mut scan = LibraryScan::new("/s", 4);
    let mut files = Vec::new();
    scan.step(ScanEvent::Root { is_dir: true });
    scan.step(ScanEvent::Registered(Ok(())));
    scan.step(ScanEvent::Found(Ok(2)));
    for entry in entries() {
        scan.step(ScanEvent::Entry { cancelled: false, entry });
        if let ScanAction::IndexFile { .. } = scan.action() {
            files.push(scan.path.clone());
            scan.step(ScanEvent::Indexed(Ok(())));
        }
    }
    scan.step(ScanEvent::WalkEnded);
    scan.step(ScanEvent::Purged(Ok(())));
    assert_eq!(job.files, files);
    assert_eq!(files, vec!["/s/b.wav".to_string(), "/s/a.MID".to_string()]);
    assert_eq!(scan.result(), Some(Ok(2)));
    assert_eq!((status.phase.as_str(), status.message.as_str()), ("completed", "2"));
}

#[test]
fn copies_overwrite_nothing() {
    let mut folder = vec!["a.wav".to_string(), "a (2).wav".to_string(), "b".to_string()];
    let before = folder.len();
    let mut job = CopyJob::new(vec![1, 1, 9, 2]);
    loop {
        let event = match job.action() {
            CopyAction::MakeFolder => CopyEvent::MadeFolder(Ok(())),
            CopyAction::Locate { id: 1 } => CopyEvent::located(Ok(Some(Path::new("/x/a.wav")))),
            CopyAction::Locate { id: 2 } => CopyEvent::located(Ok(Some(Path::new("/x/b")))),
            CopyAction::Locate { .. } => CopyEvent::located(Ok(None)),
            CopyAction::Probe { name } => CopyEvent::Exists(folder.contains(&name)),
            CopyAction::Copy { name } => {
                assert!(!folder.contains(&name));
                folder.push(name);
                CopyEvent::Copied(Ok(()))
            }
            CopyAction::Stop => break,
        };
        job.step(event);
    }
    assert_eq!(job.result(), Some(Ok(3)));
    assert_eq!(folder[before..], ["a (3).wav", "a (4).wav", "b (2)"]);
    assert!(matches!(CopyEvent::located(Err("no".to_string())), CopyEvent::Located(Err(e)) if e == "no"));
}

#[test]
fn a_file_is_located_by_its_path() {
    let mut job = UpdateJob::new();
    job.step(UpdateEvent::located(Ok(Path::new("/x/a.WAV"))));
    assert!(job.is_wave);
    let mut job = UpdateJob::new();
    job.step(UpdateEvent::located(Err("no row".to_string())));
    assert_eq!(job.result(), Some(Err("no row".to_string())));
}

#[test]
fn the_schema_takes_every_statement() {
    let db = rusqlite::Connection::open_in_memory().unwrap();
    db.execute_batch(SCHEMA).unwrap();
    for statement in missing_columns(&vec![]) {
        db.execute(&statement, []).unwrap();
    }
    db.execute(PUT_LIBRARY, ("/s", "s", 1)).unwrap();
    let id: i64 = db.query_row(FIND_LIBRARY, ["/s"], |r| r.get(0)).unwrap();
    let record = audio_record(Path::new("/s/A_b.wav"), read_generic(None, None), None);
    db.execute(PUT_AUDIO, params_from_iter(audio_values(record, id, 1))).unwrap();
    let n: i64 = db.query_row("SELECT count(*) FROM audio WHERE cat_id='A'", [], |r| r.get(0)).unwrap();
    assert_eq!(n, 1);
    assert_eq!(db.execute(PURGE_AUDIO, (id, 2)).unwrap(), 1);
}
