use std::collections::BTreeMap;

use fivewsdb::codec::encode_records;
use fivewsdb::db::{DbError, DbResult, FileOp, FiveWsDB, PAGE_SIZE};
use fivewsdb::entry::FiveWsEntry;
use fivewsdb::layout::{
    checkpoint_path, decimal, generation_from_meta, journal_path, meta_path, parse_generation,
    temp_path,
};
use fivewsdb::models::DbQuery;

const DIR: &str = "./tests/lidb";

/// Files kept in memory, standing in for the database directory.
#[derive(Default)]
struct MemFs {
    files: BTreeMap<String, String>,
    fail_writes: bool,
}

impl MemFs {
    fn has(&self, path: &str) -> bool {
        self.files.contains_key(path)
    }

    fn perform(&mut self, op: &FileOp) {
        match op {
            FileOp::WriteAtomic { path, temp, contents } => {
                self.files.insert(temp.clone(), contents.clone());
                let body = self.files.remove(temp).unwrap();
                self.files.insert(path.clone(), body);
            }
            FileOp::CreateEmpty { path } => {
                self.files.insert(path.clone(), String::new());
            }
            FileOp::Remove { path } => {
                self.files.remove(path);
            }
        }
    }
}

fn open(fs: &mut MemFs, dir: &str) -> DbResult<FiveWsDB> {
    let meta = meta_path(dir);
    let g = generation_from_meta(fs.files.get(&meta).map(|s| s.as_str()));
    if !fs.has(&meta) {
        fs.files.insert(meta, decimal(g));
    }
    let cp = checkpoint_path(dir, g);
    let jp = journal_path(dir, g);
    fs.files.entry(cp.clone()).or_default();
    fs.files.entry(jp.clone()).or_default();
    FiveWsDB::new(dir, g, &fs.files[&cp], &fs.files[&jp])
}

fn append(
    db: &mut FiveWsDB,
    fs: &mut MemFs,
    who: &str,
    what: &str,
    when: &str,
    place: &str,
    why: &str,
) -> DbResult<()> {
    let entry = FiveWsEntry::new(who, what, when, place, why);
    let line = db.journal_entry(&entry)?;
    let size = if fs.fail_writes {
        None
    } else {
        let journal = fs.files.get_mut(&journal_path(db.path(), db.checkpoint())).unwrap();
        journal.push_str(&line);
        Some(journal.len() as u64)
    };
    if db.update(entry, size)? {
        compact(db, fs)?;
    }
    Ok(())
}

fn compact(db: &mut FiveWsDB, fs: &mut MemFs) -> DbResult<()> {
    for op in db.create_checkpoint()? {
        fs.perform(&op);
    }
    db.finish_checkpoint()
}

fn all_lines(db: &FiveWsDB) -> Vec<String> {
    db.read("*").iter().map(|e| e.to_string()).collect()
}

#[test]
fn test_database_update() {
    let mut fs = MemFs::default();
    let mut db = open(&mut fs, DIR).unwrap();

    append(&mut db, &mut fs, "Ingi", "Job start", "2020-20-12", "", "").unwrap();
    append(&mut db, &mut fs, "IT guy", "Job start", "2020-20-12", "", "").unwrap();
    append(&mut db, &mut fs, "Office guy", "Job start", "2020-20-12", "", "").unwrap();

    let entries = db.read("Ingi");
    assert_eq!(entries.len(), 1);
    let entry = entries[0].clone();
    assert_eq!(entry.to_string(), "Ingi|Job start|2020-20-12||");
}

#[test]
fn test_checkpoint_manual_creation() {
    let mut fs = MemFs::default();
    let mut db = open(&mut fs, DIR).unwrap();
    append(&mut db, &mut fs, "ingi", "", "", "", "").unwrap();

    compact(&mut db, &mut fs).unwrap();

    assert_eq!(fs.has(&format!("{}/checkpoint1.lidb", DIR)), true);
    assert_eq!(fs.has(&format!("{}/log1.lidb", DIR)), true);
    assert_eq!(fs.has(&format!("{}/checkpoint0.lidb", DIR)), false);
    assert_eq!(fs.has(&format!("{}/log0.lidb", DIR)), false);
}

#[test]
fn test_checkpoint_automatic_creation() {
    let mut fs = MemFs::default();
    let mut db = open(&mut fs, DIR).unwrap();

    for _ in 0..1000 {
        append(&mut db, &mut fs, "", "", "", "", "").unwrap();
    }

    assert_eq!(fs.has(&format!("{}/checkpoint1.lidb", DIR)), true);
    assert_eq!(fs.has(&format!("{}/log1.lidb", DIR)), true);
    assert_eq!(fs.has(&format!("{}/checkpoint0.lidb", DIR)), false);
    assert_eq!(fs.has(&format!("{}/log0.lidb", DIR)), false);
}

#[test]
fn scenario_fresh_directory_single_append() {
    let mut fs = MemFs::default();
    let mut db = open(&mut fs, DIR).unwrap();
    append(&mut db, &mut fs, "A", "B", "C", "D", "E").unwrap();
    assert_eq!(all_lines(&db), vec!["A|B|C|D|E".to_string()]);
}

#[test]
fn scenario_query_returns_only_matching_record() {
    let mut fs = MemFs::default();
    let mut db = open(&mut fs, DIR).unwrap();
    append(&mut db, &mut fs, "ingi", "", "", "", "").unwrap();
    append(&mut db, &mut fs, "other", "", "", "", "").unwrap();
    let found: Vec<String> = db.read("ingi").iter().map(|e| e.to_string()).collect();
    assert_eq!(found, vec!["ingi||||".to_string()]);
}

#[test]
fn scenario_compaction_past_threshold() {
    let mut fs = MemFs::default();
    let mut db = open(&mut fs, DIR).unwrap();
    // Each journal line is "x||||\n": six bytes.
    let mut before = Vec::new();
    let mut n = 0u64;
    while (n + 1) * 6 < PAGE_SIZE {
        append(&mut db, &mut fs, "x", "", "", "", "").unwrap();
        n += 1;
        before = all_lines(&db);
    }
    assert_eq!(db.checkpoint(), 0);
    assert!(fs.has(&format!("{}/checkpoint0.lidb", DIR)));
    append(&mut db, &mut fs, "x", "", "", "", "").unwrap();
    assert_eq!(db.checkpoint(), 1);
    assert!(fs.has(&format!("{}/checkpoint1.lidb", DIR)));
    assert!(fs.has(&format!("{}/log1.lidb", DIR)));
    assert!(!fs.has(&format!("{}/checkpoint0.lidb", DIR)));
    assert!(!fs.has(&format!("{}/log0.lidb", DIR)));
    assert_eq!(fs.files[&meta_path(DIR)], "1");
    let after = all_lines(&db);
    assert_eq!(after.len(), before.len() + 1);
    assert_eq!(&after[..before.len()], &before[..]);
    assert_eq!(fs.files[&format!("{}/log1.lidb", DIR)], "");
}

#[test]
fn scenario_case_insensitive_query() {
    let mut fs = MemFs::default();
    let mut db = open(&mut fs, DIR).unwrap();
    append(&mut db, &mut fs, "Alice", "Access Denied", "t", "System::Login", "bad password").unwrap();
    let line = "Alice|Access Denied|t|System::Login|bad password".to_string();
    for p in ["alice", "DENIED", "login"] {
        let found: Vec<String> = db.read(p).iter().map(|e| e.to_string()).collect();
        assert_eq!(found, vec![line.clone()]);
    }
    assert!(db.read("syste::login").is_empty());
}

#[test]
fn append_survives_restart_without_compaction() {
    let mut fs = MemFs::default();
    let mut db = open(&mut fs, DIR).unwrap();
    append(&mut db, &mut fs, "a", "b", "c", "d", "e").unwrap();
    append(&mut db, &mut fs, "f", "g", "h", "i", "j").unwrap();
    assert_eq!(db.checkpoint(), 0);
    let again = open(&mut fs, DIR).unwrap();
    assert_eq!(all_lines(&again), all_lines(&db));
    assert_eq!(all_lines(&again), vec!["a|b|c|d|e".to_string(), "f|g|h|i|j".to_string()]);
}

#[test]
fn compaction_keeps_every_record() {
    let mut fs = MemFs::default();
    let mut db = open(&mut fs, DIR).unwrap();
    for i in 0..5 {
        append(&mut db, &mut fs, &format!("w{}", i), "x", "y", "z", "q").unwrap();
    }
    let before = all_lines(&db);
    compact(&mut db, &mut fs).unwrap();
    assert_eq!(all_lines(&db), before);
    append(&mut db, &mut fs, "late", "", "", "", "").unwrap();
    let reopened = open(&mut fs, DIR).unwrap();
    assert_eq!(reopened.checkpoint(), 1);
    let mut expected = before.clone();
    expected.push("late||||".to_string());
    assert_eq!(all_lines(&reopened), expected);
}

#[test]
fn recovery_twice_gives_same_records() {
    let mut fs = MemFs::default();
    let mut db = open(&mut fs, DIR).unwrap();
    append(&mut db, &mut fs, "a", "", "", "", "").unwrap();
    compact(&mut db, &mut fs).unwrap();
    append(&mut db, &mut fs, "b", "", "", "", "").unwrap();
    let first = open(&mut fs, DIR).unwrap();
    let second = open(&mut fs, DIR).unwrap();
    assert_eq!(all_lines(&first), all_lines(&second));
    assert_eq!(all_lines(&first), vec!["a||||".to_string(), "b||||".to_string()]);
}

#[test]
fn query_star_returns_everything_and_empty_pattern_matches_all_fields() {
    let mut fs = MemFs::default();
    let mut db = open(&mut fs, DIR).unwrap();
    append(&mut db, &mut fs, "*x", "", "", "", "").unwrap();
    append(&mut db, &mut fs, "", "", "", "", "").unwrap();
    assert_eq!(db.read("*").len(), 2);
    assert_eq!(db.read("").len(), 2);
    assert_eq!(db.read("nothing").len(), 0);
    assert_eq!(db.read("*x").len(), 1);
}

#[test]
fn failed_journal_write_leaves_records_unchanged() {
    let mut fs = MemFs::default();
    let mut db = open(&mut fs, DIR).unwrap();
    append(&mut db, &mut fs, "kept", "", "", "", "").unwrap();
    fs.fail_writes = true;
    let r = append(&mut db, &mut fs, "lost", "", "", "", "");
    assert!(matches!(r, Err(DbError::WriteError)));
    assert_eq!(all_lines(&db), vec!["kept||||".to_string()]);
}

#[test]
fn update_reports_when_compaction_is_due() {
    let mut db = FiveWsDB::new(DIR, 0, "", "").unwrap();
    let e = FiveWsEntry::new("a", "", "", "", "");
    assert_eq!(db.update(e.clone(), Some(PAGE_SIZE - 1)).unwrap(), false);
    assert_eq!(db.update(e.clone(), Some(PAGE_SIZE)).unwrap(), true);
    assert_eq!(db.read("*").len(), 2);
}

#[test]
fn entries_with_delimiter_or_newline_are_rejected() {
    let mut fs = MemFs::default();
    let mut db = open(&mut fs, DIR).unwrap();
    let r = append(&mut db, &mut fs, "a|b", "", "", "", "");
    assert!(matches!(r, Err(DbError::InvalidEntry)));
    let r = append(&mut db, &mut fs, "", "", "", "", "two\nlines");
    assert!(matches!(r, Err(DbError::InvalidEntry)));
    let bad = FiveWsEntry::new("", "|", "", "", "");
    assert!(matches!(db.update(bad, Some(1)), Err(DbError::InvalidEntry)));
    assert!(db.read("*").is_empty());
    assert_eq!(fs.files[&journal_path(DIR, 0)], "");
}

#[test]
fn malformed_files_fail_to_open() {
    let r = FiveWsDB::new(DIR, 0, "a|b|c\n", "");
    assert!(matches!(r, Err(DbError::InitError(_))));
    let r = FiveWsDB::new(DIR, 0, "", "a|b|c|d|e|f\n");
    assert!(matches!(r, Err(DbError::InitError(_))));
    let db = FiveWsDB::new(DIR, 3, "a|b|c|d|e\n", "f|g|h|i|j\n").unwrap();
    assert_eq!(db.checkpoint(), 3);
    assert_eq!(db.path(), DIR);
    assert_eq!(all_lines(&db), vec!["a|b|c|d|e".to_string(), "f|g|h|i|j".to_string()]);
}

#[test]
fn checkpoint_plan_orders_its_steps() {
    let mut db = FiveWsDB::new("d", 7, "a|b|c|d|e\n", "").unwrap();
    db.update(FiveWsEntry::new("f", "g", "h", "i", "j"), Some(10)).unwrap();
    let ops = db.create_checkpoint().unwrap();
    assert_eq!(ops.len(), 5);
    match &ops[0] {
        FileOp::WriteAtomic { path, temp, contents } => {
            assert_eq!(path, "d/checkpoint8.lidb");
            assert_eq!(temp, "d/checkpoint8.lidb.tmp");
            assert_eq!(contents, "a|b|c|d|e\nf|g|h|i|j\n");
        }
        other => panic!("unexpected first step {:?}", other),
    }
    assert!(matches!(&ops[1], FileOp::CreateEmpty { path } if path == "d/log8.lidb"));
    match &ops[2] {
        FileOp::WriteAtomic { path, temp, contents } => {
            assert_eq!(path, "d/meta");
            assert_eq!(temp, "d/meta.tmp");
            assert_eq!(contents, "8");
        }
        other => panic!("unexpected third step {:?}", other),
    }
    assert!(matches!(&ops[3], FileOp::Remove { path } if path == "d/checkpoint7.lidb"));
    assert!(matches!(&ops[4], FileOp::Remove { path } if path == "d/log7.lidb"));
    db.finish_checkpoint().unwrap();
    assert_eq!(db.checkpoint(), 8);
}

#[test]
fn last_generation_cannot_be_compacted() {
    let mut db = FiveWsDB::new(DIR, usize::MAX, "", "").unwrap();
    assert!(matches!(db.create_checkpoint(), Err(DbError::CheckpointError)));
    assert!(matches!(db.finish_checkpoint(), Err(DbError::CheckpointError)));
    assert_eq!(db.checkpoint(), usize::MAX);
}

#[test]
fn meta_text_names_generation() {
    assert_eq!(generation_from_meta(None), 0);
    assert_eq!(generation_from_meta(Some("12")), 12);
    assert_eq!(parse_generation("0"), 0);
    assert_eq!(parse_generation("4071"), 4071);
    assert_eq!(parse_generation(""), 0);
    assert_eq!(parse_generation("7x"), 0);
    assert_eq!(parse_generation(" 7"), 0);
    assert_eq!(parse_generation("99999999999999999999999999"), 0);
    assert_eq!(parse_generation(&usize::MAX.to_string()), usize::MAX);
    assert_eq!(decimal(0), "0");
    assert_eq!(decimal(4071), "4071");
    assert_eq!(parse_generation(&decimal(123456)), 123456);
    assert_eq!(parse_generation("+7"), 7);
    assert_eq!(generation_from_meta(Some("+12")), 12);
    assert_eq!(parse_generation("+"), 0);
    assert_eq!(parse_generation("++7"), 0);
    assert_eq!(parse_generation("-7"), 0);
    assert_eq!(parse_generation("7+"), 0);
}

#[test]
fn file_names_follow_generation() {
    assert_eq!(meta_path("db"), "db/meta");
    assert_eq!(checkpoint_path("db", 0), "db/checkpoint0.lidb");
    assert_eq!(journal_path("db", 15), "db/log15.lidb");
    assert_eq!(temp_path("db/meta"), "db/meta.tmp");
}

#[test]
fn checkpoint_text_lists_records_in_order() {
    let rs = vec![FiveWsEntry::new("a", "", "", "", ""), FiveWsEntry::new("b", "", "", "", "")];
    assert_eq!(encode_records(&rs), "a||||\nb||||\n");
    assert_eq!(encode_records(&Vec::new()), "");
}

#[test]
fn query_request_carries_its_pattern() {
    let q = DbQuery { query: "ingi".to_string() };
    let mut db = FiveWsDB::new(DIR, 0, "ingi||||\nother||||\n", "").unwrap();
    db.update(FiveWsEntry::new("INGI", "", "", "", ""), Some(1)).unwrap();
    assert_eq!(db.read(&q.query).len(), 2);
}

#[test]
fn carriage_returns_are_read_as_they_stand() {
    let db = FiveWsDB::new(DIR, 0, "a|b|c|d|e\r\n||||\r\r", "").unwrap();
    let rs = db.read("*");
    assert_eq!(rs.len(), 2);
    assert_eq!(rs[0].why(), "e\r");
    assert_eq!(rs[1].why(), "\r\r");
    let mut fs = MemFs::default();
    let mut db = open(&mut fs, DIR).unwrap();
    append(&mut db, &mut fs, "a", "b", "c", "d", "e\r").unwrap();
    compact(&mut db, &mut fs).unwrap();
    append(&mut db, &mut fs, "f", "", "", "", "\r").unwrap();
    let again = open(&mut fs, DIR).unwrap();
    let back = again.read("*");
    assert_eq!(back.len(), 2);
    assert_eq!(back[0].why(), "e\r");
    assert_eq!(back[1].why(), "\r");
}

#[test]
fn unterminated_journal_line_is_closed_before_the_next() {
    let mut fs = MemFs::default();
    open(&mut fs, DIR).unwrap();
    fs.files.insert(journal_path(DIR, 0), "a|b|c|d|e".to_string());
    let mut db = open(&mut fs, DIR).unwrap();
    let entry = FiveWsEntry::new("f", "g", "h", "i", "j");
    assert_eq!(db.journal_entry(&entry).unwrap(), "\nf|g|h|i|j\n");
    append(&mut db, &mut fs, "f", "g", "h", "i", "j").unwrap();
    assert_eq!(fs.files[&journal_path(DIR, 0)], "a|b|c|d|e\nf|g|h|i|j\n");
    let entry = FiveWsEntry::new("k", "", "", "", "");
    assert_eq!(db.journal_entry(&entry).unwrap(), "k||||\n");
    let again = open(&mut fs, DIR).unwrap();
    assert_eq!(all_lines(&again), vec!["a|b|c|d|e".to_string(), "f|g|h|i|j".to_string()]);
}
