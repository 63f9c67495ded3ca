//! The storage engine: the in-memory record set rebuilt from a checkpoint and
//! a journal, the decisions taken on each write, and the file steps of a
//! compaction. The host that owns the files performs those steps and reports
//! their outcome back.
use vstd::prelude::*;

use crate::codec::{
    encode, encode_records, fits_format, journal_line, lemma_encode_parse, lemma_journal_append,
    lemma_parsed_records_ok, lemma_terminate_line, parse_lines, parse_records, parse_text, record_ok, records_ok, records_view,
    split, NEWLINE,
};
use crate::entry::{like_folded, serialize, FiveWsEntry};
use crate::layout::{
    checkpoint_path, checkpoint_path_of, decimal, decimal_text, journal_path, journal_path_of,
    meta_path, meta_path_of, temp_path, temp_path_of,
};
use crate::text::{chars_of, lower_of, push_char, same_text};

verus! {

/// A journal at or past this many bytes triggers a compaction.
pub const PAGE_SIZE: u64 = 4096;

#[derive(Debug)]
pub enum DbError {
    /// The database could not be opened; the text says why.
    InitError(String),
    PoisonError,
    /// A compaction step failed, or no further generation can be numbered.
    CheckpointError,
    ReadError,
    /// The journal write of a new record failed.
    WriteError,
    /// A field holds the delimiter or a newline, which the file format cannot carry.
    InvalidEntry,
}

pub type DbResult<T> = Result<T, DbError>;

/// How many leading steps of a compaction commit the next generation: once
/// they are done the meta file names it, and the rest only removes the files
/// of the generation before.
pub const COMMIT_STEPS: usize = 3;

/// A file-system step that the engine asks its host to perform.
#[derive(Debug)]
pub enum FileOp {
    /// Write `contents` to `temp`, make it durable, then rename it over `path`.
    WriteAtomic { path: String, temp: String, contents: String },
    /// Create `path` as an empty file, replacing any file there.
    CreateEmpty { path: String },
    /// Remove the file at `path`.
    Remove { path: String },
}

/// `op` writes `contents` to `path` through its temporary file.
pub open spec fn is_write(op: FileOp, path: Seq<char>, contents: Seq<char>) -> bool {
    match op {
        FileOp::WriteAtomic { path: p, temp: t, contents: c } => p@ == path && t@ == temp_path_of(
            path,
        ) && c@ == contents,
        _ => false,
    }
}

/// `op` creates an empty file at `path`.
pub open spec fn is_create(op: FileOp, path: Seq<char>) -> bool {
    match op {
        FileOp::CreateEmpty { path: p } => p@ == path,
        _ => false,
    }
}

/// `op` removes the file at `path`.
pub open spec fn is_remove(op: FileOp, path: Seq<char>) -> bool {
    match op {
        FileOp::Remove { path: p } => p@ == path,
        _ => false,
    }
}

/// The records that a checkpoint text and a journal text hold together:
/// the checkpoint's, then the journal's, each in file order.
pub open spec fn recovered(checkpoint: Seq<char>, journal: Seq<char>) -> Option<
    Seq<Seq<Seq<char>>>,
> {
    match (parse_text(checkpoint), parse_text(journal)) {
        (Some(a), Some(b)) => Some(a + b),
        _ => None,
    }
}

/// Some field of `r` holds `pattern`, ignoring case.
pub open spec fn matches_pattern(r: Seq<Seq<char>>, pattern: Seq<char>) -> bool {
    let p = lower_of(pattern);
    like_folded(r, "who"@, p) || like_folded(r, "what"@, p) || like_folded(r, "when"@, p)
        || like_folded(r, "where"@, p) || like_folded(r, "why"@, p)
}

/// The records of `rs` that match `pattern`, in their order.
pub open spec fn select(rs: Seq<Seq<Seq<char>>>, pattern: Seq<char>) -> Seq<Seq<Seq<char>>>
    decreases rs.len(),
{
    if rs.len() == 0 {
        Seq::empty()
    } else {
        let front = select(rs.drop_last(), pattern);
        if matches_pattern(rs.last(), pattern) {
            front.push(rs.last())
        } else {
            front
        }
    }
}

/// The answer to a query: everything for `*`, else the matching records.
pub open spec fn query(rs: Seq<Seq<Seq<char>>>, pattern: Seq<char>) -> Seq<Seq<Seq<char>>> {
    if pattern == "*"@ {
        rs
    } else {
        select(rs, pattern)
    }
}

/// The file steps of a compaction from generation `g` to `g + 1`, in order:
/// the new checkpoint and the new empty journal are complete before the meta
/// file names `g + 1`, and generation `g` is removed only after that.
pub open spec fn compaction_steps_ok(
    ops: Seq<FileOp>,
    dir: Seq<char>,
    g: nat,
    rs: Seq<Seq<Seq<char>>>,
) -> bool {
    &&& ops.len() == 5
    &&& is_write(ops[0], checkpoint_path_of(dir, g + 1), encode(rs))
    &&& is_create(ops[1], journal_path_of(dir, g + 1))
    &&& is_write(ops[2], meta_path_of(dir), decimal_text(g + 1))
    &&& is_remove(ops[3], checkpoint_path_of(dir, g))
    &&& is_remove(ops[4], journal_path_of(dir, g))
}

/// `j` is empty or ends with a newline, so a new line can follow it as is.
pub open spec fn terminated(j: Seq<char>) -> bool {
    j.len() == 0 || j.last() == NEWLINE
}

/// What a journal write adds after the journal text `j` for the record `r`:
/// a newline first when `j`'s last line was left without one, then `r`'s line.
pub open spec fn journal_addition(j: Seq<char>, r: Seq<Seq<char>>) -> Seq<char> {
    (if terminated(j) {
        Seq::empty()
    } else {
        seq![NEWLINE]
    }) + serialize(r) + seq![NEWLINE]
}

/// The engine's state: the in-memory record set, the database directory and
/// the current generation, with the texts that the current generation's
/// checkpoint and journal files hold.
pub struct FiveWsDB {
    storage: Vec<FiveWsEntry>,
    path: String,
    checkpoint: usize,
    journal_terminated: bool,
    checkpoint_text: Ghost<Seq<char>>,
    journal_text: Ghost<Seq<char>>,
}

impl FiveWsDB {
    /// The in-memory record set, in insertion order.
    pub closed spec fn records(&self) -> Seq<Seq<Seq<char>>> {
        records_view(self.storage@)
    }

    /// The current generation.
    pub closed spec fn generation(&self) -> nat {
        self.checkpoint as nat
    }

    /// The database directory.
    pub closed spec fn dir(&self) -> Seq<char> {
        self.path@
    }

    /// The text of the current generation's checkpoint file.
    pub closed spec fn checkpoint_contents(&self) -> Seq<char> {
        self.checkpoint_text@
    }

    /// The text of the current generation's journal file.
    pub closed spec fn journal_contents(&self) -> Seq<char> {
        self.journal_text@
    }

    /// The engine knows whether its journal's last line is terminated.
    pub closed spec fn tracks_journal_end(&self) -> bool {
        self.journal_terminated == terminated(self.journal_text@)
    }

    /// Well-formedness: the records are ones the file format can carry, and
    /// the current checkpoint and journal rebuild exactly the in-memory set.
    pub open spec fn wf(&self) -> bool {
        &&& self.tracks_journal_end()
        &&& records_ok(self.records())
        &&& recovered(self.checkpoint_contents(), self.journal_contents()) == Some(self.records())
    }

    /// Rebuilds the engine of the database in `dir_path` at generation
    /// `checkpoint` from the texts of that generation's checkpoint and journal
    /// files. Fails, with `InitError`, when a non-empty line of either is not a
    /// record.
    pub fn new(dir_path: &str, checkpoint: usize, checkpoint_text: &str, journal_text: &str) -> (r:
        DbResult<FiveWsDB>)
        ensures
            match r {
                Ok(db) => {
                    &&& db.wf()
                    &&& recovered(checkpoint_text@, journal_text@) == Some(db.records())
                    &&& db.generation() == checkpoint
                    &&& db.dir() == dir_path@
                    &&& db.checkpoint_contents() == checkpoint_text@
                    &&& db.journal_contents() == journal_text@
                },
                Err(e) => recovered(checkpoint_text@, journal_text@) is None && e is InitError,
            },
    {
        let mut storage = match parse_records(checkpoint_text) {
            Some(v) => v,
            None => {
                return Err(DbError::InitError(String::from_str("malformed checkpoint file")));
            },
        };
        let mut logged = match parse_records(journal_text) {
            Some(v) => v,
            None => {
                return Err(DbError::InitError(String::from_str("malformed journal file")));
            },
        };
        let ghost a = storage@;
        let ghost b = logged@;
        storage.append(&mut logged);
        proof {
            assert(records_view(storage@) =~= records_view(a) + records_view(b));
            lemma_parsed_records_ok(checkpoint_text@);
            lemma_parsed_records_ok(journal_text@);
            let rs = records_view(storage@);
            assert forall|i: int| 0 <= i < rs.len() implies record_ok(#[trigger] rs[i]) by {
                if i < records_view(a).len() {
                    assert(rs[i] == records_view(a)[i]);
                } else {
                    assert(rs[i] == records_view(b)[i - records_view(a).len()]);
                }
            }
        }
        let cs = chars_of(journal_text);
        let journal_terminated = cs.len() == 0 || cs[cs.len() - 1] == NEWLINE;
        Ok(
            FiveWsDB {
                storage,
                path: String::from_str(dir_path),
                checkpoint,
                journal_terminated,
                checkpoint_text: Ghost(checkpoint_text@),
                journal_text: Ghost(journal_text@),
            },
        )
    }

    /// The database directory.
    pub fn path(&self) -> (r: &str)
        ensures
            r@ == self.dir(),
    {
        self.path.as_str()
    }

    /// The current generation.
    pub fn checkpoint(&self) -> (r: usize)
        ensures
            r == self.generation(),
    {
        self.checkpoint
    }

    /// The records that match `pattern`, in insertion order: all of them for
    /// `*`, else those with a field that holds `pattern`, ignoring case.
    pub fn read(&self, pattern: &str) -> (r: Vec<FiveWsEntry>)
        ensures
            records_view(r@) == query(self.records(), pattern@),
    {
        let everything = same_text(pattern, "*");
        let ghost rs = self.records();
        let mut out: Vec<FiveWsEntry> = Vec::new();
        let mut i: usize = 0;
        assert(rs.take(0) =~= Seq::<Seq<Seq<char>>>::empty());
        assert(records_view(out@) =~= Seq::<Seq<Seq<char>>>::empty());
        while i < self.storage.len()
            invariant
                i <= self.storage@.len(),
                rs == self.records(),
                everything == (pattern@ == "*"@),
                records_view(out@) == (if everything {
                    rs.take(i as int)
                } else {
                    select(rs.take(i as int), pattern@)
                }),
            decreases self.storage@.len() - i,
        {
            let e = &self.storage[i];
            assert(rs.take(i + 1).drop_last() =~= rs.take(i as int));
            assert(rs.take(i + 1).last() == e@);
            let keep = everything || e.like("who", pattern) || e.like("what", pattern) || e.like(
                "when",
                pattern,
            ) || e.like("where", pattern) || e.like("why", pattern);
            let ghost prev = records_view(out@);
            if keep {
                out.push(e.clone());
                assert(records_view(out@) =~= prev.push(e@));
            }
            i = i + 1;
        }
        assert(rs.take(i as int) =~= rs);
        out
    }

    /// The text to append to the journal for `entry`: its line, after a
    /// newline when the journal's last line was left without one; or
    /// `InvalidEntry` when the file format cannot carry it.
    pub fn journal_entry(&self, entry: &FiveWsEntry) -> (r: DbResult<String>)
        requires
            self.wf(),
        ensures
            match r {
                Ok(line) => record_ok(entry@) && line@ == journal_addition(
                    self.journal_contents(),
                    entry@,
                ),
                Err(e) => !record_ok(entry@) && e is InvalidEntry,
            },
    {
        if fits_format(entry) {
            let line = journal_line(entry);
            if self.journal_terminated {
                assert(line@ =~= journal_addition(self.journal_contents(), entry@));
                Ok(line)
            } else {
                let mut text = String::new();
                push_char(&mut text, NEWLINE);
                text.append(line.as_str());
                assert(text@ =~= journal_addition(self.journal_contents(), entry@));
                Ok(text)
            }
        } else {
            Err(DbError::InvalidEntry)
        }
    }

    /// Takes in `entry` once the text from `journal_entry` has been appended
    /// to the journal: `journal_size` is the journal's size after a
    /// successful write, `None` after a failed one. On success the record
    /// joins the in-memory set and the result says whether a compaction is due.
    pub fn update(&mut self, entry: FiveWsEntry, journal_size: Option<u64>) -> (r: DbResult<bool>)
        requires
            old(self).wf(),
        ensures
            final(self).wf(),
            final(self).dir() == old(self).dir(),
            final(self).generation() == old(self).generation(),
            final(self).checkpoint_contents() == old(self).checkpoint_contents(),
            !record_ok(entry@) ==> r is Err && r->Err_0 is InvalidEntry && final(self).records()
                == old(self).records() && final(self).journal_contents() == old(
                self,
            ).journal_contents(),
            record_ok(entry@) && journal_size is None ==> r is Err && r->Err_0 is WriteError
                && final(self).records() == old(self).records() && final(self).journal_contents()
                == old(self).journal_contents(),
            record_ok(entry@) && journal_size is Some ==> r == Ok::<bool, DbError>(
                journal_size->0 >= PAGE_SIZE,
            ) && final(self).records() == old(self).records().push(entry@)
                && final(self).journal_contents() == old(self).journal_contents()
                + journal_addition(old(self).journal_contents(), entry@),
            r is Ok ==> engine_step(*old(self), *final(self), Some(entry@)),
            r is Err ==> engine_step(*old(self), *final(self), None),
    {
        if !fits_format(&entry) {
            return Err(DbError::InvalidEntry);
        }
        let size = match journal_size {
            Some(n) => n,
            None => {
                return Err(DbError::WriteError);
            },
        };
        let ghost prev = self.storage@;
        let ghost prev_journal = self.journal_text@;
        proof {
            lemma_durable_append(self.checkpoint_text@, prev_journal, entry@);
        }
        self.storage.push(entry);
        self.journal_text = Ghost(prev_journal + journal_addition(prev_journal, entry@));
        self.journal_terminated = true;
        proof {
            assert(records_view(self.storage@) =~= records_view(prev).push(entry@));
            let rs = records_view(self.storage@);
            assert forall|i: int| 0 <= i < rs.len() implies record_ok(#[trigger] rs[i]) by {
                if i < prev.len() {
                    assert(rs[i] == records_view(prev)[i]);
                }
            }
        }
        Ok(size >= PAGE_SIZE)
    }

    /// The file steps that compact the database into the next generation;
    /// `CheckpointError` when the current generation is the last one a
    /// `usize` can number. The checkpoint they write, with the empty journal
    /// beside it, rebuilds exactly the records held now.
    pub fn create_checkpoint(&self) -> (r: DbResult<Vec<FileOp>>)
        requires
            self.wf(),
        ensures
            match r {
                Ok(ops) => {
                    &&& self.generation() < usize::MAX
                    &&& compaction_steps_ok(ops@, self.dir(), self.generation(), self.records())
                    &&& recovered(encode(self.records()), Seq::empty()) == Some(self.records())
                },
                Err(e) => self.generation() == usize::MAX && e is CheckpointError,
            },
    {
        if self.checkpoint == usize::MAX {
            return Err(DbError::CheckpointError);
        }
        proof {
            lemma_compaction_preserves_content(self.records());
        }
        let next = self.checkpoint + 1;
        let dir = self.path.as_str();
        let new_checkpoint = checkpoint_path(dir, next);
        let new_checkpoint_temp = temp_path(new_checkpoint.as_str());
        let meta = meta_path(dir);
        let meta_temp = temp_path(meta.as_str());
        let mut ops: Vec<FileOp> = Vec::new();
        ops.push(
            FileOp::WriteAtomic {
                path: new_checkpoint,
                temp: new_checkpoint_temp,
                contents: encode_records(&self.storage),
            },
        );
        ops.push(FileOp::CreateEmpty { path: journal_path(dir, next) });
        ops.push(FileOp::WriteAtomic { path: meta, temp: meta_temp, contents: decimal(next) });
        ops.push(FileOp::Remove { path: checkpoint_path(dir, self.checkpoint) });
        ops.push(FileOp::Remove { path: journal_path(dir, self.checkpoint) });
        Ok(ops)
    }

    /// Moves the engine to the next generation once the first `COMMIT_STEPS`
    /// steps of `create_checkpoint` have been performed: its checkpoint is
    /// then the text they wrote, and its journal is empty.
    pub fn finish_checkpoint(&mut self) -> (r: DbResult<()>)
        requires
            old(self).wf(),
        ensures
            final(self).wf(),
            final(self).dir() == old(self).dir(),
            final(self).records() == old(self).records(),
            engine_step(*old(self), *final(self), None),
            match r {
                Ok(_) => {
                    &&& old(self).generation() < usize::MAX
                    &&& final(self).generation() == old(self).generation() + 1
                    &&& final(self).checkpoint_contents() == encode(old(self).records())
                    &&& final(self).journal_contents() == Seq::<char>::empty()
                },
                Err(e) => {
                    &&& old(self).generation() == usize::MAX
                    &&& e is CheckpointError
                    &&& final(self).generation() == old(self).generation()
                    &&& final(self).checkpoint_contents() == old(self).checkpoint_contents()
                    &&& final(self).journal_contents() == old(self).journal_contents()
                },
            },
    {
        if self.checkpoint == usize::MAX {
            return Err(DbError::CheckpointError);
        }
        proof {
            lemma_compaction_preserves_content(self.records());
        }
        self.checkpoint = self.checkpoint + 1;
        self.checkpoint_text = Ghost(encode(self.records()));
        self.journal_text = Ghost(Seq::empty());
        self.journal_terminated = true;
        Ok(())
    }
}

/// Durability before visibility: appending the journal text for a record
/// that the format can carry, to a checkpoint and journal that rebuild some
/// records, makes them rebuild those records followed by the new one. So a
/// record that `update` accepted survives a restart without a compaction.
pub proof fn lemma_durable_append(checkpoint: Seq<char>, journal: Seq<char>, r: Seq<Seq<char>>)
    requires
        recovered(checkpoint, journal) is Some,
        record_ok(r),
    ensures
        recovered(checkpoint, journal + journal_addition(journal, r)) == Some(
            recovered(checkpoint, journal)->0.push(r),
        ),
{
    let a = parse_text(checkpoint)->0;
    let b = parse_text(journal)->0;
    let tail = serialize(r) + seq![NEWLINE];
    if terminated(journal) {
        lemma_journal_append(journal, b, r);
        assert(journal + journal_addition(journal, r) =~= journal + serialize(r) + seq![NEWLINE]);
    } else {
        let closed_journal = journal.push(NEWLINE);
        lemma_terminate_line(journal);
        lemma_journal_append(closed_journal, b, r);
        assert(journal + journal_addition(journal, r) =~= closed_journal + serialize(r) + seq![
            NEWLINE,
        ]);
    }
    assert(a + b.push(r) =~= (a + b).push(r));
}

/// Compaction preserves content: the checkpoint that a compaction writes,
/// with the empty journal beside it, rebuilds exactly the records held when
/// it began, in the same order.
pub proof fn lemma_compaction_preserves_content(rs: Seq<Seq<Seq<char>>>)
    requires
        records_ok(rs),
    ensures
        recovered(encode(rs), Seq::empty()) == Some(rs),
        query(rs, "*"@) == rs,
{
    lemma_encode_parse(rs);
    assert(split(Seq::<char>::empty(), NEWLINE) =~= seq![Seq::<char>::empty()]);
    assert(seq![Seq::<char>::empty()].drop_last() =~= Seq::<Seq<char>>::empty());
    assert(parse_lines(Seq::<Seq<char>>::empty()) == Some(Seq::<Seq<Seq<char>>>::empty()));
    assert(parse_lines(seq![Seq::<char>::empty()]) == Some(Seq::<Seq<Seq<char>>>::empty()));
    assert(parse_text(Seq::empty()) == Some(Seq::<Seq<Seq<char>>>::empty()));
    assert(rs + Seq::<Seq<Seq<char>>>::empty() =~= rs);
}

/// One step of an engine's life as `update` and `finish_checkpoint` state it:
/// a write accepted with record `r` (`Some(r)`) appends it, and a compaction
/// (`None`) keeps the records as they are.
pub open spec fn engine_step(
    before: FiveWsDB,
    after: FiveWsDB,
    added: Option<Seq<Seq<char>>>,
) -> bool {
    match added {
        Some(r) => after.records() == before.records().push(r),
        None => after.records() == before.records(),
    }
}

/// The records that a run of steps accepted, in order.
pub open spec fn added_records(steps: Seq<Option<Seq<Seq<char>>>>) -> Seq<Seq<Seq<char>>>
    decreases steps.len(),
{
    if steps.len() == 0 {
        Seq::empty()
    } else {
        let front = added_records(steps.drop_last());
        match steps.last() {
            Some(r) => front.push(r),
            None => front,
        }
    }
}

/// Compaction preserves content over a whole run: after any sequence of
/// accepted writes and compactions, the engine holds the records it started
/// with followed by every accepted record, in order, none lost or repeated.
pub proof fn lemma_run_preserves_content(
    states: Seq<FiveWsDB>,
    steps: Seq<Option<Seq<Seq<char>>>>,
)
    requires
        states.len() == steps.len() + 1,
        forall|i: int|
            0 <= i < steps.len() ==> engine_step(states[i], states[i + 1], #[trigger] steps[i]),
    ensures
        states.last().records() == states[0].records() + added_records(steps),
    decreases steps.len(),
{
    if steps.len() == 0 {
        assert(states[0].records() + Seq::<Seq<Seq<char>>>::empty() =~= states[0].records());
    } else {
        let n = steps.len() - 1;
        let front_states = states.drop_last();
        let front_steps = steps.drop_last();
        assert forall|i: int| 0 <= i < front_steps.len() implies engine_step(
            front_states[i],
            front_states[i + 1],
            #[trigger] front_steps[i],
        ) by {
            assert(front_steps[i] == steps[i]);
            assert(front_states[i] == states[i]);
            assert(front_states[i + 1] == states[i + 1]);
        }
        lemma_run_preserves_content(front_states, front_steps);
        assert(engine_step(states[n], states[n + 1], steps[n]));
        assert(front_states.last() == states[n]);
        assert(states.last() == states[n + 1]);
        let start = states[0].records();
        let front = added_records(front_steps);
        match steps.last() {
            Some(r) => {
                assert((start + front).push(r) =~= start + front.push(r));
            },
            None => {},
        }
    }
}

/// Idempotent recovery: two engines rebuilt from the same files, with no
/// write in between, answer `*` with the same records; and compacting what
/// was recovered, then recovering again, gives those records once more.
pub proof fn lemma_recovery_idempotent(
    a: FiveWsDB,
    b: FiveWsDB,
    checkpoint: Seq<char>,
    journal: Seq<char>,
)
    requires
        recovered(checkpoint, journal) == Some(a.records()),
        recovered(checkpoint, journal) == Some(b.records()),
    ensures
        query(a.records(), "*"@) == query(b.records(), "*"@),
        recovered(encode(a.records()), Seq::empty()) == Some(a.records()),
{
    let pa = parse_text(checkpoint)->0;
    let pb = parse_text(journal)->0;
    lemma_parsed_records_ok(checkpoint);
    lemma_parsed_records_ok(journal);
    let rs = a.records();
    assert forall|i: int| 0 <= i < rs.len() implies record_ok(#[trigger] rs[i]) by {
        if i < pa.len() {
            assert(rs[i] == pa[i]);
        } else {
            assert(rs[i] == pb[i - pa.len()]);
        }
    }
    lemma_compaction_preserves_content(rs);
}

/// Substring match correctness: `*` selects every record; any other pattern
/// selects exactly the records with a field that holds it, ignoring case.
pub proof fn lemma_query_exact(rs: Seq<Seq<Seq<char>>>, pattern: Seq<char>)
    ensures
        pattern == "*"@ ==> query(rs, pattern) == rs,
        pattern != "*"@ ==> forall|k: int|
            0 <= k < query(rs, pattern).len() ==> matches_pattern(
                #[trigger] query(rs, pattern)[k],
                pattern,
            ) && rs.contains(query(rs, pattern)[k]),
        pattern != "*"@ ==> forall|i: int|
            0 <= i < rs.len() && matches_pattern(#[trigger] rs[i], pattern) ==> query(
                rs,
                pattern,
            ).contains(rs[i]),
    decreases rs.len(),
{
    if rs.len() > 0 {
        let front = rs.drop_last();
        lemma_query_exact(front, pattern);
        if pattern != "*"@ {
            let s = select(rs, pattern);
            let sf = select(front, pattern);
            assert forall|k: int| 0 <= k < s.len() implies matches_pattern(#[trigger] s[k], pattern)
                && rs.contains(s[k]) by {
                if k < sf.len() {
                    assert(s[k] == sf[k]);
                    assert(sf[k] == query(front, pattern)[k]);
                    let j = choose|j: int| 0 <= j < front.len() && front[j] == sf[k];
                    assert(rs[j] == sf[k]);
                } else {
                    assert(s[k] == rs[rs.len() - 1]);
                }
            }
            assert forall|i: int| 0 <= i < rs.len() && matches_pattern(#[trigger] rs[i], pattern)
                implies s.contains(rs[i]) by {
                if i < front.len() {
                    assert(front[i] == rs[i]);
                    assert(query(front, pattern).contains(front[i]));
                    let j = choose|j: int| 0 <= j < sf.len() && sf[j] == front[i];
                    assert(s[j] == sf[j]);
                } else {
                    assert(s[s.len() - 1] == rs[i]);
                }
            }
        }
    }
}

} // verus!
