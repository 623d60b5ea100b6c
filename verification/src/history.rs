//! The per-document snapshot history: content-hash dedup, autosave
//! coalescing, bounded retention, and lookup.
//!
//! The index is a plain value here. The caller loads it from disk before
//! an operation and persists it afterwards, exactly as the editor's
//! history store does around every call; what happens to the value in
//! between is specified and proved.

use vstd::prelude::*;
use crate::errors::{AppError, AppErrorCode};
use crate::hashing::{hash_u64, spec_dec_chars, spec_hash64, spec_hex_chars, u64_to_dec, u64_to_hex};
use crate::paths::{join_path, snapshot_dir_for_document, spec_join_path};
use crate::text::{spec_trim, str_chars, str_eq, trim_chars};

verus! {

/// One stored snapshot of one document.
#[derive(Debug)]
pub struct SnapshotRecord {
    pub id: String,
    pub created_at_ms: u64,
    pub reason: String,
    pub size_bytes: u64,
    pub file_path: String,
    pub content_hash: u64,
}

/// The mathematical shape of a record: every string replaced by its
/// character sequence.
pub struct SnapshotRecordV {
    pub id: Seq<char>,
    pub created_at_ms: u64,
    pub reason: Seq<char>,
    pub size_bytes: u64,
    pub file_path: Seq<char>,
    pub content_hash: u64,
}

impl View for SnapshotRecord {
    type V = SnapshotRecordV;

    open spec fn view(&self) -> SnapshotRecordV {
        SnapshotRecordV {
            id: self.id@,
            created_at_ms: self.created_at_ms,
            reason: self.reason@,
            size_bytes: self.size_bytes,
            file_path: self.file_path@,
            content_hash: self.content_hash,
        }
    }
}

/// What `createSnapshot` and `listSnapshots` report of a record.
#[derive(Debug)]
pub struct SnapshotEntry {
    pub id: String,
    pub created_at_ms: u64,
    pub reason: String,
    pub size_bytes: u64,
}

pub struct SnapshotEntryV {
    pub id: Seq<char>,
    pub created_at_ms: u64,
    pub reason: Seq<char>,
    pub size_bytes: u64,
}

impl View for SnapshotEntry {
    type V = SnapshotEntryV;

    open spec fn view(&self) -> SnapshotEntryV {
        SnapshotEntryV {
            id: self.id@,
            created_at_ms: self.created_at_ms,
            reason: self.reason@,
            size_bytes: self.size_bytes,
        }
    }
}

/// The history of one document: its path and its records, oldest first.
#[derive(Debug)]
pub struct DocumentHistory {
    pub path: String,
    pub records: Vec<SnapshotRecord>,
}

/// The whole on-disk history index as a value: one entry per document.
#[derive(Debug)]
pub struct HistoryIndex {
    pub files: Vec<DocumentHistory>,
}

impl HistoryIndex {
    /// Every document appears at most once.
    pub open spec fn wf(self) -> bool {
        forall|i: int, j: int|
            0 <= i < j < self.files@.len() ==> self.files@[i].path@ != self.files@[j].path@
    }

    pub fn new() -> (r: HistoryIndex)
        ensures
            r.wf(),
            r.files@.len() == 0,
    {
        HistoryIndex { files: Vec::new() }
    }
}

// --- lookup ---

/// Index of the first entry for `path` at or after `from`, if any.
pub open spec fn spec_doc_index(files: Seq<DocumentHistory>, path: Seq<char>, from: int) -> Option<
    int,
>
    decreases files.len() - from,
{
    if from < 0 || from >= files.len() {
        None
    } else if files[from].path@ == path {
        Some(from)
    } else {
        spec_doc_index(files, path, from + 1)
    }
}

pub proof fn lemma_doc_index(files: Seq<DocumentHistory>, path: Seq<char>, from: int)
    requires
        from >= 0,
    ensures
        match spec_doc_index(files, path, from) {
            Some(i) => from <= i < files.len() && files[i].path@ == path && forall|j: int|
                from <= j < i ==> files[j].path@ != path,
            None => forall|j: int| from <= j < files.len() ==> files[j].path@ != path,
        },
    decreases files.len() - from,
{
    if from < files.len() && files[from].path@ != path {
        lemma_doc_index(files, path, from + 1);
    }
}

/// Replacing an entry without changing its path leaves every lookup
/// where it was.
proof fn lemma_doc_index_update(
    files: Seq<DocumentHistory>,
    di: int,
    doc: DocumentHistory,
    path: Seq<char>,
    from: int,
)
    requires
        0 <= di < files.len(),
        files[di].path@ == doc.path@,
        from >= 0,
    ensures
        spec_doc_index(files.update(di, doc), path, from) == spec_doc_index(files, path, from),
    decreases files.len() - from,
{
    if from < files.len() {
        assert(files.update(di, doc)[from].path@ == files[from].path@);
        if files[from].path@ != path {
            lemma_doc_index_update(files, di, doc, path, from + 1);
        }
    }
}

/// Appending an entry only adds a hit for its own path, and only when
/// that path had none.
proof fn lemma_doc_index_push(
    files: Seq<DocumentHistory>,
    doc: DocumentHistory,
    path: Seq<char>,
    from: int,
)
    requires
        0 <= from <= files.len(),
    ensures
        spec_doc_index(files.push(doc), path, from) == (match spec_doc_index(files, path, from) {
            Some(i) => Some(i),
            None => if doc.path@ == path {
                Some(files.len() as int)
            } else {
                None::<int>
            },
        }),
    decreases files.len() - from,
{
    if from < files.len() {
        assert(files.push(doc)[from].path@ == files[from].path@);
        if files[from].path@ != path {
            lemma_doc_index_push(files, doc, path, from + 1);
        }
    } else {
        assert(files.push(doc)[files.len() as int] == doc);
        assert(spec_doc_index(files.push(doc), path, files.len() + 1 as int) is None);
    }
}

fn find_doc(files: &Vec<DocumentHistory>, path: &str) -> (r: Option<usize>)
    ensures
        match r {
            Some(i) => Some(i as int) == spec_doc_index(files@, path@, 0) && i < files@.len(),
            None => spec_doc_index(files@, path@, 0) is None,
        },
{
    let n = files.len();
    let mut i: usize = 0;
    while i < n
        invariant
            n == files@.len(),
            i <= n,
            spec_doc_index(files@, path@, 0) == spec_doc_index(files@, path@, i as int),
        decreases n - i,
    {
        if str_eq(files[i].path.as_str(), path) {
            proof {
                assert(spec_doc_index(files@, path@, i as int) == Some(i as int));
            }
            return Some(i);
        }
        proof {
            assert(spec_doc_index(files@, path@, i as int) == spec_doc_index(
                files@,
                path@,
                i + 1 as int,
            ));
        }
        i = i + 1;
    }
    None
}

// --- the record sequences, as views ---

/// The record views of one document's record vector.
pub open spec fn spec_record_views(records: Seq<SnapshotRecord>) -> Seq<SnapshotRecordV> {
    records.map_values(|r: SnapshotRecord| r@)
}

/// The views of a vector of strings.
pub open spec fn spec_string_views(strings: Seq<String>) -> Seq<Seq<char>> {
    strings.map_values(|s: String| s@)
}

/// The records stored for `path`, oldest first; empty when the document
/// has no history.
pub open spec fn spec_records_for(index: HistoryIndex, path: Seq<char>) -> Seq<SnapshotRecordV> {
    match spec_doc_index(index.files@, path, 0) {
        Some(i) => spec_record_views(index.files@[i].records@),
        None => Seq::empty(),
    }
}

// --- the snapshot-creation model ---

/// The reported shape of a stored record.
pub open spec fn spec_entry_of(r: SnapshotRecordV) -> SnapshotEntryV {
    SnapshotEntryV {
        id: r.id,
        created_at_ms: r.created_at_ms,
        reason: r.reason,
        size_bytes: r.size_bytes,
    }
}

/// The entries reported for a record sequence.
pub open spec fn spec_entries_of(recs: Seq<SnapshotRecordV>) -> Seq<SnapshotEntryV> {
    recs.map_values(|r: SnapshotRecordV| spec_entry_of(r))
}

/// The file paths backing a record sequence.
pub open spec fn spec_file_paths_of(recs: Seq<SnapshotRecordV>) -> Seq<Seq<char>> {
    recs.map_values(|r: SnapshotRecordV| r.file_path)
}

/// Dedup rule: the newest record already holds this content.
pub open spec fn spec_dedup_hit(recs: Seq<SnapshotRecordV>, content_hash: u64) -> bool {
    recs.len() > 0 && recs.last().content_hash == content_hash
}

/// Autosave coalescing rule: this autosave follows an autosave younger
/// than sixty seconds (a snapshot seemingly from the future counts as
/// recent, as saturating subtraction reads it).
pub open spec fn spec_coalesce_hit(recs: Seq<SnapshotRecordV>, reason: Seq<char>, now_ms: u64) -> bool {
    recs.len() > 0 && reason == "autosave"@ && recs.last().reason == "autosave"@
        && (now_ms as int) < recs.last().created_at_ms + 60000
}

/// The UTF-8 byte size a stored snapshot reports.
pub open spec fn spec_utf8_size(s: Seq<char>) -> u64 {
    (vstd::utf8::encode_utf8(s).len() as usize) as u64
}

/// The id of a snapshot taken at `now_ms`: the time, a dash, and a hash
/// of the document path and the time.
pub open spec fn spec_snapshot_id(path: Seq<char>, now_ms: u64) -> Seq<char> {
    spec_dec_chars(now_ms) + "-"@ + spec_hex_chars(
        spec_hash64(path + ":"@ + spec_dec_chars(now_ms)),
    )
}

/// Where the snapshot's payload is stored: under the document's hashed
/// directory, named by the snapshot id.
pub open spec fn spec_snapshot_file_path(
    history_dir: Seq<char>,
    path: Seq<char>,
    now_ms: u64,
) -> Seq<char> {
    spec_join_path(
        spec_join_path(history_dir, spec_hex_chars(spec_hash64(path))),
        spec_snapshot_id(path, now_ms) + ".mdsnap"@,
    )
}

/// The record a fresh snapshot appends.
pub open spec fn spec_new_record(
    path: Seq<char>,
    content: Seq<char>,
    reason: Seq<char>,
    now_ms: u64,
    history_dir: Seq<char>,
) -> SnapshotRecordV {
    SnapshotRecordV {
        id: spec_snapshot_id(path, now_ms),
        created_at_ms: now_ms,
        reason: reason,
        size_bytes: spec_utf8_size(content),
        file_path: spec_snapshot_file_path(history_dir, path, now_ms),
        content_hash: spec_hash64(content),
    }
}

/// Retention cap: how many records one document may keep.
pub const RETENTION_LIMIT: usize = 50;

/// Appending a record and pruning to the retention cap: the kept records
/// and the pruned ones, oldest first.
pub open spec fn spec_apply_create(recs: Seq<SnapshotRecordV>, r: SnapshotRecordV) -> (
    Seq<SnapshotRecordV>,
    Seq<SnapshotRecordV>,
) {
    let appended = recs.push(r);
    if appended.len() > RETENTION_LIMIT {
        (
            appended.skip(appended.len() - RETENTION_LIMIT),
            appended.take(appended.len() - RETENTION_LIMIT),
        )
    } else {
        (appended, Seq::empty())
    }
}

/// What a snapshot creation asks of the caller.
#[derive(Debug)]
pub enum SnapshotOutcome {
    /// An existing record covers this call: nothing to write.
    Reused(SnapshotEntry),
    /// A record was appended: write `content` to `snapshot_file_path`,
    /// delete the `pruned_files`, and persist the index.
    Created {
        entry: SnapshotEntry,
        snapshot_file_path: String,
        pruned_files: Vec<String>,
    },
}

fn entry_from(rec: &SnapshotRecord) -> (e: SnapshotEntry)
    ensures
        e@ == spec_entry_of(rec@),
{
    SnapshotEntry {
        id: rec.id.clone(),
        created_at_ms: rec.created_at_ms,
        reason: rec.reason.clone(),
        size_bytes: rec.size_bytes,
    }
}

fn clone_record(rec: &SnapshotRecord) -> (r: SnapshotRecord)
    ensures
        r@ == rec@,
{
    SnapshotRecord {
        id: rec.id.clone(),
        created_at_ms: rec.created_at_ms,
        reason: rec.reason.clone(),
        size_bytes: rec.size_bytes,
        file_path: rec.file_path.clone(),
        content_hash: rec.content_hash,
    }
}

/// Drops the oldest records past the retention cap, returning the backing
/// file paths of what was dropped.
fn prune_records(records: &mut Vec<SnapshotRecord>) -> (pruned: Vec<String>)
    ensures
        ({
            let views = spec_record_views(old(records)@);
            let kept = if views.len() > RETENTION_LIMIT {
                views.skip(views.len() - RETENTION_LIMIT)
            } else {
                views
            };
            let cut = if views.len() > RETENTION_LIMIT {
                views.take(views.len() - RETENTION_LIMIT)
            } else {
                Seq::empty()
            };
            spec_record_views(final(records)@) == kept && spec_string_views(pruned@)
                == spec_file_paths_of(cut)
        }),
{
    let n = records.len();
    if n <= RETENTION_LIMIT {
        proof {
            assert(spec_string_views(Seq::<String>::empty()) =~= spec_file_paths_of(
                Seq::<SnapshotRecordV>::empty(),
            ));
        }
        return Vec::new();
    }
    let overflow = n - RETENTION_LIMIT;
    let mut pruned: Vec<String> = Vec::new();
    let mut k: usize = 0;
    while k < overflow
        invariant
            n == old(records)@.len(),
            records@ == old(records)@,
            overflow == n - 50,
            overflow <= n,
            k <= overflow,
            spec_string_views(pruned@) == spec_file_paths_of(
                spec_record_views(old(records)@).take(k as int),
            ),
        decreases overflow - k,
    {
        let ghost prev = pruned@;
        pruned.push(records[k].file_path.clone());
        proof {
            let views = spec_record_views(old(records)@);
            assert(views[k as int] == old(records)@[k as int]@);
            assert(spec_string_views(prev).len() == prev.len());
            assert(spec_file_paths_of(views.take(k as int)).len() == k);
            assert(prev.len() == k as int);
            assert forall|j: int| 0 <= j < pruned@.len() implies spec_string_views(pruned@)[j]
                == spec_file_paths_of(views.take(k + 1 as int))[j] by {
                assert(spec_string_views(pruned@)[j] == pruned@[j]@);
                if j < k {
                    assert(pruned@[j] == prev[j]);
                    assert(spec_string_views(prev)[j] == prev[j]@);
                    assert(spec_file_paths_of(views.take(k as int))[j] == views[j].file_path);
                }
                assert(spec_file_paths_of(views.take(k + 1 as int))[j] == views[j].file_path);
            }
            assert(spec_string_views(pruned@) =~= spec_file_paths_of(views.take(k + 1 as int)));
        }
        k = k + 1;
    }
    let mut t: usize = 0;
    while t < overflow
        invariant
            overflow <= n == old(records)@.len(),
            t <= overflow,
            records@ == old(records)@.skip(t as int),
        decreases overflow - t,
    {
        let _dropped = records.remove(0);
        proof {
            assert(old(records)@.skip(t as int).remove(0) =~= old(records)@.skip(t + 1 as int));
        }
        t = t + 1;
    }
    proof {
        let views = spec_record_views(old(records)@);
        assert(spec_record_views(final(records)@) =~= views.skip(overflow as int));
        assert(spec_string_views(pruned@) =~= spec_file_paths_of(views.take(overflow as int)));
    }
    pruned
}

/// Records a snapshot of `content` for `document_path` in the index.
///
/// A blank document path is refused. If the newest record for the
/// document already holds this content, or an autosave follows an
/// autosave younger than sixty seconds, that record is returned and the
/// index is untouched. Otherwise a fresh record is appended, the history
/// is pruned to the retention cap, and the outcome names the payload
/// file to write and the pruned files to delete; every other document's
/// history is left as it was.
pub fn create_snapshot(
    index: &mut HistoryIndex,
    document_path: &str,
    content: &str,
    reason: &str,
    now_ms: u64,
    history_dir_path: &str,
) -> (r: Result<SnapshotOutcome, AppError>)
    requires
        old(index).wf(),
    ensures
        final(index).wf(),
        (spec_trim(document_path@).len() == 0) <==> (r is Err),
        r matches Err(e) ==> e.code == AppErrorCode::Io && e.message@ == "Snapshot path is empty"@
            && *final(index) == *old(index),
        ({
            let old_recs = spec_records_for(*old(index), document_path@);
            let h = spec_hash64(content@);
            &&& (r matches Ok(o) && o is Reused ==> *final(index) == *old(index))
            &&& (r is Ok && spec_dedup_hit(old_recs, h) ==> (r matches Ok(
                SnapshotOutcome::Reused(entry),
            ) && entry@ == spec_entry_of(old_recs.last())))
            &&& (r is Ok && !spec_dedup_hit(old_recs, h) && spec_coalesce_hit(
                old_recs,
                reason@,
                now_ms,
            ) ==> (r matches Ok(SnapshotOutcome::Reused(entry)) && entry@ == spec_entry_of(
                old_recs.last(),
            )))
            &&& (r is Ok && !spec_dedup_hit(old_recs, h) && !spec_coalesce_hit(
                old_recs,
                reason@,
                now_ms,
            ) ==> (r matches Ok(SnapshotOutcome::Created { entry, snapshot_file_path, pruned_files })
                && ({
                let r0 = spec_new_record(
                    document_path@,
                    content@,
                    reason@,
                    now_ms,
                    history_dir_path@,
                );
                &&& entry@ == spec_entry_of(r0)
                &&& snapshot_file_path@ == r0.file_path
                &&& spec_records_for(*final(index), document_path@) == spec_apply_create(
                    old_recs,
                    r0,
                ).0
                &&& spec_string_views(pruned_files@) == spec_file_paths_of(
                    spec_apply_create(old_recs, r0).1,
                )
            })))
            &&& (forall|p: Seq<char>|
                p != document_path@ ==> spec_records_for(*final(index), p) == spec_records_for(
                    *old(index),
                    p,
                ))
        }),
{
    let pv = str_chars(document_path);
    let trimmed = trim_chars(&pv);
    if trimmed.len() == 0 {
        return Err(AppError::new(AppErrorCode::Io, "Snapshot path is empty".to_owned()));
    }
    let h = hash_u64(content);
    let di_opt = find_doc(&index.files, document_path);
    let ghost old_recs = spec_records_for(*index, document_path@);
    proof {
        lemma_doc_index(index.files@, document_path@, 0);
    }
    if let Some(di) = di_opt {
        let doc = &index.files[di];
        let n = doc.records.len();
        proof {
            assert(old_recs == spec_record_views(doc.records@));
            assert(old_recs.len() == n);
        }
        if n > 0 {
            let last = &doc.records[n - 1];
            proof {
                assert(old_recs.last() == doc.records@[n - 1]@);
                assert(old_recs.last() == last@);
            }
            if last.content_hash == h {
                proof {
                    assert(spec_dedup_hit(old_recs, spec_hash64(content@)));
                }
                return Ok(SnapshotOutcome::Reused(entry_from(last)));
            }
            let is_auto = str_eq(reason, "autosave") && str_eq(last.reason.as_str(), "autosave");
            let recent = if now_ms >= last.created_at_ms {
                now_ms - last.created_at_ms < 60000
            } else {
                true
            };
            if is_auto && recent {
                proof {
                    assert(spec_coalesce_hit(old_recs, reason@, now_ms));
                }
                return Ok(SnapshotOutcome::Reused(entry_from(last)));
            }
            proof {
                assert(!spec_dedup_hit(old_recs, spec_hash64(content@)));
                assert(!spec_coalesce_hit(old_recs, reason@, now_ms));
            }
        } else {
            proof {
                assert(!spec_dedup_hit(old_recs, spec_hash64(content@)));
                assert(!spec_coalesce_hit(old_recs, reason@, now_ms));
            }
        }
    } else {
        proof {
            assert(old_recs.len() == 0);
            assert(!spec_dedup_hit(old_recs, spec_hash64(content@)));
            assert(!spec_coalesce_hit(old_recs, reason@, now_ms));
        }
    }
    // Build the fresh record.
    let dec_now = u64_to_dec(now_ms);
    let mut key = document_path.to_owned();
    key.append(":");
    key.append(dec_now.as_str());
    let id_hash = hash_u64(key.as_str());
    let hex_part = u64_to_hex(id_hash);
    let mut id = dec_now;
    id.append("-");
    id.append(hex_part.as_str());
    let dir = snapshot_dir_for_document(history_dir_path, document_path);
    let mut file_name = id.clone();
    file_name.append(".mdsnap");
    let file_path = join_path(dir.as_str(), file_name.as_str());
    let size_usize: usize = content.len();
    let record = SnapshotRecord {
        id: id.clone(),
        created_at_ms: now_ms,
        reason: reason.to_owned(),
        size_bytes: size_usize as u64,
        file_path: file_path.clone(),
        content_hash: h,
    };
    let ghost r0 = spec_new_record(document_path@, content@, reason@, now_ms, history_dir_path@);
    proof {
        assert(record@.id =~= r0.id);
        assert(record@.file_path =~= r0.file_path);
        assert(record@ == r0);
    }
    let entry = entry_from(&record);
    let ghost old_files = index.files@;
    let pruned_files: Vec<String>;
    let ghost kept = spec_apply_create(old_recs, r0).0;
    let ghost cut = spec_apply_create(old_recs, r0).1;
    match di_opt {
        Some(di) => {
            let mut doc = index.files.remove(di);
            let ghost old_doc_records = doc.records@;
            proof {
                assert(old_recs == spec_record_views(old_doc_records));
            }
            doc.records.push(record);
            proof {
                assert(spec_record_views(doc.records@) =~= old_recs.push(r0));
            }
            pruned_files = prune_records(&mut doc.records);
            proof {
                assert(spec_record_views(doc.records@) == kept);
                assert(spec_string_views(pruned_files@) == spec_file_paths_of(cut));
            }
            index.files.insert(di, doc);
            proof {
                assert(index.files@ =~= old_files.update(di as int, index.files@[di as int]));
                assert(index.files@[di as int].path@ == document_path@);
                assert forall|p: Seq<char>|
                    spec_doc_index(index.files@, p, 0) == spec_doc_index(old_files, p, 0) by {
                    lemma_doc_index_update(
                        old_files,
                        di as int,
                        index.files@[di as int],
                        p,
                        0,
                    );
                    assert(spec_doc_index(
                        old_files.update(di as int, index.files@[di as int]),
                        p,
                        0,
                    ) == spec_doc_index(old_files, p, 0));
                }
                assert(spec_doc_index(index.files@, document_path@, 0) == Some(di as int));
                assert(spec_records_for(*index, document_path@) == kept);
                assert forall|p: Seq<char>| p != document_path@ implies spec_records_for(
                    *index,
                    p,
                ) == (match spec_doc_index(old_files, p, 0) {
                    Some(i) => spec_record_views(old_files[i].records@),
                    None => Seq::<SnapshotRecordV>::empty(),
                }) by {
                    lemma_doc_index(old_files, p, 0);
                    match spec_doc_index(old_files, p, 0) {
                        Some(i) => {
                            assert(i != di);
                            assert(index.files@[i] == old_files[i]);
                        },
                        None => {},
                    }
                }
                assert forall|i: int, j: int|
                    0 <= i < j < index.files@.len() implies index.files@[i].path@
                    != index.files@[j].path@ by {
                    assert(index.files@[i].path@ == old_files[i].path@);
                    assert(index.files@[j].path@ == old_files[j].path@);
                }
            }
        },
        None => {
            let mut doc = DocumentHistory {
                path: document_path.to_owned(),
                records: Vec::new(),
            };
            doc.records.push(record);
            proof {
                assert(old_recs =~= Seq::<SnapshotRecordV>::empty());
                assert(spec_record_views(doc.records@) =~= old_recs.push(r0));
            }
            pruned_files = prune_records(&mut doc.records);
            proof {
                assert(spec_record_views(doc.records@) == kept);
                assert(spec_string_views(pruned_files@) == spec_file_paths_of(cut));
            }
            index.files.push(doc);
            proof {
                lemma_doc_index(old_files, document_path@, 0);
                assert(index.files@.last().path@ == document_path@);
                assert forall|p: Seq<char>|
                    spec_doc_index(index.files@, p, 0) == (match spec_doc_index(old_files, p, 0) {
                        Some(i) => Some(i),
                        None => if document_path@ == p {
                            Some(old_files.len() as int)
                        } else {
                            None::<int>
                        },
                    }) by {
                    lemma_doc_index_push(old_files, index.files@.last(), p, 0);
                }
                assert(spec_doc_index(index.files@, document_path@, 0) == Some(
                    old_files.len() as int,
                ));
                assert(spec_records_for(*index, document_path@) == kept);
                assert forall|p: Seq<char>| p != document_path@ implies spec_records_for(
                    *index,
                    p,
                ) == (match spec_doc_index(old_files, p, 0) {
                    Some(i) => spec_record_views(old_files[i].records@),
                    None => Seq::<SnapshotRecordV>::empty(),
                }) by {
                    lemma_doc_index(old_files, p, 0);
                    match spec_doc_index(old_files, p, 0) {
                        Some(i) => {
                            assert(index.files@[i] == old_files[i]);
                        },
                        None => {},
                    }
                }
                assert forall|i: int, j: int|
                    0 <= i < j < index.files@.len() implies index.files@[i].path@
                    != index.files@[j].path@ by {
                    if j < old_files.len() {
                        assert(index.files@[i].path@ == old_files[i].path@);
                        assert(index.files@[j].path@ == old_files[j].path@);
                    } else {
                        assert(index.files@[j].path@ == document_path@);
                        assert(index.files@[i].path@ == old_files[i].path@);
                    }
                }
            }
        },
    }
    Ok(
        SnapshotOutcome::Created {
            entry,
            snapshot_file_path: file_path,
            pruned_files,
        },
    )
}

// --- listing, newest first ---

/// Insertion of one entry into a sequence already sorted newest-first,
/// placed after every entry at least as new: the stable position.
pub open spec fn spec_sorted_insert_desc(s: Seq<SnapshotEntryV>, e: SnapshotEntryV) -> Seq<
    SnapshotEntryV,
>
    decreases s.len(),
{
    if s.len() == 0 {
        seq![e]
    } else if s[0].created_at_ms >= e.created_at_ms {
        seq![s[0]] + spec_sorted_insert_desc(s.drop_first(), e)
    } else {
        seq![e] + s
    }
}

/// Stable sort of entries by creation time, newest first.
pub open spec fn spec_sort_desc(s: Seq<SnapshotEntryV>) -> Seq<SnapshotEntryV>
    decreases s.len(),
{
    if s.len() == 0 {
        Seq::empty()
    } else {
        spec_sorted_insert_desc(spec_sort_desc(s.drop_last()), s.last())
    }
}

proof fn lemma_sorted_insert_desc_at(s: Seq<SnapshotEntryV>, e: SnapshotEntryV, pos: int)
    requires
        0 <= pos <= s.len(),
        forall|j: int| 0 <= j < pos ==> s[j].created_at_ms >= e.created_at_ms,
        pos < s.len() ==> s[pos].created_at_ms < e.created_at_ms,
    ensures
        spec_sorted_insert_desc(s, e) == s.take(pos) + seq![e] + s.skip(pos),
    decreases pos,
{
    if pos == 0 {
        if s.len() == 0 {
            assert(spec_sorted_insert_desc(s, e) =~= s.take(0) + seq![e] + s.skip(0));
        } else {
            assert(spec_sorted_insert_desc(s, e) =~= s.take(0) + seq![e] + s.skip(0));
        }
    } else {
        assert(s[0].created_at_ms >= e.created_at_ms);
        let d = s.drop_first();
        assert forall|j: int| 0 <= j < pos - 1 implies d[j].created_at_ms >= e.created_at_ms by {
            assert(d[j] == s[j + 1]);
        }
        if pos - 1 < d.len() {
            assert(d[pos - 1] == s[pos as int]);
        }
        lemma_sorted_insert_desc_at(d, e, pos - 1);
        assert(spec_sorted_insert_desc(s, e) =~= s.take(pos) + seq![e] + s.skip(pos)) by {
            assert(d.take(pos - 1) =~= s.subrange(1, pos));
            assert(d.skip(pos - 1) =~= s.skip(pos));
            assert(seq![s[0]] + (s.subrange(1, pos) + seq![e] + s.skip(pos)) =~= s.take(pos)
                + seq![e] + s.skip(pos));
        }
    }
}

fn sorted_insert_desc(sorted: &mut Vec<SnapshotEntry>, e: SnapshotEntry)
    ensures
        final(sorted)@.map_values(|x: SnapshotEntry| x@) == spec_sorted_insert_desc(
            old(sorted)@.map_values(|x: SnapshotEntry| x@),
            e@,
        ),
{
    let n = sorted.len();
    let ghost views = sorted@.map_values(|x: SnapshotEntry| x@);
    let mut pos: usize = 0;
    while pos < n && sorted[pos].created_at_ms >= e.created_at_ms
        invariant
            n == sorted@.len(),
            views == sorted@.map_values(|x: SnapshotEntry| x@),
            pos <= n,
            forall|j: int| 0 <= j < pos ==> views[j].created_at_ms >= e@.created_at_ms,
        decreases n - pos,
    {
        proof {
            assert(views[pos as int] == sorted@[pos as int]@);
        }
        pos = pos + 1;
    }
    proof {
        if pos < n {
            assert(views[pos as int] == sorted@[pos as int]@);
        }
        lemma_sorted_insert_desc_at(views, e@, pos as int);
    }
    sorted.insert(pos, e);
    proof {
        assert(final(sorted)@.map_values(|x: SnapshotEntry| x@) =~= views.take(pos as int)
            + seq![e@] + views.skip(pos as int));
    }
}

/// All records for `path`, reported newest first; an unknown path yields
/// an empty list.
pub fn list_snapshots(index: &HistoryIndex, path: &str) -> (r: Vec<SnapshotEntry>)
    ensures
        r@.map_values(|x: SnapshotEntry| x@) == spec_sort_desc(
            spec_entries_of(spec_records_for(*index, path@)),
        ),
{
    let mut out: Vec<SnapshotEntry> = Vec::new();
    let ghost entries = spec_entries_of(spec_records_for(*index, path@));
    match find_doc(&index.files, path) {
        None => {
            proof {
                assert(out@.map_values(|x: SnapshotEntry| x@) =~= spec_sort_desc(entries));
            }
            out
        },
        Some(di) => {
            let doc = &index.files[di];
            let n = doc.records.len();
            let mut i: usize = 0;
            proof {
                assert(entries =~= spec_entries_of(spec_record_views(doc.records@)));
                assert(entries.take(0) =~= Seq::<SnapshotEntryV>::empty());
            }
            while i < n
                invariant
                    n == doc.records@.len(),
                    i <= n,
                    entries == spec_entries_of(spec_record_views(doc.records@)),
                    entries.len() == n,
                    out@.map_values(|x: SnapshotEntry| x@) == spec_sort_desc(
                        entries.take(i as int),
                    ),
                decreases n - i,
            {
                let e = entry_from(&doc.records[i]);
                proof {
                    assert(entries[i as int] == spec_entry_of(doc.records@[i as int]@));
                    assert(entries.take(i + 1 as int).drop_last() =~= entries.take(i as int));
                    assert(entries.take(i + 1 as int).last() == entries[i as int]);
                }
                sorted_insert_desc(&mut out, e);
                i = i + 1;
            }
            proof {
                assert(entries.take(n as int) =~= entries);
            }
            out
        },
    }
}

// --- loading one snapshot ---

/// Index of the first record whose id is `id`, at or after `from`.
pub open spec fn spec_record_index(
    recs: Seq<SnapshotRecordV>,
    id: Seq<char>,
    from: int,
) -> Option<int>
    decreases recs.len() - from,
{
    if from < 0 || from >= recs.len() {
        None
    } else if recs[from].id == id {
        Some(from)
    } else {
        spec_record_index(recs, id, from + 1)
    }
}

pub proof fn lemma_record_index(recs: Seq<SnapshotRecordV>, id: Seq<char>, from: int)
    requires
        from >= 0,
    ensures
        match spec_record_index(recs, id, from) {
            Some(i) => from <= i < recs.len() && recs[i].id == id && forall|j: int|
                from <= j < i ==> recs[j].id != id,
            None => forall|j: int| from <= j < recs.len() ==> recs[j].id != id,
        },
    decreases recs.len() - from,
{
    if from < recs.len() && recs[from].id != id {
        lemma_record_index(recs, id, from + 1);
    }
}

/// The record behind `snapshot_id` for `path`: `FileNotFound` when the
/// document has no history at all or no record carries that id.
pub fn find_snapshot(index: &HistoryIndex, path: &str, snapshot_id: &str) -> (r: Result<
    SnapshotRecord,
    AppError,
>)
    ensures
        ({
            let recs = spec_records_for(*index, path@);
            match r {
                Ok(rec) => spec_record_index(recs, snapshot_id@, 0) matches Some(i) && rec@
                    == recs[i],
                Err(e) => e.code == AppErrorCode::FileNotFound && (
                (spec_doc_index(index.files@, path@, 0) is None && e.message@
                    == "No snapshots available for this document"@) || (spec_doc_index(
                    index.files@,
                    path@,
                    0,
                ) is Some && spec_record_index(recs, snapshot_id@, 0) is None && e.message@
                    == "Snapshot not found"@)),
            }
        }),
        (r is Ok) <==> (spec_doc_index(index.files@, path@, 0) is Some && spec_record_index(
            spec_records_for(*index, path@),
            snapshot_id@,
            0,
        ) is Some),
{
    let di = match find_doc(&index.files, path) {
        Some(di) => di,
        None => {
            return Err(
                AppError::new(
                    AppErrorCode::FileNotFound,
                    "No snapshots available for this document".to_owned(),
                ),
            );
        },
    };
    let doc = &index.files[di];
    let n = doc.records.len();
    let ghost recs = spec_records_for(*index, path@);
    let mut i: usize = 0;
    proof {
        assert(recs =~= spec_record_views(doc.records@));
    }
    while i < n
        invariant
            n == doc.records@.len(),
            i <= n,
            di < index.files@.len(),
            spec_doc_index(index.files@, path@, 0) == Some(di as int),
            recs == spec_records_for(*index, path@),
            recs == spec_record_views(doc.records@),
            recs.len() == n,
            spec_record_index(recs, snapshot_id@, 0) == spec_record_index(
                recs,
                snapshot_id@,
                i as int,
            ),
        decreases n - i,
    {
        proof {
            assert(recs[i as int] == doc.records@[i as int]@);
        }
        if str_eq(doc.records[i].id.as_str(), snapshot_id) {
            proof {
                assert(spec_record_index(recs, snapshot_id@, i as int) == Some(i as int));
            }
            return Ok(clone_record(&doc.records[i]));
        }
        proof {
            assert(spec_record_index(recs, snapshot_id@, i as int) == spec_record_index(
                recs,
                snapshot_id@,
                i + 1 as int,
            ));
        }
        i = i + 1;
    }
    proof {
        assert(spec_record_index(recs, snapshot_id@, n as int) is None);
    }
    Err(AppError::new(AppErrorCode::FileNotFound, "Snapshot not found".to_owned()))
}

// --- laws ---

/// Law: creating a snapshot and then creating another with identical
/// content hits the dedup rule: the just-created record is the newest
/// kept record, so the second call returns it unchanged and writes
/// nothing.
pub proof fn lemma_create_then_same_content_dedups(
    recs: Seq<SnapshotRecordV>,
    path: Seq<char>,
    content: Seq<char>,
    reason: Seq<char>,
    now_ms: u64,
    history_dir: Seq<char>,
)
    ensures
        ({
            let r0 = spec_new_record(path, content, reason, now_ms, history_dir);
            let kept = spec_apply_create(recs, r0).0;
            spec_dedup_hit(kept, spec_hash64(content)) && kept.last() == r0
        }),
{
    let r0 = spec_new_record(path, content, reason, now_ms, history_dir);
    let appended = recs.push(r0);
    let kept = spec_apply_create(recs, r0).0;
    assert(appended.last() == r0);
    if appended.len() > 50 {
        assert(kept == appended.skip(appended.len() - 50));
        assert(kept.len() == 50);
        assert(kept.last() == appended[appended.len() - 50 + 49]);
        assert(kept.last() == r0);
    } else {
        assert(kept.last() == r0);
    }
}

/// Law: creating an autosave snapshot and then asking again with reason
/// `autosave` within sixty seconds hits the coalescing rule, whatever
/// the later content is: the first record is returned unchanged.
pub proof fn lemma_autosave_within_window_coalesces(
    recs: Seq<SnapshotRecordV>,
    path: Seq<char>,
    content: Seq<char>,
    now_ms: u64,
    history_dir: Seq<char>,
    later_ms: u64,
)
    requires
        (later_ms as int) < now_ms + 60000,
    ensures
        ({
            let r0 = spec_new_record(path, content, "autosave"@, now_ms, history_dir);
            let kept = spec_apply_create(recs, r0).0;
            spec_coalesce_hit(kept, "autosave"@, later_ms) && kept.last() == r0
        }),
{
    lemma_create_then_same_content_dedups(recs, path, content, "autosave"@, now_ms, history_dir);
}

/// Law: the retention cap holds after every creation. At most fifty
/// records are kept, what is pruned and what is kept together are
/// exactly the old records plus the new one in order, and once the cap
/// is reached exactly fifty stay.
pub proof fn lemma_retention_cap(recs: Seq<SnapshotRecordV>, r: SnapshotRecordV)
    ensures
        spec_apply_create(recs, r).0.len() <= RETENTION_LIMIT,
        spec_apply_create(recs, r).1 + spec_apply_create(recs, r).0 == recs.push(r),
        recs.len() >= RETENTION_LIMIT ==> spec_apply_create(recs, r).0.len() == RETENTION_LIMIT,
{
    let appended = recs.push(r);
    if appended.len() > RETENTION_LIMIT {
        assert(spec_apply_create(recs, r).1 + spec_apply_create(recs, r).0 =~= appended);
    } else {
        assert(spec_apply_create(recs, r).1 + spec_apply_create(recs, r).0 =~= appended);
    }
}

/// Law: a listing is genuinely sorted newest-first, with as many
/// entries as there are records.
pub proof fn lemma_sort_desc_sorted(s: Seq<SnapshotEntryV>)
    ensures
        spec_sort_desc(s).len() == s.len(),
        forall|i: int, j: int|
            0 <= i < j < spec_sort_desc(s).len() ==> spec_sort_desc(s)[i].created_at_ms
                >= spec_sort_desc(s)[j].created_at_ms,
    decreases s.len(),
{
    if s.len() > 0 {
        lemma_sort_desc_sorted(s.drop_last());
        lemma_sorted_insert_desc_sorted(spec_sort_desc(s.drop_last()), s.last());
    }
}

proof fn lemma_sorted_insert_desc_sorted(s: Seq<SnapshotEntryV>, e: SnapshotEntryV)
    requires
        forall|i: int, j: int|
            0 <= i < j < s.len() ==> s[i].created_at_ms >= s[j].created_at_ms,
    ensures
        spec_sorted_insert_desc(s, e).len() == s.len() + 1,
        forall|i: int, j: int|
            0 <= i < j < spec_sorted_insert_desc(s, e).len() ==> spec_sorted_insert_desc(
                s,
                e,
            )[i].created_at_ms >= spec_sorted_insert_desc(s, e)[j].created_at_ms,
    decreases s.len(),
{
    let r = spec_sorted_insert_desc(s, e);
    if s.len() == 0 {
    } else if s[0].created_at_ms >= e.created_at_ms {
        let d = s.drop_first();
        assert forall|i: int, j: int|
            0 <= i < j < d.len() implies d[i].created_at_ms >= d[j].created_at_ms by {
            assert(d[i] == s[i + 1]);
            assert(d[j] == s[j + 1]);
        }
        lemma_sorted_insert_desc_sorted(d, e);
        let rd = spec_sorted_insert_desc(d, e);
        assert(r == seq![s[0]] + rd);
        assert(rd[0].created_at_ms <= s[0].created_at_ms) by {
            if d.len() == 0 {
                assert(rd[0] == e);
            } else if d[0].created_at_ms >= e.created_at_ms {
                assert(rd[0] == d[0]);
                assert(d[0] == s[1]);
            } else {
                assert(rd[0] == e);
            }
        }
        assert forall|i: int, j: int|
            0 <= i < j < r.len() implies r[i].created_at_ms >= r[j].created_at_ms by {
            if i == 0 {
                assert(r[0] == s[0]);
                assert(r[j] == rd[j - 1]);
                if j - 1 > 0 {
                    assert(rd[0].created_at_ms >= rd[j - 1].created_at_ms);
                }
            } else {
                assert(r[i] == rd[i - 1]);
                assert(r[j] == rd[j - 1]);
            }
        }
    } else {
        assert(r == seq![e] + s);
        assert forall|i: int, j: int|
            0 <= i < j < r.len() implies r[i].created_at_ms >= r[j].created_at_ms by {
            if i == 0 {
                assert(r[0] == e);
                assert(r[j] == s[j - 1]);
                if j - 1 > 0 {
                    assert(s[0].created_at_ms >= s[j - 1].created_at_ms);
                }
            } else {
                assert(r[i] == s[i - 1]);
                assert(r[j] == s[j - 1]);
            }
        }
    }
}

/// The modification time `loadSnapshot` reports: the live document's
/// current time when it still exists, else the snapshot's creation time.
pub fn snapshot_open_mtime(live_mtime_ms: Option<u64>, created_at_ms: u64) -> (r: u64)
    ensures
        r == (match live_mtime_ms {
            Option::Some(m) => m,
            Option::None => created_at_ms,
        }),
{
    match live_mtime_ms {
        Option::Some(m) => m,
        Option::None => created_at_ms,
    }
}

} // verus!
