//! Save-path decisions: optimistic-concurrency conflict detection, the
//! atomic writer's temporary-file naming, and the recovery-draft policy.
//!
//! The caller performs the reads and writes; every decision about them is
//! made and specified here.

use vstd::prelude::*;
use crate::errors::{AppError, AppErrorCode};
use crate::hashing::spec_dec_chars;
use crate::text::spec_trim;

verus! {

/// What `open` returns: the document's path, text and modification time.
#[derive(Debug, Clone)]
pub struct OpenDocumentResult {
    pub path: String,
    pub content: String,
    pub mtime_ms: u64,
}

/// What `save` and `saveAs` return: the path, the file's new modification
/// time, and when the save ran.
#[derive(Debug, Clone)]
pub struct SaveResult {
    pub path: String,
    pub mtime_ms: u64,
    pub saved_at_ms: u64,
}

/// Whether a guarded save may proceed.
///
/// The target must still exist, and when the caller supplies the
/// modification time it last saw, the file's current modification time
/// must equal it exactly; any other current time means someone else wrote
/// the file, and the save is refused with `Conflict` before any byte is
/// written.
pub fn save_decision(
    file_exists: bool,
    expected_mtime_ms: Option<u64>,
    current_mtime_ms: Option<u64>,
) -> (r: Result<(), AppError>)
    requires
        file_exists && expected_mtime_ms is Some ==> current_mtime_ms is Some,
    ensures
        r is Ok <==> (file_exists && match expected_mtime_ms {
            Option::Some(expected) => current_mtime_ms == Option::Some(expected),
            Option::None => true,
        }),
        !file_exists ==> (r matches Err(e) && e.code == AppErrorCode::FileNotFound
            && e.message@ == "Cannot save because file no longer exists"@),
        (file_exists && expected_mtime_ms is Some && !(r is Ok)) ==> (r matches Err(e)
            && e.code == AppErrorCode::Conflict
            && e.message@ == "File changed on disk. Reopen or Save As to avoid overwriting."@),
{
    if !file_exists {
        return Err(
            AppError::new(
                AppErrorCode::FileNotFound,
                "Cannot save because file no longer exists".to_owned(),
            ),
        );
    }
    match expected_mtime_ms {
        Option::Some(expected) => {
            match current_mtime_ms {
                Option::Some(current) => {
                    if current != expected {
                        Err(
                            AppError::new(
                                AppErrorCode::Conflict,
                                "File changed on disk. Reopen or Save As to avoid overwriting.".to_owned(),
                            ),
                        )
                    } else {
                        Ok(())
                    }
                },
                Option::None => {
                    proof {
                        assert(false);
                    }
                    Ok(())
                },
            }
        },
        Option::None => Ok(()),
    }
}

/// The name of the atomic writer's temporary file, placed beside the
/// target: a dot, the target's file name, a dot, the writing process's
/// id, and `.tmp`. The process id keeps concurrent instances from
/// colliding on the same temporary name.
pub fn temp_file_name(target_file_name: &str, process_id: u32) -> (r: String)
    ensures
        r@ == seq!['.'] + target_file_name@ + seq!['.'] + spec_dec_chars(process_id as u64)
            + ".tmp"@,
{
    let pid = crate::hashing::u64_to_dec(process_id as u64);
    let mut out = ".".to_owned();
    out.append(target_file_name);
    out.append(".");
    out.append(pid.as_str());
    out.append(".tmp");
    proof {
        reveal_strlit(".");
        assert(out@ =~= seq!['.'] + target_file_name@ + seq!['.'] + spec_dec_chars(
            process_id as u64,
        ) + ".tmp"@);
    }
    out
}

/// What storing a recovery draft must do to the draft file.
#[derive(Debug, Clone, Copy, PartialEq, Eq, Structural)]
pub enum DraftStoreAction {
    /// The draft is blank: any existing draft file is deleted.
    Remove,
    /// The draft has content: it is written atomically.
    WriteAtomic,
}

/// Blank content clears the stored draft instead of writing one.
pub fn store_recovery_draft_plan(content: &str) -> (r: DraftStoreAction)
    ensures
        r == (if spec_trim(content@).len() == 0 {
            DraftStoreAction::Remove
        } else {
            DraftStoreAction::WriteAtomic
        }),
{
    let chars = crate::text::str_chars(content);
    let trimmed = crate::text::trim_chars(&chars);
    if trimmed.len() == 0 {
        DraftStoreAction::Remove
    } else {
        DraftStoreAction::WriteAtomic
    }
}

/// A loaded draft counts only when it has content: an empty file reads
/// as no draft at all.
pub fn draft_from_content(content: String) -> (r: Option<String>)
    ensures
        match r {
            Some(c) => content@.len() > 0 && c@ == content@,
            None => content@.len() == 0,
        },
{
    if content.as_str().unicode_len() == 0 {
        None
    } else {
        Some(content)
    }
}

} // verus!
