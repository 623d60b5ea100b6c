//! Path classification and layout of the application-support directory.
//!
//! Paths are plain strings with `/` separators, as the editor hands them
//! in. The caller resolves the support directory itself (it needs the
//! environment for that) and passes it down; everything derived from it
//! is specified here.

use vstd::prelude::*;
use crate::hashing::{hash_u64, spec_hash64, spec_hex_chars, u64_to_hex};
use crate::text::{
    eq_chars_str, lower_chars, rfind_char, spec_lower, spec_rfind_char, str_chars, subvec,
    lemma_rfind_char,
};

verus! {

// --- file-name and extension ---

/// The component after the last `/`, or the whole path when it has none.
pub open spec fn spec_file_name(s: Seq<char>) -> Seq<char> {
    match spec_rfind_char(s, '/') {
        Some(i) => s.skip(i + 1),
        None => s,
    }
}

fn file_name_chars(path: &str) -> (r: Vec<char>)
    ensures
        r@ == spec_file_name(path@),
{
    let v = str_chars(path);
    let n = v.len();
    match rfind_char(&v, '/') {
        Some(i) => {
            proof {
                lemma_rfind_char(v@, '/');
            }
            let r = subvec(&v, i + 1, n);
            proof {
                assert(r@ =~= v@.skip(i + 1 as int));
            }
            r
        },
        None => v,
    }
}

/// The path's file name as a string.
pub fn file_name_string(path: &str) -> (r: String)
    ensures
        r@ == spec_file_name(path@),
{
    let v = file_name_chars(path);
    crate::text::chars_to_string(&v)
}

/// The extension of the path's file name: what follows the last `.`,
/// absent when there is no `.` or when the only `.` leads the name.
pub open spec fn spec_extension(s: Seq<char>) -> Option<Seq<char>> {
    let name = spec_file_name(s);
    match spec_rfind_char(name, '.') {
        Some(i) => if i == 0 {
            None
        } else {
            Some(name.skip(i + 1))
        },
        None => None,
    }
}

/// The lowercased extension, or empty when there is none: the form every
/// extension test below compares against.
pub open spec fn spec_ext_lower(s: Seq<char>) -> Seq<char> {
    match spec_extension(s) {
        Some(e) => spec_lower(e),
        None => Seq::empty(),
    }
}

fn ext_lower_chars(path: &str) -> (r: Vec<char>)
    ensures
        r@ == spec_ext_lower(path@),
{
    let name = file_name_chars(path);
    match rfind_char(&name, '.') {
        Some(i) => {
            proof {
                lemma_rfind_char(name@, '.');
            }
            if i == 0 {
                Vec::new()
            } else {
                let tail = subvec(&name, i + 1, name.len());
                proof {
                    assert(tail@ =~= name@.skip(i + 1 as int));
                }
                lower_chars(&tail)
            }
        },
        None => Vec::new(),
    }
}

// --- extension classes ---

/// Whether the path names workspace content: a markdown-family extension.
pub open spec fn spec_is_markdown_path(s: Seq<char>) -> bool {
    spec_ext_lower(s) == "md"@ || spec_ext_lower(s) == "markdown"@
}

pub fn is_markdown_file(path: &str) -> (r: bool)
    ensures
        r == spec_is_markdown_path(path@),
{
    let e = ext_lower_chars(path);
    eq_chars_str(&e, "md") || eq_chars_str(&e, "markdown")
}

/// Whether the path can be opened as text: markdown or plain text.
pub open spec fn spec_is_text_openable_path(s: Seq<char>) -> bool {
    spec_ext_lower(s) == "md"@ || spec_ext_lower(s) == "markdown"@ || spec_ext_lower(s) == "txt"@
}

pub fn is_text_openable_file(path: &str) -> (r: bool)
    ensures
        r == spec_is_text_openable_path(path@),
{
    let e = ext_lower_chars(path);
    eq_chars_str(&e, "md") || eq_chars_str(&e, "markdown") || eq_chars_str(&e, "txt")
}

/// What the editor accepts from an open-with request: same set as
/// text-openable files.
pub fn is_supported_open_path(path: &str) -> (r: bool)
    ensures
        r == spec_is_text_openable_path(path@),
{
    let e = ext_lower_chars(path);
    eq_chars_str(&e, "md") || eq_chars_str(&e, "markdown") || eq_chars_str(&e, "txt")
}

/// Whether the path names an importable image.
pub open spec fn spec_is_image_path(s: Seq<char>) -> bool {
    spec_ext_lower(s) == "png"@ || spec_ext_lower(s) == "jpg"@ || spec_ext_lower(s) == "jpeg"@
        || spec_ext_lower(s) == "gif"@ || spec_ext_lower(s) == "webp"@ || spec_ext_lower(s)
        == "bmp"@ || spec_ext_lower(s) == "svg"@
}

pub fn is_image_file(path: &str) -> (r: bool)
    ensures
        r == spec_is_image_path(path@),
{
    let e = ext_lower_chars(path);
    eq_chars_str(&e, "png") || eq_chars_str(&e, "jpg") || eq_chars_str(&e, "jpeg")
        || eq_chars_str(&e, "gif") || eq_chars_str(&e, "webp") || eq_chars_str(&e, "bmp")
        || eq_chars_str(&e, "svg")
}

/// The lowercased extension of a path, absent when there is none, as the
/// asset importer consumes it.
pub fn ext_from_path(path: &str) -> (r: Option<String>)
    ensures
        match r {
            Some(e) => spec_extension(path@) is Some && e@ == spec_ext_lower(path@),
            None => spec_extension(path@) is None,
        },
{
    let name = file_name_chars(path);
    match rfind_char(&name, '.') {
        Some(i) => {
            proof {
                lemma_rfind_char(name@, '.');
            }
            if i == 0 {
                None
            } else {
                let tail = subvec(&name, i + 1, name.len());
                proof {
                    assert(tail@ =~= name@.skip(i + 1 as int));
                }
                let low = lower_chars(&tail);
                Some(crate::text::chars_to_string(&low))
            }
        },
        None => None,
    }
}

/// `Path::parent` for these string paths: none for the empty path or
/// the root; the leading `/` survives for a top-level file; a bare file
/// name has the empty parent.
pub open spec fn spec_parent_of(p: Seq<char>) -> Option<Seq<char>> {
    if p.len() == 0 || p == "/"@ {
        None
    } else {
        match spec_rfind_char(p, '/') {
            Some(i) => if i == 0 {
                Some("/"@)
            } else {
                Some(p.take(i))
            },
            None => Some(Seq::empty()),
        }
    }
}

/// The directory holding the path, when it has one.
pub fn parent_dir(path: &str) -> (r: Option<String>)
    ensures
        match r {
            Some(d) => spec_parent_of(path@) == Some(d@),
            None => spec_parent_of(path@) is None,
        },
{
    let v = str_chars(path);
    let n = v.len();
    if n == 0 || eq_chars_str(&v, "/") {
        return None;
    }
    match rfind_char(&v, '/') {
        Some(i) => {
            proof {
                lemma_rfind_char(v@, '/');
            }
            if i == 0 {
                Some("/".to_owned())
            } else {
                let d = subvec(&v, 0, i);
                proof {
                    assert(d@ =~= path@.take(i as int));
                }
                Some(crate::text::chars_to_string(&d))
            }
        },
        None => Some(String::new()),
    }
}

// --- directory walking policy ---

/// Whether the walker must skip this directory: hidden names, dependency
/// caches and build output.
pub open spec fn spec_should_skip_dir(s: Seq<char>) -> bool {
    let name = spec_file_name(s);
    (name.len() > 0 && name[0] == '.') || name == "node_modules"@ || name == "target"@
}

pub fn should_skip_dir(path: &str) -> (r: bool)
    ensures
        r == spec_should_skip_dir(path@),
{
    let name = file_name_chars(path);
    if name.len() > 0 && name[0] == '.' {
        return true;
    }
    eq_chars_str(&name, "node_modules") || eq_chars_str(&name, "target")
}

// --- joining and relativizing ---

/// `Path::join` for string paths: an absolute right side wins; otherwise
/// one `/` separates the two sides.
pub open spec fn spec_join_path(dir: Seq<char>, name: Seq<char>) -> Seq<char> {
    if name.len() > 0 && name[0] == '/' {
        name
    } else if dir.len() == 0 {
        name
    } else if dir.last() == '/' {
        dir + name
    } else {
        dir + seq!['/'] + name
    }
}

pub fn join_path(dir: &str, name: &str) -> (r: String)
    ensures
        r@ == spec_join_path(dir@, name@),
{
    let nv = str_chars(name);
    let dv = str_chars(dir);
    if nv.len() > 0 && nv[0] == '/' {
        return name.to_owned();
    }
    if dv.len() == 0 {
        return name.to_owned();
    }
    let mut out = dir.to_owned();
    if dv[dv.len() - 1] != '/' {
        out.append("/");
    }
    out.append(name);
    proof {
        reveal_strlit("/");
        if dir@.last() != '/' {
            assert(out@ =~= dir@ + seq!['/'] + name@);
        }
    }
    out
}

/// The path relative to `root`: what remains after the root and one
/// separator, the empty sequence for the root itself, and the path
/// unchanged when it does not lie under the root.
pub open spec fn spec_relative_to(root: Seq<char>, path: Seq<char>) -> Seq<char> {
    let prefix = if root.len() > 0 && root.last() == '/' {
        root
    } else {
        root + seq!['/']
    };
    if root.len() > 0 && crate::text::spec_starts_with(path, prefix) {
        path.skip(prefix.len() as int)
    } else if path == root {
        Seq::empty()
    } else {
        path
    }
}

pub fn relative_to(root: &str, path: &str) -> (r: String)
    ensures
        r@ == spec_relative_to(root@, path@),
{
    let rv = str_chars(root);
    let pv = str_chars(path);
    let prefix: Vec<char> = if rv.len() > 0 && rv[rv.len() - 1] == '/' {
        proof {
            assert(rv@ =~= root@);
        }
        rv
    } else {
        let mut ext = str_chars(root);
        ext.push('/');
        proof {
            assert(ext@ =~= root@ + seq!['/']);
        }
        ext
    };
    if root.unicode_len() > 0 && crate::text::starts_with_chars(&pv, &prefix) {
        let tail = subvec(&pv, prefix.len(), pv.len());
        proof {
            assert(tail@ =~= path@.skip(prefix@.len() as int));
        }
        return crate::text::chars_to_string(&tail);
    }
    if eq_chars_str(&pv, root) {
        return String::new();
    }
    path.to_owned()
}

// --- application-support layout ---

/// Where the crash-recovery draft lives under the support directory.
pub fn recovery_draft_path(app_support_dir: &str) -> (r: String)
    ensures
        r@ == spec_join_path(app_support_dir@, "recovery-draft.md"@),
{
    join_path(app_support_dir, "recovery-draft.md")
}

/// Where the application log lives under the support directory.
pub fn app_log_path(app_support_dir: &str) -> (r: String)
    ensures
        r@ == spec_join_path(app_support_dir@, "md-editor.log"@),
{
    join_path(app_support_dir, "md-editor.log")
}

/// The directory holding all snapshot state.
pub fn history_dir(app_support_dir: &str) -> (r: String)
    ensures
        r@ == spec_join_path(app_support_dir@, "history"@),
{
    join_path(app_support_dir, "history")
}

/// The single serialized history index inside the history directory.
pub fn history_index_path(app_support_dir: &str) -> (r: String)
    ensures
        r@ == spec_join_path(spec_join_path(app_support_dir@, "history"@), "index.json"@),
{
    let dir = history_dir(app_support_dir);
    join_path(dir.as_str(), "index.json")
}

/// Where the serialized session state lives.
pub fn session_state_path(app_support_dir: &str) -> (r: String)
    ensures
        r@ == spec_join_path(app_support_dir@, "session.json"@),
{
    join_path(app_support_dir, "session.json")
}

/// The per-document snapshot directory: named by the stable hash of the
/// document path, so it can be found again across runs.
pub fn snapshot_dir_for_document(history_dir_path: &str, document_path: &str) -> (r: String)
    ensures
        r@ == spec_join_path(history_dir_path@, spec_hex_chars(spec_hash64(document_path@))),
{
    let key = u64_to_hex(hash_u64(document_path));
    join_path(history_dir_path, key.as_str())
}

} // verus!
