//! The workspace file index: entries for eligible documents and their
//! deterministic ordering.
//!
//! The caller walks the directory tree (that is filesystem work) and asks
//! `should_skip_dir` / `is_markdown_file` at each step; every entry it
//! keeps is built and finally ordered here.

use vstd::prelude::*;
use crate::paths::{spec_file_name, spec_relative_to, file_name_string, relative_to};
use crate::text::{lower_char, spec_lower, spec_lower_char, str_chars};

verus! {

/// One workspace document: absolute path, file name, and the path
/// relative to the listing root with `/` separators.
#[derive(Debug)]
pub struct MarkdownFileEntry {
    pub path: String,
    pub name: String,
    pub relative_path: String,
}

pub struct MarkdownFileEntryV {
    pub path: Seq<char>,
    pub name: Seq<char>,
    pub relative_path: Seq<char>,
}

impl View for MarkdownFileEntry {
    type V = MarkdownFileEntryV;

    open spec fn view(&self) -> MarkdownFileEntryV {
        MarkdownFileEntryV {
            path: self.path@,
            name: self.name@,
            relative_path: self.relative_path@,
        }
    }
}

/// The entry views of an entry vector.
pub open spec fn spec_entry_views(entries: Seq<MarkdownFileEntry>) -> Seq<MarkdownFileEntryV> {
    entries.map_values(|e: MarkdownFileEntry| e@)
}

/// The file name an entry reports: the path's file name, with a fixed
/// fallback when the path ends in a separator.
pub open spec fn spec_entry_name(path: Seq<char>) -> Seq<char> {
    if spec_file_name(path).len() == 0 {
        "untitled.md"@
    } else {
        spec_file_name(path)
    }
}

/// The entry the walker records for one document under `root`.
pub fn markdown_entry(root: &str, path: &str) -> (e: MarkdownFileEntry)
    ensures
        e@.path == path@,
        e@.name == spec_entry_name(path@),
        e@.relative_path == spec_relative_to(root@, path@),
{
    let name = file_name_string(path);
    let name = if name.as_str().unicode_len() == 0 {
        "untitled.md".to_owned()
    } else {
        name
    };
    MarkdownFileEntry {
        path: path.to_owned(),
        name,
        relative_path: relative_to(root, path),
    }
}

// --- ordering ---

/// Lexicographic order on character sequences by code point, the order
/// string comparison gives.
pub open spec fn lex_le(a: Seq<char>, b: Seq<char>) -> bool
    decreases a.len(),
{
    if a.len() == 0 {
        true
    } else if b.len() == 0 {
        false
    } else if (a[0] as u32) != (b[0] as u32) {
        (a[0] as u32) < (b[0] as u32)
    } else {
        lex_le(a.drop_first(), b.drop_first())
    }
}

/// The listing order: by relative path, compared case-insensitively.
pub open spec fn spec_entry_le(a: MarkdownFileEntryV, b: MarkdownFileEntryV) -> bool {
    lex_le(spec_lower(a.relative_path), spec_lower(b.relative_path))
}

pub proof fn lemma_lex_le_total(a: Seq<char>, b: Seq<char>)
    ensures
        lex_le(a, b) || lex_le(b, a),
    decreases a.len(),
{
    if a.len() > 0 && b.len() > 0 && (a[0] as u32) == (b[0] as u32) {
        lemma_lex_le_total(a.drop_first(), b.drop_first());
    }
}

pub proof fn lemma_lex_le_trans(a: Seq<char>, b: Seq<char>, c: Seq<char>)
    requires
        lex_le(a, b),
        lex_le(b, c),
    ensures
        lex_le(a, c),
    decreases a.len(),
{
    if a.len() > 0 {
        if b.len() > 0 && c.len() > 0 && (a[0] as u32) == (b[0] as u32) && (b[0] as u32) == (
        c[0] as u32) {
            lemma_lex_le_trans(a.drop_first(), b.drop_first(), c.drop_first());
        }
    }
}

fn entry_le(a: &MarkdownFileEntry, b: &MarkdownFileEntry) -> (r: bool)
    ensures
        r == spec_entry_le(a@, b@),
{
    let av = str_chars(a.relative_path.as_str());
    let bv = str_chars(b.relative_path.as_str());
    let ghost la = spec_lower(a.relative_path@);
    let ghost lb = spec_lower(b.relative_path@);
    let n = av.len();
    let m = bv.len();
    let mut i: usize = 0;
    proof {
        assert(la.skip(0) =~= la);
        assert(lb.skip(0) =~= lb);
    }
    while i < n && i < m
        invariant
            n == av@.len() == la.len(),
            m == bv@.len() == lb.len(),
            av@ == a.relative_path@,
            bv@ == b.relative_path@,
            la == spec_lower(a.relative_path@),
            lb == spec_lower(b.relative_path@),
            i <= n,
            i <= m,
            lex_le(la, lb) == lex_le(la.skip(i as int), lb.skip(i as int)),
        decreases n - i,
    {
        let ca = lower_char(av[i]);
        let cb = lower_char(bv[i]);
        proof {
            assert(la.skip(i as int)[0] == la[i as int]);
            assert(la[i as int] == spec_lower_char(av@[i as int]));
            assert(lb.skip(i as int)[0] == lb[i as int]);
            assert(lb[i as int] == spec_lower_char(bv@[i as int]));
        }
        if (ca as u32) != (cb as u32) {
            return (ca as u32) < (cb as u32);
        }
        proof {
            assert(la.skip(i as int).drop_first() =~= la.skip(i + 1 as int));
            assert(lb.skip(i as int).drop_first() =~= lb.skip(i + 1 as int));
        }
        i = i + 1;
    }
    proof {
        if i >= n {
            assert(la.skip(i as int).len() == 0);
        } else {
            assert(lb.skip(i as int).len() == 0);
            assert(la.skip(i as int).len() > 0);
        }
    }
    i >= n
}

/// Stable insertion of one entry into a sequence already in listing
/// order: it goes after every entry that compares less-or-equal.
pub open spec fn spec_sorted_insert_entry(
    s: Seq<MarkdownFileEntryV>,
    e: MarkdownFileEntryV,
) -> Seq<MarkdownFileEntryV>
    decreases s.len(),
{
    if s.len() == 0 {
        seq![e]
    } else if spec_entry_le(s[0], e) {
        seq![s[0]] + spec_sorted_insert_entry(s.drop_first(), e)
    } else {
        seq![e] + s
    }
}

/// Stable sort of entries into listing order.
pub open spec fn spec_sort_entries(s: Seq<MarkdownFileEntryV>) -> Seq<MarkdownFileEntryV>
    decreases s.len(),
{
    if s.len() == 0 {
        Seq::empty()
    } else {
        spec_sorted_insert_entry(spec_sort_entries(s.drop_last()), s.last())
    }
}

proof fn lemma_sorted_insert_entry_at(s: Seq<MarkdownFileEntryV>, e: MarkdownFileEntryV, pos: int)
    requires
        0 <= pos <= s.len(),
        forall|j: int| 0 <= j < pos ==> spec_entry_le(s[j], e),
        pos < s.len() ==> !spec_entry_le(s[pos], e),
    ensures
        spec_sorted_insert_entry(s, e) == s.take(pos) + seq![e] + s.skip(pos),
    decreases pos,
{
    if pos == 0 {
        assert(spec_sorted_insert_entry(s, e) =~= s.take(0) + seq![e] + s.skip(0));
    } else {
        assert(spec_entry_le(s[0], e));
        let d = s.drop_first();
        assert forall|j: int| 0 <= j < pos - 1 implies spec_entry_le(d[j], e) by {
            assert(d[j] == s[j + 1]);
        }
        if pos - 1 < d.len() {
            assert(d[pos - 1] == s[pos as int]);
        }
        lemma_sorted_insert_entry_at(d, e, pos - 1);
        assert(spec_sorted_insert_entry(s, e) =~= s.take(pos) + seq![e] + s.skip(pos)) by {
            assert(d.take(pos - 1) =~= s.subrange(1, pos));
            assert(d.skip(pos - 1) =~= s.skip(pos));
            assert(seq![s[0]] + (s.subrange(1, pos) + seq![e] + s.skip(pos)) =~= s.take(pos)
                + seq![e] + s.skip(pos));
        }
    }
}

fn sorted_insert_entry(sorted: &mut Vec<MarkdownFileEntry>, e: MarkdownFileEntry)
    ensures
        spec_entry_views(final(sorted)@) == spec_sorted_insert_entry(
            spec_entry_views(old(sorted)@),
            e@,
        ),
{
    let n = sorted.len();
    let ghost views = spec_entry_views(sorted@);
    let mut pos: usize = 0;
    while pos < n && entry_le(&sorted[pos], &e)
        invariant
            n == sorted@.len(),
            views == spec_entry_views(sorted@),
            pos <= n,
            forall|j: int| 0 <= j < pos ==> spec_entry_le(views[j], e@),
        decreases n - pos,
    {
        proof {
            assert(views[pos as int] == sorted@[pos as int]@);
        }
        pos = pos + 1;
    }
    proof {
        if pos < n {
            assert(views[pos as int] == sorted@[pos as int]@);
        }
        lemma_sorted_insert_entry_at(views, e@, pos as int);
    }
    sorted.insert(pos, e);
    proof {
        assert(spec_entry_views(final(sorted)@) =~= views.take(pos as int) + seq![e@]
            + views.skip(pos as int));
    }
}

/// Orders the collected entries by relative path, case-insensitively,
/// keeping the walker's order among entries that compare equal.
pub fn sort_entries(entries: &mut Vec<MarkdownFileEntry>)
    ensures
        spec_entry_views(final(entries)@) == spec_sort_entries(spec_entry_views(old(entries)@)),
{
    let ghost views = spec_entry_views(entries@);
    let mut out: Vec<MarkdownFileEntry> = Vec::new();
    let n = entries.len();
    let mut i: usize = 0;
    proof {
        assert(views.take(0) =~= Seq::<MarkdownFileEntryV>::empty());
    }
    while i < n
        invariant
            n == entries@.len(),
            i <= n,
            views == spec_entry_views(entries@),
            views.len() == n,
            spec_entry_views(out@) == spec_sort_entries(views.take(i as int)),
        decreases n - i,
    {
        let e = MarkdownFileEntry {
            path: entries[i].path.clone(),
            name: entries[i].name.clone(),
            relative_path: entries[i].relative_path.clone(),
        };
        proof {
            assert(views[i as int] == entries@[i as int]@);
            assert(e@ == views[i as int]);
            assert(views.take(i + 1 as int).drop_last() =~= views.take(i as int));
            assert(views.take(i + 1 as int).last() == views[i as int]);
        }
        sorted_insert_entry(&mut out, e);
        i = i + 1;
    }
    proof {
        assert(views.take(n as int) =~= views);
    }
    *entries = out;
}

/// Law: the listing order is genuine. After sorting, every entry
/// compares less-or-equal to each later one, and as many entries come
/// out as went in.
pub proof fn lemma_sort_entries_sorted(s: Seq<MarkdownFileEntryV>)
    ensures
        spec_sort_entries(s).len() == s.len(),
        forall|i: int, j: int|
            0 <= i < j < spec_sort_entries(s).len() ==> spec_entry_le(
                spec_sort_entries(s)[i],
                spec_sort_entries(s)[j],
            ),
    decreases s.len(),
{
    if s.len() > 0 {
        lemma_sort_entries_sorted(s.drop_last());
        lemma_sorted_insert_entry_sorted(spec_sort_entries(s.drop_last()), s.last());
    }
}

proof fn lemma_sorted_insert_entry_sorted(s: Seq<MarkdownFileEntryV>, e: MarkdownFileEntryV)
    requires
        forall|i: int, j: int| 0 <= i < j < s.len() ==> spec_entry_le(s[i], s[j]),
    ensures
        spec_sorted_insert_entry(s, e).len() == s.len() + 1,
        forall|i: int, j: int|
            0 <= i < j < spec_sorted_insert_entry(s, e).len() ==> spec_entry_le(
                spec_sorted_insert_entry(s, e)[i],
                spec_sorted_insert_entry(s, e)[j],
            ),
    decreases s.len(),
{
    let r = spec_sorted_insert_entry(s, e);
    if s.len() == 0 {
    } else if spec_entry_le(s[0], e) {
        let d = s.drop_first();
        assert forall|i: int, j: int|
            0 <= i < j < d.len() implies spec_entry_le(d[i], d[j]) by {
            assert(d[i] == s[i + 1]);
            assert(d[j] == s[j + 1]);
        }
        lemma_sorted_insert_entry_sorted(d, e);
        let rd = spec_sorted_insert_entry(d, e);
        assert(r == seq![s[0]] + rd);
        assert(spec_entry_le(s[0], rd[0])) by {
            if d.len() == 0 {
                assert(rd[0] == e);
            } else if spec_entry_le(d[0], e) {
                assert(rd[0] == d[0]);
                assert(d[0] == s[1]);
                if s.len() > 1 {
                    assert(spec_entry_le(s[0], s[1]));
                }
            } else {
                assert(rd[0] == e);
            }
        }
        assert forall|i: int, j: int|
            0 <= i < j < r.len() implies spec_entry_le(r[i], r[j]) by {
            if i == 0 {
                assert(r[0] == s[0]);
                assert(r[j] == rd[j - 1]);
                if j - 1 > 0 {
                    assert(spec_entry_le(rd[0], rd[j - 1]));
                    lemma_lex_le_trans(
                        spec_lower(s[0].relative_path),
                        spec_lower(rd[0].relative_path),
                        spec_lower(rd[j - 1].relative_path),
                    );
                }
            } else {
                assert(r[i] == rd[i - 1]);
                assert(r[j] == rd[j - 1]);
            }
        }
    } else {
        assert(r == seq![e] + s);
        lemma_lex_le_total(spec_lower(s[0].relative_path), spec_lower(e.relative_path));
        assert(spec_entry_le(e, s[0]));
        assert forall|i: int, j: int|
            0 <= i < j < r.len() implies spec_entry_le(r[i], r[j]) by {
            if i == 0 {
                assert(r[0] == e);
                assert(r[j] == s[j - 1]);
                if j - 1 > 0 {
                    assert(spec_entry_le(s[0], s[j - 1]));
                    lemma_lex_le_trans(
                        spec_lower(e.relative_path),
                        spec_lower(s[0].relative_path),
                        spec_lower(s[j - 1].relative_path),
                    );
                }
            } else {
                assert(r[i] == s[i - 1]);
                assert(r[j] == s[j - 1]);
            }
        }
    }
}

} // verus!
