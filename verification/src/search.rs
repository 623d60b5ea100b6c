//! The search engine: case-insensitive multi-token AND matching over the
//! workspace documents, with line numbers and normalized snippets.
//!
//! The caller reads each indexed document (unreadable ones come in as
//! `None` and are skipped); matching, ordering and snippet extraction are
//! specified and proved here.

use vstd::prelude::*;
use crate::listing::{MarkdownFileEntry, MarkdownFileEntryV};
use crate::text::{
    contains_sub, count_char, count_char_upto, find_sub, join_space, join_space_chars,
    lemma_find_sub, lower_chars, spec_contains_sub, spec_find_sub, spec_lower, split_ws,
    split_ws_chars, str_chars, subvec,
};

verus! {

/// One search result: where the document lives, the 1-based line of the
/// first match of the first token, and a whitespace-collapsed snippet.
#[derive(Debug)]
pub struct SearchHit {
    pub path: String,
    pub name: String,
    pub relative_path: String,
    pub line: u32,
    pub snippet: String,
}

pub struct SearchHitV {
    pub path: Seq<char>,
    pub name: Seq<char>,
    pub relative_path: Seq<char>,
    pub line: u32,
    pub snippet: Seq<char>,
}

impl View for SearchHit {
    type V = SearchHitV;

    open spec fn view(&self) -> SearchHitV {
        SearchHitV {
            path: self.path@,
            name: self.name@,
            relative_path: self.relative_path@,
            line: self.line,
            snippet: self.snippet@,
        }
    }
}

/// One indexed document handed to the search: its entry and its text,
/// `None` when the file could not be read.
#[derive(Debug)]
pub struct ScannedDocument {
    pub entry: MarkdownFileEntry,
    pub content: Option<String>,
}

pub struct ScannedDocumentV {
    pub entry: MarkdownFileEntryV,
    pub content: Option<Seq<char>>,
}

impl View for ScannedDocument {
    type V = ScannedDocumentV;

    open spec fn view(&self) -> ScannedDocumentV {
        ScannedDocumentV {
            entry: self.entry@,
            content: match self.content {
                Option::Some(ref s) => Option::Some(s@),
                Option::None => Option::None,
            },
        }
    }
}

/// The views of a hit vector.
pub open spec fn spec_hit_views(hits: Seq<SearchHit>) -> Seq<SearchHitV> {
    hits.map_values(|h: SearchHit| h@)
}

/// The views of a scanned-document vector.
pub open spec fn spec_doc_views(docs: Seq<ScannedDocument>) -> Seq<ScannedDocumentV> {
    docs.map_values(|d: ScannedDocument| d@)
}

// --- the query ---

/// The query's search tokens: its whitespace-separated words, lowercased.
pub open spec fn spec_tokens(query: Seq<char>) -> Seq<Seq<char>> {
    split_ws(query).map_values(|t: Seq<char>| spec_lower(t))
}

/// The effective result cap: the caller's limit, at least one; two
/// hundred when unspecified.
pub open spec fn spec_search_limit(limit: Option<u32>) -> int {
    match limit {
        Option::Some(l) => if l < 1 {
            1
        } else {
            l as int
        },
        Option::None => 200,
    }
}

fn tokenize_query(query: &str) -> (r: Vec<Vec<char>>)
    ensures
        r@.map_values(|t: Vec<char>| t@) == spec_tokens(query@),
{
    let qv = str_chars(query);
    let raw = split_ws_chars(&qv);
    let ghost toks = spec_tokens(query@);
    let n = raw.len();
    let mut out: Vec<Vec<char>> = Vec::new();
    let mut i: usize = 0;
    proof {
        assert(toks.len() == n);
        assert(out@.map_values(|t: Vec<char>| t@) =~= toks.take(0));
    }
    while i < n
        invariant
            n == raw@.len(),
            i <= n,
            raw@.map_values(|t: Vec<char>| t@) == split_ws(query@),
            toks == spec_tokens(query@),
            toks.len() == n,
            out@.map_values(|t: Vec<char>| t@) == toks.take(i as int),
        decreases n - i,
    {
        let low = lower_chars(&raw[i]);
        proof {
            assert(raw@.map_values(|t: Vec<char>| t@)[i as int] == raw@[i as int]@);
            assert(toks[i as int] == spec_lower(split_ws(query@)[i as int]));
            assert(low@ == toks[i as int]);
        }
        let ghost prev = out@;
        out.push(low);
        proof {
            assert(out@.map_values(|t: Vec<char>| t@) =~= prev.map_values(
                |t: Vec<char>| t@,
            ).push(low@));
            assert(toks.take(i + 1 as int) =~= toks.take(i as int).push(toks[i as int]));
        }
        i = i + 1;
    }
    proof {
        assert(toks.take(n as int) =~= toks);
    }
    out
}

// --- matching ---

/// AND semantics: a document matches when every token occurs somewhere
/// in its lowercased text.
pub open spec fn spec_doc_matches(content: Seq<char>, tokens: Seq<Seq<char>>) -> bool {
    forall|k: int| 0 <= k < tokens.len() ==> spec_contains_sub(spec_lower(content), tokens[k])
}

fn tokens_all_contained(lower: &Vec<char>, tokens: &Vec<Vec<char>>) -> (r: bool)
    ensures
        r == (forall|k: int|
            0 <= k < tokens@.len() ==> spec_contains_sub(lower@, tokens@[k]@)),
{
    let n = tokens.len();
    let mut k: usize = 0;
    while k < n
        invariant
            n == tokens@.len(),
            k <= n,
            forall|j: int| 0 <= j < k ==> spec_contains_sub(lower@, tokens@[j]@),
        decreases n - k,
    {
        if !contains_sub(lower, &tokens[k]) {
            return false;
        }
        k = k + 1;
    }
    true
}

// --- the reported hit ---

/// Where the first token first occurs in the lowercased text; zero when
/// it does not occur (which only happens for a non-matching document).
pub open spec fn spec_first_hit_index(lower: Seq<char>, tokens: Seq<Seq<char>>) -> int {
    match spec_find_sub(lower, tokens[0], 0) {
        Some(i) => i,
        None => 0,
    }
}

/// The 1-based line of a character position: one more than the newlines
/// before it, clamped to `u32`.
pub open spec fn spec_line_of(lower: Seq<char>, first: int) -> u32 {
    if count_char(lower.take(first), '\n') + 1 <= u32::MAX {
        (count_char(lower.take(first), '\n') + 1) as u32
    } else {
        u32::MAX
    }
}

/// The snippet around a character position: up to eighty characters
/// before and a hundred twenty after, whitespace runs collapsed to
/// single spaces.
pub open spec fn spec_snippet(content: Seq<char>, idx: int) -> Seq<char> {
    let start = if idx > 80 {
        idx - 80
    } else {
        0
    };
    let end = if idx + 120 < content.len() {
        idx + 120
    } else {
        content.len() as int
    };
    join_space(split_ws(content.subrange(start, end)))
}

/// The snippet of `content` around the match at `char_index`, built from
/// the original text.
pub fn build_snippet(content: &str, char_index: usize) -> (r: String)
    requires
        char_index <= content@.len(),
    ensures
        r@ == spec_snippet(content@, char_index as int),
{
    let v = str_chars(content);
    let n = v.len();
    let start: usize = if char_index > 80 {
        char_index - 80
    } else {
        0
    };
    let end: usize = if n - char_index > 120 {
        char_index + 120
    } else {
        n
    };
    let window = subvec(&v, start, end);
    let toks = split_ws_chars(&window);
    let joined = join_space_chars(&toks);
    crate::text::chars_to_string(&joined)
}

/// The hit reported for a matching document.
pub open spec fn spec_hit_for(
    entry: MarkdownFileEntryV,
    content: Seq<char>,
    tokens: Seq<Seq<char>>,
) -> SearchHitV {
    let lower = spec_lower(content);
    let first = spec_first_hit_index(lower, tokens);
    SearchHitV {
        path: entry.path,
        name: entry.name,
        relative_path: entry.relative_path,
        line: spec_line_of(lower, first),
        snippet: spec_snippet(content, first),
    }
}

// --- the scan ---

/// The hits of the scan, in index order: every readable document whose
/// text contains all tokens yields a hit, until `max` hits are found.
pub open spec fn spec_search_hits(
    docs: Seq<ScannedDocumentV>,
    tokens: Seq<Seq<char>>,
    max: int,
) -> Seq<SearchHitV>
    decreases docs.len(),
{
    if docs.len() == 0 || max <= 0 {
        Seq::empty()
    } else {
        match docs[0].content {
            Some(c) => if spec_doc_matches(c, tokens) {
                seq![spec_hit_for(docs[0].entry, c, tokens)] + spec_search_hits(
                    docs.drop_first(),
                    tokens,
                    max - 1,
                )
            } else {
                spec_search_hits(docs.drop_first(), tokens, max)
            },
            None => spec_search_hits(docs.drop_first(), tokens, max),
        }
    }
}

/// Runs the search over the scanned documents.
///
/// An empty token set yields no hits. Otherwise the result is exactly
/// the scan: documents in order, AND-matched case-insensitively, capped
/// at the effective limit.
pub fn search_documents(docs: &Vec<ScannedDocument>, query: &str, limit: Option<u32>) -> (r: Vec<
    SearchHit,
>)
    ensures
        spec_tokens(query@).len() == 0 ==> r@.len() == 0,
        spec_tokens(query@).len() > 0 ==> spec_hit_views(r@) == spec_search_hits(
            spec_doc_views(docs@),
            spec_tokens(query@),
            spec_search_limit(limit),
        ),
{
    let tokens = tokenize_query(query);
    if tokens.len() == 0 {
        return Vec::new();
    }
    let max: usize = match limit {
        Option::Some(l) => if l < 1 {
            1
        } else {
            l as usize
        },
        Option::None => 200,
    };
    let ghost tkv = spec_tokens(query@);
    let ghost dv = spec_doc_views(docs@);
    let ghost maxg = spec_search_limit(limit);
    proof {
        assert(max as int == maxg);
    }
    let n = docs.len();
    let mut hits: Vec<SearchHit> = Vec::new();
    let mut i: usize = 0;
    proof {
        assert(dv.skip(0) =~= dv);
        assert(spec_hit_views(hits@) + spec_search_hits(dv, tkv, maxg) =~= spec_search_hits(
            dv,
            tkv,
            maxg,
        ));
    }
    while i < n
        invariant
            n == docs@.len(),
            i <= n,
            tkv == spec_tokens(query@),
            tkv.len() == tokens@.len() > 0,
            tokens@.map_values(|t: Vec<char>| t@) == tkv,
            dv == spec_doc_views(docs@),
            dv.len() == n,
            maxg == spec_search_limit(limit),
            max as int == maxg,
            hits@.len() <= max,
            spec_search_hits(dv, tkv, maxg) == spec_hit_views(hits@) + (if hits@.len() < max {
                spec_search_hits(dv.skip(i as int), tkv, maxg - hits@.len())
            } else {
                Seq::<SearchHitV>::empty()
            }),
        ensures
            hits@.len() <= max,
            hits@.len() < max ==> i >= n,
            spec_search_hits(dv, tkv, maxg) == spec_hit_views(hits@) + (if hits@.len() < max {
                spec_search_hits(dv.skip(i as int), tkv, maxg - hits@.len())
            } else {
                Seq::<SearchHitV>::empty()
            }),
        decreases n - i,
    {
        if hits.len() >= max {
            proof {
                assert(spec_hit_views(hits@) + Seq::<SearchHitV>::empty() =~= spec_hit_views(
                    hits@,
                ));
            }
            break;
        }
        let d = &docs[i];
        proof {
            assert(dv[i as int] == docs@[i as int]@);
            assert(dv.skip(i as int)[0] == dv[i as int]);
            assert(dv.skip(i as int).drop_first() =~= dv.skip(i + 1 as int));
        }
        match &d.content {
            Option::None => {
                i = i + 1;
            },
            Option::Some(content_str) => {
                let chars = str_chars(content_str.as_str());
                let lower = lower_chars(&chars);
                let matched = tokens_all_contained(&lower, &tokens);
                proof {
                    assert forall|k: int| 0 <= k < tkv.len() implies tokens@[k]@ == tkv[k] by {
                        assert(tokens@.map_values(|t: Vec<char>| t@)[k] == tokens@[k]@);
                    }
                    if matched {
                        assert forall|k: int|
                            0 <= k < tkv.len() implies spec_contains_sub(
                            spec_lower(chars@),
                            tkv[k],
                        ) by {
                            assert(spec_contains_sub(lower@, tokens@[k]@));
                        }
                        assert(spec_doc_matches(chars@, tkv));
                    } else {
                        assert(exists|k: int|
                            0 <= k < tokens@.len() && !spec_contains_sub(lower@, tokens@[k]@));
                        let k0 = choose|k: int|
                            0 <= k < tokens@.len() && !spec_contains_sub(lower@, tokens@[k]@);
                        assert(!spec_contains_sub(spec_lower(chars@), tkv[k0]));
                        assert(!spec_doc_matches(chars@, tkv));
                    }
                    assert(dv[i as int].content == Option::Some(chars@));
                }
                if matched {
                    let first: usize = match find_sub(&lower, &tokens[0]) {
                        Option::Some(ix) => ix,
                        Option::None => 0,
                    };
                    proof {
                        lemma_find_sub(lower@, tokens@[0]@, 0);
                        assert(first as int == spec_first_hit_index(lower@, tkv));
                        assert(first <= lower@.len());
                    }
                    let count = count_char_upto(&lower, '\n', first);
                    let line: u32 = if (count as u64) >= 0xFFFF_FFFFu64 {
                        u32::MAX
                    } else {
                        ((count as u64) + 1) as u32
                    };
                    let snippet = build_snippet(content_str.as_str(), first);
                    let hit = SearchHit {
                        path: d.entry.path.clone(),
                        name: d.entry.name.clone(),
                        relative_path: d.entry.relative_path.clone(),
                        line,
                        snippet,
                    };
                    let ghost prev_hits = hits@;
                    proof {
                        assert(line == spec_line_of(lower@, first as int));
                        assert(hit@ == spec_hit_for(dv[i as int].entry, chars@, tkv));
                    }
                    hits.push(hit);
                    proof {
                        assert(spec_hit_views(hits@) =~= spec_hit_views(prev_hits).push(hit@));
                        assert(spec_search_hits(dv.skip(i as int), tkv, maxg - prev_hits.len())
                            == seq![hit@] + spec_search_hits(
                            dv.skip(i + 1 as int),
                            tkv,
                            maxg - prev_hits.len() - 1,
                        ));
                        assert(spec_hit_views(prev_hits) + (seq![hit@] + spec_search_hits(
                            dv.skip(i + 1 as int),
                            tkv,
                            maxg - hits@.len(),
                        )) =~= spec_hit_views(hits@) + spec_search_hits(
                            dv.skip(i + 1 as int),
                            tkv,
                            maxg - hits@.len(),
                        ));
                        if hits@.len() >= max {
                            assert(spec_search_hits(dv.skip(i + 1 as int), tkv, 0)
                                =~= Seq::<SearchHitV>::empty());
                            assert(spec_hit_views(hits@) + Seq::<SearchHitV>::empty()
                                =~= spec_hit_views(hits@));
                        }
                    }
                    i = i + 1;
                } else {
                    i = i + 1;
                }
            },
        }
    }
    proof {
        if hits@.len() < max {
            assert(spec_search_hits(dv.skip(i as int), tkv, maxg - hits@.len())
                =~= Seq::<SearchHitV>::empty());
        }
        assert(spec_hit_views(hits@) + Seq::<SearchHitV>::empty() =~= spec_hit_views(hits@));
    }
    hits
}

} // verus!
