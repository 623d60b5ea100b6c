//! The markdown link/anchor validator: heading slugs, link extraction and
//! normalization, target resolution, and the issue rules.
//!
//! The caller answers the per-link questions that need the filesystem or
//! the network (does the target exist, what does it contain, is the URL
//! reachable); which questions to ask and what each answer means is
//! specified and proved here.

use vstd::prelude::*;
use crate::errors::{AppError, AppErrorCode};
use crate::paths::{is_text_openable_file, join_path, spec_is_text_openable_path, spec_join_path};
use crate::text::{
    char_prefix_len, chars_to_string, eq_chars_str, eq_ignore_ascii_case_str,
    find_char_from, find_ws_from, lemma_char_prefix_len, lemma_char_suffix_len,
    lemma_find_char_from, lower_chars, spec_find_char_from, spec_find_ws_from, spec_is_ascii_alnum,
    spec_is_ws, spec_lower, spec_lower_char, spec_starts_with, spec_trim, spec_trim_matches,
    starts_with_str, str_chars, subvec, trim_chars, trim_matches_chars, trim_start_chars,
    char_suffix_len, is_ascii_alnum, is_ws, lower_char, spec_trim_start,
};

verus! {

// --- slugification ---

/// One slugification step: an ASCII letter or digit passes through
/// lowercased; whitespace, `-` and `_` become a single `-`, never at the
/// start and never doubled; everything else is dropped.
pub open spec fn spec_slug_step(acc: Seq<char>, c: char) -> Seq<char> {
    if spec_is_ascii_alnum(c) {
        acc.push(spec_lower_char(c))
    } else if (spec_is_ws(c) || c == '-' || c == '_') && acc.len() > 0 && acc.last() != '-' {
        acc.push('-')
    } else {
        acc
    }
}

pub open spec fn spec_slug_fold(s: Seq<char>) -> Seq<char>
    decreases s.len(),
{
    if s.len() == 0 {
        Seq::empty()
    } else {
        spec_slug_step(spec_slug_fold(s.drop_last()), s.last())
    }
}

/// GitHub-style slug of a heading's text: the fold above with trailing
/// dashes stripped.
pub open spec fn spec_slugify(s: Seq<char>) -> Seq<char> {
    let folded = spec_slug_fold(s);
    folded.take(folded.len() - char_suffix_len(folded, '-'))
}

/// The slug of a heading's text.
pub fn slugify_heading(input: &str) -> (r: String)
    ensures
        r@ == spec_slugify(input@),
{
    let v = str_chars(input);
    let n = v.len();
    let mut acc: Vec<char> = Vec::new();
    let mut i: usize = 0;
    while i < n
        invariant
            n == v@.len(),
            v@ == input@,
            i <= n,
            acc@ == spec_slug_fold(input@.take(i as int)),
        decreases n - i,
    {
        let c = v[i];
        proof {
            assert(input@.take(i + 1 as int).drop_last() =~= input@.take(i as int));
            assert(input@.take(i + 1 as int).last() == input@[i as int]);
        }
        if is_ascii_alnum(c) {
            acc.push(lower_char(c));
        } else if (is_ws(c) || c == '-' || c == '_') && acc.len() > 0 {
            if acc[acc.len() - 1] != '-' {
                acc.push('-');
            }
        }
        i = i + 1;
    }
    proof {
        assert(input@.take(n as int) =~= input@);
    }
    let mut b: usize = acc.len();
    while b > 0 && acc[b - 1] == '-'
        invariant
            b <= acc@.len(),
            forall|j: int| b <= j < acc@.len() ==> acc@[j] == '-',
        decreases b,
    {
        b = b - 1;
    }
    proof {
        if b > 0 {
            assert(acc@[b - 1] != '-');
        }
        lemma_char_suffix_len(acc@, '-', acc@.len() - b);
        assert(spec_slugify(input@) =~= acc@.subrange(0, b as int));
    }
    let out = subvec(&acc, 0, b);
    chars_to_string(&out)
}

// --- lines ---

/// A line with one trailing carriage return removed, as `str::lines`
/// yields it.
pub open spec fn spec_strip_cr(l: Seq<char>) -> Seq<char> {
    if l.len() > 0 && l.last() == '\r' {
        l.drop_last()
    } else {
        l
    }
}

/// `str::lines`: the text split at `\n`, each piece stripped of one
/// trailing `\r`, with no empty piece after a final newline.
pub open spec fn spec_lines(s: Seq<char>) -> Seq<Seq<char>>
    decreases s.len(),
    via spec_lines_dec
{
    if s.len() == 0 {
        Seq::empty()
    } else {
        match spec_find_char_from(s, 0, '\n') {
            Some(i) => seq![spec_strip_cr(s.take(i))] + spec_lines(s.skip(i + 1)),
            None => seq![spec_strip_cr(s)],
        }
    }
}

#[via_fn]
proof fn spec_lines_dec(s: Seq<char>) {
    if s.len() > 0 {
        lemma_find_char_from(s, 0, '\n');
    }
}

/// The lines of `v`, as character vectors.
pub fn lines_chars(v: &Vec<char>) -> (r: Vec<Vec<char>>)
    ensures
        r@.map_values(|l: Vec<char>| l@) == spec_lines(v@),
{
    let n = v.len();
    let mut out: Vec<Vec<char>> = Vec::new();
    let mut pos: usize = 0;
    let ghost f = |l: Vec<char>| l@;
    proof {
        assert(v@.skip(0) =~= v@);
        assert(out@.map_values(f) + spec_lines(v@) =~= spec_lines(v@));
    }
    while pos < n
        invariant
            n == v@.len(),
            pos <= n,
            spec_lines(v@) == out@.map_values(|l: Vec<char>| l@) + spec_lines(v@.skip(pos as int)),
        decreases n - pos,
    {
        let ghost tail = v@.skip(pos as int);
        let piece_end: usize;
        let next_pos: usize;
        match find_char_from(v, pos, '\n') {
            Some(k) => {
                proof {
                    lemma_find_char_from(v@, pos as int, '\n');
                }
                piece_end = k;
                next_pos = k + 1;
            },
            None => {
                piece_end = n;
                next_pos = n;
            },
        }
        proof {
            lemma_find_char_from(tail, 0, '\n');
            lemma_find_char_from(v@, pos as int, '\n');
            match spec_find_char_from(v@, pos as int, '\n') {
                Some(k) => {
                    assert forall|j: int| 0 <= j < k - pos implies tail[j] != '\n' by {
                        assert(tail[j] == v@[pos + j]);
                    }
                    assert(tail[k - pos] == v@[k as int]);
                    assert(spec_find_char_from(tail, 0, '\n') == Some(k - pos)) by {
                        lemma_find_char_first(tail, '\n', k - pos);
                    }
                },
                None => {
                    assert forall|j: int| 0 <= j < tail.len() implies tail[j] != '\n' by {
                        assert(tail[j] == v@[pos + j]);
                    }
                    assert(spec_find_char_from(tail, 0, '\n') is None) by {
                        lemma_find_char_from(tail, 0, '\n');
                        match spec_find_char_from(tail, 0, '\n') {
                            Some(x) => {
                                assert(tail[x] == '\n');
                            },
                            None => {},
                        }
                    }
                },
            }
        }
        let mut piece = subvec(v, pos, piece_end);
        if piece.len() > 0 && piece[piece.len() - 1] == '\r' {
            let stripped = subvec(&piece, 0, piece.len() - 1);
            proof {
                assert(stripped@ =~= piece@.drop_last());
            }
            piece = stripped;
        }
        proof {
            let t2 = v@.skip(pos as int);
            assert(t2.take(piece_end - pos) =~= v@.subrange(pos as int, piece_end as int));
            if next_pos > piece_end {
                assert(t2.skip(piece_end - pos + 1) =~= v@.skip(next_pos as int));
                assert(spec_lines(t2) == seq![spec_strip_cr(t2.take(piece_end - pos))]
                    + spec_lines(v@.skip(next_pos as int)));
            } else {
                assert(t2 =~= v@.subrange(pos as int, piece_end as int));
                assert(t2.len() > 0);
                assert(spec_lines(t2) == seq![spec_strip_cr(t2)]);
                assert(v@.skip(next_pos as int).len() == 0);
                assert(spec_lines(v@.skip(next_pos as int)) =~= Seq::<Seq<char>>::empty());
            }
            assert(piece@ == spec_strip_cr(v@.subrange(pos as int, piece_end as int)));
        }
        let ghost prev = out@;
        out.push(piece);
        proof {
            assert(out@.map_values(|l: Vec<char>| l@) =~= prev.map_values(
                |l: Vec<char>| l@,
            ).push(piece@));
            assert(prev.map_values(|l: Vec<char>| l@).push(piece@) + spec_lines(
                v@.skip(next_pos as int),
            ) =~= prev.map_values(|l: Vec<char>| l@) + (seq![piece@] + spec_lines(
                v@.skip(next_pos as int),
            )));
        }
        pos = next_pos;
    }
    proof {
        assert(v@.skip(n as int).len() == 0);
        assert(out@.map_values(|l: Vec<char>| l@) + spec_lines(v@.skip(n as int))
            =~= out@.map_values(|l: Vec<char>| l@));
    }
    out
}

/// First occurrence characterized from the other side: if `c` sits at
/// `k` and nowhere before, the search finds `k`.
proof fn lemma_find_char_first(s: Seq<char>, c: char, k: int)
    requires
        0 <= k < s.len(),
        s[k] == c,
        forall|j: int| 0 <= j < k ==> s[j] != c,
    ensures
        spec_find_char_from(s, 0, c) == Some(k),
{
    lemma_find_char_from(s, 0, c);
    match spec_find_char_from(s, 0, c) {
        Some(i) => {
            if i < k {
                assert(s[i] != c);
            }
            if i > k {
                assert(s[k] != c);
            }
        },
        None => {
            assert(s[k] != c);
        },
    }
}

// --- heading slugs ---

/// The slug one line contributes: after leading whitespace, one to six
/// `#` markers, then the heading text; empty slugs contribute nothing.
pub open spec fn spec_line_slug(line: Seq<char>) -> Option<Seq<char>> {
    let t = spec_trim_start(line);
    let h = char_prefix_len(t, '#');
    if 1 <= h <= 6 {
        let content = spec_trim(t.skip(h));
        let slug = spec_slugify(content);
        if slug.len() > 0 {
            Some(slug)
        } else {
            None
        }
    } else {
        None
    }
}

/// The set of anchor slugs a document's headings define.
pub open spec fn spec_heading_slugs(md: Seq<char>) -> Set<Seq<char>> {
    Set::new(
        |slug: Seq<char>|
            exists|i: int|
                0 <= i < spec_lines(md).len() && spec_line_slug(spec_lines(md)[i]) == Some(slug),
    )
}

fn line_slug(line: &Vec<char>) -> (r: Option<String>)
    ensures
        match r {
            Some(s) => spec_line_slug(line@) == Some(s@),
            None => spec_line_slug(line@) is None,
        },
{
    let t = trim_start_chars(line);
    let n = t.len();
    let mut h: usize = 0;
    while h < n && t[h] == '#'
        invariant
            n == t@.len(),
            h <= n,
            forall|j: int| 0 <= j < h ==> t@[j] == '#',
        decreases n - h,
    {
        h = h + 1;
    }
    proof {
        lemma_char_prefix_len(t@, '#', h as int);
    }
    if h < 1 || h > 6 {
        return None;
    }
    let rest = subvec(&t, h, n);
    proof {
        assert(rest@ =~= t@.skip(h as int));
    }
    let content = trim_chars(&rest);
    let slug = slugify_heading(chars_to_string(&content).as_str());
    if slug.as_str().unicode_len() == 0 {
        None
    } else {
        Some(slug)
    }
}

/// The heading slugs of a document. A string is in the returned list
/// exactly when some heading line produces it, and never empty: a
/// heading that slugifies to nothing contributes no anchor.
pub fn heading_slugs(markdown: &str) -> (r: Vec<String>)
    ensures
        forall|j: int|
            0 <= j < r@.len() ==> spec_heading_slugs(markdown@).contains(#[trigger] r@[j]@),
        forall|s: Seq<char>|
            #[trigger] spec_heading_slugs(markdown@).contains(s) ==> exists|j: int|
                0 <= j < r@.len() && r@[j]@ == s,
        forall|j: int| 0 <= j < r@.len() ==> #[trigger] r@[j]@.len() > 0,
{
    let chars = str_chars(markdown);
    let lines = lines_chars(&chars);
    let n = lines.len();
    let ghost lv = spec_lines(markdown@);
    let mut out: Vec<String> = Vec::new();
    let mut i: usize = 0;
    proof {
        assert(lv.len() == n);
    }
    while i < n
        invariant
            n == lines@.len(),
            i <= n,
            lv == spec_lines(markdown@),
            lines@.map_values(|l: Vec<char>| l@) == lv,
            forall|j: int|
                0 <= j < out@.len() ==> exists|k: int|
                    0 <= k < i && spec_line_slug(lv[k]) == Some(#[trigger] out@[j]@),
            forall|k: int|
                0 <= k < i ==> (#[trigger] spec_line_slug(lv[k]) is None || exists|j: int|
                    0 <= j < out@.len() && Some(out@[j]@) == spec_line_slug(lv[k])),
            forall|j: int| 0 <= j < out@.len() ==> #[trigger] out@[j]@.len() > 0,
        decreases n - i,
    {
        proof {
            assert(lines@.map_values(|l: Vec<char>| l@)[i as int] == lines@[i as int]@);
        }
        match line_slug(&lines[i]) {
            Some(s) => {
                proof {
                    assert(spec_line_slug(lv[i as int]) == Some(s@));
                    assert(s@.len() > 0);
                }
                let ghost prev = out@;
                out.push(s);
                proof {
                    assert forall|j: int|
                        0 <= j < out@.len() implies exists|k: int|
                        0 <= k < i + 1 && spec_line_slug(lv[k]) == Some(#[trigger] out@[j]@) by {
                        if j < prev.len() {
                            assert(out@[j] == prev[j]);
                            let k = choose|k: int|
                                0 <= k < i && spec_line_slug(lv[k]) == Some(prev[j]@);
                            assert(spec_line_slug(lv[k]) == Some(out@[j]@));
                        } else {
                            assert(spec_line_slug(lv[i as int]) == Some(out@[j]@));
                        }
                    }
                    assert forall|k: int|
                        0 <= k < i + 1 implies (#[trigger] spec_line_slug(lv[k]) is None
                        || exists|j: int|
                        0 <= j < out@.len() && Some(out@[j]@) == spec_line_slug(lv[k])) by {
                        if k < i {
                            if !(spec_line_slug(lv[k]) is None) {
                                let j = choose|j: int|
                                    0 <= j < prev.len() && Some(prev[j]@) == spec_line_slug(
                                        lv[k],
                                    );
                                assert(out@[j] == prev[j]);
                                assert(Some(out@[j]@) == spec_line_slug(lv[k]));
                            }
                        } else {
                            assert(Some(out@[out@.len() - 1]@) == spec_line_slug(lv[k]));
                        }
                    }
                    assert forall|j: int|
                        0 <= j < out@.len() implies #[trigger] out@[j]@.len() > 0 by {
                        if j < prev.len() {
                            assert(out@[j] == prev[j]);
                        }
                    }
                }
            },
            None => {
                proof {
                    assert(spec_line_slug(lv[i as int]) is None);
                }
            },
        }
        i = i + 1;
    }
    proof {
        assert forall|j: int|
            0 <= j < out@.len() implies spec_heading_slugs(markdown@).contains(
            #[trigger] out@[j]@,
        ) by {
            let k = choose|k: int| 0 <= k < n && spec_line_slug(lv[k]) == Some(out@[j]@);
            assert(spec_line_slug(lv[k]) == Some(out@[j]@));
        }
        assert forall|s: Seq<char>|
            #[trigger] spec_heading_slugs(markdown@).contains(s) implies exists|j: int|
            0 <= j < out@.len() && out@[j]@ == s by {
            let k = choose|k: int| 0 <= k < lv.len() && spec_line_slug(lv[k]) == Some(s);
            assert(!(spec_line_slug(lv[k]) is None));
            let j = choose|j: int|
                0 <= j < out@.len() && Some(out@[j]@) == spec_line_slug(lv[k]);
            assert(out@[j]@ == s);
        }
    }
    out
}

// --- link classification ---

/// Splitting a link into its path part and its anchor: a leading `#`
/// means an empty path; otherwise the first `#` separates the two.
pub open spec fn spec_split_link(link: Seq<char>) -> (Seq<char>, Option<Seq<char>>) {
    if link.len() > 0 && link[0] == '#' {
        (Seq::empty(), Some(link.drop_first()))
    } else {
        match spec_find_char_from(link, 0, '#') {
            Some(i) => (link.take(i), Some(link.skip(i + 1))),
            None => (link, None),
        }
    }
}

/// Splits a link into path part and optional anchor.
pub fn split_link_and_anchor(link: &str) -> (r: (String, Option<String>))
    ensures
        r.0@ == spec_split_link(link@).0,
        match r.1 {
            Some(a) => spec_split_link(link@).1 == Some(a@),
            None => spec_split_link(link@).1 is None,
        },
{
    let v = str_chars(link);
    let n = v.len();
    if n > 0 && v[0] == '#' {
        let rest = subvec(&v, 1, n);
        proof {
            assert(rest@ =~= link@.drop_first());
        }
        return (String::new(), Some(chars_to_string(&rest)));
    }
    match find_char_from(&v, 0, '#') {
        Some(i) => {
            proof {
                lemma_find_char_from(v@, 0, '#');
            }
            let before = subvec(&v, 0, i);
            let after = subvec(&v, i + 1, n);
            proof {
                assert(before@ =~= link@.take(i as int));
                assert(after@ =~= link@.skip(i + 1 as int));
            }
            (chars_to_string(&before), Some(chars_to_string(&after)))
        },
        None => (link.to_owned(), None),
    }
}

/// Normalization of a raw link target: trim, strip one surrounding
/// `<...>` pair, cut at the first whitespace, strip surrounding quote
/// characters, trim again.
pub open spec fn spec_normalize_link(raw: Seq<char>) -> Seq<char> {
    let v1 = spec_trim(raw);
    let v2 = if v1.len() > 2 && v1[0] == '<' && v1.last() == '>' {
        v1.subrange(1, v1.len() - 1)
    } else {
        v1
    };
    let v3 = match spec_find_ws_from(v2, 0) {
        Some(i) => v2.take(i),
        None => v2,
    };
    spec_trim(spec_trim_matches(spec_trim_matches(v3, '"'), '\''))
}

fn normalize_link_chars(raw: &Vec<char>) -> (r: Vec<char>)
    ensures
        r@ == spec_normalize_link(raw@),
{
    let v1 = trim_chars(raw);
    let n1 = v1.len();
    let v2 = if n1 > 2 && v1[0] == '<' && v1[n1 - 1] == '>' {
        let inner = subvec(&v1, 1, n1 - 1);
        proof {
            assert(inner@ =~= v1@.subrange(1, v1@.len() - 1));
        }
        inner
    } else {
        v1
    };
    let v3 = match find_ws_from(&v2, 0) {
        Some(i) => {
            proof {
                crate::text::lemma_find_ws_from(v2@, 0);
            }
            subvec(&v2, 0, i)
        },
        None => v2,
    };
    let v4 = trim_matches_chars(&v3, '"');
    let v5 = trim_matches_chars(&v4, '\'');
    trim_chars(&v5)
}

/// Normalizes a raw link target.
pub fn normalize_link_target(raw: &str) -> (r: String)
    ensures
        r@ == spec_normalize_link(raw@),
{
    let v = str_chars(raw);
    let out = normalize_link_chars(&v);
    chars_to_string(&out)
}

// --- link extraction ---

/// A link found in the markdown: the 1-based line it sits on and its
/// raw target.
#[derive(Debug)]
pub struct FoundLink {
    pub line: u32,
    pub target: String,
}

pub struct FoundLinkV {
    pub line: u32,
    pub target: Seq<char>,
}

impl View for FoundLink {
    type V = FoundLinkV;

    open spec fn view(&self) -> FoundLinkV {
        FoundLinkV { line: self.line, target: self.target@ }
    }
}

/// The inline-link pattern at position `i`: an optional `!`, a `[`, any
/// characters up to the first `]`, then immediately `(`, then at least
/// one character up to the first `)`. Yields the end of the match and
/// the raw target between the parentheses.
pub open spec fn spec_inline_match_at(s: Seq<char>, i: int) -> Option<(int, Seq<char>)> {
    let open = if 0 <= i < s.len() && s[i] == '[' {
        i
    } else if 0 <= i && i + 1 < s.len() && s[i] == '!' && s[i + 1] == '[' {
        i + 1
    } else {
        -1
    };
    if open < 0 {
        None
    } else {
        match spec_find_char_from(s, open + 1, ']') {
            Some(k) => if k + 1 < s.len() && s[k + 1] == '(' {
                match spec_find_char_from(s, k + 2, ')') {
                    Some(m) => if m > k + 2 {
                        Some((m, s.subrange(k + 2, m)))
                    } else {
                        None
                    },
                    None => None,
                }
            } else {
                None
            },
            None => None,
        }
    }
}

proof fn lemma_inline_match_bounds(s: Seq<char>, i: int)
    ensures
        spec_inline_match_at(s, i) matches Some(mt) ==> i < mt.0 < s.len(),
{
    if 0 <= i < s.len() && (s[i] == '[' || (i + 1 < s.len() && s[i] == '!' && s[i + 1] == '[')) {
        let open = if s[i] == '[' {
            i
        } else {
            i + 1
        };
        lemma_find_char_from(s, open + 1, ']');
        match spec_find_char_from(s, open + 1, ']') {
            Some(k) => {
                lemma_find_char_from(s, k + 2, ')');
            },
            None => {},
        }
    }
}

/// The raw inline-link targets of `s` at or after `i`, in scanning
/// order: leftmost match first, continuing after each match.
pub open spec fn spec_inline_targets_from(s: Seq<char>, i: int) -> Seq<Seq<char>>
    decreases s.len() - i,
    via spec_inline_targets_dec
{
    if i < 0 || i >= s.len() {
        Seq::empty()
    } else {
        match spec_inline_match_at(s, i) {
            Some(mt) => seq![mt.1] + spec_inline_targets_from(s, mt.0 + 1),
            None => spec_inline_targets_from(s, i + 1),
        }
    }
}

#[via_fn]
proof fn spec_inline_targets_dec(s: Seq<char>, i: int) {
    lemma_inline_match_bounds(s, i);
}

/// The autolink pattern at position `i`: `<`, a lowercase `http://` or
/// `https://`, at least one character that is neither `>` nor
/// whitespace, then `>`. Yields the end of the match and the URL.
pub open spec fn spec_auto_match_at(s: Seq<char>, i: int) -> Option<(int, Seq<char>)> {
    if 0 <= i < s.len() && s[i] == '<' {
        let scheme_len: int = if spec_starts_with(s.skip(i + 1), "https://"@) {
            8
        } else if spec_starts_with(s.skip(i + 1), "http://"@) {
            7
        } else {
            0
        };
        if scheme_len == 0 {
            None
        } else {
            let run_start = i + 1 + scheme_len;
            match crate::text::spec_find_stop_from(s, run_start) {
                Some(j) => if s[j] == '>' && j > run_start {
                    Some((j, s.subrange(i + 1, j)))
                } else {
                    None
                },
                None => None,
            }
        }
    } else {
        None
    }
}

proof fn lemma_auto_match_bounds(s: Seq<char>, i: int)
    ensures
        spec_auto_match_at(s, i) matches Some(mt) ==> i < mt.0 < s.len(),
{
    if 0 <= i < s.len() && s[i] == '<' {
        crate::text::lemma_find_stop_from(s, i + 1 + 8);
        crate::text::lemma_find_stop_from(s, i + 1 + 7);
    }
}

/// The autolink URLs of `s` at or after `i`, in scanning order.
pub open spec fn spec_auto_targets_from(s: Seq<char>, i: int) -> Seq<Seq<char>>
    decreases s.len() - i,
    via spec_auto_targets_dec
{
    if i < 0 || i >= s.len() {
        Seq::empty()
    } else {
        match spec_auto_match_at(s, i) {
            Some(mt) => seq![mt.1] + spec_auto_targets_from(s, mt.0 + 1),
            None => spec_auto_targets_from(s, i + 1),
        }
    }
}

#[via_fn]
proof fn spec_auto_targets_dec(s: Seq<char>, i: int) {
    lemma_auto_match_bounds(s, i);
}

/// Inline targets normalized, with the ones that normalize to nothing
/// dropped.
pub open spec fn spec_norm_filter(caps: Seq<Seq<char>>) -> Seq<Seq<char>>
    decreases caps.len(),
{
    if caps.len() == 0 {
        Seq::empty()
    } else {
        let head = spec_normalize_link(caps[0]);
        if head.len() > 0 {
            seq![head] + spec_norm_filter(caps.drop_first())
        } else {
            spec_norm_filter(caps.drop_first())
        }
    }
}

/// All link targets one line contributes: its normalized inline targets,
/// then its autolink URLs as written.
pub open spec fn spec_line_links(line: Seq<char>) -> Seq<Seq<char>> {
    spec_norm_filter(spec_inline_targets_from(line, 0)) + spec_auto_targets_from(line, 0)
}

/// The 1-based line number of the line at index `i`, clamped to `u32`.
pub open spec fn spec_line_no(i: int) -> u32 {
    if i + 1 <= u32::MAX {
        (i + 1) as u32
    } else {
        u32::MAX
    }
}

/// The targets tagged with their line number.
pub open spec fn spec_tag_links(targets: Seq<Seq<char>>, line: u32) -> Seq<FoundLinkV> {
    targets.map_values(|t: Seq<char>| FoundLinkV { line, target: t })
}

/// Every link of the document, line by line.
pub open spec fn spec_extract_from(lines: Seq<Seq<char>>, i: int) -> Seq<FoundLinkV>
    decreases lines.len() - i,
{
    if i < 0 || i >= lines.len() {
        Seq::empty()
    } else {
        spec_tag_links(spec_line_links(lines[i]), spec_line_no(i)) + spec_extract_from(
            lines,
            i + 1,
        )
    }
}

pub open spec fn spec_extract(md: Seq<char>) -> Seq<FoundLinkV> {
    spec_extract_from(spec_lines(md), 0)
}

fn inline_targets(line: &Vec<char>) -> (r: Vec<Vec<char>>)
    ensures
        r@.map_values(|t: Vec<char>| t@) == spec_inline_targets_from(line@, 0),
{
    let n = line.len();
    let mut out: Vec<Vec<char>> = Vec::new();
    let mut i: usize = 0;
    proof {
        assert(out@.map_values(|t: Vec<char>| t@) + spec_inline_targets_from(line@, 0)
            =~= spec_inline_targets_from(line@, 0));
    }
    while i < n
        invariant
            n == line@.len(),
            i <= n,
            spec_inline_targets_from(line@, 0) == out@.map_values(|t: Vec<char>| t@)
                + spec_inline_targets_from(line@, i as int),
        decreases n - i,
    {
        let open: usize;
        let have_open: bool;
        if line[i] == '[' {
            open = i;
            have_open = true;
        } else if line[i] == '!' && i + 1 < n && line[i + 1] == '[' {
            open = i + 1;
            have_open = true;
        } else {
            open = 0;
            have_open = false;
        }
        let mut matched = false;
        if have_open {
            match find_char_from(line, open + 1, ']') {
                Some(k) => {
                    proof {
                        lemma_find_char_from(line@, open + 1 as int, ']');
                    }
                    if k + 1 < n && line[k + 1] == '(' {
                        match find_char_from(line, k + 2, ')') {
                            Some(m) => {
                                proof {
                                    lemma_find_char_from(line@, k + 2 as int, ')');
                                }
                                if m > k + 2 {
                                    let target = subvec(line, k + 2, m);
                                    let ghost prev = out@;
                                    out.push(target);
                                    proof {
                                        assert(spec_inline_match_at(line@, i as int) == Some(
                                            (m as int, line@.subrange(k + 2 as int, m as int)),
                                        ));
                                        assert(out@.map_values(|t: Vec<char>| t@)
                                            =~= prev.map_values(|t: Vec<char>| t@).push(
                                            target@,
                                        ));
                                        assert(prev.map_values(|t: Vec<char>| t@) + (seq![
                                            target@,
                                        ] + spec_inline_targets_from(line@, m + 1 as int))
                                            =~= out@.map_values(|t: Vec<char>| t@)
                                            + spec_inline_targets_from(line@, m + 1 as int));
                                    }
                                    i = m + 1;
                                    matched = true;
                                }
                            },
                            None => {},
                        }
                    }
                },
                None => {},
            }
        }
        if !matched {
            proof {
                assert(spec_inline_match_at(line@, i as int) is None);
                assert(spec_inline_targets_from(line@, i as int) == spec_inline_targets_from(
                    line@,
                    i + 1 as int,
                ));
            }
            i = i + 1;
        }
    }
    proof {
        assert(spec_inline_targets_from(line@, i as int) =~= Seq::<Seq<char>>::empty());
        assert(out@.map_values(|t: Vec<char>| t@) + Seq::<Seq<char>>::empty() =~= out@.map_values(
            |t: Vec<char>| t@,
        ));
    }
    out
}

fn auto_targets(line: &Vec<char>) -> (r: Vec<Vec<char>>)
    ensures
        r@.map_values(|t: Vec<char>| t@) == spec_auto_targets_from(line@, 0),
{
    let n = line.len();
    let mut out: Vec<Vec<char>> = Vec::new();
    let mut i: usize = 0;
    proof {
        assert(out@.map_values(|t: Vec<char>| t@) + spec_auto_targets_from(line@, 0)
            =~= spec_auto_targets_from(line@, 0));
    }
    while i < n
        invariant
            n == line@.len(),
            i <= n,
            spec_auto_targets_from(line@, 0) == out@.map_values(|t: Vec<char>| t@)
                + spec_auto_targets_from(line@, i as int),
        decreases n - i,
    {
        let mut matched = false;
        if line[i] == '<' {
            let rest = subvec(line, i + 1, n);
            proof {
                assert(rest@ =~= line@.skip(i + 1 as int));
            }
            let scheme_len: usize = if starts_with_str(&rest, "https://") {
                8
            } else if starts_with_str(&rest, "http://") {
                7
            } else {
                0
            };
            if scheme_len > 0 {
                proof {
                    reveal_strlit("https://");
                    reveal_strlit("http://");
                    assert(i + 1 + scheme_len <= n);
                }
                let run_start = i + 1 + scheme_len;
                match crate::text::find_stop_from(line, run_start) {
                    Some(j) => {
                        proof {
                            crate::text::lemma_find_stop_from(line@, run_start as int);
                        }
                        if line[j] == '>' && j > run_start {
                            let target = subvec(line, i + 1, j);
                            let ghost prev = out@;
                            out.push(target);
                            proof {
                                assert(spec_auto_match_at(line@, i as int) == Some(
                                    (j as int, line@.subrange(i + 1 as int, j as int)),
                                ));
                                assert(out@.map_values(|t: Vec<char>| t@) =~= prev.map_values(
                                    |t: Vec<char>| t@,
                                ).push(target@));
                                assert(prev.map_values(|t: Vec<char>| t@) + (seq![target@]
                                    + spec_auto_targets_from(line@, j + 1 as int))
                                    =~= out@.map_values(|t: Vec<char>| t@)
                                    + spec_auto_targets_from(line@, j + 1 as int));
                            }
                            i = j + 1;
                            matched = true;
                        }
                    },
                    None => {},
                }
            }
        }
        if !matched {
            proof {
                assert(spec_auto_match_at(line@, i as int) is None);
                assert(spec_auto_targets_from(line@, i as int) == spec_auto_targets_from(
                    line@,
                    i + 1 as int,
                ));
            }
            i = i + 1;
        }
    }
    proof {
        assert(spec_auto_targets_from(line@, i as int) =~= Seq::<Seq<char>>::empty());
        assert(out@.map_values(|t: Vec<char>| t@) + Seq::<Seq<char>>::empty() =~= out@.map_values(
            |t: Vec<char>| t@,
        ));
    }
    out
}

/// Every inline link target and autolink of the markdown text, tagged
/// with its 1-based line.
pub fn extract_markdown_links(markdown: &str) -> (r: Vec<FoundLink>)
    ensures
        r@.map_values(|l: FoundLink| l@) == spec_extract(markdown@),
{
    let chars = str_chars(markdown);
    let lines = lines_chars(&chars);
    let ghost lv = spec_lines(markdown@);
    let n = lines.len();
    let mut out: Vec<FoundLink> = Vec::new();
    let mut i: usize = 0;
    proof {
        assert(out@.map_values(|l: FoundLink| l@) + spec_extract_from(lv, 0) =~= spec_extract_from(
            lv,
            0,
        ));
    }
    while i < n
        invariant
            n == lines@.len(),
            i <= n,
            lv == spec_lines(markdown@),
            lines@.map_values(|l: Vec<char>| l@) == lv,
            lv.len() == n,
            spec_extract(markdown@) == out@.map_values(|l: FoundLink| l@) + spec_extract_from(
                lv,
                i as int,
            ),
        decreases n - i,
    {
        proof {
            assert(lines@.map_values(|l: Vec<char>| l@)[i as int] == lines@[i as int]@);
        }
        let line_no: u32 = if (i as u64) >= 0xFFFF_FFFFu64 {
            u32::MAX
        } else {
            ((i as u64) + 1) as u32
        };
        proof {
            assert(line_no == spec_line_no(i as int));
        }
        let inline_raw = inline_targets(&lines[i]);
        let ghost capsv = spec_inline_targets_from(lv[i as int], 0);
        let m1 = inline_raw.len();
        let mut targets: Vec<Vec<char>> = Vec::new();
        let mut k: usize = 0;
        proof {
            assert(targets@.map_values(|t: Vec<char>| t@) + spec_norm_filter(capsv)
                =~= spec_norm_filter(capsv));
            assert(capsv.skip(0) =~= capsv);
        }
        while k < m1
            invariant
                m1 == inline_raw@.len(),
                k <= m1,
                capsv == spec_inline_targets_from(lv[i as int], 0),
                inline_raw@.map_values(|t: Vec<char>| t@) == capsv,
                capsv.len() == m1,
                spec_norm_filter(capsv) == targets@.map_values(|t: Vec<char>| t@)
                    + spec_norm_filter(capsv.skip(k as int)),
            decreases m1 - k,
        {
            proof {
                assert(inline_raw@.map_values(|t: Vec<char>| t@)[k as int]
                    == inline_raw@[k as int]@);
                assert(capsv.skip(k as int)[0] == capsv[k as int]);
                assert(capsv.skip(k as int).drop_first() =~= capsv.skip(k + 1 as int));
            }
            let norm = normalize_link_chars(&inline_raw[k]);
            if norm.len() > 0 {
                let ghost prev = targets@;
                targets.push(norm);
                proof {
                    assert(targets@.map_values(|t: Vec<char>| t@) =~= prev.map_values(
                        |t: Vec<char>| t@,
                    ).push(spec_normalize_link(capsv[k as int])));
                    assert(prev.map_values(|t: Vec<char>| t@) + (seq![
                        spec_normalize_link(capsv[k as int]),
                    ] + spec_norm_filter(capsv.skip(k + 1 as int))) =~= targets@.map_values(
                        |t: Vec<char>| t@,
                    ) + spec_norm_filter(capsv.skip(k + 1 as int)));
                }
            }
            k = k + 1;
        }
        proof {
            assert(capsv.skip(m1 as int).len() == 0);
            assert(spec_norm_filter(capsv.skip(m1 as int)) =~= Seq::<Seq<char>>::empty());
            assert(targets@.map_values(|t: Vec<char>| t@) + Seq::<Seq<char>>::empty()
                =~= targets@.map_values(|t: Vec<char>| t@));
            assert(targets@.map_values(|t: Vec<char>| t@) == spec_norm_filter(capsv));
        }
        let autos = auto_targets(&lines[i]);
        let m2 = autos.len();
        let ghost autov = spec_auto_targets_from(lv[i as int], 0);
        let mut k2: usize = 0;
        while k2 < m2
            invariant
                m2 == autos@.len(),
                k2 <= m2,
                autov == spec_auto_targets_from(lv[i as int], 0),
                autos@.map_values(|t: Vec<char>| t@) == autov,
                autov.len() == m2,
                capsv == spec_inline_targets_from(lv[i as int], 0),
                targets@.map_values(|t: Vec<char>| t@) == spec_norm_filter(capsv) + autov.take(
                    k2 as int,
                ),
            decreases m2 - k2,
        {
            proof {
                assert(autos@.map_values(|t: Vec<char>| t@)[k2 as int] == autos@[k2 as int]@);
            }
            let copy = subvec(&autos[k2], 0, autos[k2].len());
            proof {
                assert(copy@ =~= autov[k2 as int]);
            }
            let ghost prev = targets@;
            targets.push(copy);
            proof {
                assert(targets@.map_values(|t: Vec<char>| t@) =~= prev.map_values(
                    |t: Vec<char>| t@,
                ).push(autov[k2 as int]));
                assert(spec_norm_filter(capsv) + autov.take(k2 + 1 as int) =~= (spec_norm_filter(
                    capsv,
                ) + autov.take(k2 as int)).push(autov[k2 as int]));
            }
            k2 = k2 + 1;
        }
        proof {
            assert(autov.take(m2 as int) =~= autov);
            assert(targets@.map_values(|t: Vec<char>| t@) == spec_line_links(lv[i as int]));
        }
        let mt = targets.len();
        let ghost linkseq = spec_line_links(lv[i as int]);
        let mut k3: usize = 0;
        let ghost base = out@;
        while k3 < mt
            invariant
                mt == targets@.len(),
                k3 <= mt,
                linkseq == spec_line_links(lv[i as int]),
                targets@.map_values(|t: Vec<char>| t@) == linkseq,
                linkseq.len() == mt,
                line_no == spec_line_no(i as int),
                out@.map_values(|l: FoundLink| l@) == base.map_values(|l: FoundLink| l@)
                    + spec_tag_links(linkseq, line_no).take(k3 as int),
            decreases mt - k3,
        {
            proof {
                assert(targets@.map_values(|t: Vec<char>| t@)[k3 as int] == targets@[k3 as int]@);
            }
            let target = chars_to_string(&targets[k3]);
            let ghost prev = out@;
            out.push(FoundLink { line: line_no, target });
            proof {
                assert(spec_tag_links(linkseq, line_no)[k3 as int] == (FoundLinkV {
                    line: line_no,
                    target: linkseq[k3 as int],
                }));
                assert(out@.map_values(|l: FoundLink| l@) =~= prev.map_values(
                    |l: FoundLink| l@,
                ).push(spec_tag_links(linkseq, line_no)[k3 as int]));
                assert(spec_tag_links(linkseq, line_no).take(k3 + 1 as int) =~= spec_tag_links(
                    linkseq,
                    line_no,
                ).take(k3 as int).push(spec_tag_links(linkseq, line_no)[k3 as int]));
                assert(base.map_values(|l: FoundLink| l@) + spec_tag_links(
                    linkseq,
                    line_no,
                ).take(k3 + 1 as int) =~= (base.map_values(|l: FoundLink| l@) + spec_tag_links(
                    linkseq,
                    line_no,
                ).take(k3 as int)).push(spec_tag_links(linkseq, line_no)[k3 as int]));
            }
            k3 = k3 + 1;
        }
        proof {
            assert(spec_tag_links(linkseq, line_no).take(mt as int) =~= spec_tag_links(
                linkseq,
                line_no,
            ));
            assert(spec_extract_from(lv, i as int) == spec_tag_links(linkseq, line_no)
                + spec_extract_from(lv, i + 1 as int));
            assert(base.map_values(|l: FoundLink| l@) + (spec_tag_links(linkseq, line_no)
                + spec_extract_from(lv, i + 1 as int)) =~= (base.map_values(|l: FoundLink| l@)
                + spec_tag_links(linkseq, line_no)) + spec_extract_from(lv, i + 1 as int));
        }
        i = i + 1;
    }
    proof {
        assert(spec_extract_from(lv, n as int) =~= Seq::<FoundLinkV>::empty());
        assert(out@.map_values(|l: FoundLink| l@) + Seq::<FoundLinkV>::empty() =~= out@.map_values(
            |l: FoundLink| l@,
        ));
    }
    out
}

/// An external link: one the validator probes instead of resolving.
pub open spec fn spec_is_external_link(link: Seq<char>) -> bool {
    spec_starts_with(link, "http://"@) || spec_starts_with(link, "https://"@)
}

pub fn is_external_link(link: &str) -> (r: bool)
    ensures
        r == spec_is_external_link(link@),
{
    let v = str_chars(link);
    starts_with_str(&v, "http://") || starts_with_str(&v, "https://")
}

/// A link scheme the validator ignores entirely.
pub open spec fn spec_is_ignored_link(link: Seq<char>) -> bool {
    spec_starts_with(link, "mailto:"@) || spec_starts_with(link, "tel:"@) || spec_starts_with(
        link,
        "javascript:"@,
    )
}

pub fn is_ignored_link(link: &str) -> (r: bool)
    ensures
        r == spec_is_ignored_link(link@),
{
    let v = str_chars(link);
    starts_with_str(&v, "mailto:") || starts_with_str(&v, "tel:") || starts_with_str(
        &v,
        "javascript:",
    )
}

// --- external URL host and port ---

/// The default port of a scheme: 443 for `https` in any case, else 80.
pub open spec fn spec_default_port(scheme: Seq<char>) -> u16 {
    if spec_lower(scheme) == spec_lower("https"@) {
        443
    } else {
        80
    }
}

/// The authority of what follows `://`: up to the first `/`, `?` and
/// `#`, with any userinfo before the last `@` discarded.
pub open spec fn spec_authority_of(rest: Seq<char>) -> Seq<char> {
    let a1 = match spec_find_char_from(rest, 0, '/') {
        Some(i) => rest.take(i),
        None => rest,
    };
    let a2 = match spec_find_char_from(a1, 0, '?') {
        Some(i) => a1.take(i),
        None => a1,
    };
    let a3 = match spec_find_char_from(a2, 0, '#') {
        Some(i) => a2.take(i),
        None => a2,
    };
    match crate::text::spec_rfind_char(a3, '@') {
        Some(i) => a3.skip(i + 1),
        None => a3,
    }
}

/// Host and port of an external URL: the scheme picks the default port,
/// a bracketed IPv6 literal keeps its brackets' inside, and an explicit
/// `:port` wins when it parses as `u16`.
pub open spec fn spec_parse_host_port(url: Seq<char>) -> Option<(Seq<char>, u16)> {
    match crate::text::spec_find_sub(url, "://"@, 0) {
        None => None,
        Some(p) => {
            let scheme = url.take(p);
            let auth = spec_authority_of(url.skip(p + 3));
            let dport = spec_default_port(scheme);
            if auth.len() > 0 && auth[0] == '[' {
                match spec_find_char_from(auth, 0, ']') {
                    None => None,
                    Some(e) => {
                        let host = auth.subrange(1, e);
                        let after = auth.skip(e + 1);
                        if after.len() > 0 && after[0] == ':' {
                            match crate::text::spec_parse_u16(after.drop_first()) {
                                Some(v) => Some((host, v)),
                                None => Some((host, dport)),
                            }
                        } else {
                            Some((host, dport))
                        }
                    },
                }
            } else {
                match crate::text::spec_rfind_char(auth, ':') {
                    Some(i) => match crate::text::spec_parse_u16(auth.skip(i + 1)) {
                        Some(v) => Some((auth.take(i), v)),
                        None => Some((auth, dport)),
                    },
                    None => Some((auth, dport)),
                }
            }
        },
    }
}

/// Splits an external URL into the host to resolve and the port to
/// connect to.
#[verifier::rlimit(100)]
pub fn parse_external_host_port(url: &str) -> (r: Option<(String, u16)>)
    ensures
        match spec_parse_host_port(url@) {
            Some(hp) => r matches Some(rp) && rp.0@ == hp.0 && rp.1 == hp.1,
            None => r is None,
        },
{
    let uv = str_chars(url);
    let un = uv.len();
    let pat = str_chars("://");
    let p = match crate::text::find_sub(&uv, &pat) {
        Some(p) => p,
        None => {
            return None;
        },
    };
    proof {
        crate::text::lemma_find_sub(uv@, "://"@, 0);
        reveal_strlit("://");
        assert("://"@.len() == 3);
        assert(p + 3 <= uv@.len());
    }
    let scheme = subvec(&uv, 0, p);
    let rest = subvec(&uv, p + 3, un);
    proof {
        assert(scheme@ =~= url@.take(p as int));
        assert(rest@ =~= url@.skip(p + 3 as int));
    }
    let a1 = match find_char_from(&rest, 0, '/') {
        Some(i) => {
            proof {
                lemma_find_char_from(rest@, 0, '/');
            }
            subvec(&rest, 0, i)
        },
        None => rest,
    };
    let a2 = match find_char_from(&a1, 0, '?') {
        Some(i) => {
            proof {
                lemma_find_char_from(a1@, 0, '?');
            }
            subvec(&a1, 0, i)
        },
        None => a1,
    };
    let a3 = match find_char_from(&a2, 0, '#') {
        Some(i) => {
            proof {
                lemma_find_char_from(a2@, 0, '#');
            }
            subvec(&a2, 0, i)
        },
        None => a2,
    };
    let auth = match crate::text::rfind_char(&a3, '@') {
        Some(i) => {
            proof {
                crate::text::lemma_rfind_char(a3@, '@');
            }
            let t = subvec(&a3, i + 1, a3.len());
            proof {
                assert(t@ =~= a3@.skip(i + 1 as int));
            }
            t
        },
        None => a3,
    };
    proof {
        assert(auth@ == spec_authority_of(url@.skip(p + 3 as int)));
    }
    let dport: u16 = if eq_ignore_ascii_case_str(&scheme, "https") {
        443
    } else {
        80
    };
    if auth.len() > 0 && auth[0] == '[' {
        let e = match find_char_from(&auth, 0, ']') {
            Some(e) => e,
            None => {
                return None;
            },
        };
        proof {
            lemma_find_char_from(auth@, 0, ']');
            assert(auth@[0] != ']');
        }
        let host = subvec(&auth, 1, e);
        let after = subvec(&auth, e + 1, auth.len());
        proof {
            assert(host@ =~= auth@.subrange(1, e as int));
            assert(after@ =~= auth@.skip(e + 1 as int));
        }
        if after.len() > 0 && after[0] == ':' {
            let digits = subvec(&after, 1, after.len());
            proof {
                assert(digits@ =~= after@.drop_first());
            }
            match crate::text::parse_u16_chars(&digits) {
                Some(v) => Some((chars_to_string(&host), v)),
                None => Some((chars_to_string(&host), dport)),
            }
        } else {
            Some((chars_to_string(&host), dport))
        }
    } else {
        match crate::text::rfind_char(&auth, ':') {
            Some(i) => {
                proof {
                    crate::text::lemma_rfind_char(auth@, ':');
                }
                let digits = subvec(&auth, i + 1, auth.len());
                proof {
                    assert(digits@ =~= auth@.skip(i + 1 as int));
                }
                match crate::text::parse_u16_chars(&digits) {
                    Some(v) => {
                        let host = subvec(&auth, 0, i);
                        proof {
                            assert(host@ =~= auth@.take(i as int));
                        }
                        Some((chars_to_string(&host), v))
                    },
                    None => Some((chars_to_string(&auth), dport)),
                }
            },
            None => Some((chars_to_string(&auth), dport)),
        }
    }
}

// --- the validation plan ---

/// One question the validator needs answered from outside.
#[derive(Debug)]
pub enum LinkCheck {
    /// An external URL: probe its reachability.
    External { line: u32, link: String },
    /// A local target: does `target_path` exist, and, when
    /// `read_target_for_anchors` is set, what text does it hold?
    Local {
        line: u32,
        link: String,
        target_path: String,
        anchor: Option<String>,
        target_is_document: bool,
        read_target_for_anchors: bool,
    },
}

pub enum LinkCheckV {
    External { line: u32, link: Seq<char> },
    Local {
        line: u32,
        link: Seq<char>,
        target_path: Seq<char>,
        anchor: Option<Seq<char>>,
        target_is_document: bool,
        read_target_for_anchors: bool,
    },
}

impl View for LinkCheck {
    type V = LinkCheckV;

    open spec fn view(&self) -> LinkCheckV {
        match self {
            LinkCheck::External { line, link } => LinkCheckV::External {
                line: *line,
                link: link@,
            },
            LinkCheck::Local {
                line,
                link,
                target_path,
                anchor,
                target_is_document,
                read_target_for_anchors,
            } => LinkCheckV::Local {
                line: *line,
                link: link@,
                target_path: target_path@,
                anchor: match anchor {
                    Option::Some(a) => Option::Some(a@),
                    Option::None => Option::None,
                },
                target_is_document: *target_is_document,
                read_target_for_anchors: *read_target_for_anchors,
            },
        }
    }
}

/// The caller's answer to one check, in the same order as the plan.
#[derive(Debug)]
pub enum LinkProbe {
    /// Whether the URL answered the reachability probe.
    External { reachable: bool },
    /// Whether the target exists and, when it was to be read for
    /// anchors, its text (`None` also when reading failed).
    Local { exists: bool, content: Option<String> },
}

pub enum LinkProbeV {
    External { reachable: bool },
    Local { exists: bool, content: Option<Seq<char>> },
}

impl View for LinkProbe {
    type V = LinkProbeV;

    open spec fn view(&self) -> LinkProbeV {
        match self {
            LinkProbe::External { reachable } => LinkProbeV::External { reachable: *reachable },
            LinkProbe::Local { exists, content } => LinkProbeV::Local {
                exists: *exists,
                content: match content {
                    Option::Some(c) => Option::Some(c@),
                    Option::None => Option::None,
                },
            },
        }
    }
}

/// One reported problem with a link.
#[derive(Debug)]
pub struct LinkValidationIssue {
    pub line: u32,
    pub link: String,
    pub severity: String,
    pub message: String,
}

pub struct LinkValidationIssueV {
    pub line: u32,
    pub link: Seq<char>,
    pub severity: Seq<char>,
    pub message: Seq<char>,
}

impl View for LinkValidationIssue {
    type V = LinkValidationIssueV;

    open spec fn view(&self) -> LinkValidationIssueV {
        LinkValidationIssueV {
            line: self.line,
            link: self.link@,
            severity: self.severity@,
            message: self.message@,
        }
    }
}

/// The validator's result: whether external probing ran, and the issues
/// in link order.
#[derive(Debug)]
pub struct LinkValidationReport {
    pub checked_external: bool,
    pub issues: Vec<LinkValidationIssue>,
}

pub open spec fn spec_check_views(checks: Seq<LinkCheck>) -> Seq<LinkCheckV> {
    checks.map_values(|c: LinkCheck| c@)
}

pub open spec fn spec_probe_views(probes: Seq<LinkProbe>) -> Seq<LinkProbeV> {
    probes.map_values(|p: LinkProbe| p@)
}

pub open spec fn spec_issue_views(issues: Seq<LinkValidationIssue>) -> Seq<LinkValidationIssueV> {
    issues.map_values(|i: LinkValidationIssue| i@)
}

/// The check one local link produces.
pub open spec fn spec_check_of(
    document_path: Seq<char>,
    document_dir: Seq<char>,
    l: FoundLinkV,
) -> LinkCheckV {
    let sp = spec_split_link(l.target);
    let target_path = if sp.0.len() == 0 {
        document_path
    } else {
        spec_join_path(document_dir, sp.0)
    };
    let anchor = match sp.1 {
        Some(a) => if spec_trim(a).len() > 0 {
            Some(spec_lower(a))
        } else {
            None
        },
        None => None,
    };
    LinkCheckV::Local {
        line: l.line,
        link: l.target,
        target_path: target_path,
        anchor: anchor,
        target_is_document: target_path == document_path,
        read_target_for_anchors: anchor is Some && target_path != document_path
            && spec_is_text_openable_path(target_path),
    }
}

/// The validation plan: each extracted link, blank and ignored schemes
/// skipped, externals kept only when probing was requested, local links
/// resolved against the document's directory.
pub open spec fn spec_plan_from(
    document_path: Seq<char>,
    document_dir: Seq<char>,
    found: Seq<FoundLinkV>,
    check_external: bool,
) -> Seq<LinkCheckV>
    decreases found.len(),
{
    if found.len() == 0 {
        Seq::empty()
    } else {
        let l = found[0];
        let rest = spec_plan_from(document_path, document_dir, found.drop_first(), check_external);
        if spec_trim(l.target).len() == 0 || spec_is_ignored_link(l.target) {
            rest
        } else if spec_is_external_link(l.target) {
            if check_external {
                seq![LinkCheckV::External { line: l.line, link: l.target }] + rest
            } else {
                rest
            }
        } else {
            seq![spec_check_of(document_path, document_dir, l)] + rest
        }
    }
}

pub open spec fn spec_plan(
    document_path: Seq<char>,
    md: Seq<char>,
    check_external: bool,
) -> Seq<LinkCheckV> {
    let dir = match crate::paths::spec_parent_of(document_path) {
        Some(d) => d,
        None => Seq::empty(),
    };
    spec_plan_from(document_path, dir, spec_extract(md), check_external)
}

/// Builds the validation plan for a document, or fails when the
/// document path has no parent directory to resolve against.
pub fn plan_link_checks(document_path: &str, markdown: &str, check_external: bool) -> (r: Result<
    Vec<LinkCheck>,
    AppError,
>)
    ensures
        (crate::paths::spec_parent_of(document_path@) is None) <==> (r is Err),
        r matches Err(e) ==> e.code == AppErrorCode::Io && e.message@
            == "Document path has no parent"@,
        r matches Ok(checks) ==> spec_check_views(checks@) == spec_plan(
            document_path@,
            markdown@,
            check_external,
        ),
{
    let dir = match crate::paths::parent_dir(document_path) {
        Some(d) => d,
        None => {
            return Err(
                AppError::new(AppErrorCode::Io, "Document path has no parent".to_owned()),
            );
        },
    };
    let found = extract_markdown_links(markdown);
    let ghost fv = spec_extract(markdown@);
    let n = found.len();
    let mut out: Vec<LinkCheck> = Vec::new();
    let mut i: usize = 0;
    proof {
        assert(fv.skip(0) =~= fv);
        assert(spec_check_views(out@) + spec_plan_from(document_path@, dir@, fv, check_external)
            =~= spec_plan_from(document_path@, dir@, fv, check_external));
    }
    while i < n
        invariant
            n == found@.len(),
            i <= n,
            fv == spec_extract(markdown@),
            found@.map_values(|l: FoundLink| l@) == fv,
            fv.len() == n,
            crate::paths::spec_parent_of(document_path@) == Some(dir@),
            spec_plan(document_path@, markdown@, check_external) == spec_check_views(out@)
                + spec_plan_from(
                document_path@,
                dir@,
                fv.skip(i as int),
                check_external,
            ),
        decreases n - i,
    {
        proof {
            assert(found@.map_values(|l: FoundLink| l@)[i as int] == found@[i as int]@);
            assert(fv.skip(i as int)[0] == fv[i as int]);
            assert(fv.skip(i as int).drop_first() =~= fv.skip(i + 1 as int));
        }
        let target = &found[i].target;
        let tchars = str_chars(target.as_str());
        let trimmed = trim_chars(&tchars);
        let skip_it = trimmed.len() == 0 || is_ignored_link(target.as_str());
        if skip_it {
        } else if is_external_link(target.as_str()) {
            if check_external {
                let check = LinkCheck::External {
                    line: found[i].line,
                    link: target.clone(),
                };
                let ghost prev = out@;
                proof {
                    assert(check@ == (LinkCheckV::External {
                        line: fv[i as int].line,
                        link: fv[i as int].target,
                    }));
                }
                out.push(check);
                proof {
                    assert(spec_check_views(out@) =~= spec_check_views(prev).push(check@));
                    assert(spec_check_views(prev) + (seq![check@] + spec_plan_from(
                        document_path@,
                        dir@,
                        fv.skip(i + 1 as int),
                        check_external,
                    )) =~= spec_check_views(out@) + spec_plan_from(
                        document_path@,
                        dir@,
                        fv.skip(i + 1 as int),
                        check_external,
                    ));
                }
            }
        } else {
            let (path_part, anchor_part) = split_link_and_anchor(target.as_str());
            let target_path: String = if path_part.as_str().unicode_len() == 0 {
                document_path.to_owned()
            } else {
                join_path(dir.as_str(), path_part.as_str())
            };
            let target_is_document = crate::text::str_eq(
                target_path.as_str(),
                document_path,
            );
            let anchor: Option<String> = match anchor_part {
                Option::Some(a) => {
                    let achars = str_chars(a.as_str());
                    let atrim = trim_chars(&achars);
                    if atrim.len() > 0 {
                        let alow = lower_chars(&achars);
                        Option::Some(chars_to_string(&alow))
                    } else {
                        Option::None
                    }
                },
                Option::None => Option::None,
            };
            let read_target_for_anchors = match &anchor {
                Option::Some(_) => !target_is_document && is_text_openable_file(
                    target_path.as_str(),
                ),
                Option::None => false,
            };
            let check = LinkCheck::Local {
                line: found[i].line,
                link: target.clone(),
                target_path,
                anchor,
                target_is_document,
                read_target_for_anchors,
            };
            let ghost prev = out@;
            proof {
                assert(check@ == spec_check_of(document_path@, dir@, fv[i as int]));
            }
            out.push(check);
            proof {
                assert(spec_check_views(out@) =~= spec_check_views(prev).push(check@));
                assert(spec_check_views(prev) + (seq![check@] + spec_plan_from(
                    document_path@,
                    dir@,
                    fv.skip(i + 1 as int),
                    check_external,
                )) =~= spec_check_views(out@) + spec_plan_from(
                    document_path@,
                    dir@,
                    fv.skip(i + 1 as int),
                    check_external,
                ));
            }
        }
        i = i + 1;
    }
    proof {
        assert(fv.skip(n as int).len() == 0);
        assert(spec_plan_from(document_path@, dir@, fv.skip(n as int), check_external)
            =~= Seq::<LinkCheckV>::empty());
        assert(spec_check_views(out@) + Seq::<LinkCheckV>::empty() =~= spec_check_views(out@));
    }
    Ok(out)
}

// --- evaluating the plan ---

/// The probes answer the plan: same length, same kind at each position.
pub open spec fn spec_probes_match(plan: Seq<LinkCheckV>, probes: Seq<LinkProbeV>) -> bool {
    plan.len() == probes.len() && forall|i: int|
        0 <= i < plan.len() ==> ((plan[i] is External) <==> (probes[i] is External))
}

/// The issues one answered check produces: an unreachable external URL
/// warns; a missing local target errs; a present anchor absent from the
/// target's slugs errs.
pub open spec fn spec_issue_of(
    c: LinkCheckV,
    p: LinkProbeV,
    doc_slugs: Set<Seq<char>>,
) -> Seq<LinkValidationIssueV> {
    match c {
        LinkCheckV::External { line, link } => match p {
            LinkProbeV::External { reachable } => if !reachable {
                seq![
                    LinkValidationIssueV {
                        line,
                        link,
                        severity: "warning"@,
                        message: "External URL did not respond to a quick reachability check"@,
                    },
                ]
            } else {
                Seq::empty()
            },
            _ => Seq::empty(),
        },
        LinkCheckV::Local { line, link, anchor, target_is_document, .. } => match p {
            LinkProbeV::Local { exists, content } => if !exists {
                seq![
                    LinkValidationIssueV {
                        line,
                        link,
                        severity: "error"@,
                        message: "Target file does not exist"@,
                    },
                ]
            } else {
                match anchor {
                    Some(a) => {
                        let slugs = if target_is_document {
                            doc_slugs
                        } else {
                            match content {
                                Some(cn) => spec_heading_slugs(cn),
                                None => Set::empty(),
                            }
                        };
                        if !slugs.contains(a) {
                            seq![
                                LinkValidationIssueV {
                                    line,
                                    link,
                                    severity: "error"@,
                                    message: "Anchor was not found in target document"@,
                                },
                            ]
                        } else {
                            Seq::empty()
                        }
                    },
                    None => Seq::empty(),
                }
            },
            _ => Seq::empty(),
        },
    }
}

pub open spec fn spec_issues(
    plan: Seq<LinkCheckV>,
    probes: Seq<LinkProbeV>,
    doc_slugs: Set<Seq<char>>,
) -> Seq<LinkValidationIssueV>
    decreases plan.len(),
{
    if plan.len() == 0 || probes.len() == 0 {
        Seq::empty()
    } else {
        spec_issue_of(plan[0], probes[0], doc_slugs) + spec_issues(
            plan.drop_first(),
            probes.drop_first(),
            doc_slugs,
        )
    }
}

/// What the whole validation reports for a document, given the caller's
/// answers.
pub open spec fn spec_validate(
    document_path: Seq<char>,
    md: Seq<char>,
    check_external: bool,
    probes: Seq<LinkProbeV>,
) -> Seq<LinkValidationIssueV> {
    spec_issues(spec_plan(document_path, md, check_external), probes, spec_heading_slugs(md))
}

fn vec_contains_string(v: &Vec<String>, s: &str) -> (r: bool)
    ensures
        r == exists|j: int| 0 <= j < v@.len() && v@[j]@ == s@,
{
    let n = v.len();
    let mut i: usize = 0;
    while i < n
        invariant
            n == v@.len(),
            i <= n,
            forall|j: int| 0 <= j < i ==> v@[j]@ != s@,
        decreases n - i,
    {
        if crate::text::str_eq(v[i].as_str(), s) {
            return true;
        }
        i = i + 1;
    }
    false
}

/// Validates every link of the document against the caller's answers.
///
/// Fails only when the document path has no parent directory. The
/// report's issues are exactly what the plan and the probes dictate:
/// unreachable externals warn, missing local targets err, and anchors
/// absent from the target's heading slugs err.
pub fn validate_links(
    document_path: &str,
    markdown: &str,
    check_external: bool,
    probes: &Vec<LinkProbe>,
) -> (r: Result<LinkValidationReport, AppError>)
    requires
        crate::paths::spec_parent_of(document_path@) is Some ==> spec_probes_match(
            spec_plan(document_path@, markdown@, check_external),
            spec_probe_views(probes@),
        ),
    ensures
        (crate::paths::spec_parent_of(document_path@) is None) <==> (r is Err),
        r matches Err(e) ==> e.code == AppErrorCode::Io && e.message@
            == "Document path has no parent"@,
        r matches Ok(report) ==> report.checked_external == check_external && spec_issue_views(
            report.issues@,
        ) == spec_validate(document_path@, markdown@, check_external, spec_probe_views(probes@)),
{
    let checks = match plan_link_checks(document_path, markdown, check_external) {
        Ok(checks) => checks,
        Err(e) => {
            return Err(e);
        },
    };
    let doc_slugs = heading_slugs(markdown);
    let ghost planv = spec_plan(document_path@, markdown@, check_external);
    let ghost probesv = spec_probe_views(probes@);
    let ghost slugset = spec_heading_slugs(markdown@);
    let n = checks.len();
    let mut issues: Vec<LinkValidationIssue> = Vec::new();
    let mut i: usize = 0;
    proof {
        assert(planv.skip(0) =~= planv);
        assert(probesv.skip(0) =~= probesv);
        assert(spec_issue_views(issues@) + spec_issues(planv, probesv, slugset) =~= spec_issues(
            planv,
            probesv,
            slugset,
        ));
    }
    while i < n
        invariant
            n == checks@.len(),
            i <= n,
            planv == spec_plan(document_path@, markdown@, check_external),
            probesv == spec_probe_views(probes@),
            slugset == spec_heading_slugs(markdown@),
            spec_check_views(checks@) == planv,
            spec_probes_match(planv, probesv),
            planv.len() == n,
            probesv.len() == n,
            probes@.len() == n,
            forall|j: int|
                0 <= j < doc_slugs@.len() ==> slugset.contains(#[trigger] doc_slugs@[j]@),
            forall|s: Seq<char>|
                #[trigger] slugset.contains(s) ==> exists|j: int|
                    0 <= j < doc_slugs@.len() && doc_slugs@[j]@ == s,
            spec_issues(planv, probesv, slugset) == spec_issue_views(issues@) + spec_issues(
                planv.skip(i as int),
                probesv.skip(i as int),
                slugset,
            ),
        decreases n - i,
    {
        proof {
            assert(spec_check_views(checks@)[i as int] == checks@[i as int]@);
            assert(spec_probe_views(probes@)[i as int] == probes@[i as int]@);
            assert(planv.skip(i as int)[0] == planv[i as int]);
            assert(probesv.skip(i as int)[0] == probesv[i as int]);
            assert(planv.skip(i as int).drop_first() =~= planv.skip(i + 1 as int));
            assert(probesv.skip(i as int).drop_first() =~= probesv.skip(i + 1 as int));
        }
        let issue: Option<LinkValidationIssue> = match (&checks[i], &probes[i]) {
            (LinkCheck::External { line, link }, LinkProbe::External { reachable }) => {
                if !*reachable {
                    Option::Some(
                        LinkValidationIssue {
                            line: *line,
                            link: link.clone(),
                            severity: "warning".to_owned(),
                            message:
                                "External URL did not respond to a quick reachability check".to_owned(),
                        },
                    )
                } else {
                    Option::None
                }
            },
            (
                LinkCheck::Local { line, link, anchor, target_is_document, .. },
                LinkProbe::Local { exists, content },
            ) => {
                if !*exists {
                    Option::Some(
                        LinkValidationIssue {
                            line: *line,
                            link: link.clone(),
                            severity: "error".to_owned(),
                            message: "Target file does not exist".to_owned(),
                        },
                    )
                } else {
                    match anchor {
                        Option::Some(a) => {
                            let present: bool = if *target_is_document {
                                vec_contains_string(&doc_slugs, a.as_str())
                            } else {
                                match content {
                                    Option::Some(cn) => {
                                        let target_slugs = heading_slugs(cn.as_str());
                                        vec_contains_string(&target_slugs, a.as_str())
                                    },
                                    Option::None => false,
                                }
                            };
                            if !present {
                                Option::Some(
                                    LinkValidationIssue {
                                        line: *line,
                                        link: link.clone(),
                                        severity: "error".to_owned(),
                                        message: "Anchor was not found in target document".to_owned(),
                                    },
                                )
                            } else {
                                Option::None
                            }
                        },
                        Option::None => Option::None,
                    }
                }
            },
            _ => {
                proof {
                    assert(false);
                }
                Option::None
            },
        };
        let ghost expected = spec_issue_of(planv[i as int], probesv[i as int], slugset);
        proof {
            match issue {
                Option::Some(ref iss) => {
                    assert(expected =~= seq![iss@]);
                },
                Option::None => {
                    assert(expected =~= Seq::<LinkValidationIssueV>::empty());
                },
            }
        }
        let ghost prev = issues@;
        match issue {
            Option::Some(iss) => {
                issues.push(iss);
                proof {
                    assert(spec_issue_views(issues@) =~= spec_issue_views(prev) + expected);
                }
            },
            Option::None => {
                proof {
                    assert(spec_issue_views(issues@) =~= spec_issue_views(prev) + expected);
                }
            },
        }
        proof {
            assert(spec_issue_views(prev) + (expected + spec_issues(
                planv.skip(i + 1 as int),
                probesv.skip(i + 1 as int),
                slugset,
            )) =~= spec_issue_views(issues@) + spec_issues(
                planv.skip(i + 1 as int),
                probesv.skip(i + 1 as int),
                slugset,
            ));
        }
        i = i + 1;
    }
    proof {
        assert(planv.skip(n as int).len() == 0);
        assert(spec_issues(planv.skip(n as int), probesv.skip(n as int), slugset)
            =~= Seq::<LinkValidationIssueV>::empty());
        assert(spec_issue_views(issues@) + Seq::<LinkValidationIssueV>::empty()
            =~= spec_issue_views(issues@));
    }
    Ok(LinkValidationReport { checked_external: check_external, issues })
}

} // verus!
