//! Verified character-sequence utilities shared across the library.
//!
//! All text logic works over `Vec<char>` / `Seq<char>`. Conversion from
//! `&str` is verified character by character; conversion back to `String`
//! goes through one small trusted collector.

use vstd::prelude::*;

verus! {

// --- character classes ---

/// Unicode `White_Space`, exactly the characters `char::is_whitespace`
/// recognizes.
pub open spec fn spec_is_ws(c: char) -> bool {
    let u = c as u32;
    u == 0x09 || u == 0x0A || u == 0x0B || u == 0x0C || u == 0x0D || u == 0x20 || u == 0x85
        || u == 0xA0 || u == 0x1680 || (0x2000 <= u && u <= 0x200A) || u == 0x2028 || u == 0x2029
        || u == 0x202F || u == 0x205F || u == 0x3000
}

pub fn is_ws(c: char) -> (r: bool)
    ensures
        r == spec_is_ws(c),
{
    let u = c as u32;
    u == 0x09 || u == 0x0A || u == 0x0B || u == 0x0C || u == 0x0D || u == 0x20 || u == 0x85
        || u == 0xA0 || u == 0x1680 || (0x2000 <= u && u <= 0x200A) || u == 0x2028 || u == 0x2029
        || u == 0x202F || u == 0x205F || u == 0x3000
}

pub open spec fn spec_is_ascii_digit(c: char) -> bool {
    '0' <= c && c <= '9'
}

pub open spec fn spec_is_ascii_alnum(c: char) -> bool {
    ('a' <= c && c <= 'z') || ('A' <= c && c <= 'Z') || spec_is_ascii_digit(c)
}

pub fn is_ascii_alnum(c: char) -> (r: bool)
    ensures
        r == spec_is_ascii_alnum(c),
{
    (c >= 'a' && c <= 'z') || (c >= 'A' && c <= 'Z') || (c >= '0' && c <= '9')
}

/// ASCII lowercasing of one character, as `char::to_ascii_lowercase` does it.
pub open spec fn spec_lower_char(c: char) -> char {
    if 'A' <= c && c <= 'Z' {
        ((c as u32 + 32) as u8) as char
    } else {
        c
    }
}

pub fn lower_char(c: char) -> (r: char)
    ensures
        r == spec_lower_char(c),
{
    if c >= 'A' && c <= 'Z' {
        ((c as u32 + 32) as u8) as char
    } else {
        c
    }
}

/// ASCII lowercasing of a whole sequence.
pub open spec fn spec_lower(s: Seq<char>) -> Seq<char> {
    s.map_values(|c: char| spec_lower_char(c))
}

pub fn lower_chars(v: &Vec<char>) -> (r: Vec<char>)
    ensures
        r@ == spec_lower(v@),
{
    let mut out: Vec<char> = Vec::new();
    let mut i: usize = 0;
    let n = v.len();
    while i < n
        invariant
            n == v@.len(),
            i <= n,
            out@ == spec_lower(v@.take(i as int)),
        decreases n - i,
    {
        out.push(lower_char(v[i]));
        proof {
            assert(v@.take(i + 1 as int).map_values(|c: char| spec_lower_char(c)) =~= v@.take(
                i as int,
            ).map_values(|c: char| spec_lower_char(c)).push(spec_lower_char(v@[i as int])));
        }
        i = i + 1;
    }
    proof {
        assert(v@.take(v@.len() as int) =~= v@);
    }
    out
}

// --- str <-> chars ---

/// The characters of a string slice, in order, as a vector.
pub fn str_chars(s: &str) -> (r: Vec<char>)
    ensures
        r@ == s@,
{
    let n = s.unicode_len();
    let mut v: Vec<char> = Vec::new();
    let mut i: usize = 0;
    while i < n
        invariant
            n == s@.len(),
            i <= n,
            v@ == s@.subrange(0, i as int),
        decreases n - i,
    {
        let c = s.get_char(i);
        v.push(c);
        proof {
            assert(v@ =~= s@.subrange(0, i + 1 as int));
        }
        i = i + 1;
    }
    proof {
        assert(v@ =~= s@);
    }
    v
}

/// Relies on `Iterator::collect` for `String`: the collected string holds
/// exactly the given characters, in order.
#[verifier::external_body]
pub fn chars_to_string(v: &Vec<char>) -> (r: String)
    ensures
        r@ == v@,
{
    v.iter().collect()
}

// --- prefix and suffix runs ---

/// Length of the longest whitespace prefix of `s`.
pub open spec fn ws_prefix_len(s: Seq<char>) -> int
    decreases s.len(),
{
    if s.len() == 0 {
        0
    } else if spec_is_ws(s[0]) {
        1 + ws_prefix_len(s.drop_first())
    } else {
        0
    }
}

pub proof fn lemma_ws_prefix_len(s: Seq<char>, i: int)
    requires
        0 <= i <= s.len(),
        forall|j: int| 0 <= j < i ==> spec_is_ws(s[j]),
        i < s.len() ==> !spec_is_ws(s[i]),
    ensures
        ws_prefix_len(s) == i,
    decreases s.len(),
{
    if s.len() > 0 && i > 0 {
        assert(spec_is_ws(s[0]));
        lemma_ws_prefix_len(s.drop_first(), i - 1);
    }
}

/// Length of the longest whitespace suffix of `s`.
pub open spec fn ws_suffix_len(s: Seq<char>) -> int
    decreases s.len(),
{
    if s.len() == 0 {
        0
    } else if spec_is_ws(s.last()) {
        1 + ws_suffix_len(s.drop_last())
    } else {
        0
    }
}

pub proof fn lemma_ws_suffix_len(s: Seq<char>, i: int)
    requires
        0 <= i <= s.len(),
        forall|j: int| s.len() - i <= j < s.len() ==> spec_is_ws(s[j]),
        i < s.len() ==> !spec_is_ws(s[s.len() - i - 1]),
    ensures
        ws_suffix_len(s) == i,
    decreases s.len(),
{
    if s.len() > 0 && i > 0 {
        assert(spec_is_ws(s.last()));
        lemma_ws_suffix_len(s.drop_last(), i - 1);
    }
}

/// Length of the longest prefix of `s` made of the character `c`.
pub open spec fn char_prefix_len(s: Seq<char>, c: char) -> int
    decreases s.len(),
{
    if s.len() == 0 {
        0
    } else if s[0] == c {
        1 + char_prefix_len(s.drop_first(), c)
    } else {
        0
    }
}

pub proof fn lemma_char_prefix_len(s: Seq<char>, c: char, i: int)
    requires
        0 <= i <= s.len(),
        forall|j: int| 0 <= j < i ==> s[j] == c,
        i < s.len() ==> s[i] != c,
    ensures
        char_prefix_len(s, c) == i,
    decreases s.len(),
{
    if s.len() > 0 && i > 0 {
        lemma_char_prefix_len(s.drop_first(), c, i - 1);
    }
}

/// Length of the longest suffix of `s` made of the character `c`.
pub open spec fn char_suffix_len(s: Seq<char>, c: char) -> int
    decreases s.len(),
{
    if s.len() == 0 {
        0
    } else if s.last() == c {
        1 + char_suffix_len(s.drop_last(), c)
    } else {
        0
    }
}

pub proof fn lemma_char_suffix_len(s: Seq<char>, c: char, i: int)
    requires
        0 <= i <= s.len(),
        forall|j: int| s.len() - i <= j < s.len() ==> s[j] == c,
        i < s.len() ==> s[s.len() - i - 1] != c,
    ensures
        char_suffix_len(s, c) == i,
    decreases s.len(),
{
    if s.len() > 0 && i > 0 {
        lemma_char_suffix_len(s.drop_last(), c, i - 1);
    }
}

/// Length of the longest non-whitespace prefix of `s`.
pub open spec fn nonws_prefix_len(s: Seq<char>) -> int
    decreases s.len(),
{
    if s.len() == 0 {
        0
    } else if !spec_is_ws(s[0]) {
        1 + nonws_prefix_len(s.drop_first())
    } else {
        0
    }
}

pub proof fn lemma_nonws_prefix_len_bounds(s: Seq<char>)
    ensures
        0 <= nonws_prefix_len(s) <= s.len(),
    decreases s.len(),
{
    if s.len() > 0 && !spec_is_ws(s[0]) {
        lemma_nonws_prefix_len_bounds(s.drop_first());
    }
}

pub proof fn lemma_nonws_prefix_len(s: Seq<char>, i: int)
    requires
        0 <= i <= s.len(),
        forall|j: int| 0 <= j < i ==> !spec_is_ws(s[j]),
        i < s.len() ==> spec_is_ws(s[i]),
    ensures
        nonws_prefix_len(s) == i,
    decreases s.len(),
{
    if s.len() > 0 && i > 0 {
        lemma_nonws_prefix_len(s.drop_first(), i - 1);
    }
}

// --- trimming ---

/// `str::trim_start`: drop leading whitespace.
pub open spec fn spec_trim_start(s: Seq<char>) -> Seq<char> {
    s.skip(ws_prefix_len(s))
}

/// `str::trim_end`: drop trailing whitespace.
pub open spec fn spec_trim_end(s: Seq<char>) -> Seq<char> {
    s.take(s.len() - ws_suffix_len(s))
}

/// `str::trim`: drop whitespace at both ends.
pub open spec fn spec_trim(s: Seq<char>) -> Seq<char> {
    spec_trim_end(spec_trim_start(s))
}

pub fn trim_start_chars(v: &Vec<char>) -> (r: Vec<char>)
    ensures
        r@ == spec_trim_start(v@),
{
    let n = v.len();
    let mut a: usize = 0;
    while a < n && is_ws(v[a])
        invariant
            n == v@.len(),
            a <= n,
            forall|j: int| 0 <= j < a ==> spec_is_ws(v@[j]),
        decreases n - a,
    {
        a = a + 1;
    }
    proof {
        lemma_ws_prefix_len(v@, a as int);
    }
    subvec(v, a, n)
}

pub fn trim_chars(v: &Vec<char>) -> (r: Vec<char>)
    ensures
        r@ == spec_trim(v@),
{
    let n = v.len();
    let mut a: usize = 0;
    while a < n && is_ws(v[a])
        invariant
            n == v@.len(),
            a <= n,
            forall|j: int| 0 <= j < a ==> spec_is_ws(v@[j]),
        decreases n - a,
    {
        a = a + 1;
    }
    proof {
        lemma_ws_prefix_len(v@, a as int);
        assert(spec_trim_start(v@) == v@.skip(a as int));
    }
    let mut b: usize = n;
    while b > a && is_ws(v[b - 1])
        invariant
            n == v@.len(),
            a <= b <= n,
            forall|j: int| b <= j < n ==> spec_is_ws(v@[j]),
        decreases b,
    {
        b = b - 1;
    }
    proof {
        let tail = v@.skip(a as int);
        assert forall|j: int| tail.len() - (v@.len() - b) <= j < tail.len() implies spec_is_ws(
            tail[j],
        ) by {
            assert(tail[j] == v@[j + a]);
        }
        if b > a {
            assert(tail[b - a - 1] == v@[b - 1]);
        }
        lemma_ws_suffix_len(tail, v@.len() - b);
        assert(spec_trim(v@) =~= v@.subrange(a as int, b as int));
    }
    subvec(v, a, b)
}

/// `str::trim_matches(c)`: drop every occurrence of `c` at either end.
pub open spec fn spec_trim_matches(s: Seq<char>, c: char) -> Seq<char> {
    let mid = s.skip(char_prefix_len(s, c));
    mid.take(mid.len() - char_suffix_len(mid, c))
}

pub fn trim_matches_chars(v: &Vec<char>, c: char) -> (r: Vec<char>)
    ensures
        r@ == spec_trim_matches(v@, c),
{
    let n = v.len();
    let mut a: usize = 0;
    while a < n && v[a] == c
        invariant
            n == v@.len(),
            a <= n,
            forall|j: int| 0 <= j < a ==> v@[j] == c,
        decreases n - a,
    {
        a = a + 1;
    }
    proof {
        lemma_char_prefix_len(v@, c, a as int);
    }
    let mut b: usize = n;
    while b > a && v[b - 1] == c
        invariant
            n == v@.len(),
            a <= b <= n,
            forall|j: int| b <= j < n ==> v@[j] == c,
        decreases b,
    {
        b = b - 1;
    }
    proof {
        let tail = v@.skip(a as int);
        assert forall|j: int| tail.len() - (v@.len() - b) <= j < tail.len() implies tail[j]
            == c by {
            assert(tail[j] == v@[j + a]);
        }
        if b > a {
            assert(tail[b - a - 1] == v@[b - 1]);
        }
        lemma_char_suffix_len(tail, c, v@.len() - b);
        assert(spec_trim_matches(v@, c) =~= v@.subrange(a as int, b as int));
    }
    subvec(v, a, b)
}

// --- slicing and concatenation ---

pub fn subvec(v: &Vec<char>, a: usize, b: usize) -> (r: Vec<char>)
    requires
        a <= b <= v@.len(),
    ensures
        r@ == v@.subrange(a as int, b as int),
{
    let mut out: Vec<char> = Vec::new();
    let mut i: usize = a;
    while i < b
        invariant
            a <= i <= b <= v@.len(),
            out@ == v@.subrange(a as int, i as int),
        decreases b - i,
    {
        out.push(v[i]);
        proof {
            assert(out@ =~= v@.subrange(a as int, i + 1 as int));
        }
        i = i + 1;
    }
    out
}

pub fn concat_chars(a: &Vec<char>, b: &Vec<char>) -> (r: Vec<char>)
    ensures
        r@ == a@ + b@,
{
    let mut out: Vec<char> = Vec::new();
    let mut i: usize = 0;
    let n = a.len();
    while i < n
        invariant
            n == a@.len(),
            i <= n,
            out@ == a@.take(i as int),
        decreases n - i,
    {
        out.push(a[i]);
        proof {
            assert(out@ =~= a@.take(i + 1 as int));
        }
        i = i + 1;
    }
    let m = b.len();
    let mut j: usize = 0;
    while j < m
        invariant
            n == a@.len(),
            m == b@.len(),
            j <= m,
            out@ == a@.take(a@.len() as int) + b@.take(j as int),
        decreases m - j,
    {
        out.push(b[j]);
        proof {
            assert(a@.take(a@.len() as int) + b@.take(j + 1 as int) =~= (a@.take(
                a@.len() as int,
            ) + b@.take(j as int)).push(b@[j as int]));
        }
        j = j + 1;
    }
    proof {
        assert(a@.take(a@.len() as int) + b@.take(b@.len() as int) =~= a@ + b@);
    }
    out
}

// --- comparisons ---

pub fn eq_chars_str(a: &Vec<char>, s: &str) -> (r: bool)
    ensures
        r == (a@ == s@),
{
    let n = s.unicode_len();
    if a.len() != n {
        return false;
    }
    let mut i: usize = 0;
    while i < n
        invariant
            a@.len() == s@.len() == n,
            i <= n,
            forall|j: int| 0 <= j < i ==> a@[j] == s@[j],
        decreases n - i,
    {
        if a[i] != s.get_char(i) {
            return false;
        }
        i = i + 1;
    }
    proof {
        assert(a@ =~= s@);
    }
    true
}

/// Whether `p` is a prefix of `s`.
pub open spec fn spec_starts_with(s: Seq<char>, p: Seq<char>) -> bool {
    p.len() <= s.len() && s.subrange(0, p.len() as int) == p
}

pub fn starts_with_str(v: &Vec<char>, p: &str) -> (r: bool)
    ensures
        r == spec_starts_with(v@, p@),
{
    let n = p.unicode_len();
    if v.len() < n {
        return false;
    }
    let mut i: usize = 0;
    while i < n
        invariant
            n == p@.len() <= v@.len(),
            i <= n,
            forall|j: int| 0 <= j < i ==> v@[j] == p@[j],
        decreases n - i,
    {
        if v[i] != p.get_char(i) {
            proof {
                assert(v@.subrange(0, p@.len() as int)[i as int] != p@[i as int]);
            }
            return false;
        }
        i = i + 1;
    }
    proof {
        assert(v@.subrange(0, p@.len() as int) =~= p@);
    }
    true
}

pub fn str_eq(a: &str, b: &str) -> (r: bool)
    ensures
        r == (a@ == b@),
{
    let n = a.unicode_len();
    if b.unicode_len() != n {
        return false;
    }
    let mut i: usize = 0;
    while i < n
        invariant
            a@.len() == b@.len() == n,
            i <= n,
            forall|j: int| 0 <= j < i ==> a@[j] == b@[j],
        decreases n - i,
    {
        if a.get_char(i) != b.get_char(i) {
            return false;
        }
        i = i + 1;
    }
    proof {
        assert(a@ =~= b@);
    }
    true
}

pub fn starts_with_chars(v: &Vec<char>, p: &Vec<char>) -> (r: bool)
    ensures
        r == spec_starts_with(v@, p@),
{
    let n = p.len();
    if v.len() < n {
        return false;
    }
    let mut i: usize = 0;
    while i < n
        invariant
            n == p@.len() <= v@.len(),
            i <= n,
            forall|j: int| 0 <= j < i ==> v@[j] == p@[j],
        decreases n - i,
    {
        if v[i] != p[i] {
            proof {
                assert(v@.subrange(0, p@.len() as int)[i as int] != p@[i as int]);
            }
            return false;
        }
        i = i + 1;
    }
    proof {
        assert(v@.subrange(0, p@.len() as int) =~= p@);
    }
    true
}

/// ASCII-case-insensitive equality with a pattern.
pub fn eq_ignore_ascii_case_str(v: &Vec<char>, p: &str) -> (r: bool)
    ensures
        r == (spec_lower(v@) == spec_lower(p@)),
{
    let n = p.unicode_len();
    if v.len() != n {
        proof {
            assert(spec_lower(v@).len() != spec_lower(p@).len());
        }
        return false;
    }
    let mut i: usize = 0;
    while i < n
        invariant
            n == p@.len() == v@.len(),
            i <= n,
            forall|j: int| 0 <= j < i ==> spec_lower_char(v@[j]) == spec_lower_char(p@[j]),
        decreases n - i,
    {
        if lower_char(v[i]) != lower_char(p.get_char(i)) {
            proof {
                assert(spec_lower(v@)[i as int] != spec_lower(p@)[i as int]);
            }
            return false;
        }
        i = i + 1;
    }
    proof {
        assert(spec_lower(v@) =~= spec_lower(p@));
    }
    true
}

// --- searching ---

/// First occurrence of the character `c` at or after `from`, if any.
pub open spec fn spec_find_char_from(s: Seq<char>, from: int, c: char) -> Option<int>
    decreases s.len() - from,
{
    if from < 0 || from >= s.len() {
        None
    } else if s[from] == c {
        Some(from)
    } else {
        spec_find_char_from(s, from + 1, c)
    }
}

pub proof fn lemma_find_char_from(s: Seq<char>, from: int, c: char)
    requires
        from >= 0,
    ensures
        match spec_find_char_from(s, from, c) {
            Some(i) => from <= i < s.len() && s[i] == c && forall|j: int|
                from <= j < i ==> s[j] != c,
            None => forall|j: int| from <= j < s.len() ==> s[j] != c,
        },
    decreases s.len() - from,
{
    if from < s.len() && s[from] != c {
        lemma_find_char_from(s, from + 1, c);
    }
}

pub fn find_char_from(v: &Vec<char>, from: usize, c: char) -> (r: Option<usize>)
    ensures
        match r {
            Some(i) => Some(i as int) == spec_find_char_from(v@, from as int, c),
            None => spec_find_char_from(v@, from as int, c) is None,
        },
{
    let n = v.len();
    let mut i: usize = from;
    if i > n {
        proof {
            assert(spec_find_char_from(v@, from as int, c) is None);
        }
        return None;
    }
    while i < n
        invariant
            n == v@.len(),
            from <= i <= n,
            spec_find_char_from(v@, from as int, c) == spec_find_char_from(v@, i as int, c),
        decreases n - i,
    {
        if v[i] == c {
            proof {
                assert(spec_find_char_from(v@, i as int, c) == Some(i as int));
            }
            return Some(i);
        }
        proof {
            assert(spec_find_char_from(v@, i as int, c) == spec_find_char_from(
                v@,
                i + 1 as int,
                c,
            ));
        }
        i = i + 1;
    }
    proof {
        assert(spec_find_char_from(v@, i as int, c) is None);
    }
    None
}

/// First index at or after `from` holding `'>'` or whitespace, if any.
pub open spec fn spec_find_stop_from(s: Seq<char>, from: int) -> Option<int>
    decreases s.len() - from,
{
    if from < 0 || from >= s.len() {
        None
    } else if s[from] == '>' || spec_is_ws(s[from]) {
        Some(from)
    } else {
        spec_find_stop_from(s, from + 1)
    }
}

pub proof fn lemma_find_stop_from(s: Seq<char>, from: int)
    requires
        from >= 0,
    ensures
        match spec_find_stop_from(s, from) {
            Some(i) => from <= i < s.len() && (s[i] == '>' || spec_is_ws(s[i])) && forall|j: int|
                from <= j < i ==> !(s[j] == '>' || spec_is_ws(s[j])),
            None => forall|j: int| from <= j < s.len() ==> !(s[j] == '>' || spec_is_ws(s[j])),
        },
    decreases s.len() - from,
{
    if from < s.len() && !(s[from] == '>' || spec_is_ws(s[from])) {
        lemma_find_stop_from(s, from + 1);
    }
}

pub fn find_stop_from(v: &Vec<char>, from: usize) -> (r: Option<usize>)
    ensures
        match r {
            Some(i) => Some(i as int) == spec_find_stop_from(v@, from as int),
            None => spec_find_stop_from(v@, from as int) is None,
        },
{
    let n = v.len();
    let mut i: usize = from;
    if i > n {
        proof {
            assert(spec_find_stop_from(v@, from as int) is None);
        }
        return None;
    }
    while i < n
        invariant
            n == v@.len(),
            from <= i <= n,
            spec_find_stop_from(v@, from as int) == spec_find_stop_from(v@, i as int),
        decreases n - i,
    {
        if v[i] == '>' || is_ws(v[i]) {
            proof {
                assert(spec_find_stop_from(v@, i as int) == Some(i as int));
            }
            return Some(i);
        }
        proof {
            assert(spec_find_stop_from(v@, i as int) == spec_find_stop_from(v@, i + 1 as int));
        }
        i = i + 1;
    }
    proof {
        assert(spec_find_stop_from(v@, i as int) is None);
    }
    None
}

/// First whitespace character at or after `from`, if any.
pub open spec fn spec_find_ws_from(s: Seq<char>, from: int) -> Option<int>
    decreases s.len() - from,
{
    if from < 0 || from >= s.len() {
        None
    } else if spec_is_ws(s[from]) {
        Some(from)
    } else {
        spec_find_ws_from(s, from + 1)
    }
}

pub proof fn lemma_find_ws_from(s: Seq<char>, from: int)
    requires
        from >= 0,
    ensures
        match spec_find_ws_from(s, from) {
            Some(i) => from <= i < s.len() && spec_is_ws(s[i]) && forall|j: int|
                from <= j < i ==> !spec_is_ws(s[j]),
            None => forall|j: int| from <= j < s.len() ==> !spec_is_ws(s[j]),
        },
    decreases s.len() - from,
{
    if from < s.len() && !spec_is_ws(s[from]) {
        lemma_find_ws_from(s, from + 1);
    }
}

pub fn find_ws_from(v: &Vec<char>, from: usize) -> (r: Option<usize>)
    ensures
        match r {
            Some(i) => Some(i as int) == spec_find_ws_from(v@, from as int),
            None => spec_find_ws_from(v@, from as int) is None,
        },
{
    let n = v.len();
    let mut i: usize = from;
    if i > n {
        proof {
            assert(spec_find_ws_from(v@, from as int) is None);
        }
        return None;
    }
    while i < n
        invariant
            n == v@.len(),
            from <= i <= n,
            spec_find_ws_from(v@, from as int) == spec_find_ws_from(v@, i as int),
        decreases n - i,
    {
        if is_ws(v[i]) {
            proof {
                assert(spec_find_ws_from(v@, i as int) == Some(i as int));
            }
            return Some(i);
        }
        proof {
            assert(spec_find_ws_from(v@, i as int) == spec_find_ws_from(v@, i + 1 as int));
        }
        i = i + 1;
    }
    proof {
        assert(spec_find_ws_from(v@, i as int) is None);
    }
    None
}

/// Last occurrence of the character `c` in `s`, if any.
pub open spec fn spec_rfind_char(s: Seq<char>, c: char) -> Option<int>
    decreases s.len(),
{
    if s.len() == 0 {
        None
    } else if s.last() == c {
        Some(s.len() - 1)
    } else {
        spec_rfind_char(s.drop_last(), c)
    }
}

pub proof fn lemma_rfind_char(s: Seq<char>, c: char)
    ensures
        match spec_rfind_char(s, c) {
            Some(i) => 0 <= i < s.len() && s[i] == c && forall|j: int|
                i < j < s.len() ==> s[j] != c,
            None => forall|j: int| 0 <= j < s.len() ==> s[j] != c,
        },
    decreases s.len(),
{
    if s.len() > 0 && s.last() != c {
        lemma_rfind_char(s.drop_last(), c);
        let d = s.drop_last();
        match spec_rfind_char(d, c) {
            Some(i) => {
                assert(s[i] == d[i]);
                assert forall|j: int| i < j < s.len() implies s[j] != c by {
                    if j < s.len() - 1 {
                        assert(s[j] == d[j]);
                    }
                }
            },
            None => {
                assert forall|j: int| 0 <= j < s.len() implies s[j] != c by {
                    if j < s.len() - 1 {
                        assert(s[j] == d[j]);
                    }
                }
            },
        }
    }
}

pub fn rfind_char(v: &Vec<char>, c: char) -> (r: Option<usize>)
    ensures
        match r {
            Some(i) => Some(i as int) == spec_rfind_char(v@, c),
            None => spec_rfind_char(v@, c) is None,
        },
{
    let n = v.len();
    let mut i: usize = n;
    proof {
        assert(v@.take(n as int) =~= v@);
    }
    while i > 0
        invariant
            n == v@.len(),
            i <= n,
            spec_rfind_char(v@, c) == spec_rfind_char(v@.take(i as int), c),
        decreases i,
    {
        proof {
            assert(v@.take(i as int).last() == v@[i - 1]);
            assert(v@.take(i as int).drop_last() =~= v@.take(i - 1 as int));
        }
        if v[i - 1] == c {
            return Some(i - 1);
        }
        i = i - 1;
    }
    None
}

// --- substring search ---

/// Whether `pat` occurs in `s` starting at index `i`.
pub open spec fn sub_at(s: Seq<char>, i: int, pat: Seq<char>) -> bool {
    0 <= i && i + pat.len() <= s.len() && s.subrange(i, i + pat.len()) == pat
}

/// Whether `pat` occurs anywhere in `s`.
pub open spec fn spec_contains_sub(s: Seq<char>, pat: Seq<char>) -> bool {
    exists|i: int| sub_at(s, i, pat)
}

fn match_at(v: &Vec<char>, i: usize, pat: &Vec<char>) -> (r: bool)
    requires
        i + pat@.len() <= v@.len(),
    ensures
        r == sub_at(v@, i as int, pat@),
{
    let n = v.len();
    let m = pat.len();
    let mut j: usize = 0;
    while j < m
        invariant
            n == v@.len(),
            m == pat@.len(),
            i + m <= n,
            j <= m,
            forall|k: int| 0 <= k < j ==> v@[i + k] == pat@[k],
        decreases m - j,
    {
        if v[i + j] != pat[j] {
            proof {
                assert(v@.subrange(i as int, i + pat@.len())[j as int] != pat@[j as int]);
            }
            return false;
        }
        j = j + 1;
    }
    proof {
        assert(v@.subrange(i as int, i + pat@.len()) =~= pat@);
    }
    true
}

/// First index at or after `from` where `pat` occurs in `s`, if any.
pub open spec fn spec_find_sub(s: Seq<char>, pat: Seq<char>, from: int) -> Option<int>
    decreases s.len() + 1 - from,
{
    if from < 0 || from + pat.len() > s.len() {
        None
    } else if sub_at(s, from, pat) {
        Some(from)
    } else {
        spec_find_sub(s, pat, from + 1)
    }
}

pub proof fn lemma_find_sub(s: Seq<char>, pat: Seq<char>, from: int)
    requires
        from >= 0,
    ensures
        match spec_find_sub(s, pat, from) {
            Some(i) => from <= i && sub_at(s, i, pat) && forall|j: int|
                from <= j < i ==> !sub_at(s, j, pat),
            None => forall|j: int| j >= from ==> !sub_at(s, j, pat),
        },
    decreases s.len() + 1 - from,
{
    if from + pat.len() > s.len() {
    } else if !sub_at(s, from, pat) {
        lemma_find_sub(s, pat, from + 1);
    }
}

/// First index where `pat` occurs in `v`, as `str::find` reports it.
pub fn find_sub(v: &Vec<char>, pat: &Vec<char>) -> (r: Option<usize>)
    ensures
        match r {
            Some(i) => Some(i as int) == spec_find_sub(v@, pat@, 0),
            None => spec_find_sub(v@, pat@, 0) is None,
        },
{
    let n = v.len();
    let m = pat.len();
    if m > n {
        return None;
    }
    if m == 0 {
        proof {
            assert(v@.subrange(0, 0) =~= pat@);
            assert(sub_at(v@, 0, pat@));
        }
        return Some(0);
    }
    let bound = n - m;
    let mut i: usize = 0;
    while i <= bound
        invariant
            n == v@.len(),
            m == pat@.len(),
            0 < m <= n,
            bound == n - m,
            i <= bound + 1,
            spec_find_sub(v@, pat@, 0) == spec_find_sub(v@, pat@, i as int),
        decreases bound + 1 - i,
    {
        if match_at(v, i, pat) {
            proof {
                assert(spec_find_sub(v@, pat@, i as int) == Some(i as int));
            }
            return Some(i);
        }
        proof {
            assert(spec_find_sub(v@, pat@, i as int) == spec_find_sub(v@, pat@, i + 1 as int));
        }
        i = i + 1;
    }
    proof {
        assert(spec_find_sub(v@, pat@, i as int) is None);
    }
    None
}

/// Whether `pat` occurs anywhere in `v`.
pub fn contains_sub(v: &Vec<char>, pat: &Vec<char>) -> (r: bool)
    ensures
        r == spec_contains_sub(v@, pat@),
{
    proof {
        lemma_find_sub(v@, pat@, 0);
    }
    match find_sub(v, pat) {
        Some(i) => {
            proof {
                assert(sub_at(v@, i as int, pat@));
            }
            true
        },
        None => {
            proof {
                assert forall|j: int| !sub_at(v@, j, pat@) by {
                    if j >= 0 {
                        assert(!sub_at(v@, j, pat@));
                    }
                }
            }
            false
        },
    }
}

// --- counting ---

/// Number of occurrences of `c` in `s`.
pub open spec fn count_char(s: Seq<char>, c: char) -> int
    decreases s.len(),
{
    if s.len() == 0 {
        0
    } else {
        count_char(s.drop_last(), c) + if s.last() == c {
            1int
        } else {
            0int
        }
    }
}

/// Number of occurrences of `c` among the first `upto` characters.
pub fn count_char_upto(v: &Vec<char>, c: char, upto: usize) -> (r: usize)
    requires
        upto <= v@.len(),
    ensures
        r as int == count_char(v@.take(upto as int), c),
{
    let mut i: usize = 0;
    let mut n: usize = 0;
    while i < upto
        invariant
            i <= upto <= v@.len(),
            n as int == count_char(v@.take(i as int), c),
            n <= i,
        decreases upto - i,
    {
        proof {
            assert(v@.take(i + 1 as int).drop_last() =~= v@.take(i as int));
            assert(v@.take(i + 1 as int).last() == v@[i as int]);
        }
        if v[i] == c {
            n = n + 1;
        }
        i = i + 1;
    }
    n
}

// --- whitespace splitting and joining ---

/// `str::split_whitespace`: the maximal non-whitespace runs of `s`, in order.
pub open spec fn split_ws(s: Seq<char>) -> Seq<Seq<char>>
    decreases s.len(),
    via split_ws_dec
{
    if s.len() == 0 {
        Seq::empty()
    } else if spec_is_ws(s[0]) {
        split_ws(s.drop_first())
    } else {
        let k = nonws_prefix_len(s);
        seq![s.take(k)] + split_ws(s.skip(k))
    }
}

#[via_fn]
proof fn split_ws_dec(s: Seq<char>) {
    if s.len() > 0 && !spec_is_ws(s[0]) {
        lemma_nonws_prefix_len_bounds(s.drop_first());
        assert(nonws_prefix_len(s) == 1 + nonws_prefix_len(s.drop_first()));
    }
}

/// Every token `split_ws` yields is non-empty.
pub proof fn lemma_split_ws_tokens_nonempty(s: Seq<char>)
    ensures
        forall|i: int| 0 <= i < split_ws(s).len() ==> split_ws(s)[i].len() > 0,
    decreases s.len(),
{
    if s.len() == 0 {
    } else if spec_is_ws(s[0]) {
        lemma_split_ws_tokens_nonempty(s.drop_first());
        assert(split_ws(s) == split_ws(s.drop_first()));
        assert forall|i: int| 0 <= i < split_ws(s).len() implies split_ws(s)[i].len() > 0 by {
            assert(split_ws(s)[i] == split_ws(s.drop_first())[i]);
        }
    } else {
        let k = nonws_prefix_len(s);
        lemma_nonws_prefix_len_bounds(s.drop_first());
        assert(nonws_prefix_len(s) == 1 + nonws_prefix_len(s.drop_first()));
        lemma_split_ws_tokens_nonempty(s.skip(k));
        assert(split_ws(s) == seq![s.take(k)] + split_ws(s.skip(k)));
        assert(split_ws(s)[0].len() == k);
        assert forall|i: int| 0 <= i < split_ws(s).len() implies split_ws(s)[i].len() > 0 by {
            if i >= 1 {
                assert(split_ws(s)[i] == split_ws(s.skip(k))[i - 1]);
            }
        }
    }
}

/// The whitespace tokens of `v`, in order.
pub fn split_ws_chars(v: &Vec<char>) -> (r: Vec<Vec<char>>)
    ensures
        r@.map_values(|t: Vec<char>| t@) == split_ws(v@),
{
    let n = v.len();
    let mut out: Vec<Vec<char>> = Vec::new();
    let mut i: usize = 0;
    proof {
        assert(v@.skip(0) =~= v@);
        assert(out@.map_values(|t: Vec<char>| t@) + split_ws(v@) =~= split_ws(v@));
    }
    while i < n
        invariant
            n == v@.len(),
            i <= n,
            split_ws(v@) == out@.map_values(|t: Vec<char>| t@) + split_ws(v@.skip(i as int)),
        decreases n - i,
    {
        if is_ws(v[i]) {
            proof {
                assert(v@.skip(i as int)[0] == v@[i as int]);
                assert(v@.skip(i as int).drop_first() =~= v@.skip(i + 1 as int));
            }
            i = i + 1;
        } else {
            let mut j: usize = i + 1;
            while j < n && !is_ws(v[j])
                invariant
                    n == v@.len(),
                    i < j <= n,
                    !spec_is_ws(v@[i as int]),
                    forall|k: int| i <= k < j ==> !spec_is_ws(v@[k]),
                decreases n - j,
            {
                j = j + 1;
            }
            let token = subvec(v, i, j);
            proof {
                let tail = v@.skip(i as int);
                assert forall|k: int| 0 <= k < (j - i) implies !spec_is_ws(tail[k]) by {
                    assert(tail[k] == v@[i + k]);
                }
                if j < v@.len() {
                    assert(tail[j - i] == v@[j as int]);
                }
                lemma_nonws_prefix_len(tail, j - i);
                assert(tail.take(j - i) =~= v@.subrange(i as int, j as int));
                assert(tail.skip(j - i) =~= v@.skip(j as int));
                assert(split_ws(tail) == seq![token@] + split_ws(v@.skip(j as int)));
                assert(out@.push(token).map_values(|t: Vec<char>| t@) =~= out@.map_values(
                    |t: Vec<char>| t@,
                ).push(token@));
                assert(out@.map_values(|t: Vec<char>| t@) + (seq![token@] + split_ws(
                    v@.skip(j as int),
                )) =~= out@.map_values(|t: Vec<char>| t@).push(token@) + split_ws(
                    v@.skip(j as int),
                ));
            }
            out.push(token);
            i = j;
        }
    }
    proof {
        assert(v@.skip(v@.len() as int) =~= Seq::<char>::empty());
        assert(out@.map_values(|t: Vec<char>| t@) + split_ws(v@.skip(v@.len() as int))
            =~= out@.map_values(|t: Vec<char>| t@));
    }
    out
}

/// The parts joined with a single space between consecutive parts.
pub open spec fn join_space(parts: Seq<Seq<char>>) -> Seq<char>
    decreases parts.len(),
{
    if parts.len() == 0 {
        Seq::empty()
    } else if parts.len() == 1 {
        parts[0]
    } else {
        parts[0] + seq![' '] + join_space(parts.drop_first())
    }
}

pub fn join_space_chars(parts: &Vec<Vec<char>>) -> (r: Vec<char>)
    ensures
        r@ == join_space(parts@.map_values(|t: Vec<char>| t@)),
{
    let ghost ps = parts@.map_values(|t: Vec<char>| t@);
    let n = parts.len();
    let mut out: Vec<char> = Vec::new();
    let mut i: usize = n;
    proof {
        assert(ps.skip(n as int) =~= Seq::<Seq<char>>::empty());
    }
    while i > 0
        invariant
            n == parts@.len(),
            i <= n,
            ps == parts@.map_values(|t: Vec<char>| t@),
            out@ == join_space(ps.skip(i as int)),
        decreases i,
    {
        i = i - 1;
        let space: Vec<char> = vec![' '];
        let with_space = if i + 1 < n {
            concat_chars(&space, &out)
        } else {
            out
        };
        let part = &parts[i];
        let next = concat_chars(part, &with_space);
        proof {
            let tail = ps.skip(i as int);
            assert(tail[0] == ps[i as int]);
            assert(tail.drop_first() =~= ps.skip(i + 1 as int));
            if i + 1 < parts@.len() {
                assert(tail.len() >= 2);
                assert(next@ =~= tail[0] + seq![' '] + join_space(tail.drop_first()));
            } else {
                assert(tail.len() == 1);
                assert(next@ =~= tail[0]);
            }
        }
        out = next;
    }
    proof {
        assert(ps.skip(0) =~= ps);
    }
    out
}

// --- decimal parsing ---

/// The value of a digit sequence read in base 10.
pub open spec fn dec_value(s: Seq<char>) -> int
    decreases s.len(),
{
    if s.len() == 0 {
        0
    } else {
        dec_value(s.drop_last()) * 10 + (s.last() as u32 - 48)
    }
}

/// The digit part of a number literal: everything after an optional `+`.
pub open spec fn parse_u16_body(s: Seq<char>) -> Seq<char> {
    if s.len() > 0 && s[0] == '+' {
        s.drop_first()
    } else {
        s
    }
}

/// `u16::from_str`: an optional `+`, then one or more ASCII digits whose
/// value fits in `u16`.
pub open spec fn spec_parse_u16(s: Seq<char>) -> Option<u16> {
    let body = parse_u16_body(s);
    if body.len() > 0 && (forall|i: int| 0 <= i < body.len() ==> spec_is_ascii_digit(body[i]))
        && dec_value(body) <= 65535 {
        Some(dec_value(body) as u16)
    } else {
        None
    }
}

pub fn parse_u16_chars(v: &Vec<char>) -> (r: Option<u16>)
    ensures
        r == spec_parse_u16(v@),
{
    let n = v.len();
    let start: usize = if n > 0 && v[0] == '+' {
        1
    } else {
        0
    };
    let ghost body = parse_u16_body(v@);
    proof {
        assert(body =~= v@.subrange(start as int, v@.len() as int));
    }
    if n == start {
        return None;
    }
    let mut i: usize = start;
    let mut value: u32 = 0;
    while i < n
        invariant
            n == v@.len(),
            start <= i <= n,
            start <= 1,
            start < n,
            body == parse_u16_body(v@),
            body == v@.subrange(start as int, v@.len() as int),
            value as int == dec_value(body.take(i - start)),
            value <= 65535,
            forall|j: int| 0 <= j < i - start ==> spec_is_ascii_digit(body[j]),
        decreases n - i,
    {
        let c = v[i];
        proof {
            assert(body[i - start] == v@[i as int]);
        }
        if !(c >= '0' && c <= '9') {
            proof {
                assert(!spec_is_ascii_digit(body[i - start]));
                assert(spec_parse_u16(v@) is None);
            }
            return None;
        }
        proof {
            assert(body.take(i - start + 1).drop_last() =~= body.take(i - start));
            assert(body.take(i - start + 1).last() == body[i - start]);
        }
        let d: u32 = c as u32 - 48;
        let next: u32 = value * 10 + d;
        if next > 65535 {
            proof {
                assert(dec_value(body.take(i - start + 1)) == value * 10 + d > 65535);
                if forall|j: int| 0 <= j < body.len() ==> spec_is_ascii_digit(body[j]) {
                    lemma_dec_value_grows(body, i - start + 1);
                    assert(dec_value(body) > 65535);
                }
                assert(spec_parse_u16(v@) is None);
            }
            return None;
        }
        value = next;
        i = i + 1;
    }
    proof {
        assert(body.take(body.len() as int) =~= body);
    }
    Some(value as u16)
}

/// If some prefix of a digit sequence already exceeds `u16`, the whole
/// sequence does.
proof fn lemma_dec_value_grows(s: Seq<char>, k: int)
    requires
        0 <= k <= s.len(),
        forall|i: int| 0 <= i < s.len() ==> spec_is_ascii_digit(s[i]),
        dec_value(s.take(k)) > 65535,
    ensures
        dec_value(s) > 65535,
    decreases s.len() - k,
{
    if k < s.len() {
        assert(s.take(k + 1).drop_last() =~= s.take(k));
        assert(s.take(k + 1).last() == s[k]);
        assert(spec_is_ascii_digit(s[k]));
        assert(dec_value(s.take(k + 1)) == dec_value(s.take(k)) * 10 + (s[k] as u32 - 48));
        lemma_dec_value_grows(s, k + 1);
    } else {
        assert(s.take(k) =~= s);
    }
}

} // verus!
