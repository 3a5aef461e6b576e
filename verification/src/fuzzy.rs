//! Greedy fuzzy matching of a query against a line of text.

use vstd::prelude::*;

use crate::text::str_chars;

verus! {

pub const CONSECUTIVE_BONUS: i32 = 8;

pub const BOUNDARY_BONUS: i32 = 12;

pub const PREFIX_BONUS: i32 = 16;

pub const GAP_PENALTY: i32 = 1;

/// The lowercase mapping of a character, as std's `char::to_lowercase`
/// yields it.
pub uninterp spec fn char_lowercase(c: char) -> Seq<char>;

/// The lowercase mapping of a character.
///
/// Trusted: calls `char::to_lowercase`, which std documents as yielding the
/// lowercase mapping of the character as one or more characters; the
/// mapping itself (Unicode's case tables) is left to the name
/// `char_lowercase`.
#[verifier::external_body]
fn lowercase_of(c: char) -> (r: Vec<char>)
    ensures
        r@ == char_lowercase(c),
        r@.len() >= 1,
{
    c.to_lowercase().collect()
}

/// Every character of `s` replaced by its lowercase mapping.
pub open spec fn lowercased(s: Seq<char>) -> Seq<char>
    decreases s.len(),
{
    if s.len() == 0 {
        Seq::empty()
    } else {
        lowercased(s.drop_last()) + char_lowercase(s.last())
    }
}

/// `s` with every character replaced by its lowercase mapping.
pub fn lowercase_chars(s: &[char]) -> (r: Vec<char>)
    ensures
        r@ == lowercased(s@),
{
    let mut out: Vec<char> = Vec::new();
    let mut i: usize = 0;
    while i < s.len()
        invariant
            i <= s@.len(),
            out@ == lowercased(s@.subrange(0, i as int)),
        decreases s@.len() - i,
    {
        let mut lower = lowercase_of(s[i]);
        assert(s@.subrange(0, i + 1).drop_last() =~= s@.subrange(0, i as int));
        out.append(&mut lower);
        i += 1;
    }
    assert(s@.subrange(0, s@.len() as int) =~= s@);
    out
}

/// A character that separates words.
pub open spec fn is_separator(c: char) -> bool {
    c == ' ' || c == '/' || c == '-' || c == '_' || c == '.' || c == ':'
}

/// A match at `idx` starts a word when the character before it is a
/// separator, or when there is no character before it.
pub open spec fn spec_is_boundary(haystack: Seq<char>, idx: int) -> bool {
    idx == 0 || idx - 1 >= haystack.len() || is_separator(haystack[idx - 1])
}

/// A match starts a word when the character before it is a separator.
pub fn is_boundary(haystack: &[char], idx: usize) -> (r: bool)
    ensures
        r == spec_is_boundary(haystack@, idx as int),
{
    if idx == 0 || idx - 1 >= haystack.len() {
        return true;
    }
    let previous = haystack[idx - 1];
    previous == ' ' || previous == '/' || previous == '-' || previous == '_' || previous == '.'
        || previous == ':'
}

/// The first position at or after `start` where `haystack` holds `c`.
pub open spec fn find_from(haystack: Seq<char>, c: char, start: int) -> Option<int>
    decreases haystack.len() - start,
{
    if start < 0 || start >= haystack.len() {
        None
    } else if haystack[start] == c {
        Some(start)
    } else {
        find_from(haystack, c, start + 1)
    }
}

/// What matching one character at `found` adds to the score, the previous
/// match having been at `previous`.
pub open spec fn step_score(haystack: Seq<char>, found: int, previous: Option<int>) -> int {
    let consecutive = if previous == Some(found - 1) { CONSECUTIVE_BONUS as int } else { 0 };
    let start = if found == 0 {
        PREFIX_BONUS as int
    } else if spec_is_boundary(haystack, found) {
        BOUNDARY_BONUS as int
    } else {
        0
    };
    let gap = match previous {
        Some(p) => found - p - 1,
        None => found,
    };
    consecutive + start - GAP_PENALTY * gap
}

/// The score of matching `needles[k..]` greedily from `start` on, each
/// needle taking the first place it occurs; `None` when one does not occur.
pub open spec fn greedy_score(haystack: Seq<char>, needles: Seq<char>, k: nat, start: int, previous: Option<int>) -> Option<
    int,
>
    decreases needles.len() - k,
{
    if k >= needles.len() {
        Some(0)
    } else {
        match find_from(haystack, needles[k as int], start) {
            None => None,
            Some(found) => match greedy_score(haystack, needles, k + 1, found + 1, Some(found)) {
                None => None,
                Some(rest) => Some(step_score(haystack, found, previous) + rest),
            },
        }
    }
}

/// The score of `needles` against `haystack`: an empty query matches with
/// score zero.
pub open spec fn match_score(haystack: Seq<char>, needles: Seq<char>) -> Option<int> {
    if needles.len() == 0 {
        Some(0)
    } else {
        greedy_score(haystack, needles, 0, 0, None)
    }
}

/// Whether a score, if there is one, fits an `i32`.
pub open spec fn score_fits(m: Option<int>) -> bool {
    m matches Some(x) ==> i32::MIN <= x <= i32::MAX
}

/// The first position at or after `start` where `haystack` holds `c`.
fn find_char(haystack: &[char], c: char, start: usize) -> (r: Option<usize>)
    requires
        start <= haystack@.len(),
    ensures
        match r {
            Some(f) => find_from(haystack@, c, start as int) == Some(f as int),
            None => find_from(haystack@, c, start as int) is None,
        },
        r matches Some(f) ==> start <= f < haystack@.len(),
{
    let mut j = start;
    while j < haystack.len()
        invariant
            start <= j <= haystack@.len(),
            find_from(haystack@, c, start as int) == find_from(haystack@, c, j as int),
        decreases haystack@.len() - j,
    {
        if haystack[j] == c {
            return Some(j);
        }
        j += 1;
    }
    None
}

/// The score of already lowercased characters, kept wide enough that no
/// text held in memory can overflow it.
fn score_chars_wide(haystack: &[char], needles: &[char]) -> (r: Option<i128>)
    ensures
        match r {
            Some(s) => match_score(haystack@, needles@) == Some(s as int),
            None => match_score(haystack@, needles@) is None,
        },
{
    let ghost h = haystack@;
    let ghost n = needles@;
    let total = haystack.len();
    let mut score: i128 = 0;
    let mut idx: usize = 0;
    let mut previous: Option<usize> = None;
    let mut k: usize = 0;
    while k < needles.len()
        invariant
            h == haystack@,
            n == needles@,
            total == h.len(),
            k <= n.len(),
            idx <= h.len(),
            match previous {
                Some(p) => idx == p + 1,
                None => idx == 0,
            },
            -(idx as int) <= score <= 24 * k,
            k == 0 ==> previous is None,
            n.len() > 0 ==> match_score(h, n) == match greedy_score(
                h,
                n,
                k as nat,
                idx as int,
                match previous {
                    Some(p) => Some(p as int),
                    None => None,
                },
            ) {
                Some(rest) => Some(score + rest),
                None => None,
            },
        decreases n.len() - k,
    {
        let found = match find_char(haystack, needles[k], idx) {
            Some(found) => found,
            None => {
                return None;
            },
        };
        let ghost prev_spec: Option<int> = match previous {
            Some(p) => Some(p as int),
            None => None,
        };
        let mut step: i128 = 0;
        let consecutive = match previous {
            Some(p) => found >= 1 && p == found - 1,
            None => false,
        };
        if consecutive {
            step = step + CONSECUTIVE_BONUS as i128;
        }
        if found == 0 {
            step = step + PREFIX_BONUS as i128;
        } else if is_boundary(haystack, found) {
            step = step + BOUNDARY_BONUS as i128;
        }
        let gap = found - idx;
        assert(step == step_score(h, found as int, prev_spec) + gap);
        score = score + step - (gap as i128);
        previous = Some(found);
        idx = found + 1;
        k += 1;
    }
    Some(score)
}

/// Greedy left-to-right subsequence match of already lowercased
/// characters. `None` when `needles` is not matched in order. The score
/// must fit an `i32`, which it does for any text shorter than two thousand
/// million characters.
pub fn fuzzy_score_chars(haystack: &[char], needles: &[char]) -> (r: Option<i32>)
    requires
        score_fits(match_score(haystack@, needles@)),
    ensures
        match r {
            Some(s) => match_score(haystack@, needles@) == Some(s as int),
            None => match_score(haystack@, needles@) is None,
        },
{
    match score_chars_wide(haystack, needles) {
        Some(s) => Some(s as i32),
        None => None,
    }
}

/// Greedy left-to-right subsequence match, ignoring case. Returns `None`
/// when `query` is not a subsequence of `text`, otherwise a score where
/// higher is better. Matching a run of consecutive characters, the start
/// of a word or the very start of the text scores higher; each skipped
/// character costs one. The score must fit an `i32`, as it does for any
/// text shorter than two thousand million characters; `fuzzy_score_checked`
/// takes any text.
///
/// Greedy rather than optimal: an optimal matcher would backtrack to find
/// the best alignment, which costs O(n*m) for a picker that never sees
/// more than a few hundred rows.
pub fn fuzzy_score(query: &str, text: &str) -> (r: Option<i32>)
    requires
        query@.len() > 0 ==> score_fits(match_score(lowercased(text@), lowercased(query@))),
    ensures
        query@.len() == 0 ==> r == Some(0i32),
        query@.len() > 0 ==> match r {
            Some(s) => match_score(lowercased(text@), lowercased(query@)) == Some(s as int),
            None => match_score(lowercased(text@), lowercased(query@)) is None,
        },
{
    if query.is_empty() {
        return Some(0);
    }
    let haystack = lowercase_chars(str_chars(text).as_slice());
    let needles = lowercase_chars(str_chars(query).as_slice());
    fuzzy_score_chars(haystack.as_slice(), needles.as_slice())
}

/// `fuzzy_score` for any text: `None` when the score would not fit an
/// `i32`, else what `fuzzy_score` gives.
pub fn fuzzy_score_checked(query: &str, text: &str) -> (r: Option<Option<i32>>)
    ensures
        r is None <==> query@.len() > 0 && !score_fits(match_score(lowercased(text@), lowercased(query@))),
        r matches Some(x) ==> {
            &&& query@.len() == 0 ==> x == Some(0i32)
            &&& query@.len() > 0 ==> match x {
                Some(s) => match_score(lowercased(text@), lowercased(query@)) == Some(s as int),
                None => match_score(lowercased(text@), lowercased(query@)) is None,
            }
        },
{
    if query.is_empty() {
        return Some(fuzzy_score(query, text));
    }
    let haystack = lowercase_chars(str_chars(text).as_slice());
    let needles = lowercase_chars(str_chars(query).as_slice());
    match score_chars_wide(haystack.as_slice(), needles.as_slice()) {
        Some(s) => if s < -2147483648i128 || s > 2147483647i128 {
            None
        } else {
            Some(fuzzy_score(query, text))
        },
        None => Some(fuzzy_score(query, text)),
    }
}

/// `g` places `needles[k..]` in `haystack` at increasing positions from
/// `start` on, each on an equal character.
pub open spec fn is_embedding(g: Seq<int>, haystack: Seq<char>, needles: Seq<char>, k: int, start: int) -> bool {
    &&& g.len() == needles.len() - k
    &&& forall|i: int| 0 <= i < g.len() ==> start <= #[trigger] g[i] < haystack.len() && haystack[g[i]] == needles[k + i]
    &&& forall|i: int, j: int| 0 <= i < j < g.len() ==> g[i] < g[j]
}

/// `needles` is a subsequence of `haystack`: its characters occur in
/// `haystack` in order, not necessarily next to each other.
pub open spec fn is_subsequence(needles: Seq<char>, haystack: Seq<char>) -> bool {
    exists|g: Seq<int>| #[trigger] is_embedding(g, haystack, needles, 0, 0)
}

proof fn lemma_find_from_found(h: Seq<char>, c: char, start: int)
    requires
        find_from(h, c, start) is Some,
    ensures
        start <= find_from(h, c, start)->0 < h.len(),
        h[find_from(h, c, start)->0] == c,
    decreases h.len() - start,
{
    if 0 <= start < h.len() && h[start] != c {
        lemma_find_from_found(h, c, start + 1);
    }
}

proof fn lemma_find_from_first(h: Seq<char>, c: char, start: int, p: int)
    requires
        0 <= start <= p < h.len(),
        h[p] == c,
    ensures
        find_from(h, c, start) is Some,
        find_from(h, c, start)->0 <= p,
    decreases p - start,
{
    if h[start] != c {
        lemma_find_from_first(h, c, start + 1, p);
    }
}

proof fn lemma_greedy_finds_embedding(h: Seq<char>, n: Seq<char>, k: nat, start: int, prev: Option<int>)
    requires
        k <= n.len(),
        start >= 0,
        greedy_score(h, n, k, start, prev) is Some,
    ensures
        exists|g: Seq<int>| #[trigger] is_embedding(g, h, n, k as int, start),
    decreases n.len() - k,
{
    if k == n.len() {
        assert(is_embedding(Seq::<int>::empty(), h, n, k as int, start));
    } else {
        let found = find_from(h, n[k as int], start)->0;
        lemma_find_from_found(h, n[k as int], start);
        lemma_greedy_finds_embedding(h, n, k + 1, found + 1, Some(found));
        let rest = choose|g: Seq<int>| #[trigger] is_embedding(g, h, n, (k + 1) as int, found + 1);
        let g = seq![found] + rest;
        assert forall|i: int| 0 <= i < g.len() implies start <= #[trigger] g[i] < h.len() && h[g[i]] == n[k + i] by {
            if i > 0 {
                assert(g[i] == rest[i - 1]);
            }
        }
        assert forall|i: int, j: int| 0 <= i < j < g.len() implies g[i] < g[j] by {
            if i > 0 {
                assert(g[i] == rest[i - 1] && g[j] == rest[j - 1]);
            } else {
                assert(g[j] == rest[j - 1]);
            }
        }
        assert(is_embedding(g, h, n, k as int, start));
    }
}

proof fn lemma_embedding_lets_greedy_succeed(h: Seq<char>, n: Seq<char>, k: nat, start: int, prev: Option<int>, g: Seq<int>)
    requires
        k <= n.len(),
        start >= 0,
        is_embedding(g, h, n, k as int, start),
    ensures
        greedy_score(h, n, k, start, prev) is Some,
    decreases n.len() - k,
{
    if k < n.len() {
        assert(g[0] == g[0]);
        lemma_find_from_first(h, n[k as int], start, g[0]);
        lemma_find_from_found(h, n[k as int], start);
        let found = find_from(h, n[k as int], start)->0;
        let rest = g.drop_first();
        assert forall|i: int| 0 <= i < rest.len() implies found + 1 <= #[trigger] rest[i] < h.len() && h[rest[i]]
            == n[k + 1 + i] by {
            assert(rest[i] == g[i + 1]);
            assert(g[0] < g[i + 1]);
        }
        assert forall|i: int, j: int| 0 <= i < j < rest.len() implies rest[i] < rest[j] by {
            assert(rest[i] == g[i + 1] && rest[j] == g[j + 1]);
        }
        assert(is_embedding(rest, h, n, (k + 1) as int, found + 1));
        lemma_embedding_lets_greedy_succeed(h, n, k + 1, found + 1, Some(found), rest);
    }
}

/// The match succeeds exactly when the query is a subsequence of the
/// text: greedy matching never misses a match that exists.
pub proof fn lemma_match_iff_subsequence(haystack: Seq<char>, needles: Seq<char>)
    ensures
        match_score(haystack, needles) is Some <==> is_subsequence(needles, haystack),
{
    if needles.len() == 0 {
        assert(is_embedding(Seq::<int>::empty(), haystack, needles, 0, 0));
    } else {
        if match_score(haystack, needles) is Some {
            lemma_greedy_finds_embedding(haystack, needles, 0, 0, None);
        }
        if is_subsequence(needles, haystack) {
            let g = choose|g: Seq<int>| #[trigger] is_embedding(g, haystack, needles, 0, 0);
            lemma_embedding_lets_greedy_succeed(haystack, needles, 0, 0, None, g);
        }
    }
}

/// A match starts a word exactly when it is the first character or the
/// character before it is a space, `/`, `-`, `_`, `.` or `:`.
pub proof fn lemma_words_start_after_separators(s: Seq<char>, i: int)
    requires
        0 <= i <= s.len(),
    ensures
        spec_is_boundary(s, i) <==> i == 0 || s[i - 1] == ' ' || s[i - 1] == '/' || s[i - 1] == '-' || s[i - 1] == '_'
            || s[i - 1] == '.' || s[i - 1] == ':',
{
}

} // verus!
