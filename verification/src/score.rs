//! Relevance of a name or a path to a search term, in thousandths.

use vstd::prelude::*;
use crate::text::{
    chars_of, contains, has_prefix, has_substring, lowercase, lowercase_of, occurs_at, starts_with,
};

verus! {

/// The similarity of two identical strings: one whole, in thousandths.
pub const FULL_SIMILARITY: u32 = 1000;

/// Added where the text holds the term.
pub const SUBSTRING_BONUS: u32 = 700;

/// Added where the text begins with the term, when names are ranked.
pub const PREFIX_BONUS: u32 = 300;

/// A score must be above this to count as a match for a term.
pub const RELEVANCE_THRESHOLD: u32 = 300;

/// The smaller of two integers.
pub open spec fn least(x: int, y: int) -> int {
    if x <= y {
        x
    } else {
        y
    }
}

/// What it costs to put `y` in the place of `x`.
pub open spec fn swap_cost(x: char, y: char) -> int {
    if x == y {
        0
    } else {
        1
    }
}

/// The edit distance of `a[..i]` and `b[..j]`: the least number of
/// characters to insert, delete or replace to turn one into the other.
pub open spec fn edits(a: Seq<char>, b: Seq<char>, i: int, j: int) -> int
    decreases i + j,
{
    if i <= 0 {
        if j <= 0 {
            0
        } else {
            j
        }
    } else if j <= 0 {
        i
    } else {
        least(
            least(edits(a, b, i - 1, j), edits(a, b, i, j - 1)) + 1,
            edits(a, b, i - 1, j - 1) + swap_cost(a[i - 1], b[j - 1]),
        )
    }
}

/// The similarity of two strings in thousandths: the share of the longer
/// one that no edit touches, rounded down. Two empty strings are alike.
pub open spec fn similarity(a: Seq<char>, b: Seq<char>) -> int {
    let longer = if a.len() >= b.len() {
        a.len() as int
    } else {
        b.len() as int
    };
    if longer == 0 {
        FULL_SIMILARITY as int
    } else {
        (FULL_SIMILARITY * (longer - edits(a, b, a.len() as int, b.len() as int))) / longer
    }
}

/// What a folded text earns beside its similarity to a folded term: the
/// substring bonus where it holds the term and, with `by_name`, the prefix
/// bonus where it begins with it.
pub open spec fn bonus(term: Seq<char>, text: Seq<char>, by_name: bool) -> int {
    (if has_substring(text, term) {
        SUBSTRING_BONUS as int
    } else {
        0
    }) + (if by_name && has_prefix(text, term) {
        PREFIX_BONUS as int
    } else {
        0
    })
}

/// The score of a folded text against a folded term, in whole
/// thousandths: their similarity and the bonus.
pub open spec fn relevance(term: Seq<char>, text: Seq<char>, by_name: bool) -> int {
    similarity(term, text) + bonus(term, text, by_name)
}

/// Whether a folded text is a match for a folded term: the share of the
/// longer string that no edit touches, and the bonus, are together above
/// the threshold. The share is taken as it is, not rounded.
pub open spec fn above_threshold(term: Seq<char>, text: Seq<char>, by_name: bool) -> bool {
    let longer = if term.len() >= text.len() {
        term.len() as int
    } else {
        text.len() as int
    };
    let kept = longer - edits(term, text, term.len() as int, text.len() as int);
    if longer == 0 {
        FULL_SIMILARITY + bonus(term, text, by_name) > RELEVANCE_THRESHOLD
    } else {
        FULL_SIMILARITY * kept + bonus(term, text, by_name) * longer > RELEVANCE_THRESHOLD
            * longer
    }
}

/// Whether `text` is a match for `term`, both folded to lower case first.
pub open spec fn relevant_to(term: Seq<char>, text: Seq<char>, by_name: bool) -> bool {
    above_threshold(lowercase_of(term), lowercase_of(text), by_name)
}

/// The score of `text` against `term`, both folded to lower case first.
pub open spec fn score_of(term: Seq<char>, text: Seq<char>, by_name: bool) -> int {
    relevance(lowercase_of(term), lowercase_of(text), by_name)
}

/// The edit distance lies between the difference of the lengths and the
/// greater of them.
pub proof fn lemma_edits_bounds(a: Seq<char>, b: Seq<char>, i: int, j: int)
    requires
        0 <= i,
        0 <= j,
    ensures
        0 <= edits(a, b, i, j),
        edits(a, b, i, j) <= if i >= j {
            i
        } else {
            j
        },
    decreases i + j,
{
    if i > 0 && j > 0 {
        lemma_edits_bounds(a, b, i - 1, j);
        lemma_edits_bounds(a, b, i, j - 1);
        lemma_edits_bounds(a, b, i - 1, j - 1);
    }
}

/// The edit distance does not depend on which string comes first.
pub proof fn lemma_edits_symmetric(a: Seq<char>, b: Seq<char>, i: int, j: int)
    ensures
        edits(a, b, i, j) == edits(b, a, j, i),
    decreases i + j,
{
    if i > 0 && j > 0 {
        lemma_edits_symmetric(a, b, i - 1, j);
        lemma_edits_symmetric(a, b, i, j - 1);
        lemma_edits_symmetric(a, b, i - 1, j - 1);
    }
}

/// A string is at distance 0 from itself.
pub proof fn lemma_edits_same(a: Seq<char>, i: int)
    requires
        0 <= i <= a.len(),
    ensures
        edits(a, a, i, i) == 0,
    decreases i,
{
    if i > 0 {
        lemma_edits_same(a, i - 1);
        lemma_edits_bounds(a, a, i - 1, i);
        lemma_edits_bounds(a, a, i, i - 1);
    }
}

/// Similarity is symmetric.
pub proof fn lemma_similarity_symmetric(a: Seq<char>, b: Seq<char>)
    ensures
        similarity(a, b) == similarity(b, a),
{
    lemma_edits_symmetric(a, b, a.len() as int, b.len() as int);
}

/// Similarity lies between nothing and one whole.
pub proof fn lemma_similarity_bounds(a: Seq<char>, b: Seq<char>)
    ensures
        0 <= similarity(a, b) <= 1000,
{
    let longer = if a.len() >= b.len() {
        a.len() as int
    } else {
        b.len() as int
    };
    lemma_edits_bounds(a, b, a.len() as int, b.len() as int);
    if longer > 0 {
        let kept = longer - edits(a, b, a.len() as int, b.len() as int);
        assert(0 <= (1000 * kept) / longer <= 1000) by (nonlinear_arith)
            requires
                0 <= kept <= longer,
                longer > 0,
        ;
    }
}

/// A string is wholly similar to itself.
pub proof fn lemma_similarity_same(a: Seq<char>)
    ensures
        similarity(a, a) == 1000,
{
    lemma_edits_same(a, a.len() as int);
    let n = a.len() as int;
    if n > 0 {
        assert((1000 * n) / n == 1000) by (nonlinear_arith)
            requires
                n > 0,
        ;
    }
}

/// No text scores higher against a term than the term itself, in whatever
/// case it is written.
pub proof fn lemma_identical_is_best(
    term: Seq<char>,
    same: Seq<char>,
    text: Seq<char>,
    by_name: bool,
)
    requires
        lowercase_of(same) == lowercase_of(term),
    ensures
        score_of(term, text, by_name) <= score_of(term, same, by_name),
        score_of(term, same, by_name) == FULL_SIMILARITY + SUBSTRING_BONUS + if by_name {
            PREFIX_BONUS as int
        } else {
            0
        },
{
    let t = lowercase_of(term);
    lemma_similarity_bounds(t, lowercase_of(text));
    lemma_similarity_same(t);
    assert(t.subrange(0, t.len() as int) =~= t);
    assert(occurs_at(t, t, 0));
}

/// A text that holds the term is a match, however long it is.
pub proof fn lemma_holding_the_term_is_relevant(term: Seq<char>, text: Seq<char>, by_name: bool)
    requires
        has_substring(text, term),
    ensures
        above_threshold(term, text, by_name),
{
    lemma_edits_bounds(term, text, term.len() as int, text.len() as int);
    let longer = if term.len() >= text.len() {
        term.len() as int
    } else {
        text.len() as int
    };
    let kept = longer - edits(term, text, term.len() as int, text.len() as int);
    let extra = bonus(term, text, by_name);
    if longer > 0 {
        assert(1000 * kept + extra * longer > 300 * longer) by (nonlinear_arith)
            requires
                kept >= 0,
                longer > 0,
                extra >= 700,
        ;
    }
}

/// A score that is above the threshold in whole thousandths is a match.
pub proof fn lemma_rounded_match_is_a_match(term: Seq<char>, text: Seq<char>, by_name: bool)
    requires
        relevance(term, text, by_name) > RELEVANCE_THRESHOLD,
    ensures
        above_threshold(term, text, by_name),
{
    lemma_edits_bounds(term, text, term.len() as int, text.len() as int);
    let longer = if term.len() >= text.len() {
        term.len() as int
    } else {
        text.len() as int
    };
    let kept = longer - edits(term, text, term.len() as int, text.len() as int);
    let extra = bonus(term, text, by_name);
    if longer > 0 {
        let share = (1000 * kept) / longer;
        assert(1000 * kept + extra * longer > 300 * longer) by (nonlinear_arith)
            requires
                kept >= 0,
                longer > 0,
                extra >= 0,
                share == (1000 * kept) / longer,
                share + extra > 300,
        ;
    }
}

/// The edit distance of two strings.
pub fn edit_distance(a: &Vec<char>, b: &Vec<char>) -> (d: usize)
    ensures
        d == edits(a@, b@, a@.len() as int, b@.len() as int),
{
    let n: usize = a.len();
    let m: usize = b.len();
    if m == 0 {
        return n;
    }
    // `row[j - 1]` is the distance of the current prefix of `a` to `b[..j]`.
    let mut row: Vec<usize> = Vec::new();
    let mut j: usize = 0;
    while j < m
        invariant
            j <= m,
            row@.len() == j,
            forall|k: int| 0 <= k < j ==> row@[k] == k + 1,
        decreases m - j,
    {
        row.push(j + 1);
        j += 1;
    }
    let mut i: usize = 0;
    while i < n
        invariant
            i <= n,
            n == a@.len(),
            m == b@.len(),
            m > 0,
            row@.len() == m,
            forall|k: int| 0 <= k < m ==> row@[k] == edits(a@, b@, i as int, k + 1),
        decreases n - i,
    {
        let mut next: Vec<usize> = Vec::new();
        // The distance to `b[..j]` from the prefix before, and from this one.
        let mut diagonal: usize = i;
        let mut left: usize = i + 1;
        let mut j: usize = 0;
        while j < m
            invariant
                j <= m,
                i < n,
                n == a@.len(),
                m == b@.len(),
                row@.len() == m,
                next@.len() == j,
                forall|k: int| 0 <= k < m ==> row@[k] == edits(a@, b@, i as int, k + 1),
                forall|k: int| 0 <= k < j ==> next@[k] == edits(a@, b@, i + 1, k + 1),
                diagonal == edits(a@, b@, i as int, j as int),
                left == edits(a@, b@, i + 1, j as int),
            decreases m - j,
        {
            let up: usize = row[j];
            let side: usize = if up <= left {
                up
            } else {
                left
            };
            proof {
                lemma_edits_bounds(a@, b@, i as int, j as int);
                lemma_edits_bounds(a@, b@, i + 1, j + 1);
            }
            let swap: usize = if a[i] == b[j] {
                diagonal
            } else {
                diagonal + 1
            };
            let best: usize = if side < swap {
                side + 1
            } else {
                swap
            };
            assert(best == edits(a@, b@, i + 1, j + 1));
            next.push(best);
            diagonal = up;
            left = best;
            j += 1;
        }
        row = next;
        i += 1;
    }
    row[m - 1]
}

/// The similarity of two strings, in thousandths.
pub fn similar(a: &Vec<char>, b: &Vec<char>) -> (s: u32)
    ensures
        s == similarity(a@, b@),
        s <= FULL_SIMILARITY,
{
    let longer: usize = if a.len() >= b.len() {
        a.len()
    } else {
        b.len()
    };
    if longer == 0 {
        return 1000;
    }
    let d = edit_distance(a, b);
    proof {
        lemma_edits_bounds(a@, b@, a@.len() as int, b@.len() as int);
        lemma_similarity_bounds(a@, b@);
    }
    let kept: u128 = (longer - d) as u128;
    assert(1000 * kept <= 1000 * usize::MAX) by (nonlinear_arith)
        requires
            kept <= usize::MAX,
    ;
    let s: u128 = (1000 * kept) / (longer as u128);
    s as u32
}

/// Scores a text against a term, both already in lower case, and says
/// whether it is a match. The score is in whole thousandths, rounded down;
/// the match is decided on the share as it is.
pub fn assess_folded(term: &Vec<char>, text: &Vec<char>, by_name: bool) -> (r: (u32, bool))
    ensures
        r.0 == relevance(term@, text@, by_name),
        r.0 <= FULL_SIMILARITY + SUBSTRING_BONUS + PREFIX_BONUS,
        r.1 == above_threshold(term@, text@, by_name),
{
    let mut extra: u32 = 0;
    if contains(text, term) {
        extra = extra + SUBSTRING_BONUS;
    }
    if by_name && starts_with(text, term) {
        extra = extra + PREFIX_BONUS;
    }
    let longer: usize = if term.len() >= text.len() {
        term.len()
    } else {
        text.len()
    };
    if longer == 0 {
        return (FULL_SIMILARITY + extra, FULL_SIMILARITY + extra > RELEVANCE_THRESHOLD);
    }
    let d = edit_distance(term, text);
    proof {
        lemma_edits_bounds(term@, text@, term@.len() as int, text@.len() as int);
        lemma_similarity_bounds(term@, text@);
    }
    let kept: u128 = (longer - d) as u128;
    let whole: u128 = longer as u128;
    let gain: u128 = extra as u128;
    assert(1000 * kept <= 1000 * usize::MAX && gain * whole <= 1000 * usize::MAX && 300 * whole
        <= 300 * usize::MAX) by (nonlinear_arith)
        requires
            kept <= usize::MAX,
            whole <= usize::MAX,
            gain <= 1000,
    ;
    let share: u128 = (1000 * kept) / whole;
    let hit: bool = 1000 * kept + gain * whole > 300 * whole;
    ((share as u32) + extra, hit)
}

/// The score of a text against a term, both already in lower case.
pub fn score_folded(term: &Vec<char>, text: &Vec<char>, by_name: bool) -> (s: u32)
    ensures
        s == relevance(term@, text@, by_name),
        s <= FULL_SIMILARITY + SUBSTRING_BONUS + PREFIX_BONUS,
{
    assess_folded(term, text, by_name).0
}

/// Scores `text` against `term` and says whether it is a match. Both are
/// folded to lower case; the score is their similarity, plus a bonus where
/// the text holds the term, plus, with `by_name`, a bonus where it begins
/// with the term.
pub fn assess(term: &str, text: &str, by_name: bool) -> (r: (u32, bool))
    ensures
        r.0 == score_of(term@, text@, by_name),
        r.0 <= FULL_SIMILARITY + SUBSTRING_BONUS + PREFIX_BONUS,
        r.1 == relevant_to(term@, text@, by_name),
{
    let folded_term = lowercase(term);
    let folded_text = lowercase(text);
    let t = chars_of(folded_term.as_str());
    let x = chars_of(folded_text.as_str());
    assess_folded(&t, &x, by_name)
}

/// The score of `text` against `term`, in whole thousandths.
pub fn score(term: &str, text: &str, by_name: bool) -> (s: u32)
    ensures
        s == score_of(term@, text@, by_name),
        s <= FULL_SIMILARITY + SUBSTRING_BONUS + PREFIX_BONUS,
{
    assess(term, text, by_name).0
}

/// Whether `text` is a match. With a term its score must be above the
/// threshold; without one everything is a match.
pub fn is_relevant(term: &Option<String>, text: &str, by_name: bool) -> (b: bool)
    ensures
        b == match *term {
            Some(t) => relevant_to(t@, text@, by_name),
            None => true,
        },
{
    match term {
        Some(t) => assess(t.as_str(), text, by_name).1,
        None => true,
    }
}

} // verus!
