//! The buffered selection: scoring, ordering and cutting a drained stream.

use vstd::prelude::*;
use crate::filter::file_name;
use crate::known::option_view;
use crate::score::{assess, relevant_to, score_of};
use crate::text::{chars_of, string_of};

verus! {

/// A path with its score in thousandths and, where the file system gave
/// one, the time of its last modification.
#[derive(Clone, Debug, PartialEq, Eq)]
pub struct ScoredCandidate {
    pub path: String,
    pub score: u32,
    pub modified: Option<u64>,
}

/// A path as it arrives from the walk, with its modification time where one
/// could be read.
#[derive(Clone, Debug, PartialEq, Eq)]
pub struct Arrival {
    pub path: String,
    pub modified: Option<u64>,
}

/// `a` must stand before `b` although it arrived later: it scores higher,
/// or it scores the same, both have a known time, and `a`'s is later.
pub open spec fn outranks(a: ScoredCandidate, b: ScoredCandidate) -> bool {
    a.score > b.score || (a.score == b.score && a.modified is Some && b.modified is Some
        && a.modified->0 > b.modified->0)
}

/// Where a newly arrived `x` is put among the items ranked so far, which
/// `ord` lists by their places of arrival: before the first that it
/// outranks, or at the end.
pub open spec fn place_of(
    items: Seq<ScoredCandidate>,
    ord: Seq<int>,
    x: ScoredCandidate,
    from: int,
) -> int
    decreases ord.len() - from,
{
    if from < 0 || from >= ord.len() {
        ord.len() as int
    } else if outranks(x, items[ord[from]]) {
        from
    } else {
        place_of(items, ord, x, from + 1)
    }
}

/// The order in which `items[..n]` are presented, each item given by its
/// place of arrival.
pub open spec fn ranking(items: Seq<ScoredCandidate>, n: int) -> Seq<int>
    decreases n,
{
    if n <= 0 {
        Seq::empty()
    } else {
        let ord = ranking(items, n - 1);
        ord.insert(place_of(items, ord, items[n - 1], 0), n - 1)
    }
}

/// `items[..n]` in the order in which they are presented.
pub open spec fn ranked(items: Seq<ScoredCandidate>, n: int) -> Seq<ScoredCandidate> {
    Seq::new(ranking(items, n).len(), |k: int| items[ranking(items, n)[k]])
}

/// What the first `len` places of a presentation `ord` owe: scores never
/// rise; of two files with the same score and known times the one modified
/// later comes first, and the one that arrived first where the times are
/// the same; two neighbours with the same score of which one has no known
/// time stand in their order of arrival.
pub open spec fn well_ranked(items: Seq<ScoredCandidate>, ord: Seq<int>, len: int) -> bool {
    &&& forall|i: int, j: int|
        0 <= i < j < len ==> items[#[trigger] ord[i]].score >= items[#[trigger] ord[j]].score
    &&& forall|i: int, j: int|
        0 <= i < j < len && items[#[trigger] ord[i]].score == items[#[trigger] ord[j]].score
            && items[ord[i]].modified is Some && items[ord[j]].modified is Some ==> {
            ||| items[ord[i]].modified->0 > items[ord[j]].modified->0
            ||| items[ord[i]].modified->0 == items[ord[j]].modified->0 && ord[i] < ord[j]
        }
    &&& forall|i: int, j: int|
        0 <= i && j == i + 1 && j < len && items[#[trigger] ord[i]].score
            == items[#[trigger] ord[j]].score && (items[ord[i]].modified is None
            || items[ord[j]].modified is None) ==> ord[i] < ord[j]
}

/// The first `limit` items of `s`, or all of them.
pub open spec fn cut(s: Seq<ScoredCandidate>, limit: Option<usize>) -> Seq<ScoredCandidate> {
    match limit {
        Some(n) => if n < s.len() {
            s.subrange(0, n as int)
        } else {
            s
        },
        None => s,
    }
}

proof fn lemma_place_of(items: Seq<ScoredCandidate>, ord: Seq<int>, x: ScoredCandidate, from: int)
    requires
        0 <= from <= ord.len(),
    ensures
        from <= place_of(items, ord, x, from) <= ord.len(),
        forall|k: int|
            from <= k < place_of(items, ord, x, from) ==> !outranks(x, items[#[trigger] ord[k]]),
        place_of(items, ord, x, from) < ord.len() ==> outranks(
            x,
            items[ord[place_of(items, ord, x, from)]],
        ),
    decreases ord.len() - from,
{
    if from < ord.len() && !outranks(x, items[ord[from]]) {
        lemma_place_of(items, ord, x, from + 1);
    }
}

/// The presentation of `items[..n]` names each of them once, by a place of
/// arrival below `n`, and is well ranked.
pub proof fn lemma_ranking_is_well_ranked(items: Seq<ScoredCandidate>, n: int)
    requires
        0 <= n <= items.len(),
    ensures
        ranking(items, n).len() == n,
        forall|k: int| 0 <= k < n ==> 0 <= #[trigger] ranking(items, n)[k] < n,
        well_ranked(items, ranking(items, n), n),
    decreases n,
{
    if n > 0 {
        lemma_ranking_is_well_ranked(items, n - 1);
        let ord = ranking(items, n - 1);
        let x = items[n - 1];
        lemma_place_of(items, ord, x, 0);
        let at = place_of(items, ord, x, 0);
        let now = ord.insert(at, n - 1);
        assert(now == ranking(items, n));
        assert forall|k: int| 0 <= k < n implies 0 <= #[trigger] now[k] < n by {
            if k < at {
                assert(now[k] == ord[k]);
            } else if k > at {
                assert(now[k] == ord[k - 1]);
            }
        }
        assert forall|i: int, j: int| 0 <= i < j < n implies items[#[trigger] now[i]].score
            >= items[#[trigger] now[j]].score by {
            lemma_pair(items, ord, at, n, i, j);
        }
        assert forall|i: int, j: int|
            0 <= i < j < n && items[#[trigger] now[i]].score == items[#[trigger] now[j]].score
                && items[now[i]].modified is Some && items[now[j]].modified is Some implies {
            ||| items[now[i]].modified->0 > items[now[j]].modified->0
            ||| items[now[i]].modified->0 == items[now[j]].modified->0 && now[i] < now[j]
        } by {
            lemma_pair(items, ord, at, n, i, j);
        }
        assert forall|i: int, j: int|
            0 <= i && j == i + 1 && j < n && items[#[trigger] now[i]].score
                == items[#[trigger] now[j]].score && (items[now[i]].modified is None
                || items[now[j]].modified is None) implies now[i] < now[j] by {
            lemma_pair(items, ord, at, n, i, j);
        }
    }
}

/// One pair of places after the item that arrived last was put at `at`.
proof fn lemma_pair(
    items: Seq<ScoredCandidate>,
    ord: Seq<int>,
    at: int,
    n: int,
    i: int,
    j: int,
)
    requires
        0 < n <= items.len(),
        ord.len() == n - 1,
        forall|k: int| 0 <= k < n - 1 ==> 0 <= #[trigger] ord[k] < n - 1,
        well_ranked(items, ord, n - 1),
        0 <= at <= ord.len(),
        forall|k: int| 0 <= k < at ==> !outranks(items[n - 1], items[#[trigger] ord[k]]),
        at < ord.len() ==> outranks(items[n - 1], items[ord[at]]),
        0 <= i < j < n,
    ensures
        ({
            let now = ord.insert(at, n - 1);
            let a = items[now[i]];
            let b = items[now[j]];
            &&& a.score >= b.score
            &&& (a.score == b.score && a.modified is Some && b.modified is Some ==> {
                ||| a.modified->0 > b.modified->0
                ||| a.modified->0 == b.modified->0 && now[i] < now[j]
            })
            &&& (j == i + 1 && a.score == b.score && (a.modified is None || b.modified is None)
                ==> now[i] < now[j])
        }),
{
    let now = ord.insert(at, n - 1);
    let x = items[n - 1];
    if j == at {
        assert(now[i] == ord[i] && now[j] == n - 1);
        assert(!outranks(x, items[ord[i]]));
    } else if i == at {
        assert(now[i] == n - 1 && now[j] == ord[j - 1]);
        assert(outranks(x, items[ord[at]]));
        if j - 1 > at {
            assert(items[ord[at]].score >= items[ord[j - 1]].score);
        }
    } else if j < at {
        assert(now[i] == ord[i] && now[j] == ord[j]);
    } else if i > at {
        assert(now[i] == ord[i - 1] && now[j] == ord[j - 1]);
    } else {
        assert(now[i] == ord[i] && now[j] == ord[j - 1]);
        assert(i < j - 1);
    }
}

/// Each new arrival is put into the presentation of those before it, which
/// keep their order.
pub proof fn lemma_ranked_step(items: Seq<ScoredCandidate>, n: int)
    requires
        0 < n <= items.len(),
    ensures
        ranked(items, n) == ranked(items, n - 1).insert(
            place_of(items, ranking(items, n - 1), items[n - 1], 0),
            items[n - 1],
        ),
        0 <= place_of(items, ranking(items, n - 1), items[n - 1], 0) <= n - 1,
        ranked(items, n - 1).len() == n - 1,
{
    lemma_ranking_is_well_ranked(items, n - 1);
    lemma_ranking_is_well_ranked(items, n);
    let ord = ranking(items, n - 1);
    lemma_place_of(items, ord, items[n - 1], 0);
    let at = place_of(items, ord, items[n - 1], 0);
    let now = ord.insert(at, n - 1);
    assert(now == ranking(items, n));
    let grown = ranked(items, n - 1).insert(at, items[n - 1]);
    assert forall|k: int| 0 <= k < n implies ranked(items, n)[k] == grown[k] by {
        if k < at {
            assert(now[k] == ord[k]);
        } else if k > at {
            assert(now[k] == ord[k - 1]);
        }
    }
    assert(ranked(items, n) =~= grown);
}

/// Ranking keeps every item: the presentation has the length of what went
/// in and holds the same items, each as often.
pub proof fn lemma_ranked_keeps_all(items: Seq<ScoredCandidate>, n: int)
    requires
        0 <= n <= items.len(),
    ensures
        ranked(items, n).len() == n,
        ranked(items, n).to_multiset() == items.subrange(0, n).to_multiset(),
    decreases n,
{
    if n > 0 {
        lemma_ranked_keeps_all(items, n - 1);
        lemma_ranked_step(items, n);
        let at = place_of(items, ranking(items, n - 1), items[n - 1], 0);
        vstd::seq_lib::to_multiset_insert(ranked(items, n - 1), at, items[n - 1]);
        assert(items.subrange(0, n) =~= items.subrange(0, n - 1).push(items[n - 1]));
        vstd::seq_lib::to_multiset_build(items.subrange(0, n - 1), items[n - 1]);
    } else {
        assert(ranked(items, 0) =~= Seq::<ScoredCandidate>::empty());
        assert(items.subrange(0, 0) =~= Seq::<ScoredCandidate>::empty());
    }
}

fn beats(a: &ScoredCandidate, b: &ScoredCandidate) -> (r: bool)
    ensures
        r == outranks(*a, *b),
{
    if a.score != b.score {
        return a.score > b.score;
    }
    match (a.modified, b.modified) {
        (Some(x), Some(y)) => x > y,
        _ => false,
    }
}

/// Orders scored candidates for presentation and keeps at most
/// `max_results` of them. Higher scores come first. Among equal scores,
/// files with a known modification time stand later-first; a file without
/// one stays where it arrived among them, behind everything of its score
/// that came before it.
pub fn rank(items: Vec<ScoredCandidate>, max_results: Option<usize>) -> (out: Vec<ScoredCandidate>)
    ensures
        out@ == cut(ranked(items@, items@.len() as int), max_results),
        max_results is Some ==> out@.len() <= max_results->0,
        out@.len() <= items@.len(),
        max_results is None ==> out@.to_multiset() == items@.to_multiset(),
        forall|k: int|
            0 <= k < out@.len() ==> #[trigger] out@[k] == items@[ranking(
                items@,
                items@.len() as int,
            )[k]],
        well_ranked(items@, ranking(items@, items@.len() as int), out@.len() as int),
{
    let mut out: Vec<ScoredCandidate> = Vec::new();
    let mut i: usize = 0;
    assert(ranked(items@, 0) =~= Seq::<ScoredCandidate>::empty());
    while i < items.len()
        invariant
            i <= items.len(),
            out@ == ranked(items@, i as int),
            out@.len() == i,
        decreases items.len() - i,
    {
        let x = ScoredCandidate {
            path: items[i].path.clone(),
            score: items[i].score,
            modified: items[i].modified,
        };
        assert(x == items@[i as int]);
        let ghost ord = ranking(items@, i as int);
        let mut at: usize = 0;
        while at < out.len() && !beats(&x, &out[at])
            invariant
                at <= out@.len(),
                out@ == ranked(items@, i as int),
                ord == ranking(items@, i as int),
                ord.len() == out@.len(),
                place_of(items@, ord, x, 0) == place_of(items@, ord, x, at as int),
            decreases out@.len() - at,
        {
            at += 1;
        }
        proof {
            lemma_ranked_step(items@, i + 1);
        }
        out.insert(at, x);
        i += 1;
    }
    proof {
        lemma_ranking_is_well_ranked(items@, items@.len() as int);
        lemma_ranked_keeps_all(items@, items@.len() as int);
        assert(items@.subrange(0, items@.len() as int) =~= items@);
    }
    match max_results {
        Some(n) => {
            if n < out.len() {
                out.truncate(n);
            }
        },
        None => {},
    }
    out
}

/// The text that a path is scored by: its file name, or all of it.
pub open spec fn scored_text(path: Seq<char>, by_name: bool) -> Seq<char> {
    if by_name {
        file_name(path)
    } else {
        path
    }
}

/// The score of an arrival: against the term where there is one, else 0.
pub open spec fn arrival_score(term: Option<Seq<char>>, path: Seq<char>, by_name: bool) -> int {
    match term {
        Some(t) => score_of(t, scored_text(path, by_name), by_name),
        None => 0,
    }
}

/// Whether an arrival is a match: for the term where there is one, and
/// always where there is none.
pub open spec fn arrival_matches(term: Option<Seq<char>>, path: Seq<char>, by_name: bool) -> bool {
    match term {
        Some(t) => relevant_to(t, scored_text(path, by_name), by_name),
        None => true,
    }
}

/// The arrivals among `arrivals[..n]` that match the term, each with its
/// score, in the order of arrival.
pub open spec fn matches(
    term: Option<Seq<char>>,
    arrivals: Seq<Arrival>,
    by_name: bool,
    n: int,
) -> Seq<ScoredCandidate>
    decreases n,
{
    if n <= 0 {
        Seq::empty()
    } else {
        let before = matches(term, arrivals, by_name, n - 1);
        let a = arrivals[n - 1];
        if arrival_matches(term, a.path@, by_name) {
            before.push(
                ScoredCandidate {
                    path: a.path,
                    score: arrival_score(term, a.path@, by_name) as u32,
                    modified: a.modified,
                },
            )
        } else {
            before
        }
    }
}

/// All the arrivals that match the term.
pub open spec fn all_matches(
    term: Option<Seq<char>>,
    arrivals: Seq<Arrival>,
    by_name: bool,
) -> Seq<ScoredCandidate> {
    matches(term, arrivals, by_name, arrivals.len() as int)
}

/// Scores one arrival against an optional term and says whether it is a
/// match.
pub fn assess_arrival(term: &Option<String>, path: &str, by_name: bool) -> (r: (u32, bool))
    ensures
        r.0 == arrival_score(option_view(*term), path@, by_name),
        r.1 == arrival_matches(option_view(*term), path@, by_name),
{
    match term {
        Some(t) => {
            if by_name {
                let v = chars_of(path);
                let last = crate::filter::name_of(&v);
                let name = string_of(&last, 0, last.len());
                assert(name@ =~= file_name(path@));
                assess(t.as_str(), name.as_str(), true)
            } else {
                assess(t.as_str(), path, false)
            }
        },
        None => (0, true),
    }
}

/// Scores one arrival against an optional term.
pub fn score_arrival(term: &Option<String>, path: &str, by_name: bool) -> (s: u32)
    ensures
        s == arrival_score(option_view(*term), path@, by_name),
{
    assess_arrival(term, path, by_name).0
}

/// The buffered selection over a drained stream: every arrival is scored,
/// those that do not match the term are dropped, and the rest is ranked and
/// cut to `max_results`. Without a term everything matches with score 0, so
/// that only recency and the order of arrival decide.
pub fn shortlist(
    arrivals: &Vec<Arrival>,
    term: &Option<String>,
    by_name: bool,
    max_results: Option<usize>,
) -> (out: Vec<ScoredCandidate>)
    ensures
        ({
            let kept = all_matches(option_view(*term), arrivals@, by_name);
            &&& out@ == cut(ranked(kept, kept.len() as int), max_results)
            &&& out@.len() <= kept.len() <= arrivals@.len()
            &&& forall|k: int|
                0 <= k < out@.len() ==> #[trigger] out@[k] == kept[ranking(
                    kept,
                    kept.len() as int,
                )[k]]
            &&& well_ranked(kept, ranking(kept, kept.len() as int), out@.len() as int)
        }),
        max_results is Some ==> out@.len() <= max_results->0,
{
    let mut kept: Vec<ScoredCandidate> = Vec::new();
    let mut i: usize = 0;
    while i < arrivals.len()
        invariant
            i <= arrivals.len(),
            kept@ == matches(option_view(*term), arrivals@, by_name, i as int),
            kept@.len() <= i,
        decreases arrivals.len() - i,
    {
        let (s, hit) = assess_arrival(term, arrivals[i].path.as_str(), by_name);
        if hit {
            kept.push(
                ScoredCandidate {
                    path: arrivals[i].path.clone(),
                    score: s,
                    modified: arrivals[i].modified,
                },
            );
        }
        i += 1;
    }
    rank(kept, max_results)
}

} // verus!
