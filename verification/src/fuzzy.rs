//! Fuzzy ranking of workspace names against a query, scored by the skim
//! algorithm of the `fuzzy-matcher` crate.

use fuzzy_matcher::skim::SkimMatcherV2;
use fuzzy_matcher::FuzzyMatcher;
use vstd::prelude::*;
use crate::text::lower_char;

verus! {

/// The score and matched character positions that `SkimMatcherV2::default()`
/// gives for `choice` against `pattern`, or `None` when it does not match.
pub uninterp spec fn skim_indices(choice: Seq<char>, pattern: Seq<char>) -> Option<(i64, Seq<usize>)>;

/// Smart case: the match is case-sensitive exactly when the pattern holds an
/// ASCII upper-case letter.
pub open spec fn smart_case(pattern: Seq<char>) -> bool {
    exists|i: int| 0 <= i < pattern.len() && 'A' <= #[trigger] pattern[i] <= 'Z'
}

/// Character equality, ignoring ASCII case unless `case_sensitive`.
pub open spec fn char_equal(a: char, b: char, case_sensitive: bool) -> bool {
    if case_sensitive {
        a == b
    } else {
        lower_char(a) == lower_char(b)
    }
}

/// `pattern` occurs in `choice` as a (not necessarily contiguous) subsequence.
pub open spec fn is_subsequence(choice: Seq<char>, pattern: Seq<char>, case_sensitive: bool) -> bool
    decreases choice.len(),
{
    if pattern.len() == 0 {
        true
    } else if choice.len() == 0 {
        false
    } else if char_equal(choice[0], pattern[0], case_sensitive) {
        is_subsequence(choice.drop_first(), pattern.drop_first(), case_sensitive)
    } else {
        is_subsequence(choice.drop_first(), pattern, case_sensitive)
    }
}

/// `SkimMatcherV2::default().fuzzy_indices(choice, pattern)` (fuzzy-matcher 0.3.7).
/// Claimed: the result is the named `skim_indices` of the two strings, and it is
/// `Some` exactly when the pattern is empty or is a subsequence of the choice
/// under smart case (the crate's `cheap_matches` pre-check, after which the
/// scoring always yields a result). The score and positions are not stated.
#[verifier::external_body]
fn skim_fuzzy_indices(choice: &str, pattern: &str) -> (r: Option<(i64, Vec<usize>)>)
    ensures
        match r {
            Some((score, positions)) => skim_indices(choice@, pattern@) == Some((score, positions@)),
            None => skim_indices(choice@, pattern@) is None,
        },
        r is Some <==> (pattern@.len() == 0 || is_subsequence(
            choice@,
            pattern@,
            smart_case(pattern@),
        )),
{
    SkimMatcherV2::default().fuzzy_indices(choice, pattern)
}

/// One ranked candidate: its index in the candidate list, its score and the
/// positions of the matched characters.
#[derive(Debug, PartialEq, Eq)]
pub struct Match {
    pub index: usize,
    pub score: i64,
    pub positions: Vec<usize>,
}

impl View for Match {
    type V = (usize, i64, Seq<usize>);

    open spec fn view(&self) -> (usize, i64, Seq<usize>) {
        (self.index, self.score, self.positions@)
    }
}

/// Display order: higher score first, ties broken by lower index.
pub open spec fn ranks_before(a: (usize, i64, Seq<usize>), b: (usize, i64, Seq<usize>)) -> bool {
    a.1 > b.1 || (a.1 == b.1 && a.0 < b.0)
}

/// Every element ranks strictly before every later element.
pub open spec fn strictly_ranked(r: Seq<(usize, i64, Seq<usize>)>) -> bool {
    forall|k: int, l: int| 0 <= k < l < r.len() ==> ranks_before(#[trigger] r[k], #[trigger] r[l])
}

/// `r` is the ranking of `cands` against `query`: with an empty query every
/// candidate in order with score 0 and no positions; otherwise exactly the
/// matching candidates, each with its skim score and positions, in display order.
pub open spec fn is_ranking(
    cands: Seq<Seq<char>>,
    query: Seq<char>,
    r: Seq<(usize, i64, Seq<usize>)>,
) -> bool {
    if query.len() == 0 {
        &&& r.len() == cands.len()
        &&& forall|k: int| 0 <= k < r.len() ==> #[trigger] r[k] == (k as usize, 0i64, Seq::<usize>::empty())
    } else {
        &&& forall|k: int|
            0 <= k < r.len() ==> (#[trigger] r[k]).0 < cands.len() && skim_indices(cands[r[k].0 as int], query)
                == Some((r[k].1, r[k].2))
        &&& forall|i: int|
            0 <= i < cands.len() && (#[trigger] skim_indices(cands[i], query)) is Some ==> exists|k: int|
                0 <= k < r.len() && r[k].0 == i
        &&& strictly_ranked(r)
    }
}

/// The ranking of `cands` against `query` (there is exactly one; see `rank`).
pub open spec fn ranking(cands: Seq<Seq<char>>, query: Seq<char>) -> Seq<(usize, i64, Seq<usize>)> {
    choose|r: Seq<(usize, i64, Seq<usize>)>| is_ranking(cands, query, r)
}

/// The views of a vector of strings.
pub open spec fn strings_view(v: Seq<String>) -> Seq<Seq<char>> {
    Seq::new(v.len(), |i: int| v[i]@)
}

/// The views of a vector of matches.
pub open spec fn matches_view(v: Seq<Match>) -> Seq<(usize, i64, Seq<usize>)> {
    Seq::new(v.len(), |i: int| v[i]@)
}

/// Two strictly ranked sequences with the same elements are equal.
pub proof fn lemma_ranked_unique(r1: Seq<(usize, i64, Seq<usize>)>, r2: Seq<(usize, i64, Seq<usize>)>)
    requires
        strictly_ranked(r1),
        strictly_ranked(r2),
        forall|x: (usize, i64, Seq<usize>)| r1.contains(x) <==> r2.contains(x),
    ensures
        r1 == r2,
    decreases r1.len() + r2.len(),
{
    if r1.len() == 0 {
        if r2.len() > 0 {
            assert(r2.contains(r2[0]));
        }
        assert(r1 =~= r2);
    } else if r2.len() == 0 {
        assert(r1.contains(r1[0]));
    } else {
        assert(r1.contains(r1[0]));
        assert(r2.contains(r2[0]));
        let k2 = choose|k: int| 0 <= k < r2.len() && r2[k] == r1[0];
        let k1 = choose|k: int| 0 <= k < r1.len() && r1[k] == r2[0];
        if k1 != 0 {
            assert(ranks_before(r1[0], r1[k1]));
            if k2 != 0 {
                assert(ranks_before(r2[0], r2[k2]));
            }
            assert(false);
        }
        let t1 = r1.drop_first();
        let t2 = r2.drop_first();
        assert forall|x: (usize, i64, Seq<usize>)| t1.contains(x) <==> t2.contains(x) by {
            if t1.contains(x) {
                let k = choose|k: int| 0 <= k < t1.len() && t1[k] == x;
                assert(r1[k + 1] == x);
                assert(ranks_before(r1[0], r1[k + 1]));
                assert(r2.contains(x));
                let l = choose|l: int| 0 <= l < r2.len() && r2[l] == x;
                assert(l != 0);
                assert(t2[l - 1] == x);
            }
            if t2.contains(x) {
                let k = choose|k: int| 0 <= k < t2.len() && t2[k] == x;
                assert(r2[k + 1] == x);
                assert(ranks_before(r2[0], r2[k + 1]));
                assert(r1.contains(x));
                let l = choose|l: int| 0 <= l < r1.len() && r1[l] == x;
                assert(l != 0);
                assert(t1[l - 1] == x);
            }
        }
        assert forall|k: int, l: int| 0 <= k < l < t1.len() implies ranks_before(
            #[trigger] t1[k],
            #[trigger] t1[l],
        ) by {
            assert(t1[k] == r1[k + 1] && t1[l] == r1[l + 1]);
        }
        assert forall|k: int, l: int| 0 <= k < l < t2.len() implies ranks_before(
            #[trigger] t2[k],
            #[trigger] t2[l],
        ) by {
            assert(t2[k] == r2[k + 1] && t2[l] == r2[l + 1]);
        }
        lemma_ranked_unique(t1, t2);
        assert(r1.len() == r2.len());
        assert forall|k: int| 0 <= k < r1.len() implies r1[k] == r2[k] by {
            if k > 0 {
                assert(r1[k] == t1[k - 1]);
                assert(r2[k] == t2[k - 1]);
            }
        }
        assert(r1 =~= r2);
    }
}

/// There is at most one ranking: whatever satisfies `is_ranking` is `ranking`.
pub proof fn lemma_ranking_unique(cands: Seq<Seq<char>>, query: Seq<char>, r: Seq<(usize, i64, Seq<usize>)>)
    requires
        is_ranking(cands, query, r),
    ensures
        ranking(cands, query) == r,
{
    let r2 = ranking(cands, query);
    assert(is_ranking(cands, query, r2));
    if query.len() == 0 {
        assert(r =~= r2);
    } else {
        assert forall|x: (usize, i64, Seq<usize>)| r.contains(x) <==> r2.contains(x) by {
            if r.contains(x) {
                let k = choose|k: int| 0 <= k < r.len() && r[k] == x;
                let i = x.0 as int;
                assert(skim_indices(cands[i], query) is Some);
                let l = choose|l: int| 0 <= l < r2.len() && r2[l].0 == i;
                assert(r2[l] == x);
            }
            if r2.contains(x) {
                let k = choose|k: int| 0 <= k < r2.len() && r2[k] == x;
                let i = x.0 as int;
                assert(skim_indices(cands[i], query) is Some);
                let l = choose|l: int| 0 <= l < r.len() && r[l].0 == i;
                assert(r[l] == x);
            }
        }
        lemma_ranked_unique(r, r2);
    }
}

/// Rank `candidates` against `query`. An empty query keeps every candidate in
/// order (score 0, no positions); otherwise only the candidates the skim matcher
/// accepts remain, by descending score, ties broken by ascending index.
pub fn rank(candidates: &[String], query: &str) -> (r: Vec<Match>)
    ensures
        is_ranking(strings_view(candidates@), query@, matches_view(r@)),
        matches_view(r@) == ranking(strings_view(candidates@), query@),
        query@.len() > 0 ==> forall|k: int|
            0 <= k < r@.len() ==> is_subsequence(
                candidates@[#[trigger] r@[k].index as int]@,
                query@,
                smart_case(query@),
            ),
        query@.len() > 0 ==> forall|i: int|
            0 <= i < candidates@.len() && is_subsequence(
                #[trigger] candidates@[i]@,
                query@,
                smart_case(query@),
            ) ==> exists|k: int| 0 <= k < r@.len() && r@[k].index == i,
{
    let ghost cands = strings_view(candidates@);
    let mut out: Vec<Match> = Vec::new();
    if query.is_empty() {
        let mut i: usize = 0;
        while i < candidates.len()
            invariant
                i <= candidates@.len(),
                query@.len() == 0,
                out@.len() == i,
                forall|k: int| 0 <= k < i ==> #[trigger] out@[k]@ == (k as usize, 0i64, Seq::<usize>::empty()),
            decreases candidates.len() - i,
        {
            out.push(Match { index: i, score: 0, positions: Vec::new() });
            i = i + 1;
        }
        proof {
            assert(is_ranking(cands, query@, matches_view(out@)));
            lemma_ranking_unique(cands, query@, matches_view(out@));
        }
        return out;
    }
    let mut i: usize = 0;
    while i < candidates.len()
        invariant
            i <= candidates@.len(),
            cands == strings_view(candidates@),
            query@.len() > 0,
            forall|k: int|
                0 <= k < out@.len() ==> (#[trigger] out@[k]).index < i && skim_indices(
                    cands[out@[k].index as int],
                    query@,
                ) == Some((out@[k].score, out@[k].positions@)),
            forall|j: int|
                0 <= j < i && (#[trigger] skim_indices(cands[j], query@)) is Some ==> exists|k: int|
                    0 <= k < out@.len() && out@[k].index == j,
            strictly_ranked(matches_view(out@)),
            forall|k: int|
                0 <= k < out@.len() ==> is_subsequence(
                    candidates@[#[trigger] out@[k].index as int]@,
                    query@,
                    smart_case(query@),
                ),
            forall|j: int|
                0 <= j < i && is_subsequence(#[trigger] candidates@[j]@, query@, smart_case(query@))
                    ==> exists|k: int| 0 <= k < out@.len() && out@[k].index == j,
        decreases candidates.len() - i,
    {
        let found = skim_fuzzy_indices(candidates[i].as_str(), query);
        match found {
            Some((score, positions)) => {
                let m = Match { index: i, score, positions };
                let mut at: usize = 0;
                while at < out.len() && (out[at].score > score || (out[at].score == score
                    && out[at].index < i))
                    invariant
                        at <= out@.len(),
                        forall|k: int| 0 <= k < at ==> ranks_before(#[trigger] out@[k]@, (i, score, m.positions@)),
                    decreases out.len() - at,
                {
                    at = at + 1;
                }
                let ghost before = out@;
                proof {
                    assert forall|k: int| at <= k < before.len() implies ranks_before(
                        (i, score, m.positions@),
                        #[trigger] before[k]@,
                    ) by {
                        if k > at {
                            assert(ranks_before(before[at as int]@, before[k]@)) by {
                                assert(matches_view(before)[at as int] == before[at as int]@);
                                assert(matches_view(before)[k] == before[k]@);
                            }
                        }
                    }
                }
                out.insert(at, m);
                proof {
                    assert forall|k: int, l: int| 0 <= k < l < out@.len() implies ranks_before(
                        #[trigger] matches_view(out@)[k],
                        #[trigger] matches_view(out@)[l],
                    ) by {
                        let mv = matches_view(before);
                        if l < at {
                            assert(ranks_before(mv[k], mv[l]));
                        } else if l == at {
                        } else if k < at {
                            assert(ranks_before(before[k]@, (i, score, out@[at as int].positions@)));
                        } else if k == at {
                        } else {
                            assert(ranks_before(mv[k - 1], mv[l - 1]));
                        }
                    }
                    assert forall|j: int|
                        0 <= j < i + 1 && is_subsequence(#[trigger] candidates@[j]@, query@, smart_case(query@))
                        implies exists|k: int| 0 <= k < out@.len() && out@[k].index == j by {
                        if j == i {
                            assert(out@[at as int].index == j);
                        } else {
                            let k = choose|k: int| 0 <= k < before.len() && before[k].index == j;
                            if k < at {
                                assert(out@[k].index == j);
                            } else {
                                assert(out@[k + 1].index == j);
                            }
                        }
                    }
                    assert forall|j: int|
                        0 <= j < i + 1 && (#[trigger] skim_indices(cands[j], query@)) is Some implies exists|k: int|
                        0 <= k < out@.len() && out@[k].index == j by {
                        if j == i {
                            assert(out@[at as int].index == j);
                        } else {
                            let k = choose|k: int| 0 <= k < before.len() && before[k].index == j;
                            if k < at {
                                assert(out@[k].index == j);
                            } else {
                                assert(out@[k + 1].index == j);
                            }
                        }
                    }
                }
            },
            None => {},
        }
        i = i + 1;
    }
    proof {
        let mv = matches_view(out@);
        assert forall|k: int|
            0 <= k < mv.len() implies (#[trigger] mv[k]).0 < cands.len() && skim_indices(
            cands[mv[k].0 as int],
            query@,
        ) == Some((mv[k].1, mv[k].2)) by {
            assert(mv[k] == out@[k]@);
        }
        assert forall|j: int|
            0 <= j < cands.len() && (#[trigger] skim_indices(cands[j], query@)) is Some implies exists|k: int|
            0 <= k < mv.len() && mv[k].0 == j by {
            let k = choose|k: int| 0 <= k < out@.len() && out@[k].index == j;
            assert(mv[k].0 == j);
        }
        assert(is_ranking(cands, query@, mv));
        lemma_ranking_unique(cands, query@, mv);
    }
    out
}

/// A subsequence of `choice` without its first character is one of `choice`.
proof fn lemma_sub_extend(ch: Seq<char>, x: Seq<char>, cs: bool)
    requires
        ch.len() > 0,
        is_subsequence(ch.drop_first(), x, cs),
    ensures
        is_subsequence(ch, x, cs),
    decreases ch.len(), 0int,
{
    if x.len() > 0 && char_equal(ch[0], x[0], cs) {
        lemma_sub_drop_pattern(ch.drop_first(), x, cs);
    }
}

/// A pattern without its first character still occurs.
proof fn lemma_sub_drop_pattern(ch: Seq<char>, p: Seq<char>, cs: bool)
    requires
        p.len() > 0,
        is_subsequence(ch, p, cs),
    ensures
        is_subsequence(ch, p.drop_first(), cs),
    decreases ch.len(), 1int,
{
    if ch.len() > 0 {
        if char_equal(ch[0], p[0], cs) {
            lemma_sub_extend(ch, p.drop_first(), cs);
        } else {
            lemma_sub_drop_pattern(ch.drop_first(), p, cs);
            lemma_sub_extend(ch, p.drop_first(), cs);
        }
    }
}

/// A pattern without its last character still occurs.
proof fn lemma_sub_prefix(ch: Seq<char>, p: Seq<char>, c: char, cs: bool)
    requires
        is_subsequence(ch, p.push(c), cs),
    ensures
        is_subsequence(ch, p, cs),
    decreases ch.len(),
{
    if p.len() > 0 && ch.len() > 0 {
        assert(p.push(c)[0] == p[0]);
        if char_equal(ch[0], p[0], cs) {
            assert(p.push(c).drop_first() =~= p.drop_first().push(c));
            lemma_sub_prefix(ch.drop_first(), p.drop_first(), c, cs);
        } else {
            lemma_sub_prefix(ch.drop_first(), p, c, cs);
        }
    }
}

/// A case-sensitive occurrence is also one that ignores case.
proof fn lemma_sub_ignore_case(ch: Seq<char>, p: Seq<char>)
    requires
        is_subsequence(ch, p, true),
    ensures
        is_subsequence(ch, p, false),
    decreases ch.len(),
{
    if p.len() > 0 && ch.len() > 0 {
        if char_equal(ch[0], p[0], false) {
            if ch[0] == p[0] {
                lemma_sub_ignore_case(ch.drop_first(), p.drop_first());
            } else {
                lemma_sub_drop_pattern(ch.drop_first(), p, true);
                lemma_sub_ignore_case(ch.drop_first(), p.drop_first());
            }
        } else {
            lemma_sub_ignore_case(ch.drop_first(), p);
        }
    }
}

/// Typing one more character into a query never brings a name into view: a
/// name the longer query matches (as `rank` matches: a smart-case subsequence)
/// was matched by the shorter query too.
pub proof fn law_longer_query_matches_fewer(choice: Seq<char>, q: Seq<char>, c: char)
    requires
        is_subsequence(choice, q.push(c), smart_case(q.push(c))),
    ensures
        q.len() == 0 || is_subsequence(choice, q, smart_case(q)),
{
    let qc = q.push(c);
    if smart_case(q) {
        let i = choose|i: int| 0 <= i < q.len() && 'A' <= #[trigger] q[i] <= 'Z';
        assert(qc[i] == q[i]);
        assert(smart_case(qc));
        lemma_sub_prefix(choice, q, c, true);
    } else if smart_case(qc) {
        lemma_sub_prefix(choice, q, c, true);
        lemma_sub_ignore_case(choice, q);
    } else {
        lemma_sub_prefix(choice, q, c, false);
    }
}

} // verus!
