use vstd::prelude::*;
use vstd::set_lib::lemma_int_range;
use vstd::set_lib::lemma_subset_equality;
use vstd::set_lib::set_int_range;
use crate::spdx::list::License;
use crate::spdx::list::records;
use crate::spdx::list::LicenseData;
use crate::text::lemma_lex_less_irreflexive;
use crate::text::lemma_lex_less_total;
use crate::text::lemma_lex_less_transitive;
use crate::text::lex_less;
use crate::text::precedes;

verus! {

/// A record of the list paired with its score for one query. The score is
/// the bit pattern of a double in the unit interval, so that a larger
/// pattern is a larger score.
#[derive(Clone, Copy, Debug)]
pub struct SimilarityRank<'a> {
    pub score: u64,
    pub license: &'a License,
}

/// What a `SimilarityRank` holds, as mathematical values.
pub struct RankData {
    pub score: u64,
    pub license: LicenseData,
}

impl<'a> View for SimilarityRank<'a> {
    type V = RankData;

    open spec fn view(&self) -> RankData {
        RankData { score: self.score, license: self.license@ }
    }
}

/// The candidates of a vector, each by its view.
pub open spec fn scored<'a>(candidates: Seq<SimilarityRank<'a>>) -> Seq<RankData> {
    candidates.map_values(|c: SimilarityRank<'a>| c@)
}

/// Whether candidate `i` is ranked before candidate `j`: by the higher
/// score; among equal scores by the identifier that comes first in
/// lexicographic order; among equal identifiers by the earlier position.
pub open spec fn outranks(c: Seq<RankData>, i: int, j: int) -> bool {
    ||| c[i].score > c[j].score
    ||| c[i].score == c[j].score && lex_less(c[i].license.license_id, c[j].license.license_id)
    ||| c[i].score == c[j].score && c[i].license.license_id == c[j].license.license_id && i < j
}

/// Whether `order` lists the positions of all candidates from the best to
/// the worst.
pub open spec fn is_ranking(order: Seq<int>, c: Seq<RankData>) -> bool {
    &&& order.len() == c.len()
    &&& forall|k: int| 0 <= k < order.len() ==> 0 <= #[trigger] order[k] < c.len()
    &&& forall|a: int, b: int| 0 <= a < b < order.len() ==> outranks(c, order[a], order[b])
}

/// Whether `top` holds the records at the first positions of `order`, a
/// ranking of the candidates: as many as `limit` allows, or all of them
/// where there are fewer.
pub open spec fn is_top_by(top: Seq<LicenseData>, c: Seq<RankData>, limit: nat, order: Seq<int>) -> bool {
    &&& is_ranking(order, c)
    &&& top.len() == if limit < c.len() { limit } else { c.len() }
    &&& forall|k: int| 0 <= k < top.len() ==> top[k] == c[#[trigger] order[k]].license
}

/// Whether `top` holds the best candidates, the best first: as many as
/// `limit` allows, or all of them where there are fewer.
pub open spec fn is_top_ranked(top: Seq<LicenseData>, c: Seq<RankData>, limit: nat) -> bool {
    exists|order: Seq<int>| is_top_by(top, c, limit, order)
}

/// No candidate is ranked before itself.
pub proof fn lemma_outranks_irreflexive(c: Seq<RankData>, i: int)
    ensures
        !outranks(c, i, i),
{
    lemma_lex_less_irreflexive(c[i].license.license_id);
}

/// Of two candidates at different positions one is ranked before the other.
pub proof fn lemma_outranks_total(c: Seq<RankData>, i: int, j: int)
    requires
        i != j,
    ensures
        outranks(c, i, j) || outranks(c, j, i),
{
    if c[i].license.license_id != c[j].license.license_id {
        lemma_lex_less_total(c[i].license.license_id, c[j].license.license_id);
    }
}

/// The ranking order is transitive.
pub proof fn lemma_outranks_transitive(c: Seq<RankData>, i: int, j: int, k: int)
    requires
        outranks(c, i, j),
        outranks(c, j, k),
    ensures
        outranks(c, i, k),
{
    let (x, y, z) = (c[i].license.license_id, c[j].license.license_id, c[k].license.license_id);
    if c[i].score == c[j].score && c[j].score == c[k].score {
        if lex_less(x, y) && lex_less(y, z) {
            lemma_lex_less_transitive(x, y, z);
        }
    }
}

/// No two candidates are ranked before each other.
pub proof fn lemma_outranks_asymmetric(c: Seq<RankData>, i: int, j: int)
    requires
        outranks(c, i, j),
    ensures
        !outranks(c, j, i),
{
    if outranks(c, j, i) {
        lemma_outranks_transitive(c, i, j, i);
        lemma_outranks_irreflexive(c, i);
    }
}

/// A ranking lists every candidate.
pub proof fn lemma_ranking_covers(order: Seq<int>, c: Seq<RankData>, i: int)
    requires
        is_ranking(order, c),
        0 <= i < c.len(),
    ensures
        exists|k: int| 0 <= k < order.len() && order[k] == i,
{
    assert(order.no_duplicates()) by {
        assert forall|a: int, b: int|
            0 <= a < order.len() && 0 <= b < order.len() && a != b implies order[a] != order[b] by {
            lemma_outranks_irreflexive(c, order[a]);
            if a < b {
                assert(outranks(c, order[a], order[b]));
            } else {
                assert(outranks(c, order[b], order[a]));
            }
        }
    }
    let all = set_int_range(0, c.len() as int);
    order.unique_seq_to_set();
    vstd::seq_lib::seq_to_set_is_finite(order);
    lemma_int_range(0, c.len() as int);
    assert(order.to_set().subset_of(all)) by {
        assert forall|x: int| order.to_set().contains(x) implies all.contains(x) by {
            let k = choose|k: int| 0 <= k < order.len() && order[k] == x;
            assert(0 <= order[k] < c.len());
        }
    }
    lemma_subset_equality(order.to_set(), all);
    assert(all.contains(i));
    assert(order.to_set().contains(i));
}

/// The candidates have one ranking only.
pub proof fn lemma_ranking_unique(first: Seq<int>, second: Seq<int>, c: Seq<RankData>)
    requires
        is_ranking(first, c),
        is_ranking(second, c),
    ensures
        first == second,
{
    assert forall|k: int| 0 <= k < first.len() implies first[k] == second[k] by {
        lemma_rankings_agree(first, second, c, k);
    }
    assert(first =~= second);
}

/// Two rankings of the same candidates agree at every position.
proof fn lemma_rankings_agree(first: Seq<int>, second: Seq<int>, c: Seq<RankData>, k: int)
    requires
        is_ranking(first, c),
        is_ranking(second, c),
        0 <= k < first.len(),
    ensures
        first[k] == second[k],
    decreases k,
{
    assert forall|m: int| 0 <= m < k implies first[m] == second[m] by {
        lemma_rankings_agree(first, second, c, m);
    }
    let x = first[k];
    let y = second[k];
    if x != y {
        lemma_ranking_covers(second, c, x);
        let p = choose|p: int| 0 <= p < second.len() && second[p] == x;
        lemma_ranking_covers(first, c, y);
        let q = choose|q: int| 0 <= q < first.len() && first[q] == y;
        lemma_outranks_irreflexive(c, x);
        lemma_outranks_irreflexive(c, y);
        if p < k {
            assert(outranks(c, first[p], first[k]));
        }
        if q < k {
            assert(outranks(c, second[q], second[k]));
        }
        assert(outranks(c, second[k], second[p]));
        assert(outranks(c, first[k], first[q]));
        lemma_outranks_asymmetric(c, x, y);
    }
}

/// The best candidates are determined by the candidates and the limit.
pub proof fn lemma_top_ranked_unique(
    first: Seq<LicenseData>,
    second: Seq<LicenseData>,
    c: Seq<RankData>,
    limit: nat,
)
    requires
        is_top_ranked(first, c, limit),
        is_top_ranked(second, c, limit),
    ensures
        first == second,
{
    let o1 = choose|order: Seq<int>| is_top_by(first, c, limit, order);
    let o2 = choose|order: Seq<int>| is_top_by(second, c, limit, order);
    lemma_ranking_unique(o1, o2, c);
    assert forall|k: int| 0 <= k < first.len() implies first[k] == second[k] by {
        assert(first[k] == c[o1[k]].license);
        assert(second[k] == c[o2[k]].license);
    }
    assert(first =~= second);
}

/// Along a ranking the scores do not rise from one position to the next.
pub proof fn lemma_ranking_descends(order: Seq<int>, c: Seq<RankData>)
    requires
        is_ranking(order, c),
    ensures
        forall|a: int, b: int|
            0 <= a <= b < order.len() ==> c[order[a]].score >= c[order[b]].score,
{
    assert forall|a: int, b: int| 0 <= a <= b < order.len() implies c[order[a]].score
        >= c[order[b]].score by {
        if a < b {
            assert(outranks(c, order[a], order[b]));
        }
    }
}

/// Whether the candidate at position `i` is ranked before the one at `j`.
fn ranked_before(candidates: &Vec<SimilarityRank>, i: usize, j: usize) -> (before: bool)
    requires
        i < candidates.len(),
        j < candidates.len(),
    ensures
        before == outranks(scored(candidates@), i as int, j as int),
{
    let a = &candidates[i];
    let b = &candidates[j];
    let ghost x = a.license.license_id@;
    let ghost y = b.license.license_id@;
    if a.score != b.score {
        a.score > b.score
    } else if precedes(a.license.license_id.as_str(), b.license.license_id.as_str()) {
        true
    } else if precedes(b.license.license_id.as_str(), a.license.license_id.as_str()) {
        proof {
            lemma_lex_less_irreflexive(x);
        }
        false
    } else {
        proof {
            if x != y {
                lemma_lex_less_total(x, y);
            }
            lemma_lex_less_irreflexive(x);
        }
        i < j
    }
}

/// The positions of an order, as mathematical integers.
pub open spec fn positions(order: Seq<usize>) -> Seq<int> {
    order.map_values(|i: usize| i as int)
}

/// Ranks the candidates: the result lists their positions from the best to
/// the worst.
pub fn ranking_order(candidates: &Vec<SimilarityRank>) -> (order: Vec<usize>)
    ensures
        is_ranking(positions(order@), scored(candidates@)),
{
    let n = candidates.len();
    let ghost c = scored(candidates@);
    let mut order: Vec<usize> = Vec::new();
    let mut i: usize = 0;
    while i < n
        invariant
            i <= n,
            order.len() == i,
            forall|k: int| 0 <= k < i ==> order[k] == k,
        decreases n - i,
    {
        order.push(i);
        i += 1;
    }
    i = 0;
    while i < n
        invariant
            n == candidates.len(),
            c == scored(candidates@),
            i <= n,
            order.len() == n,
            forall|k: int| i <= k < n ==> order[k] == k,
            forall|k: int| 0 <= k < i ==> order[k] < i,
            forall|a: int, b: int|
                0 <= a < b < i ==> outranks(c, order[a] as int, order[b] as int),
        decreases n - i,
    {
        let mut j: usize = i;
        while j > 0 && ranked_before(candidates, i, order[j - 1])
            invariant
                n == candidates.len(),
                c == scored(candidates@),
                j <= i < n,
                order.len() == n,
                order[j as int] == i,
                forall|k: int| i < k < n ==> order[k] == k,
                forall|k: int| 0 <= k <= i && k != j ==> order[k] < i,
                forall|a: int, b: int|
                    0 <= a < b <= i && a != j && b != j ==> outranks(
                        c,
                        order[a] as int,
                        order[b] as int,
                    ),
                forall|b: int| j < b <= i ==> outranks(c, i as int, order[b] as int),
            decreases j,
        {
            let earlier = order[j - 1];
            order.set(j, earlier);
            order.set(j - 1, i);
            j -= 1;
        }
        proof {
            assert forall|a: int, b: int| 0 <= a < b < i + 1 implies outranks(
                c,
                order[a] as int,
                order[b] as int,
            ) by {
                if b == j {
                    let last = order[j - 1] as int;
                    lemma_outranks_total(c, i as int, last);
                    if a < j - 1 {
                        lemma_outranks_transitive(c, order[a] as int, last, i as int);
                    }
                }
            }
        }
        i += 1;
    }
    proof {
        let ranks = positions(order@);
        assert forall|a: int, b: int| 0 <= a < b < ranks.len() implies outranks(
            c,
            ranks[a],
            ranks[b],
        ) by {
            assert(outranks(c, order[a] as int, order[b] as int));
        }
    }
    order
}

/// The best of the candidates, as copies of their records: as many as
/// `limit` allows, or all of them where there are fewer, from the best to
/// the worst.
pub fn rank(candidates: &Vec<SimilarityRank>, limit: usize) -> (top: Vec<License>)
    ensures
        is_top_ranked(records(top@), scored(candidates@), limit as nat),
        top.len() == if limit < candidates.len() { limit } else { candidates.len() },
{
    let order = ranking_order(candidates);
    let count = if limit < candidates.len() { limit } else { candidates.len() };
    let ghost c = scored(candidates@);
    let ghost ranks = positions(order@);
    let mut top: Vec<License> = Vec::new();
    let mut k: usize = 0;
    while k < count
        invariant
            k <= count <= candidates.len(),
            c == scored(candidates@),
            ranks == positions(order@),
            is_ranking(ranks, c),
            top.len() == k,
            forall|m: int| 0 <= m < k ==> top[m]@ == c[ranks[m]].license,
        decreases count - k,
    {
        assert(0 <= ranks[k as int] < c.len());
        let best = candidates[order[k]].license.clone();
        top.push(best);
        k += 1;
    }
    proof {
        let views = records(top@);
        assert forall|m: int| 0 <= m < views.len() implies views[m] == c[#[trigger] ranks[m]].license by {
            assert(views[m] == top[m]@);
        }
        assert(is_top_by(views, c, limit as nat, ranks));
    }
    top
}

} // verus!
