use vstd::prelude::*;
use crate::spdx::ranking::is_top_by;
use crate::spdx::ranking::is_top_ranked;
use crate::spdx::ranking::lemma_ranking_covers;
use crate::spdx::ranking::lemma_ranking_descends;
use crate::spdx::ranking::lemma_top_ranked_unique;
use crate::spdx::ranking::rank;
use crate::spdx::ranking::scored;
use crate::spdx::ranking::RankData;
use crate::spdx::ranking::SimilarityRank;
use crate::spdx::similarity::folded_score;
use crate::spdx::similarity::similarity;
use crate::text::lowercase;
use crate::text::same_ignoring_case;
use crate::text::same_text;

verus! {

/// One entry of the license list.
#[derive(Debug, PartialEq)]
pub struct License {
    pub reference: String,
    pub is_deprecated_license_id: bool,
    pub details_url: String,
    pub reference_number: u32,
    pub name: String,
    pub license_id: String,
    pub see_also: Vec<String>,
    pub is_osi_approved: bool,
    pub is_fsf_libre: Option<bool>,
}

/// What a `License` holds, as mathematical values.
pub struct LicenseData {
    pub reference: Seq<char>,
    pub is_deprecated_license_id: bool,
    pub details_url: Seq<char>,
    pub reference_number: u32,
    pub name: Seq<char>,
    pub license_id: Seq<char>,
    pub see_also: Seq<Seq<char>>,
    pub is_osi_approved: bool,
    pub is_fsf_libre: Option<bool>,
}

impl View for License {
    type V = LicenseData;

    open spec fn view(&self) -> LicenseData {
        LicenseData {
            reference: self.reference@,
            is_deprecated_license_id: self.is_deprecated_license_id,
            details_url: self.details_url@,
            reference_number: self.reference_number,
            name: self.name@,
            license_id: self.license_id@,
            see_also: self.see_also@.map_values(|s: String| s@),
            is_osi_approved: self.is_osi_approved,
            is_fsf_libre: self.is_fsf_libre,
        }
    }
}

impl Clone for License {
    fn clone(&self) -> (copy: Self)
        ensures
            copy@ == self@,
    {
        let see_also = self.see_also.clone();
        assert(see_also@ =~= self.see_also@);
        License {
            reference: self.reference.clone(),
            is_deprecated_license_id: self.is_deprecated_license_id,
            details_url: self.details_url.clone(),
            reference_number: self.reference_number,
            name: self.name.clone(),
            license_id: self.license_id.clone(),
            see_also,
            is_osi_approved: self.is_osi_approved,
            is_fsf_libre: self.is_fsf_libre,
        }
    }
}

/// A snapshot of the license list: its records in feed order, and the
/// version and date of the list.
#[derive(Debug, PartialEq)]
pub struct Licenses {
    pub license_list_version: String,
    pub licenses: Vec<License>,
    pub release_date: String,
}

/// What a `Licenses` holds, as mathematical values.
pub struct LicensesData {
    pub license_list_version: Seq<char>,
    pub licenses: Seq<LicenseData>,
    pub release_date: Seq<char>,
}

impl View for Licenses {
    type V = LicensesData;

    open spec fn view(&self) -> LicensesData {
        LicensesData {
            license_list_version: self.license_list_version@,
            licenses: records(self.licenses@),
            release_date: self.release_date@,
        }
    }
}

impl Clone for Licenses {
    fn clone(&self) -> (copy: Self)
        ensures
            copy@ == self@,
    {
        let mut licenses: Vec<License> = Vec::new();
        let mut i: usize = 0;
        while i < self.licenses.len()
            invariant
                i <= self.licenses.len(),
                licenses.len() == i,
                forall|k: int| 0 <= k < i ==> licenses[k]@ == self.licenses[k]@,
            decreases self.licenses.len() - i,
        {
            licenses.push(self.licenses[i].clone());
            i += 1;
        }
        assert(records(licenses@) =~= records(self.licenses@));
        Licenses {
            license_list_version: self.license_list_version.clone(),
            licenses,
            release_date: self.release_date.clone(),
        }
    }
}

/// Whether `i` is the first position of `keys` that holds `key`.
pub open spec fn is_first_at(keys: Seq<Seq<char>>, key: Seq<char>, i: int) -> bool {
    &&& 0 <= i < keys.len()
    &&& keys[i] == key
    &&& forall|j: int| 0 <= j < i ==> keys[j] != key
}

/// The first position of `keys` that holds `key`, if there is one.
pub open spec fn first_position(keys: Seq<Seq<char>>, key: Seq<char>) -> Option<int> {
    if exists|i: int| is_first_at(keys, key, i) {
        Some(choose|i: int| is_first_at(keys, key, i))
    } else {
        None
    }
}

/// A key is found at the first position that holds it, and nowhere else.
pub proof fn lemma_first_position_found(keys: Seq<Seq<char>>, key: Seq<char>, i: int)
    requires
        is_first_at(keys, key, i),
    ensures
        first_position(keys, key) == Some(i),
{
    let k = choose|k: int| is_first_at(keys, key, k);
    assert(k == i) by {
        if k < i {
        } else if i < k {
        }
    }
}

/// A key that no position holds is not found.
pub proof fn lemma_first_position_none(keys: Seq<Seq<char>>, key: Seq<char>)
    requires
        !keys.contains(key),
    ensures
        first_position(keys, key) is None,
{
}

/// Below every position that holds the key lies the first one that does.
proof fn lemma_first_at_exists(keys: Seq<Seq<char>>, key: Seq<char>, i: int)
    requires
        0 <= i < keys.len(),
        keys[i] == key,
    ensures
        exists|k: int| is_first_at(keys, key, k),
    decreases i,
{
    if exists|j: int| 0 <= j < i && keys[j] == key {
        let j = choose|j: int| 0 <= j < i && keys[j] == key;
        lemma_first_at_exists(keys, key, j);
    } else {
        assert(is_first_at(keys, key, i));
    }
}

/// What `first_position` finds: the first position that holds the key, or
/// nothing where no position holds it.
pub proof fn lemma_first_position(keys: Seq<Seq<char>>, key: Seq<char>)
    ensures
        match first_position(keys, key) {
            Some(i) => is_first_at(keys, key, i),
            None => !keys.contains(key),
        },
{
    if keys.contains(key) {
        let i = choose|i: int| 0 <= i < keys.len() && keys[i] == key;
        lemma_first_at_exists(keys, key, i);
    }
}

/// A key is found exactly where some position holds it.
pub proof fn lemma_found_iff_contained(keys: Seq<Seq<char>>, key: Seq<char>)
    ensures
        first_position(keys, key) is Some <==> keys.contains(key),
{
    lemma_first_position(keys, key);
}

impl Licenses {
    /// The identifiers of the records, in feed order.
    pub open spec fn ids(&self) -> Seq<Seq<char>> {
        self.licenses@.map_values(|l: License| l.license_id@)
    }

    /// The lowercase forms of the identifiers, in feed order.
    pub open spec fn folded_ids(&self) -> Seq<Seq<char>> {
        self.licenses@.map_values(|l: License| lowercase(l.license_id@))
    }

    /// Whether no two records have the same identifier up to letter case.
    pub open spec fn has_distinct_ids(&self) -> bool {
        forall|i: int, j: int|
            0 <= i < j < self.licenses.len() ==> !same_ignoring_case(
                self.licenses[i].license_id@,
                self.licenses[j].license_id@,
            )
    }

    /// The position of the first record whose identifier is exactly `id`.
    fn position(&self, id: &str) -> (found: Option<usize>)
        ensures
            match found {
                Some(i) => first_position(self.ids(), id@) == Some(i as int),
                None => first_position(self.ids(), id@) is None,
            },
    {
        let mut i: usize = 0;
        while i < self.licenses.len()
            invariant
                i <= self.licenses.len(),
                forall|j: int| 0 <= j < i ==> self.ids()[j] != id@,
            decreases self.licenses.len() - i,
        {
            if same_text(self.licenses[i].license_id.as_str(), id) {
                proof {
                    lemma_first_position_found(self.ids(), id@, i as int);
                }
                return Some(i);
            }
            i += 1;
        }
        proof {
            lemma_first_position_none(self.ids(), id@);
        }
        None
    }

    /// The position of the first record whose identifier is `id` up to
    /// letter case.
    fn position_ignoring_case(&self, id: &str) -> (found: Option<usize>)
        ensures
            match found {
                Some(i) => first_position(self.folded_ids(), lowercase(id@)) == Some(i as int),
                None => first_position(self.folded_ids(), lowercase(id@)) is None,
            },
    {
        let wanted = id.to_lowercase();
        let mut i: usize = 0;
        while i < self.licenses.len()
            invariant
                i <= self.licenses.len(),
                wanted@ == lowercase(id@),
                forall|j: int| 0 <= j < i ==> self.folded_ids()[j] != lowercase(id@),
            decreases self.licenses.len() - i,
        {
            if self.licenses[i].license_id.as_str().to_lowercase() == wanted {
                proof {
                    lemma_first_position_found(self.folded_ids(), lowercase(id@), i as int);
                }
                return Some(i);
            }
            i += 1;
        }
        proof {
            lemma_first_position_none(self.folded_ids(), lowercase(id@));
        }
        None
    }

    /// Whether some record has exactly the identifier `id`.
    pub fn contains(&self, id: &str) -> (found: bool)
        ensures
            found == self.ids().contains(id@),
    {
        proof {
            lemma_first_position(self.ids(), id@);
        }
        self.position(id).is_some()
    }

    /// Whether some record has the identifier `id` up to letter case.
    pub fn contains_case_insensitive(&self, id: &str) -> (found: bool)
        ensures
            found == self.folded_ids().contains(lowercase(id@)),
    {
        proof {
            lemma_first_position(self.folded_ids(), lowercase(id@));
        }
        self.position_ignoring_case(id).is_some()
    }

    /// The first record, in feed order, whose identifier is exactly `id`.
    pub fn get_license(&self, id: &str) -> (found: Option<&License>)
        ensures
            found == match first_position(self.ids(), id@) {
                Some(i) => Some(&self.licenses[i]),
                None => None,
            },
    {
        match self.position(id) {
            Some(i) => Some(&self.licenses[i]),
            None => None,
        }
    }

    /// The first record, in feed order, whose identifier is `id` up to letter
    /// case.
    pub fn get_license_case_insensitive(&self, id: &str) -> (found: Option<&License>)
        ensures
            found == match first_position(self.folded_ids(), lowercase(id@)) {
                Some(i) => Some(&self.licenses[i]),
                None => None,
            },
    {
        match self.position_ignoring_case(id) {
            Some(i) => Some(&self.licenses[i]),
            None => None,
        }
    }

    /// Every record with its score for `query`, in feed order.
    pub open spec fn scored_for(&self, query: Seq<char>) -> Seq<RankData> {
        self.licenses@.map_values(
            |l: License| RankData { score: similarity(l.license_id@, query), license: l@ },
        )
    }

    /// Whether `similar` holds the records most similar to `query`, the most
    /// similar first: as many as `limit` allows, or all where the list has
    /// fewer.
    pub open spec fn is_similar(&self, query: Seq<char>, limit: nat, similar: Seq<LicenseData>) -> bool {
        is_top_ranked(similar, self.scored_for(query), limit)
    }

    /// Scores every record of the list against `id`.
    pub fn score_all(&self, id: &str) -> (candidates: Vec<SimilarityRank<'_>>)
        ensures
            candidates.len() == self.licenses.len(),
            forall|i: int|
                0 <= i < candidates.len() ==> candidates[i].license == &self.licenses[i],
            scored(candidates@) == self.scored_for(id@),
    {
        let query = id.to_lowercase();
        let mut candidates: Vec<SimilarityRank<'_>> = Vec::new();
        let mut i: usize = 0;
        while i < self.licenses.len()
            invariant
                i <= self.licenses.len(),
                query@ == lowercase(id@),
                candidates.len() == i,
                forall|k: int|
                    0 <= k < i ==> candidates[k].license == &self.licenses[k] && candidates[k].score
                        == similarity(self.licenses[k].license_id@, id@),
            decreases self.licenses.len() - i,
        {
            let license = &self.licenses[i];
            let folded = license.license_id.as_str().to_lowercase();
            candidates.push(
                SimilarityRank { score: folded_score(folded.as_str(), query.as_str()), license },
            );
            i += 1;
        }
        assert(scored(candidates@) =~= self.scored_for(id@));
        candidates
    }

    /// The records whose identifiers are most similar to `id`, the most
    /// similar first: `num` of them, or all where the list has fewer. Records
    /// with the same score come in the lexicographic order of their
    /// identifiers, and records with the same identifier in feed order.
    pub fn similar_licenses(&self, id: &str, num: usize) -> (similar: Vec<License>)
        ensures
            self.is_similar(id@, num as nat, records(similar@)),
            similar.len() == if num < self.licenses.len() { num } else { self.licenses.len() },
            forall|a: int, b: int|
                0 <= a <= b < similar.len() ==> similarity(similar[a].license_id@, id@)
                    >= similarity(similar[b].license_id@, id@),
    {
        let candidates = self.score_all(id);
        let similar = rank(&candidates, num);
        proof {
            lemma_similar_descends(*self, id@, num as nat, records(similar@));
            assert forall|a: int, b: int| 0 <= a <= b < similar.len() implies similarity(
                similar[a].license_id@,
                id@,
            ) >= similarity(similar[b].license_id@, id@) by {
                assert(records(similar@)[a] == similar[a]@);
                assert(records(similar@)[b] == similar[b]@);
            }
        }
        similar
    }

    /// Resolves `id`: the record that has this identifier up to letter case,
    /// or, where there is none, the records most similar to it.
    pub fn resolve(&self, id: &str) -> (resolution: Resolution<'_>)
        ensures
            match first_position(self.folded_ids(), lowercase(id@)) {
                Some(i) => resolution == Resolution::Found(&self.licenses[i]),
                None => resolution matches Resolution::NotFound(suggestions) && self.is_similar(
                    id@,
                    SUGGESTIONS as nat,
                    records(suggestions@),
                ) && suggestions.len() == if SUGGESTIONS < self.licenses.len() {
                    SUGGESTIONS
                } else {
                    self.licenses.len()
                },
            },
    {
        match self.get_license_case_insensitive(id) {
            Some(license) => Resolution::Found(license),
            None => Resolution::NotFound(self.similar_licenses(id, SUGGESTIONS)),
        }
    }
}

/// How many suggestions an unknown identifier is answered with.
pub const SUGGESTIONS: usize = 5;

/// What an identifier resolves to.
#[derive(Debug, PartialEq)]
pub enum Resolution<'a> {
    /// The record with this identifier, up to letter case.
    Found(&'a License),
    /// No record has it; these are the most similar ones, the best first.
    NotFound(Vec<License>),
}

/// The records of a vector, each by its view.
pub open spec fn records(licenses: Seq<License>) -> Seq<LicenseData> {
    licenses.map_values(|l: License| l@)
}

/// A lookup by the identifier of a record, in any letter case, finds a
/// record equal to it, provided that every earlier record with the same
/// identifier up to case is equal to it.
pub proof fn lemma_lookup_finds_equal_record(list: Licenses, i: int, id: Seq<char>)
    requires
        0 <= i < list.licenses.len(),
        same_ignoring_case(id, list.licenses[i].license_id@),
        forall|j: int|
            0 <= j < i && same_ignoring_case(list.licenses[j].license_id@, id)
                ==> list.licenses[j]@ == list.licenses[i]@,
    ensures
        first_position(list.folded_ids(), lowercase(id)) matches Some(k) && 0 <= k <= i
            && list.licenses[k]@ == list.licenses[i]@,
{
    let keys = list.folded_ids();
    assert(keys[i] == lowercase(id));
    assert(keys.contains(lowercase(id)));
    lemma_first_position(keys, lowercase(id));
    let k = first_position(keys, lowercase(id))->0;
    assert(keys[k] == lowercase(list.licenses[k].license_id@));
}

/// In a list of distinct identifiers, a lookup by the identifier of a
/// record, in any letter case, finds that very record.
pub proof fn lemma_lookup_finds_record(list: Licenses, i: int, id: Seq<char>)
    requires
        list.has_distinct_ids(),
        0 <= i < list.licenses.len(),
        same_ignoring_case(id, list.licenses[i].license_id@),
    ensures
        first_position(list.folded_ids(), lowercase(id)) == Some(i),
{
    let keys = list.folded_ids();
    assert forall|j: int| 0 <= j < i implies keys[j] != lowercase(id) by {
        assert(!same_ignoring_case(list.licenses[j].license_id@, list.licenses[i].license_id@));
    }
    assert(keys[i] == lowercase(id));
    lemma_first_position_found(keys, lowercase(id), i);
}

/// A lookup by an identifier that no record has, in any letter case, finds
/// nothing.
pub proof fn lemma_lookup_misses(list: Licenses, id: Seq<char>)
    requires
        forall|i: int|
            0 <= i < list.licenses.len() ==> !same_ignoring_case(list.licenses[i].license_id@, id),
    ensures
        first_position(list.folded_ids(), lowercase(id)) is None,
{
    let keys = list.folded_ids();
    assert forall|i: int| 0 <= i < keys.len() implies keys[i] != lowercase(id) by {
        assert(!same_ignoring_case(list.licenses[i].license_id@, id));
    }
    lemma_first_position_none(keys, lowercase(id));
}

/// The most similar records are as many as the limit allows, or all where
/// the list has fewer.
pub proof fn lemma_similar_bound(list: Licenses, id: Seq<char>, limit: nat, similar: Seq<LicenseData>)
    requires
        list.is_similar(id, limit, similar),
    ensures
        similar.len() == if limit < list.licenses.len() { limit } else { list.licenses.len() as nat },
{
}

/// Among the most similar records the scores do not rise from one position
/// to the next.
pub proof fn lemma_similar_descends(list: Licenses, id: Seq<char>, limit: nat, similar: Seq<LicenseData>)
    requires
        list.is_similar(id, limit, similar),
    ensures
        forall|a: int, b: int|
            0 <= a <= b < similar.len() ==> similarity(similar[a].license_id, id) >= similarity(
                similar[b].license_id,
                id,
            ),
{
    let c = list.scored_for(id);
    let order = choose|order: Seq<int>| is_top_by(similar, c, limit, order);
    lemma_ranking_descends(order, c);
    assert forall|a: int, b: int| 0 <= a <= b < similar.len() implies similarity(
        similar[a].license_id,
        id,
    ) >= similarity(similar[b].license_id, id) by {
        assert(similar[a] == c[order[a]].license);
        assert(similar[b] == c[order[b]].license);
    }
}

/// No record of the list is more similar to the query than the first of the
/// most similar records.
pub proof fn lemma_similar_starts_with_best(
    list: Licenses,
    id: Seq<char>,
    limit: nat,
    similar: Seq<LicenseData>,
    i: int,
)
    requires
        list.is_similar(id, limit, similar),
        similar.len() > 0,
        0 <= i < list.licenses.len(),
    ensures
        similarity(similar[0].license_id, id) >= similarity(list.licenses[i].license_id@, id),
{
    let c = list.scored_for(id);
    let order = choose|order: Seq<int>| is_top_by(similar, c, limit, order);
    lemma_ranking_covers(order, c, i);
    let k = choose|k: int| 0 <= k < order.len() && order[k] == i;
    lemma_ranking_descends(order, c);
    assert(similar[0] == c[order[0]].license);
    assert(c[order[0]].score >= c[order[k]].score);
}

/// One list, one query and one limit have one answer.
pub proof fn lemma_similar_deterministic(
    list: Licenses,
    id: Seq<char>,
    limit: nat,
    first: Seq<LicenseData>,
    second: Seq<LicenseData>,
)
    requires
        list.is_similar(id, limit, first),
        list.is_similar(id, limit, second),
    ensures
        first == second,
{
    lemma_top_ranked_unique(first, second, list.scored_for(id), limit);
}

} // verus!
