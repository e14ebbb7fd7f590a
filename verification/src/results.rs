//! Search results, and the decoding of a response into them.
use vstd::prelude::*;
use vstd::string::StringExecFns;

use crate::errors::{classified, ClientError, ErrorView};
use crate::json::{
    items_view, lemma_list_view, lemma_member_named_is_member, lemma_object_view, member_named,
    members_view, parse, parsed_json, well_keyed, Json, JsonValue, Member,
};
use crate::text::{decimal_value, parse_decimal, same_text};

verus! {

/// Where a match stands in the value of a field: the place of its first
/// character and its length.
#[derive(Debug, Clone, Copy, PartialEq, Eq, Structural)]
pub struct MatchRange {
    pub start: usize,
    pub length: usize,
}

/// One document that a search found.
#[derive(Debug, PartialEq)]
pub struct SearchResult<T> {
    /// The document.
    pub result: T,
    /// The document with its values cropped and highlighted as the query
    /// asked, where it asked.
    pub formatted_result: Option<T>,
    /// The places of the matches in each field, by the field's name, where
    /// the query asked for them. The fields stand in the order of the
    /// response.
    pub matches_info: Option<Vec<(String, Vec<MatchRange>)>>,
}

/// What a search returned.
#[derive(Debug, PartialEq)]
pub struct SearchResults<T> {
    /// The documents that were found.
    pub hits: Vec<SearchResult<T>>,
    /// The number of documents that were skipped.
    pub offset: usize,
    /// The largest number of documents that was asked for.
    pub limit: usize,
    /// The number of documents that match.
    pub nb_hits: usize,
    /// Whether `nb_hits` is exact.
    pub exhaustive_nb_hits: bool,
    /// For each facet that was asked for, by its name, the number of
    /// matching documents for each of its values, by the value. Facets and
    /// values stand in the order of the response.
    pub facets_distribution: Option<Vec<(String, Vec<(String, usize)>)>>,
    /// Whether the counts in `facets_distribution` are exact.
    pub exhaustive_facets_count: Option<bool>,
    /// The time that the search took, in milliseconds.
    pub processing_time_ms: usize,
    /// The query text that the response answers.
    pub query: String,
}

/// What one hit of a response says.
pub struct HitModel {
    pub result: Json,
    pub formatted_result: Option<Json>,
    pub matches_info: Option<Seq<(Seq<char>, Seq<MatchRange>)>>,
}

/// What a response says.
pub struct ResultsModel {
    pub hits: Seq<HitModel>,
    pub offset: usize,
    pub limit: usize,
    pub nb_hits: usize,
    pub exhaustive_nb_hits: bool,
    pub facets_distribution: Option<Seq<(Seq<char>, Seq<(Seq<char>, usize)>)>>,
    pub exhaustive_facets_count: Option<bool>,
    pub processing_time_ms: usize,
    pub query: Seq<char>,
}

/// The number that a document writes, where it is a number in decimal
/// notation that fits in `usize`.
pub open spec fn count_of(json: Json) -> Option<usize> {
    match json {
        Json::Number(digits) => match decimal_value(digits) {
            Some(n) => if n <= usize::MAX {
                Some(n as usize)
            } else {
                None
            },
            None => None,
        },
        _ => None,
    }
}

/// The flag that a document writes, where it is `true` or `false`.
pub open spec fn flag_of(json: Json) -> Option<bool> {
    match json {
        Json::Bool(flag) => Some(flag),
        _ => None,
    }
}

/// The text that a document writes, where it is a string.
pub open spec fn string_of(json: Json) -> Option<Seq<char>> {
    match json {
        Json::Text(text) => Some(text),
        _ => None,
    }
}

/// The place of a match that a document writes, where it is an object
/// with a number under `start` and one under `length`.
pub open spec fn range_of(json: Json) -> Option<MatchRange> {
    match json {
        Json::Object(members) => match member_named(members, "start"@) {
            Some(start) => match member_named(members, "length"@) {
                Some(length) => match (count_of(start), count_of(length)) {
                    (Some(start), Some(length)) => Some(MatchRange { start, length }),
                    _ => None,
                },
                None => None,
            },
            None => None,
        },
        _ => None,
    }
}

/// The places of matches that a document writes, where it is a list of
/// them.
pub open spec fn ranges_of(json: Json) -> Option<Seq<MatchRange>> {
    match json {
        Json::List(items) => if forall|i: int|
            0 <= i < items.len() ==> range_of(#[trigger] items[i]) is Some {
            Some(Seq::new(items.len(), |i: int| range_of(items[i])->0))
        } else {
            None
        },
        _ => None,
    }
}

/// The places of the matches in one field, under the field's name.
pub open spec fn span_of(member: Member) -> Option<(Seq<char>, Seq<MatchRange>)> {
    match ranges_of(member.value) {
        Some(ranges) => Some((member.name, ranges)),
        None => None,
    }
}

/// The places of the matches by field that a document writes, where it is
/// an object with a list of places under each name.
pub open spec fn spans_of(json: Json) -> Option<Seq<(Seq<char>, Seq<MatchRange>)>> {
    match json {
        Json::Object(members) => if forall|i: int|
            0 <= i < members.len() ==> span_of(#[trigger] members[i]) is Some {
            Some(Seq::new(members.len(), |i: int| span_of(members[i])->0))
        } else {
            None
        },
        _ => None,
    }
}

/// The count for one value of a facet, under the value.
pub open spec fn tally_of(member: Member) -> Option<(Seq<char>, usize)> {
    match count_of(member.value) {
        Some(count) => Some((member.name, count)),
        None => None,
    }
}

/// The counts by value that a document writes, where it is an object with
/// a number under each name.
pub open spec fn tallies_of(json: Json) -> Option<Seq<(Seq<char>, usize)>> {
    match json {
        Json::Object(members) => if forall|i: int|
            0 <= i < members.len() ==> tally_of(#[trigger] members[i]) is Some {
            Some(Seq::new(members.len(), |i: int| tally_of(members[i])->0))
        } else {
            None
        },
        _ => None,
    }
}

/// The counts by value of one facet, under the facet's name.
pub open spec fn facet_of(member: Member) -> Option<(Seq<char>, Seq<(Seq<char>, usize)>)> {
    match tallies_of(member.value) {
        Some(tallies) => Some((member.name, tallies)),
        None => None,
    }
}

/// The distribution of facets that a document writes, where it is an
/// object with counts by value under each name.
pub open spec fn facets_of(json: Json) -> Option<Seq<(Seq<char>, Seq<(Seq<char>, usize)>)>> {
    match json {
        Json::Object(members) => if forall|i: int|
            0 <= i < members.len() ==> facet_of(#[trigger] members[i]) is Some {
            Some(Seq::new(members.len(), |i: int| facet_of(members[i])->0))
        } else {
            None
        },
        _ => None,
    }
}

/// Places of matches by field, with each name as its characters.
pub open spec fn spans_view(spans: Seq<(String, Vec<MatchRange>)>) -> Seq<
    (Seq<char>, Seq<MatchRange>),
> {
    Seq::new(spans.len(), |i: int| (spans[i].0@, spans[i].1@))
}

/// Counts by value, with each value as its characters.
pub open spec fn tallies_view(tallies: Seq<(String, usize)>) -> Seq<(Seq<char>, usize)> {
    Seq::new(tallies.len(), |i: int| (tallies[i].0@, tallies[i].1))
}

/// A distribution of facets, with each name and value as its characters.
pub open spec fn facets_view(facets: Seq<(String, Vec<(String, usize)>)>) -> Seq<
    (Seq<char>, Seq<(Seq<char>, usize)>),
> {
    Seq::new(facets.len(), |i: int| (facets[i].0@, tallies_view(facets[i].1@)))
}

/// Reads a number.
pub fn read_count(value: &JsonValue) -> (count: Option<usize>)
    ensures
        count == count_of(value@),
{
    match value {
        JsonValue::Number(digits) => parse_decimal(digits.as_str()),
        _ => None,
    }
}

/// Reads a flag.
pub fn read_flag(value: &JsonValue) -> (flag: Option<bool>)
    ensures
        flag == flag_of(value@),
{
    match value {
        JsonValue::Bool(flag) => Some(*flag),
        _ => None,
    }
}

/// Reads a text.
pub fn read_string(value: &JsonValue) -> (text: Option<String>)
    ensures
        match text {
            Some(text) => string_of(value@) == Some(text@),
            None => string_of(value@) is None,
        },
{
    match value {
        JsonValue::Text(text) => Some(text.clone()),
        _ => None,
    }
}

/// Reads the place of a match.
pub fn read_range(value: &JsonValue) -> (range: Option<MatchRange>)
    ensures
        range == range_of(value@),
{
    let start = match value.get("start") {
        Some(start) => start,
        None => {
            return None;
        },
    };
    let length = match value.get("length") {
        Some(length) => length,
        None => {
            return None;
        },
    };
    match (read_count(start), read_count(length)) {
        (Some(start), Some(length)) => Some(MatchRange { start, length }),
        _ => None,
    }
}

/// Reads a list of places of matches.
pub fn read_ranges(value: &JsonValue) -> (ranges: Option<Vec<MatchRange>>)
    ensures
        match ranges {
            Some(ranges) => ranges_of(value@) == Some(ranges@),
            None => ranges_of(value@) is None,
        },
{
    match value {
        JsonValue::List(items) => {
            let ghost models = items_view(items@);
            proof {
                lemma_list_view(*items);
            }
            let mut ranges: Vec<MatchRange> = Vec::new();
            let mut i: usize = 0;
            while i < items.len()
                invariant
                    i <= items.len(),
                    value@ == Json::List(models),
                    models == items_view(items@),
                    ranges.len() == i,
                    forall|k: int| 0 <= k < i ==> range_of(#[trigger] models[k]) == Some(ranges[k]),
                decreases items.len() - i,
            {
                match read_range(&items[i]) {
                    Some(range) => {
                        ranges.push(range);
                    },
                    None => {
                        assert(range_of(models[i as int]) is None);
                        return None;
                    },
                }
                i += 1;
            }
            assert(ranges_of(value@)->0 =~= ranges@);
            Some(ranges)
        },
        _ => None,
    }
}

/// Reads the places of the matches by field.
pub fn read_spans(value: &JsonValue) -> (spans: Option<Vec<(String, Vec<MatchRange>)>>)
    ensures
        match spans {
            Some(spans) => spans_of(value@) == Some(spans_view(spans@)),
            None => spans_of(value@) is None,
        },
{
    match value {
        JsonValue::Object(members) => {
            let ghost models = members_view(members@);
            proof {
                lemma_object_view(*members);
            }
            let mut spans: Vec<(String, Vec<MatchRange>)> = Vec::new();
            let mut i: usize = 0;
            while i < members.len()
                invariant
                    i <= members.len(),
                    value@ == Json::Object(models),
                    models == members_view(members@),
                    spans.len() == i,
                    forall|k: int|
                        0 <= k < i ==> span_of(#[trigger] models[k]) == Some(
                            (spans[k].0@, spans[k].1@),
                        ),
                decreases members.len() - i,
            {
                match read_ranges(&members[i].1) {
                    Some(ranges) => {
                        spans.push((members[i].0.clone(), ranges));
                    },
                    None => {
                        assert(span_of(models[i as int]) is None);
                        return None;
                    },
                }
                i += 1;
            }
            assert(spans_of(value@)->0 =~= spans_view(spans@));
            Some(spans)
        },
        _ => None,
    }
}

/// Reads the counts of a facet by value.
pub fn read_tallies(value: &JsonValue) -> (tallies: Option<Vec<(String, usize)>>)
    ensures
        match tallies {
            Some(tallies) => tallies_of(value@) == Some(tallies_view(tallies@)),
            None => tallies_of(value@) is None,
        },
{
    match value {
        JsonValue::Object(members) => {
            let ghost models = members_view(members@);
            proof {
                lemma_object_view(*members);
            }
            let mut tallies: Vec<(String, usize)> = Vec::new();
            let mut i: usize = 0;
            while i < members.len()
                invariant
                    i <= members.len(),
                    value@ == Json::Object(models),
                    models == members_view(members@),
                    tallies.len() == i,
                    forall|k: int|
                        0 <= k < i ==> tally_of(#[trigger] models[k]) == Some(
                            (tallies[k].0@, tallies[k].1),
                        ),
                decreases members.len() - i,
            {
                match read_count(&members[i].1) {
                    Some(count) => {
                        tallies.push((members[i].0.clone(), count));
                    },
                    None => {
                        assert(tally_of(models[i as int]) is None);
                        return None;
                    },
                }
                i += 1;
            }
            assert(tallies_of(value@)->0 =~= tallies_view(tallies@));
            Some(tallies)
        },
        _ => None,
    }
}

/// Reads a distribution of facets.
pub fn read_facets(value: &JsonValue) -> (facets: Option<Vec<(String, Vec<(String, usize)>)>>)
    ensures
        match facets {
            Some(facets) => facets_of(value@) == Some(facets_view(facets@)),
            None => facets_of(value@) is None,
        },
{
    match value {
        JsonValue::Object(members) => {
            let ghost models = members_view(members@);
            proof {
                lemma_object_view(*members);
            }
            let mut facets: Vec<(String, Vec<(String, usize)>)> = Vec::new();
            let mut i: usize = 0;
            while i < members.len()
                invariant
                    i <= members.len(),
                    value@ == Json::Object(models),
                    models == members_view(members@),
                    facets.len() == i,
                    forall|k: int|
                        0 <= k < i ==> facet_of(#[trigger] models[k]) == Some(
                            (facets[k].0@, tallies_view(facets[k].1@)),
                        ),
                decreases members.len() - i,
            {
                match read_tallies(&members[i].1) {
                    Some(tallies) => {
                        facets.push((members[i].0.clone(), tallies));
                    },
                    None => {
                        assert(facet_of(models[i as int]) is None);
                        return None;
                    },
                }
                i += 1;
            }
            assert(facets_of(value@)->0 =~= facets_view(facets@));
            Some(facets)
        },
        _ => None,
    }
}

/// Whether a member of a hit is one of the two that stand beside the
/// document: the formatted document and the places of the matches.
pub open spec fn beside_document(name: Seq<char>) -> bool {
    name == "_formatted"@ || name == "_matchesInfo"@
}

/// The members of a hit that make up the document: all but the two that
/// stand beside it, in their order.
pub open spec fn document_members(members: Seq<Member>) -> Seq<Member>
    decreases members.len(),
{
    if members.len() == 0 {
        Seq::empty()
    } else if beside_document(members.last().name) {
        document_members(members.drop_last())
    } else {
        document_members(members.drop_last()).push(members.last())
    }
}

/// An optional member as it counts: one that is `null` counts as one that
/// is not there.
pub open spec fn present(found: Option<Json>) -> Option<Json> {
    match found {
        Some(Json::Null) => None,
        Some(json) => Some(json),
        None => None,
    }
}

/// The hit that a document writes, where it is an object whose
/// `_matchesInfo`, if it has one, can be read: the document is the object
/// without `_formatted` and `_matchesInfo`.
pub open spec fn hit_of(json: Json) -> Option<HitModel> {
    match json {
        Json::Object(members) => match present(member_named(members, "_matchesInfo"@)) {
            Some(info) => match spans_of(info) {
                Some(spans) => Some(
                    HitModel {
                        result: Json::Object(document_members(members)),
                        formatted_result: present(member_named(members, "_formatted"@)),
                        matches_info: Some(spans),
                    },
                ),
                None => None,
            },
            None => Some(
                HitModel {
                    result: Json::Object(document_members(members)),
                    formatted_result: present(member_named(members, "_formatted"@)),
                    matches_info: None,
                },
            ),
        },
        _ => None,
    }
}

/// The hits that a document writes, where it is a list of them.
pub open spec fn hits_of(json: Json) -> Option<Seq<HitModel>> {
    match json {
        Json::List(items) => if forall|i: int|
            0 <= i < items.len() ==> hit_of(#[trigger] items[i]) is Some {
            Some(Seq::new(items.len(), |i: int| hit_of(items[i])->0))
        } else {
            None
        },
        _ => None,
    }
}

/// What is said of a response that is no object.
pub const NOT_AN_OBJECT: &'static str = "invalid type: the response is not an object";

/// How the account of a missing member starts.
pub const MISSING_FIELD: &'static str = "missing field `";

/// How the account of a member that cannot be read starts.
pub const INVALID_FIELD: &'static str = "invalid value for field `";

/// What is said of a member that the response must have and has not.
pub open spec fn missing(name: Seq<char>) -> Seq<char> {
    MISSING_FIELD@ + name + seq!['`']
}

/// What is said of a member whose value cannot be read.
pub open spec fn invalid(name: Seq<char>) -> Seq<char> {
    INVALID_FIELD@ + name + seq!['`']
}

/// What a document says as a response, or what is wrong with it. The
/// members are looked at in the order of the fields of [`SearchResults`],
/// and the first that is missing or cannot be read decides the message.
/// A response must have `hits`, `offset`, `limit`, `nbHits`,
/// `exhaustiveNbHits`, `processingTimeMs` and `query`; it may have
/// `facetsDistribution` and `exhaustiveFacetsCount`; other members are
/// not looked at.
pub open spec fn results_of(json: Json) -> Result<ResultsModel, Seq<char>> {
    match json {
        Json::Object(members) => {
            let hits = member_named(members, "hits"@);
            let offset = member_named(members, "offset"@);
            let limit = member_named(members, "limit"@);
            let nb_hits = member_named(members, "nbHits"@);
            let exhaustive_nb_hits = member_named(members, "exhaustiveNbHits"@);
            let facets = present(member_named(members, "facetsDistribution"@));
            let exhaustive_facets = present(member_named(members, "exhaustiveFacetsCount"@));
            let time = member_named(members, "processingTimeMs"@);
            let query = member_named(members, "query"@);
            if hits is None {
                Err(missing("hits"@))
            } else if hits_of(hits->0) is None {
                Err(invalid("hits"@))
            } else if offset is None {
                Err(missing("offset"@))
            } else if count_of(offset->0) is None {
                Err(invalid("offset"@))
            } else if limit is None {
                Err(missing("limit"@))
            } else if count_of(limit->0) is None {
                Err(invalid("limit"@))
            } else if nb_hits is None {
                Err(missing("nbHits"@))
            } else if count_of(nb_hits->0) is None {
                Err(invalid("nbHits"@))
            } else if exhaustive_nb_hits is None {
                Err(missing("exhaustiveNbHits"@))
            } else if flag_of(exhaustive_nb_hits->0) is None {
                Err(invalid("exhaustiveNbHits"@))
            } else if facets is Some && facets_of(facets->0) is None {
                Err(invalid("facetsDistribution"@))
            } else if exhaustive_facets is Some && flag_of(exhaustive_facets->0) is None {
                Err(invalid("exhaustiveFacetsCount"@))
            } else if time is None {
                Err(missing("processingTimeMs"@))
            } else if count_of(time->0) is None {
                Err(invalid("processingTimeMs"@))
            } else if query is None {
                Err(missing("query"@))
            } else if string_of(query->0) is None {
                Err(invalid("query"@))
            } else {
                Ok(
                    ResultsModel {
                        hits: hits_of(hits->0)->0,
                        offset: count_of(offset->0)->0,
                        limit: count_of(limit->0)->0,
                        nb_hits: count_of(nb_hits->0)->0,
                        exhaustive_nb_hits: flag_of(exhaustive_nb_hits->0)->0,
                        facets_distribution: match facets {
                            Some(json) => facets_of(json),
                            None => None,
                        },
                        exhaustive_facets_count: match exhaustive_facets {
                            Some(json) => flag_of(json),
                            None => None,
                        },
                        processing_time_ms: count_of(time->0)->0,
                        query: string_of(query->0)->0,
                    },
                )
            }
        },
        _ => Err(NOT_AN_OBJECT@),
    }
}

/// What a hit with an undecoded document says.
pub open spec fn hit_view(hit: SearchResult<JsonValue>) -> HitModel {
    HitModel {
        result: hit.result@,
        formatted_result: match hit.formatted_result {
            Some(formatted) => Some(formatted@),
            None => None,
        },
        matches_info: match hit.matches_info {
            Some(spans) => Some(spans_view(spans@)),
            None => None,
        },
    }
}

/// What hits with undecoded documents say.
pub open spec fn hits_view(hits: Seq<SearchResult<JsonValue>>) -> Seq<HitModel> {
    Seq::new(hits.len(), |i: int| hit_view(hits[i]))
}

impl View for SearchResults<JsonValue> {
    type V = ResultsModel;

    open spec fn view(&self) -> ResultsModel {
        ResultsModel {
            hits: hits_view(self.hits@),
            offset: self.offset,
            limit: self.limit,
            nb_hits: self.nb_hits,
            exhaustive_nb_hits: self.exhaustive_nb_hits,
            facets_distribution: match self.facets_distribution {
                Some(facets) => Some(facets_view(facets@)),
                None => None,
            },
            exhaustive_facets_count: self.exhaustive_facets_count,
            processing_time_ms: self.processing_time_ms,
            query: self.query@,
        }
    }
}

/// An optional member that is there and not `null`.
fn read_present<'a>(value: &'a JsonValue, name: &str) -> (found: Option<&'a JsonValue>)
    ensures
        match found {
            Some(member) => value@ is Object && present(
                member_named(value@->Object_0, name@),
            ) == Some(member@),
            None => !(value@ is Object) || present(member_named(value@->Object_0, name@)) is None,
        },
{
    match value.get(name) {
        Some(JsonValue::Null) => None,
        Some(member) => Some(member),
        None => None,
    }
}

/// Reads one hit, leaving its document undecoded.
pub fn read_hit(value: &JsonValue) -> (hit: Option<SearchResult<JsonValue>>)
    ensures
        match hit {
            Some(hit) => hit_of(value@) == Some(hit_view(hit)),
            None => hit_of(value@) is None,
        },
{
    match value {
        JsonValue::Object(members) => {
            let ghost models = members_view(members@);
            proof {
                lemma_object_view(*members);
            }
            let matches_info = match read_present(value, "_matchesInfo") {
                Some(info) => match read_spans(info) {
                    Some(spans) => Some(spans),
                    None => {
                        return None;
                    },
                },
                None => None,
            };
            let formatted_result = match read_present(value, "_formatted") {
                Some(formatted) => Some(formatted.clone()),
                None => None,
            };
            let mut document: Vec<(String, JsonValue)> = Vec::new();
            let mut i: usize = 0;
            assert(members_view(document@) =~= document_members(models.take(0)));
            while i < members.len()
                invariant
                    i <= members.len(),
                    models == members_view(members@),
                    members_view(document@) == document_members(models.take(i as int)),
                decreases members.len() - i,
            {
                let ghost seen = models.take(i as int);
                let ghost next = models.take(i + 1);
                assert(next.drop_last() =~= seen);
                assert(next.last() == models[i as int]);
                let name = members[i].0.as_str();
                if !same_text(name, "_formatted") && !same_text(name, "_matchesInfo") {
                    document.push((members[i].0.clone(), members[i].1.clone()));
                    assert(members_view(document@) =~= document_members(seen).push(
                        models[i as int],
                    ));
                }
                i += 1;
            }
            assert(models.take(members.len() as int) =~= models);
            proof {
                lemma_object_view(document);
            }
            let result = JsonValue::Object(document);
            Some(SearchResult { result, formatted_result, matches_info })
        },
        _ => None,
    }
}

/// Reads a list of hits, leaving their documents undecoded.
pub fn read_hits(value: &JsonValue) -> (hits: Option<Vec<SearchResult<JsonValue>>>)
    ensures
        match hits {
            Some(hits) => hits_of(value@) == Some(hits_view(hits@)),
            None => hits_of(value@) is None,
        },
{
    match value {
        JsonValue::List(items) => {
            let ghost models = items_view(items@);
            proof {
                lemma_list_view(*items);
            }
            let mut hits: Vec<SearchResult<JsonValue>> = Vec::new();
            let mut i: usize = 0;
            while i < items.len()
                invariant
                    i <= items.len(),
                    value@ == Json::List(models),
                    models == items_view(items@),
                    hits.len() == i,
                    forall|k: int|
                        0 <= k < i ==> hit_of(#[trigger] models[k]) == Some(hit_view(hits[k])),
                decreases items.len() - i,
            {
                match read_hit(&items[i]) {
                    Some(hit) => {
                        hits.push(hit);
                    },
                    None => {
                        assert(hit_of(models[i as int]) is None);
                        return None;
                    },
                }
                i += 1;
            }
            assert(hits_of(value@)->0 =~= hits_view(hits@));
            Some(hits)
        },
        _ => None,
    }
}

/// No two entries stand under the same name.
pub open spec fn distinct_keys<T>(entries: Seq<(Seq<char>, T)>) -> bool {
    forall|i: int, j: int|
        0 <= i < j < entries.len() ==> (#[trigger] entries[i]).0 != (#[trigger] entries[j]).0
}

impl ResultsModel {
    /// The counts and the places of matches are maps: no facet occurs
    /// twice, no value twice in a facet, no field twice in the places of
    /// the matches of a hit.
    pub open spec fn well_formed(self) -> bool {
        &&& match self.facets_distribution {
            Some(facets) => distinct_keys(facets) && forall|i: int|
                0 <= i < facets.len() ==> distinct_keys((#[trigger] facets[i]).1),
            None => true,
        }
        &&& forall|h: int|
            0 <= h < self.hits.len() ==> match (#[trigger] self.hits[h]).matches_info {
                Some(spans) => distinct_keys(spans),
                None => true,
            }
    }
}

impl<T> SearchResults<T> {
    /// The counts and the places of matches are maps: no facet occurs
    /// twice, no value twice in a facet, no field twice in the places of
    /// the matches of a hit.
    pub open spec fn well_formed(&self) -> bool {
        &&& match self.facets_distribution {
            Some(facets) => distinct_keys(facets_view(facets@)) && forall|i: int|
                0 <= i < facets.len() ==> distinct_keys(tallies_view((#[trigger] facets[i]).1@)),
            None => true,
        }
        &&& forall|h: int|
            0 <= h < self.hits.len() ==> match (#[trigger] self.hits[h]).matches_info {
                Some(spans) => distinct_keys(spans_view(spans@)),
                None => true,
            }
    }
}

/// Places of matches that are read from an object with distinct names
/// stand under distinct names.
proof fn lemma_spans_distinct(json: Json)
    requires
        well_keyed(json),
        spans_of(json) is Some,
    ensures
        distinct_keys(spans_of(json)->0),
{
    let members = json->Object_0;
    let spans = spans_of(json)->0;
    assert forall|i: int, j: int| 0 <= i < j < spans.len() implies (#[trigger] spans[i]).0 != (
    #[trigger] spans[j]).0 by {
        assert(spans[i] == span_of(members[i])->0);
        assert(spans[j] == span_of(members[j])->0);
    }
}

/// Counts that are read from an object with distinct names stand under
/// distinct names.
proof fn lemma_tallies_distinct(json: Json)
    requires
        well_keyed(json),
        tallies_of(json) is Some,
    ensures
        distinct_keys(tallies_of(json)->0),
{
    let members = json->Object_0;
    let tallies = tallies_of(json)->0;
    assert forall|i: int, j: int| 0 <= i < j < tallies.len() implies (#[trigger] tallies[i]).0 != (
    #[trigger] tallies[j]).0 by {
        assert(tallies[i] == tally_of(members[i])->0);
        assert(tallies[j] == tally_of(members[j])->0);
    }
}

/// A distribution of facets that is read from a document whose objects
/// have distinct names has distinct facets, and distinct values in each.
proof fn lemma_facets_distinct(json: Json)
    requires
        well_keyed(json),
        facets_of(json) is Some,
    ensures
        distinct_keys(facets_of(json)->0),
        forall|i: int|
            0 <= i < facets_of(json)->0.len() ==> distinct_keys(
                (#[trigger] facets_of(json)->0[i]).1,
            ),
{
    let members = json->Object_0;
    let facets = facets_of(json)->0;
    assert forall|i: int, j: int| 0 <= i < j < facets.len() implies (#[trigger] facets[i]).0 != (
    #[trigger] facets[j]).0 by {
        assert(facets[i] == facet_of(members[i])->0);
        assert(facets[j] == facet_of(members[j])->0);
    }
    assert forall|i: int| 0 <= i < facets.len() implies distinct_keys((#[trigger] facets[i]).1) by {
        assert(facets[i] == facet_of(members[i])->0);
        assert(well_keyed(members[i].value));
        lemma_tallies_distinct(members[i].value);
    }
}

/// A response that is read from a document whose objects have distinct
/// names is well formed: what the response holds by name, it holds once.
pub proof fn lemma_results_well_formed(json: Json)
    requires
        well_keyed(json),
        results_of(json) is Ok,
    ensures
        results_of(json)->Ok_0.well_formed(),
{
    let members = json->Object_0;
    let results = results_of(json)->Ok_0;
    let facets = present(member_named(members, "facetsDistribution"@));
    if facets is Some {
        let at: int = lemma_member_named_is_member(members, "facetsDistribution"@);
        assert(well_keyed(members[at].value));
        lemma_facets_distinct(facets->0);
    }
    let at: int = lemma_member_named_is_member(members, "hits"@);
    let listed = members[at].value;
    assert(well_keyed(listed));
    let items = listed->List_0;
    let hits = hits_of(listed)->0;
    assert forall|h: int| 0 <= h < hits.len() implies match (#[trigger] hits[h]).matches_info {
        Some(spans) => distinct_keys(spans),
        None => true,
    } by {
        assert(hits[h] == hit_of(items[h])->0);
        assert(well_keyed(items[h]));
        let inside = items[h]->Object_0;
        let info = present(member_named(inside, "_matchesInfo"@));
        if info is Some {
            let k: int = lemma_member_named_is_member(inside, "_matchesInfo"@);
            assert(well_keyed(inside[k].value));
            lemma_spans_distinct(info->0);
        }
    }
}

/// Results with undecoded documents are well formed where what they say
/// is.
pub proof fn lemma_well_formed_by_view(results: SearchResults<JsonValue>)
    ensures
        results.well_formed() == results@.well_formed(),
{
    let model = results@;
    if let Some(facets) = results.facets_distribution {
        let said = facets_view(facets@);
        assert(model.facets_distribution == Some(said));
        assert forall|i: int| 0 <= i < facets.len() implies (#[trigger] said[i]).1 == tallies_view(
            facets[i].1@,
        ) by {}
        if results@.well_formed() {
            assert forall|i: int| 0 <= i < facets.len() implies distinct_keys(
                tallies_view((#[trigger] facets[i]).1@),
            ) by {
                assert(distinct_keys(said[i].1));
            }
        }
        if results.well_formed() {
            assert forall|i: int| 0 <= i < said.len() implies distinct_keys(
                (#[trigger] said[i]).1,
            ) by {
                assert(distinct_keys(tallies_view(facets[i].1@)));
            }
        }
    }
    assert forall|h: int| 0 <= h < results.hits.len() implies (#[trigger] model.hits[h])
        == hit_view(results.hits[h]) by {}
    if results@.well_formed() {
        assert forall|h: int| 0 <= h < results.hits.len() implies match (
        #[trigger] results.hits[h]).matches_info {
            Some(spans) => distinct_keys(spans_view(spans@)),
            None => true,
        } by {
            assert(model.hits[h] == hit_view(results.hits[h]));
        }
    }
    if results.well_formed() {
        assert forall|h: int| 0 <= h < model.hits.len() implies match (
        #[trigger] model.hits[h]).matches_info {
            Some(spans) => distinct_keys(spans),
            None => true,
        } by {
            assert(model.hits[h] == hit_view(results.hits[h]));
        }
    }
}

/// The failure for a member that the response must have and has not.
fn missing_field(name: &str) -> (failure: ClientError)
    ensures
        failure@ == ErrorView::Unknown(missing(name@)),
{
    let mut message = String::from_str(MISSING_FIELD);
    message.append(name);
    message.push('`');
    assert(message@ =~= missing(name@));
    ClientError::Unknown(message)
}

/// The failure for a member whose value cannot be read.
fn invalid_field(name: &str) -> (failure: ClientError)
    ensures
        failure@ == ErrorView::Unknown(invalid(name@)),
{
    let mut message = String::from_str(INVALID_FIELD);
    message.append(name);
    message.push('`');
    assert(message@ =~= invalid(name@));
    ClientError::Unknown(message)
}

/// A member that the response must have.
fn required<'a>(value: &'a JsonValue, name: &str) -> (found: Result<&'a JsonValue, ClientError>)
    requires
        value@ is Object,
    ensures
        match found {
            Ok(member) => member_named(value@->Object_0, name@) == Some(member@),
            Err(failure) => member_named(value@->Object_0, name@) is None && failure@
                == ErrorView::Unknown(missing(name@)),
        },
{
    match value.get(name) {
        Some(member) => Ok(member),
        None => Err(missing_field(name)),
    }
}

/// A number that the response must have.
fn required_count(value: &JsonValue, name: &str) -> (found: Result<usize, ClientError>)
    requires
        value@ is Object,
    ensures
        match found {
            Ok(count) => member_named(value@->Object_0, name@) is Some && count_of(
                member_named(value@->Object_0, name@)->0,
            ) == Some(count),
            Err(failure) => match member_named(value@->Object_0, name@) {
                Some(json) => count_of(json) is None && failure@ == ErrorView::Unknown(
                    invalid(name@),
                ),
                None => failure@ == ErrorView::Unknown(missing(name@)),
            },
        },
{
    match required(value, name) {
        Ok(member) => match read_count(member) {
            Some(count) => Ok(count),
            None => Err(invalid_field(name)),
        },
        Err(failure) => Err(failure),
    }
}

/// Decodes a response, leaving the documents undecoded. Gives the results
/// where the document is a response, and otherwise an `Unknown` failure
/// whose text names the first member that is missing or cannot be read.
/// The results are well formed where no object of the document has two
/// members of one name.
pub fn decode_results(value: &JsonValue) -> (results: Result<SearchResults<JsonValue>, ClientError>)
    ensures
        match results {
            Ok(decoded) => results_of(value@) == Ok::<ResultsModel, Seq<char>>(decoded@) && (
            well_keyed(value@) ==> decoded.well_formed()),
            Err(failure) => results_of(value@) is Err && failure@ == ErrorView::Unknown(
                results_of(value@)->Err_0,
            ),
        },
{
    match value {
        JsonValue::Object(_) => {},
        _ => {
            return Err(ClientError::Unknown(String::from_str(NOT_AN_OBJECT)));
        },
    }
    let hits = match required(value, "hits") {
        Ok(member) => match read_hits(member) {
            Some(hits) => hits,
            None => {
                return Err(invalid_field("hits"));
            },
        },
        Err(failure) => {
            return Err(failure);
        },
    };
    let offset: usize = match required_count(value, "offset") {
        Ok(count) => count,
        Err(failure) => {
            return Err(failure);
        },
    };
    let limit: usize = match required_count(value, "limit") {
        Ok(count) => count,
        Err(failure) => {
            return Err(failure);
        },
    };
    let nb_hits: usize = match required_count(value, "nbHits") {
        Ok(count) => count,
        Err(failure) => {
            return Err(failure);
        },
    };
    let exhaustive_nb_hits = match required(value, "exhaustiveNbHits") {
        Ok(member) => match read_flag(member) {
            Some(flag) => flag,
            None => {
                return Err(invalid_field("exhaustiveNbHits"));
            },
        },
        Err(failure) => {
            return Err(failure);
        },
    };
    let facets_distribution = match read_present(value, "facetsDistribution") {
        Some(member) => match read_facets(member) {
            Some(facets) => Some(facets),
            None => {
                return Err(invalid_field("facetsDistribution"));
            },
        },
        None => None,
    };
    let exhaustive_facets_count = match read_present(value, "exhaustiveFacetsCount") {
        Some(member) => match read_flag(member) {
            Some(flag) => Some(flag),
            None => {
                return Err(invalid_field("exhaustiveFacetsCount"));
            },
        },
        None => None,
    };
    let processing_time_ms: usize = match required_count(value, "processingTimeMs") {
        Ok(count) => count,
        Err(failure) => {
            return Err(failure);
        },
    };
    let query = match required(value, "query") {
        Ok(member) => match read_string(member) {
            Some(text) => text,
            None => {
                return Err(invalid_field("query"));
            },
        },
        Err(failure) => {
            return Err(failure);
        },
    };
    let decoded = SearchResults {
        hits,
        offset,
        limit,
        nb_hits,
        exhaustive_nb_hits,
        facets_distribution,
        exhaustive_facets_count,
        processing_time_ms,
        query,
    };
    proof {
        if well_keyed(value@) {
            lemma_results_well_formed(value@);
            lemma_well_formed_by_view(decoded);
        }
    }
    Ok(decoded)
}

/// What the body of a response decodes to: the body is read as JSON,
/// and the document as a response. A body that is no JSON fails with the
/// parser's message, a document that is no response with the account of
/// its first defect.
pub open spec fn decoded(body: Seq<char>) -> Result<ResultsModel, Seq<char>> {
    match parsed_json(body) {
        Ok(json) => results_of(json),
        Err(message) => Err(message),
    }
}

/// What a response stands for, by its status code and its body: the
/// results that the body decodes to where the status is a success, from 200
/// to 299, and the body decodes; a failure otherwise, `Unknown` with the
/// reason where a successful response does not decode, and the failure
/// that the body is classified as where the status is no success.
pub open spec fn answer(status: u16, body: Seq<char>) -> Result<ResultsModel, ErrorView> {
    if 200 <= status < 300 {
        match decoded(body) {
            Ok(results) => Ok(results),
            Err(message) => Err(ErrorView::Unknown(message)),
        }
    } else {
        Err(classified(body))
    }
}

/// Decodes the body of a successful response, leaving the documents
/// undecoded. Fails with `Unknown`, and with the reason as its text, where
/// the body is no JSON or no response. Results that are given are well
/// formed.
pub fn decode(body: &str) -> (results: Result<SearchResults<JsonValue>, ClientError>)
    ensures
        match results {
            Ok(found) => decoded(body@) == Ok::<ResultsModel, Seq<char>>(found@)
                && found.well_formed(),
            Err(failure) => decoded(body@) is Err && failure@ == ErrorView::Unknown(
                decoded(body@)->Err_0,
            ),
        },
{
    match parse(body) {
        Ok(value) => decode_results(&value),
        Err(message) => Err(ClientError::Unknown(message)),
    }
}

/// Turns a response into results or into the failure that it stands for.
pub fn read_response(status: u16, body: &str) -> (results: Result<
    SearchResults<JsonValue>,
    ClientError,
>)
    ensures
        match results {
            Ok(found) => answer(status, body@) == Ok::<ResultsModel, ErrorView>(found@)
                && found.well_formed(),
            Err(failure) => answer(status, body@) == Err::<ResultsModel, ErrorView>(failure@),
        },
{
    if 200 <= status && status < 300 {
        decode(body)
    } else {
        Err(ClientError::from(body))
    }
}

/// A hit was decoded by `read`: its document and, where it has one, its
/// formatted document are what `read` gave for them, and the places of
/// its matches are kept.
pub open spec fn hit_decoded<T, F: Fn(&JsonValue) -> Result<T, String>>(
    read: F,
    hit: SearchResult<JsonValue>,
    typed: SearchResult<T>,
) -> bool {
    &&& call_ensures(read, (&hit.result,), Ok::<T, String>(typed.result))
    &&& match hit.formatted_result {
        Some(formatted) => typed.formatted_result is Some && call_ensures(
            read,
            (&formatted,),
            Ok::<T, String>(typed.formatted_result->0),
        ),
        None => typed.formatted_result is None,
    }
    &&& typed.matches_info == hit.matches_info
}

/// `read` can decode a hit: there is an outcome in which it does.
pub open spec fn hit_decodable<T, F: Fn(&JsonValue) -> Result<T, String>>(
    read: F,
    hit: SearchResult<JsonValue>,
) -> bool {
    exists|typed: SearchResult<T>| hit_decoded(read, hit, typed)
}

/// `read` refused the document of a hit, or its formatted document, with
/// the given message.
pub open spec fn hit_refused<T, F: Fn(&JsonValue) -> Result<T, String>>(
    read: F,
    hit: SearchResult<JsonValue>,
    message: String,
) -> bool {
    ||| call_ensures(read, (&hit.result,), Err::<T, String>(message))
    ||| hit.formatted_result is Some && call_ensures(
        read,
        (&hit.formatted_result->0,),
        Err::<T, String>(message),
    )
}

/// Decodes the documents of one hit with `read`.
pub fn decode_hit<T, F: Fn(&JsonValue) -> Result<T, String>>(
    hit: SearchResult<JsonValue>,
    read: &F,
) -> (typed: Result<SearchResult<T>, String>)
    requires
        forall|document: &JsonValue| call_requires(*read, (document,)),
    ensures
        match typed {
            Ok(found) => hit_decoded(*read, hit, found),
            Err(message) => hit_refused::<T, F>(*read, hit, message),
        },
{
    let result = match read(&hit.result) {
        Ok(document) => document,
        Err(message) => {
            return Err(message);
        },
    };
    let formatted_result = match &hit.formatted_result {
        Some(formatted) => match read(formatted) {
            Ok(document) => Some(document),
            Err(message) => {
                return Err(message);
            },
        },
        None => None,
    };
    Ok(SearchResult { result, formatted_result, matches_info: hit.matches_info })
}

impl SearchResults<JsonValue> {
    /// Decodes the documents of the hits with `read`, which turns the
    /// members of a document into a `T` or says why it cannot. Everything
    /// else is kept as it is. The hits are taken in order, and the first
    /// document that `read` refuses makes the whole decoding fail, as
    /// `Unknown` with the message of `read`.
    pub fn into_documents<T, F: Fn(&JsonValue) -> Result<T, String>>(self, read: F) -> (typed:
        Result<SearchResults<T>, ClientError>)
        requires
            forall|document: &JsonValue| call_requires(read, (document,)),
        ensures
            match typed {
                Ok(found) => {
                    &&& found.hits.len() == self.hits.len()
                    &&& forall|i: int|
                        0 <= i < self.hits.len() ==> hit_decoded(
                            read,
                            self.hits[i],
                            #[trigger] found.hits[i],
                        )
                    &&& found.offset == self.offset
                    &&& found.limit == self.limit
                    &&& found.nb_hits == self.nb_hits
                    &&& found.exhaustive_nb_hits == self.exhaustive_nb_hits
                    &&& found.facets_distribution == self.facets_distribution
                    &&& found.exhaustive_facets_count == self.exhaustive_facets_count
                    &&& found.processing_time_ms == self.processing_time_ms
                    &&& found.query == self.query
                    &&& self.well_formed() ==> found.well_formed()
                },
                Err(failure) => failure is Unknown && exists|i: int|
                    0 <= i < self.hits.len() && hit_refused::<T, F>(
                        read,
                        #[trigger] self.hits[i],
                        failure->Unknown_0,
                    ) && forall|k: int|
                        0 <= k < i ==> #[trigger] hit_decodable::<T, F>(read, self.hits[k]),
            },
    {
        let ghost before = self.hits@;
        let SearchResults {
            hits,
            offset,
            limit,
            nb_hits,
            exhaustive_nb_hits,
            facets_distribution,
            exhaustive_facets_count,
            processing_time_ms,
            query,
        } = self;
        let mut typed: Vec<SearchResult<T>> = Vec::new();
        for hit in it: hits
            invariant
                it.seq() == before,
                before == self.hits@,
                forall|document: &JsonValue| call_requires(read, (document,)),
                typed.len() == it.index(),
                forall|k: int|
                    0 <= k < it.index() ==> hit_decoded(read, before[k], #[trigger] typed[k]),
        {
            let ghost i = it.index() as int;
            match decode_hit(hit, &read) {
                Ok(found) => {
                    typed.push(found);
                },
                Err(message) => {
                    assert(hit_refused::<T, F>(read, self.hits[i], message));
                    assert forall|k: int| 0 <= k < i implies #[trigger] hit_decodable::<T, F>(
                        read,
                        self.hits[k],
                    ) by {
                        assert(hit_decoded(read, self.hits[k], typed[k]));
                    }
                    return Err(ClientError::Unknown(message));
                },
            }
        }
        Ok(
            SearchResults {
                hits: typed,
                offset,
                limit,
                nb_hits,
                exhaustive_nb_hits,
                facets_distribution,
                exhaustive_facets_count,
                processing_time_ms,
                query,
            },
        )
    }
}

} // verus!
