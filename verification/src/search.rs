//! Search queries and the request that each one stands for.
use vstd::prelude::*;
use vstd::string::StringExecFns;

use crate::json::{
    escaped, items_view, lemma_list_view, lemma_member_named_concat, lemma_object_view,
    member_named, member_text, members_text, members_view, quoted, text_of, Json, JsonValue,
    Member,
};
pub use crate::results::{MatchRange, SearchResult, SearchResults};
use crate::text::{decimal, decimal_text};

verus! {

/// An attribute to crop: its name, and a crop length of its own where it
/// does not take the query's.
pub type AttributeToCrop<'a> = (&'a str, Option<usize>);

/// A search query.
///
/// Only `query` is mandatory. A parameter that is not set is not sent, and
/// the server then applies its default. Parameters are added with the
/// `with_` methods, which can be chained; `build` gives the finished query
/// and leaves the builder as it is.
#[derive(Debug, Clone)]
pub struct Query<'a> {
    /// The text that the documents are searched for.
    pub query: &'a str,
    /// The number of documents to skip. Default: 0.
    pub offset: Option<usize>,
    /// The largest number of documents to return. Default: 20.
    pub limit: Option<usize>,
    /// A filter expression that the documents must meet.
    pub filters: Option<&'a str>,
    /// Facet filters, each a string `field:value`. The documents must meet
    /// every group, and in each group one filter.
    pub facet_filters: Option<&'a [&'a [&'a str]]>,
    /// The facets whose matching counts are wanted. `Some(None)` asks for
    /// all of them.
    pub facets_distribution: Option<Option<&'a [&'a str]>>,
    /// The attributes to show in the returned documents.
    pub attributes_to_retrieve: Option<&'a [&'a str]>,
    /// The attributes whose values are cropped. `Some(None)` crops all of
    /// them.
    pub attributes_to_crop: Option<Option<&'a [AttributeToCrop<'a>]>>,
    /// The number of characters to keep on each side of the start of the
    /// match. Default: 200.
    pub crop_length: Option<usize>,
    /// The attributes in whose values the matching words are highlighted.
    /// `Some(None)` highlights in all of them.
    pub attributes_to_highlight: Option<Option<&'a [&'a str]>>,
    /// Whether the places of the matches are wanted with each document.
    pub matches: Option<bool>,
}

/// The marker that stands for all attributes.
pub open spec fn wildcard() -> Json {
    Json::Text(seq!['*'])
}

/// A number as it is sent: in decimal notation.
pub open spec fn number_json(n: usize) -> Json {
    Json::Number(decimal(n as nat))
}

/// A list of names as it is sent: a list of strings, in order.
pub open spec fn names_json(names: Seq<&str>) -> Json {
    Json::List(Seq::new(names.len(), |i: int| Json::Text(names[i]@)))
}

/// Groups of names as they are sent: a list of lists of strings, in order.
pub open spec fn groups_json(groups: Seq<&[&str]>) -> Json {
    Json::List(Seq::new(groups.len(), |i: int| names_json(groups[i]@)))
}

/// An attribute to crop as it is sent: the pair of its name and its own
/// crop length, `null` where it has none.
pub open spec fn crop_json(attribute: (&str, Option<usize>)) -> Json {
    Json::List(
        seq![
            Json::Text(attribute.0@),
            match attribute.1 {
                Some(length) => number_json(length),
                None => Json::Null,
            },
        ],
    )
}

/// Attributes to crop as they are sent: a list of pairs, in order.
pub open spec fn crops_json(attributes: Seq<(&str, Option<usize>)>) -> Json {
    Json::List(Seq::new(attributes.len(), |i: int| crop_json(attributes[i])))
}

/// What is sent for a parameter that is either the wildcard or a list:
/// the marker `"*"` for the wildcard, the list as it is otherwise; `null`
/// for a parameter that is not set, which no request holds.
pub open spec fn wildcard_json(data: Option<Option<Json>>) -> Json {
    match data {
        Some(None) => wildcard(),
        Some(Some(list)) => list,
        None => Json::Null,
    }
}

/// The member that a parameter adds to the request: none where it is not
/// set.
pub open spec fn sent(name: Seq<char>, value: Option<Json>) -> Seq<Member> {
    match value {
        Some(value) => seq![Member { name, value }],
        None => Seq::empty(),
    }
}

/// What is sent for an optional number.
pub open spec fn number_setting(setting: Option<usize>) -> Option<Json> {
    match setting {
        Some(n) => Some(number_json(n)),
        None => None,
    }
}

/// What is sent for an optional text.
pub open spec fn text_setting(setting: Option<&str>) -> Option<Json> {
    match setting {
        Some(text) => Some(Json::Text(text@)),
        None => None,
    }
}

/// What is sent for an optional flag.
pub open spec fn flag_setting(setting: Option<bool>) -> Option<Json> {
    match setting {
        Some(flag) => Some(Json::Bool(flag)),
        None => None,
    }
}

/// What is sent for an optional list of names.
pub open spec fn names_setting(setting: Option<&[&str]>) -> Option<Json> {
    match setting {
        Some(names) => Some(names_json(names@)),
        None => None,
    }
}

/// What is sent for optional groups of names.
pub open spec fn groups_setting(setting: Option<&[&[&str]]>) -> Option<Json> {
    match setting {
        Some(groups) => Some(groups_json(groups@)),
        None => None,
    }
}

/// What is sent for an optional choice between all names and a list of
/// them.
pub open spec fn names_choice(setting: Option<Option<&[&str]>>) -> Option<Json> {
    match setting {
        Some(Some(names)) => Some(names_json(names@)),
        Some(None) => Some(wildcard()),
        None => None,
    }
}

/// What is sent for an optional choice between all attributes and a list
/// of attributes to crop.
pub open spec fn crops_choice(setting: Option<Option<&[(&str, Option<usize>)]>>) -> Option<Json> {
    match setting {
        Some(Some(attributes)) => Some(crops_json(attributes@)),
        Some(None) => Some(wildcard()),
        None => None,
    }
}

/// A number as it is sent.
pub fn number_value(n: usize) -> (value: JsonValue)
    ensures
        value@ == number_json(n),
{
    JsonValue::Number(decimal_text(n))
}

/// A list of names as it is sent.
pub fn names_value(names: &[&str]) -> (value: JsonValue)
    ensures
        value@ == names_json(names@),
{
    let mut items: Vec<JsonValue> = Vec::new();
    let mut i: usize = 0;
    while i < names.len()
        invariant
            i <= names.len(),
            items.len() == i,
            forall|k: int| 0 <= k < i ==> (#[trigger] items[k])@ == Json::Text(names[k]@),
        decreases names.len() - i,
    {
        items.push(JsonValue::Text(String::from_str(names[i])));
        i += 1;
    }
    proof {
        lemma_list_view(items);
        assert(items_view(items@) =~= names_json(names@)->List_0);
    }
    JsonValue::List(items)
}

/// Groups of names as they are sent.
pub fn groups_value(groups: &[&[&str]]) -> (value: JsonValue)
    ensures
        value@ == groups_json(groups@),
{
    let mut items: Vec<JsonValue> = Vec::new();
    let mut i: usize = 0;
    while i < groups.len()
        invariant
            i <= groups.len(),
            items.len() == i,
            forall|k: int| 0 <= k < i ==> (#[trigger] items[k])@ == names_json(groups[k]@),
        decreases groups.len() - i,
    {
        items.push(names_value(groups[i]));
        i += 1;
    }
    proof {
        lemma_list_view(items);
        assert(items_view(items@) =~= groups_json(groups@)->List_0);
    }
    JsonValue::List(items)
}

/// An attribute to crop as it is sent.
pub fn crop_value(attribute: &(&str, Option<usize>)) -> (value: JsonValue)
    ensures
        value@ == crop_json(*attribute),
{
    let mut pair: Vec<JsonValue> = Vec::new();
    pair.push(JsonValue::Text(String::from_str(attribute.0)));
    pair.push(
        match attribute.1 {
            Some(length) => number_value(length),
            None => JsonValue::Null,
        },
    );
    proof {
        lemma_list_view(pair);
        assert(items_view(pair@) =~= crop_json(*attribute)->List_0);
    }
    JsonValue::List(pair)
}

/// Attributes to crop as they are sent.
pub fn crops_value(attributes: &[(&str, Option<usize>)]) -> (value: JsonValue)
    ensures
        value@ == crops_json(attributes@),
{
    let mut items: Vec<JsonValue> = Vec::new();
    let mut i: usize = 0;
    while i < attributes.len()
        invariant
            i <= attributes.len(),
            items.len() == i,
            forall|k: int| 0 <= k < i ==> (#[trigger] items[k])@ == crop_json(attributes[k]),
        decreases attributes.len() - i,
    {
        items.push(crop_value(&attributes[i]));
        i += 1;
    }
    proof {
        lemma_list_view(items);
        assert(items_view(items@) =~= crops_json(attributes@)->List_0);
    }
    JsonValue::List(items)
}

/// What is sent for a parameter that is either the wildcard or a list: the
/// marker `"*"` for the wildcard, the list as it is otherwise, and `null`
/// for a parameter that is not set.
pub fn serialize_with_wildcard(data: Option<Option<JsonValue>>) -> (value: JsonValue)
    ensures
        value@ == wildcard_json(
            match data {
                Some(Some(list)) => Some(Some(list@)),
                Some(None) => Some(None),
                None => None,
            },
        ),
{
    match data {
        Some(None) => {
            let mut marker = String::new();
            marker.push('*');
            assert(marker@ =~= seq!['*']);
            JsonValue::Text(marker)
        },
        Some(Some(list)) => list,
        None => JsonValue::Null,
    }
}

/// Adds a member to the members of an object.
fn push_member(members: &mut Vec<(String, JsonValue)>, name: &str, value: JsonValue)
    ensures
        members_view(final(members)@) == members_view(old(members)@).push(
            Member { name: name@, value: value@ },
        ),
{
    members.push((String::from_str(name), value));
    assert(members_view(members@) =~= members_view(old(members)@).push(
        Member { name: name@, value: value@ },
    ));
}

/// Adds the member of a parameter, if the parameter is set.
fn push_setting(members: &mut Vec<(String, JsonValue)>, name: &str, value: Option<JsonValue>)
    ensures
        members_view(final(members)@) == members_view(old(members)@) + sent(
            name@,
            match value {
                Some(v) => Some(v@),
                None => None,
            },
        ),
{
    match value {
        Some(v) => {
            push_member(members, name, v);
            assert(members_view(members@) =~= members_view(old(members)@) + sent(name@, Some(v@)));
        },
        None => {
            assert(members_view(members@) =~= members_view(old(members)@) + Seq::<Member>::empty());
        },
    }
}

impl<'a> Query<'a> {
    /// The members of the request that this query stands for: the query
    /// text under the name `q`, then each parameter that is set, under its
    /// name on the wire, in the order of the fields.
    pub open spec fn wire(&self) -> Seq<Member> {
        seq![Member { name: "q"@, value: Json::Text(self.query@) }]
            + sent("offset"@, number_setting(self.offset))
            + sent("limit"@, number_setting(self.limit))
            + sent("filters"@, text_setting(self.filters))
            + sent("facetFilters"@, groups_setting(self.facet_filters))
            + sent("facetsDistribution"@, names_choice(self.facets_distribution))
            + sent("attributesToRetrieve"@, names_setting(self.attributes_to_retrieve))
            + sent("attributesToCrop"@, crops_choice(self.attributes_to_crop))
            + sent("cropLength"@, number_setting(self.crop_length))
            + sent("attributesToHighlight"@, names_choice(self.attributes_to_highlight))
            + sent("matches"@, flag_setting(self.matches))
    }

    /// The query for the given text with no parameter set.
    pub open spec fn bare(query: &'a str) -> Query<'a> {
        Query {
            query,
            offset: None,
            limit: None,
            filters: None,
            facet_filters: None,
            facets_distribution: None,
            attributes_to_retrieve: None,
            attributes_to_crop: None,
            crop_length: None,
            attributes_to_highlight: None,
            matches: None,
        }
    }

    /// A query for the given text, with no parameter set.
    pub fn new(query: &'a str) -> (q: Query<'a>)
        ensures
            q == Query::bare(query),
    {
        Query {
            query,
            offset: None,
            limit: None,
            filters: None,
            facet_filters: None,
            facets_distribution: None,
            attributes_to_retrieve: None,
            attributes_to_crop: None,
            crop_length: None,
            attributes_to_highlight: None,
            matches: None,
        }
    }

    /// Sets the number of documents to skip.
    pub fn with_offset<'b>(&'b mut self, offset: usize) -> (q: &'b mut Query<'a>)
        ensures
            *q == (Query { offset: Some(offset), ..*old(self) }),
            *final(self) == *final(q),
    {
        self.offset = Some(offset);
        self
    }

    /// Sets the largest number of documents to return.
    pub fn with_limit<'b>(&'b mut self, limit: usize) -> (q: &'b mut Query<'a>)
        ensures
            *q == (Query { limit: Some(limit), ..*old(self) }),
            *final(self) == *final(q),
    {
        self.limit = Some(limit);
        self
    }

    /// Sets the filter expression.
    pub fn with_filters<'b>(&'b mut self, filters: &'a str) -> (q: &'b mut Query<'a>)
        ensures
            *q == (Query { filters: Some(filters), ..*old(self) }),
            *final(self) == *final(q),
    {
        self.filters = Some(filters);
        self
    }

    /// Sets the facet filters.
    pub fn with_facet_filters<'b>(&'b mut self, facet_filters: &'a [&'a [&'a str]]) -> (q:
        &'b mut Query<'a>)
        ensures
            *q == (Query { facet_filters: Some(facet_filters), ..*old(self) }),
            *final(self) == *final(q),
    {
        self.facet_filters = Some(facet_filters);
        self
    }

    /// Asks for the matching counts of the given facets, or of all of them
    /// with `None`.
    pub fn with_facets_distribution<'b>(
        &'b mut self,
        facets_distribution: Option<&'a [&'a str]>,
    ) -> (q: &'b mut Query<'a>)
        ensures
            *q == (Query { facets_distribution: Some(facets_distribution), ..*old(self) }),
            *final(self) == *final(q),
    {
        self.facets_distribution = Some(facets_distribution);
        self
    }

    /// Sets the attributes to show.
    pub fn with_attributes_to_retrieve<'b>(
        &'b mut self,
        attributes_to_retrieve: &'a [&'a str],
    ) -> (q: &'b mut Query<'a>)
        ensures
            *q == (Query { attributes_to_retrieve: Some(attributes_to_retrieve), ..*old(self) }),
            *final(self) == *final(q),
    {
        self.attributes_to_retrieve = Some(attributes_to_retrieve);
        self
    }

    /// Crops the values of the given attributes, or of all of them with
    /// `None`.
    pub fn with_attributes_to_crop<'b>(
        &'b mut self,
        attributes_to_crop: Option<&'a [(&'a str, Option<usize>)]>,
    ) -> (q: &'b mut Query<'a>)
        ensures
            *q == (Query { attributes_to_crop: Some(attributes_to_crop), ..*old(self) }),
            *final(self) == *final(q),
    {
        self.attributes_to_crop = Some(attributes_to_crop);
        self
    }

    /// Highlights the matching words in the values of the given attributes,
    /// or of all of them with `None`.
    pub fn with_attributes_to_highlight<'b>(
        &'b mut self,
        attributes_to_highlight: Option<&'a [&'a str]>,
    ) -> (q: &'b mut Query<'a>)
        ensures
            *q == (Query { attributes_to_highlight: Some(attributes_to_highlight), ..*old(self) }),
            *final(self) == *final(q),
    {
        self.attributes_to_highlight = Some(attributes_to_highlight);
        self
    }

    /// Sets the number of characters to keep around a match.
    pub fn with_crop_length<'b>(&'b mut self, crop_length: usize) -> (q: &'b mut Query<'a>)
        ensures
            *q == (Query { crop_length: Some(crop_length), ..*old(self) }),
            *final(self) == *final(q),
    {
        self.crop_length = Some(crop_length);
        self
    }

    /// Says whether the places of the matches are wanted.
    pub fn with_matches<'b>(&'b mut self, matches: bool) -> (q: &'b mut Query<'a>)
        ensures
            *q == (Query { matches: Some(matches), ..*old(self) }),
            *final(self) == *final(q),
    {
        self.matches = Some(matches);
        self
    }

    /// The request that this query stands for, as a JSON object: the query
    /// text under `q`, and a member for each parameter that is set, and for
    /// no other.
    pub fn to_value(&self) -> (request: JsonValue)
        ensures
            request@ == Json::Object(self.wire()),
    {
        let mut members: Vec<(String, JsonValue)> = Vec::new();
        assert(members_view(members@) =~= Seq::<Member>::empty());
        push_member(&mut members, "q", JsonValue::Text(String::from_str(self.query)));
        push_setting(
            &mut members,
            "offset",
            match self.offset {
                Some(n) => Some(number_value(n)),
                None => None,
            },
        );
        push_setting(
            &mut members,
            "limit",
            match self.limit {
                Some(n) => Some(number_value(n)),
                None => None,
            },
        );
        push_setting(
            &mut members,
            "filters",
            match self.filters {
                Some(text) => Some(JsonValue::Text(String::from_str(text))),
                None => None,
            },
        );
        push_setting(
            &mut members,
            "facetFilters",
            match self.facet_filters {
                Some(groups) => Some(groups_value(groups)),
                None => None,
            },
        );
        push_setting(
            &mut members,
            "facetsDistribution",
            match self.facets_distribution {
                Some(Some(names)) => Some(serialize_with_wildcard(Some(Some(names_value(names))))),
                Some(None) => Some(serialize_with_wildcard(Some(None))),
                None => None,
            },
        );
        push_setting(
            &mut members,
            "attributesToRetrieve",
            match self.attributes_to_retrieve {
                Some(names) => Some(names_value(names)),
                None => None,
            },
        );
        push_setting(
            &mut members,
            "attributesToCrop",
            match self.attributes_to_crop {
                Some(Some(attributes)) => Some(
                    serialize_with_wildcard(Some(Some(crops_value(attributes)))),
                ),
                Some(None) => Some(serialize_with_wildcard(Some(None))),
                None => None,
            },
        );
        push_setting(
            &mut members,
            "cropLength",
            match self.crop_length {
                Some(n) => Some(number_value(n)),
                None => None,
            },
        );
        push_setting(
            &mut members,
            "attributesToHighlight",
            match self.attributes_to_highlight {
                Some(Some(names)) => Some(serialize_with_wildcard(Some(Some(names_value(names))))),
                Some(None) => Some(serialize_with_wildcard(Some(None))),
                None => None,
            },
        );
        push_setting(
            &mut members,
            "matches",
            match self.matches {
                Some(flag) => Some(JsonValue::Bool(flag)),
                None => None,
            },
        );
        proof {
            lemma_object_view(members);
            assert(members_view(members@) =~= self.wire());
        }
        JsonValue::Object(members)
    }

    /// The body of the request that this query stands for: the compact JSON
    /// text of [`Query::to_value`].
    pub fn to_json(&self) -> (body: String)
        ensures
            body@ == text_of(Json::Object(self.wire())),
    {
        self.to_value().to_text()
    }

    /// The query as it stands, as a value of its own. The builder is left
    /// unchanged and can be configured further.
    pub fn build(&mut self) -> (q: Query<'a>)
        ensures
            q == *old(self),
            *final(self) == *old(self),
    {
        Query {
            query: self.query,
            offset: self.offset,
            limit: self.limit,
            filters: self.filters,
            facet_filters: self.facet_filters,
            facets_distribution: self.facets_distribution,
            attributes_to_retrieve: self.attributes_to_retrieve,
            attributes_to_crop: self.attributes_to_crop,
            crop_length: self.crop_length,
            attributes_to_highlight: self.attributes_to_highlight,
            matches: self.matches,
        }
    }
}

/// What a query says, apart from where its texts and lists are kept.
pub struct QueryView {
    pub query: Seq<char>,
    pub offset: Option<usize>,
    pub limit: Option<usize>,
    pub filters: Option<Seq<char>>,
    pub facet_filters: Option<Seq<Seq<Seq<char>>>>,
    pub facets_distribution: Option<Option<Seq<Seq<char>>>>,
    pub attributes_to_retrieve: Option<Seq<Seq<char>>>,
    pub attributes_to_crop: Option<Option<Seq<(Seq<char>, Option<usize>)>>>,
    pub crop_length: Option<usize>,
    pub attributes_to_highlight: Option<Option<Seq<Seq<char>>>>,
    pub matches: Option<bool>,
}

/// The texts of a list of names.
pub open spec fn names_view(names: Seq<&str>) -> Seq<Seq<char>> {
    Seq::new(names.len(), |i: int| names[i]@)
}

/// The texts of groups of names.
pub open spec fn groups_view(groups: Seq<&[&str]>) -> Seq<Seq<Seq<char>>> {
    Seq::new(groups.len(), |i: int| names_view(groups[i]@))
}

/// The texts and lengths of attributes to crop.
pub open spec fn crops_view(attributes: Seq<(&str, Option<usize>)>) -> Seq<
    (Seq<char>, Option<usize>),
> {
    Seq::new(attributes.len(), |i: int| (attributes[i].0@, attributes[i].1))
}

/// What an optional choice between all names and a list of them says.
pub open spec fn names_choice_view(setting: Option<Option<&[&str]>>) -> Option<
    Option<Seq<Seq<char>>>,
> {
    match setting {
        Some(Some(names)) => Some(Some(names_view(names@))),
        Some(None) => Some(None),
        None => None,
    }
}

impl<'a> View for Query<'a> {
    type V = QueryView;

    open spec fn view(&self) -> QueryView {
        QueryView {
            query: self.query@,
            offset: self.offset,
            limit: self.limit,
            filters: match self.filters {
                Some(text) => Some(text@),
                None => None,
            },
            facet_filters: match self.facet_filters {
                Some(groups) => Some(groups_view(groups@)),
                None => None,
            },
            facets_distribution: names_choice_view(self.facets_distribution),
            attributes_to_retrieve: match self.attributes_to_retrieve {
                Some(names) => Some(names_view(names@)),
                None => None,
            },
            attributes_to_crop: match self.attributes_to_crop {
                Some(Some(attributes)) => Some(Some(crops_view(attributes@))),
                Some(None) => Some(None),
                None => None,
            },
            crop_length: self.crop_length,
            attributes_to_highlight: names_choice_view(self.attributes_to_highlight),
            matches: self.matches,
        }
    }
}

/// Lists of names with the same texts are sent as the same list.
proof fn lemma_names_json_by_view(a: Seq<&str>, b: Seq<&str>)
    requires
        names_view(a) == names_view(b),
    ensures
        names_json(a) == names_json(b),
{
    assert(names_view(a).len() == a.len());
    assert(names_view(b).len() == b.len());
    assert forall|i: int| 0 <= i < a.len() implies a[i]@ == b[i]@ by {
        assert(names_view(a)[i] == a[i]@);
        assert(names_view(b)[i] == b[i]@);
    }
    assert(names_json(a)->List_0 =~= names_json(b)->List_0);
}

/// Groups of names with the same texts are sent as the same list.
proof fn lemma_groups_json_by_view(a: Seq<&[&str]>, b: Seq<&[&str]>)
    requires
        groups_view(a) == groups_view(b),
    ensures
        groups_json(a) == groups_json(b),
{
    assert(groups_view(a).len() == a.len());
    assert(groups_view(b).len() == b.len());
    assert forall|i: int| 0 <= i < a.len() implies names_json(a[i]@) == names_json(b[i]@) by {
        assert(groups_view(a)[i] == names_view(a[i]@));
        assert(groups_view(b)[i] == names_view(b[i]@));
        lemma_names_json_by_view(a[i]@, b[i]@);
    }
    assert(groups_json(a)->List_0 =~= groups_json(b)->List_0);
}

/// Attributes to crop with the same texts and lengths are sent as the same
/// list.
proof fn lemma_crops_json_by_view(a: Seq<(&str, Option<usize>)>, b: Seq<(&str, Option<usize>)>)
    requires
        crops_view(a) == crops_view(b),
    ensures
        crops_json(a) == crops_json(b),
{
    assert(crops_view(a).len() == a.len());
    assert(crops_view(b).len() == b.len());
    assert forall|i: int| 0 <= i < a.len() implies crop_json(a[i]) == crop_json(b[i]) by {
        assert(crops_view(a)[i] == (a[i].0@, a[i].1));
        assert(crops_view(b)[i] == (b[i].0@, b[i].1));
    }
    assert(crops_json(a)->List_0 =~= crops_json(b)->List_0);
}

/// What is sent for a choice of names depends on what the choice says
/// alone.
proof fn lemma_names_choice_by_view(a: Option<Option<&[&str]>>, b: Option<Option<&[&str]>>)
    requires
        names_choice_view(a) == names_choice_view(b),
    ensures
        names_choice(a) == names_choice(b),
{
    if let Some(Some(x)) = a {
        if let Some(Some(y)) = b {
            lemma_names_json_by_view(x@, y@);
        }
    }
}

/// Two queries that say the same stand for the same request, member by
/// member and character by character: the body of a request is determined
/// by what the query says, wherever its texts and lists are kept and
/// however often it is built.
pub proof fn lemma_request_determined_by_view(a: Query, b: Query)
    requires
        a@ == b@,
    ensures
        a.wire() == b.wire(),
        text_of(Json::Object(a.wire())) == text_of(Json::Object(b.wire())),
{
    if let Some(x) = a.facet_filters {
        if let Some(y) = b.facet_filters {
            lemma_groups_json_by_view(x@, y@);
        }
    }
    if let Some(x) = a.attributes_to_retrieve {
        if let Some(y) = b.attributes_to_retrieve {
            lemma_names_json_by_view(x@, y@);
        }
    }
    if let Some(Some(x)) = a.attributes_to_crop {
        if let Some(Some(y)) = b.attributes_to_crop {
            lemma_crops_json_by_view(x@, y@);
        }
    }
    lemma_names_choice_by_view(a.facets_distribution, b.facets_distribution);
    lemma_names_choice_by_view(a.attributes_to_highlight, b.attributes_to_highlight);
    assert(groups_setting(a.facet_filters) == groups_setting(b.facet_filters));
    assert(names_setting(a.attributes_to_retrieve) == names_setting(b.attributes_to_retrieve));
    assert(crops_choice(a.attributes_to_crop) == crops_choice(b.attributes_to_crop));
    assert(text_setting(a.filters) == text_setting(b.filters));
}

/// What the request holds under a given name: the setting of the parameter
/// that is sent under that name, and nothing under any other name.
pub open spec fn setting_named(q: Query, name: Seq<char>) -> Option<Json> {
    if name == "q"@ {
        Some(Json::Text(q.query@))
    } else if name == "offset"@ {
        number_setting(q.offset)
    } else if name == "limit"@ {
        number_setting(q.limit)
    } else if name == "filters"@ {
        text_setting(q.filters)
    } else if name == "facetFilters"@ {
        groups_setting(q.facet_filters)
    } else if name == "facetsDistribution"@ {
        names_choice(q.facets_distribution)
    } else if name == "attributesToRetrieve"@ {
        names_setting(q.attributes_to_retrieve)
    } else if name == "attributesToCrop"@ {
        crops_choice(q.attributes_to_crop)
    } else if name == "cropLength"@ {
        number_setting(q.crop_length)
    } else if name == "attributesToHighlight"@ {
        names_choice(q.attributes_to_highlight)
    } else if name == "matches"@ {
        flag_setting(q.matches)
    } else {
        None
    }
}

/// The names on the wire differ from one another: all but two by their
/// length, and those two by their first letter.
proof fn lemma_wire_names()
    ensures
        "q"@.len() == 1,
        "offset"@.len() == 6,
        "limit"@.len() == 5,
        "filters"@.len() == 7,
        "filters"@[0] == 'f',
        "facetFilters"@.len() == 12,
        "facetsDistribution"@.len() == 18,
        "attributesToRetrieve"@.len() == 20,
        "attributesToCrop"@.len() == 16,
        "cropLength"@.len() == 10,
        "attributesToHighlight"@.len() == 21,
        "matches"@.len() == 7,
        "matches"@[0] == 'm',
{
    reveal_strlit("q");
    reveal_strlit("offset");
    reveal_strlit("limit");
    reveal_strlit("filters");
    reveal_strlit("facetFilters");
    reveal_strlit("facetsDistribution");
    reveal_strlit("attributesToRetrieve");
    reveal_strlit("attributesToCrop");
    reveal_strlit("cropLength");
    reveal_strlit("attributesToHighlight");
    reveal_strlit("matches");
}

/// Looking a name up after one more parameter was added.
proof fn lemma_lookup_after(
    members: Seq<Member>,
    name: Seq<char>,
    value: Option<Json>,
    wanted: Seq<char>,
)
    ensures
        member_named(members + sent(name, value), wanted) == match member_named(members, wanted) {
            Some(found) => Some(found),
            None => if name == wanted {
                value
            } else {
                None
            },
        },
{
    lemma_member_named_concat(members, sent(name, value), wanted);
    let added = sent(name, value);
    if value is Some {
        assert(added.drop_first() =~= Seq::<Member>::empty());
        assert(member_named(added.drop_first(), wanted) is None);
    }
}

/// Under each name the request holds what the parameter of that name is
/// set to: the member is there if and only if the parameter is set, and no
/// member has another name.
pub proof fn lemma_request_members(q: Query, name: Seq<char>)
    ensures
        member_named(q.wire(), name) == setting_named(q, name),
{
    lemma_wire_names();
    let m0 = seq![Member { name: "q"@, value: Json::Text(q.query@) }];
    let m1 = m0 + sent("offset"@, number_setting(q.offset));
    let m2 = m1 + sent("limit"@, number_setting(q.limit));
    let m3 = m2 + sent("filters"@, text_setting(q.filters));
    let m4 = m3 + sent("facetFilters"@, groups_setting(q.facet_filters));
    let m5 = m4 + sent("facetsDistribution"@, names_choice(q.facets_distribution));
    let m6 = m5 + sent("attributesToRetrieve"@, names_setting(q.attributes_to_retrieve));
    let m7 = m6 + sent("attributesToCrop"@, crops_choice(q.attributes_to_crop));
    let m8 = m7 + sent("cropLength"@, number_setting(q.crop_length));
    let m9 = m8 + sent("attributesToHighlight"@, names_choice(q.attributes_to_highlight));
    assert(m0.drop_first() =~= Seq::<Member>::empty());
    assert(member_named(m0.drop_first(), name) is None);
    assert(member_named(m0, name) == if name == "q"@ {
        Some(Json::Text(q.query@))
    } else {
        None
    });
    lemma_lookup_after(m0, "offset"@, number_setting(q.offset), name);
    lemma_lookup_after(m1, "limit"@, number_setting(q.limit), name);
    lemma_lookup_after(m2, "filters"@, text_setting(q.filters), name);
    lemma_lookup_after(m3, "facetFilters"@, groups_setting(q.facet_filters), name);
    lemma_lookup_after(m4, "facetsDistribution"@, names_choice(q.facets_distribution), name);
    lemma_lookup_after(m5, "attributesToRetrieve"@, names_setting(q.attributes_to_retrieve), name);
    lemma_lookup_after(m6, "attributesToCrop"@, crops_choice(q.attributes_to_crop), name);
    lemma_lookup_after(m7, "cropLength"@, number_setting(q.crop_length), name);
    lemma_lookup_after(m8, "attributesToHighlight"@, names_choice(q.attributes_to_highlight), name);
    lemma_lookup_after(m9, "matches"@, flag_setting(q.matches), name);
}

/// A request never holds `null` under a name: a parameter that is not set
/// is left out of the request, not sent as `null`.
pub proof fn lemma_request_never_null(q: Query, name: Seq<char>)
    ensures
        member_named(q.wire(), name) != Some(Json::Null),
{
    lemma_request_members(q, name);
}

/// The three states of a parameter that is either the wildcard or a list
/// are sent in three ways that no reader can confuse. A parameter that is
/// not set has no member in the request; the wildcard is the string `"*"`;
/// a list is that list, item by item. A string is no list, and the text of
/// the one starts with a quotation mark, that of the other with a bracket.
/// This holds of the facets to count, of the attributes to crop and of
/// the attributes to highlight.
pub proof fn lemma_three_states_apart(
    q: Query,
    names: &[&str],
    attributes: &[(&str, Option<usize>)],
)
    ensures
        member_named(q.wire(), "facetsDistribution"@) == names_choice(q.facets_distribution),
        member_named(q.wire(), "attributesToCrop"@) == crops_choice(q.attributes_to_crop),
        member_named(q.wire(), "attributesToHighlight"@) == names_choice(
            q.attributes_to_highlight,
        ),
        names_choice(None) is None,
        names_choice(Some(None)) == Some(wildcard()),
        names_choice(Some(Some(names))) == Some(names_json(names@)),
        crops_choice(None) is None,
        crops_choice(Some(None)) == Some(wildcard()),
        crops_choice(Some(Some(attributes))) == Some(crops_json(attributes@)),
        wildcard() != names_json(names@),
        wildcard() != crops_json(attributes@),
        text_of(wildcard()) == seq!['"', '*', '"'],
        text_of(names_json(names@))[0] == '[',
        text_of(crops_json(attributes@))[0] == '[',
        text_of(wildcard()) != text_of(names_json(names@)),
        text_of(wildcard()) != text_of(crops_json(attributes@)),
{
    lemma_wire_names();
    lemma_request_members(q, "facetsDistribution"@);
    lemma_request_members(q, "attributesToCrop"@);
    lemma_request_members(q, "attributesToHighlight"@);
    let star = seq!['*'];
    assert(star.drop_last() =~= Seq::<char>::empty());
    assert(escaped(star) =~= seq!['*']) by {
        reveal_with_fuel(escaped, 2);
    }
    assert(text_of(wildcard()) =~= seq!['"', '*', '"']);
}

/// A query with no parameter set stands for a request of exactly one
/// member, the query text under the name `q`.
pub proof fn lemma_bare_request(query: &str)
    ensures
        Query::bare(query).wire() == seq![Member { name: "q"@, value: Json::Text(query@) }],
        Query::bare(query).wire().len() == 1,
        text_of(Json::Object(Query::bare(query).wire())) == seq!['{'] + quoted("q"@) + seq![':']
            + quoted(query@) + seq!['}'],
{
    let only = Member { name: "q"@, value: Json::Text(query@) };
    assert(Query::bare(query).wire() =~= seq![only]);
    assert(members_text(seq![only]) == member_text(only));
    assert(text_of(Json::Object(seq![only])) =~= seq!['{'] + quoted("q"@) + seq![':'] + quoted(
        query@,
    ) + seq!['}']);
}

} // verus!
