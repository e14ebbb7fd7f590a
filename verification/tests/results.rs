use meilisearch_sdk::errors::ClientError;
use meilisearch_sdk::json::{parse, JsonValue};
use meilisearch_sdk::results::{
    decode, decode_hit, decode_results, read_count, read_facets, read_flag, read_hit, read_hits,
    read_range, read_ranges, read_response, read_spans, read_string, read_tallies,
};
use meilisearch_sdk::search::{MatchRange, SearchResult, SearchResults};

#[derive(Debug, PartialEq)]
struct Movie {
    title: String,
}

fn read_movie(document: &JsonValue) -> Result<Movie, String> {
    match document.get("title") {
        Some(JsonValue::Text(title)) => Ok(Movie { title: title.clone() }),
        Some(_) => Err("invalid type for field `title`".to_string()),
        None => Err("missing field `title`".to_string()),
    }
}

fn text(value: &str) -> JsonValue {
    JsonValue::Text(value.to_string())
}

fn number(digits: &str) -> JsonValue {
    JsonValue::Number(digits.to_string())
}

fn object(members: Vec<(&str, JsonValue)>) -> JsonValue {
    JsonValue::Object(members.into_iter().map(|(name, value)| (name.to_string(), value)).collect())
}

fn unknown_text(failure: ClientError) -> String {
    match failure {
        ClientError::Unknown(text) => text,
        other => panic!("unexpected {:?}", other),
    }
}

const FOO_BODY: &str = "{\"hits\":[{\"title\":\"Foo\",\"_formatted\":{\"title\":\"<em>Foo</em>\"}}],\"offset\":0,\"limit\":20,\"nbHits\":1,\"exhaustiveNbHits\":false,\"processingTimeMs\":3,\"query\":\"foo\"}";

fn envelope_without(name: &str) -> JsonValue {
    let all = vec![
        ("hits", JsonValue::List(vec![])),
        ("offset", number("0")),
        ("limit", number("20")),
        ("nbHits", number("0")),
        ("exhaustiveNbHits", JsonValue::Bool(false)),
        ("processingTimeMs", number("1")),
        ("query", text("q")),
    ];
    object(all.into_iter().filter(|member| member.0 != name).collect())
}

fn envelope_with(name: &str, value: JsonValue) -> JsonValue {
    match envelope_without(name) {
        JsonValue::Object(mut members) => {
            members.push((name.to_string(), value));
            JsonValue::Object(members)
        }
        other => other,
    }
}

#[test]
fn decodes_hit_with_formatted_document() {
    let results = decode(FOO_BODY).unwrap();
    assert_eq!(results.hits.len(), 1);
    assert_eq!(results.hits[0].result, object(vec![("title", text("Foo"))]));
    assert_eq!(
        results.hits[0].formatted_result,
        Some(object(vec![("title", text("<em>Foo</em>"))]))
    );
    assert_eq!(results.hits[0].matches_info, None);

    let typed = results.into_documents(read_movie).unwrap();
    assert_eq!(typed.hits.len(), 1);
    assert_eq!(typed.hits[0].result.title, "Foo");
    assert_eq!(typed.hits[0].formatted_result, Some(Movie { title: "<em>Foo</em>".to_string() }));
    assert_eq!(typed.hits[0].matches_info, None);
    assert_eq!(typed.offset, 0);
    assert_eq!(typed.limit, 20);
    assert_eq!(typed.nb_hits, 1);
    assert!(!typed.exhaustive_nb_hits);
    assert_eq!(typed.facets_distribution, None);
    assert_eq!(typed.exhaustive_facets_count, None);
    assert_eq!(typed.processing_time_ms, 3);
    assert_eq!(typed.query, "foo");
}

#[test]
fn decodes_a_single_hit_object() {
    let hit = parse("{\"title\":\"Foo\",\"_formatted\":{\"title\":\"<em>Foo</em>\"}}").unwrap();
    let read = read_hit(&hit).unwrap();
    let typed = decode_hit(read, &read_movie).unwrap();
    assert_eq!(typed.result.title, "Foo");
    assert_eq!(typed.formatted_result, Some(Movie { title: "<em>Foo</em>".to_string() }));
    assert_eq!(typed.matches_info, None);
}

#[test]
fn decodes_match_information() {
    let hit = parse(
        "{\"id\":7,\"_matchesInfo\":{\"title\":[{\"start\":0,\"length\":3},{\"start\":10,\"length\":2}],\"overview\":[]},\"title\":\"Foo\"}",
    )
    .unwrap();
    let read = read_hit(&hit).unwrap();
    assert_eq!(read.formatted_result, None);
    let info = read.matches_info.unwrap();
    assert_eq!(info.len(), 2);
    let titles = info.iter().find(|entry| entry.0 == "title").unwrap();
    assert_eq!(
        titles.1,
        vec![MatchRange { start: 0, length: 3 }, MatchRange { start: 10, length: 2 }]
    );
    let overviews = info.iter().find(|entry| entry.0 == "overview").unwrap();
    assert!(overviews.1.is_empty());
    assert_eq!(read.result.get("id"), Some(&number("7")));
    assert_eq!(read.result.get("title"), Some(&text("Foo")));
    assert_eq!(read.result.get("_matchesInfo"), None);
    match read.result {
        JsonValue::Object(members) => assert_eq!(members.len(), 2),
        other => panic!("unexpected {:?}", other),
    }
}

#[test]
fn document_keeps_every_other_member_in_order() {
    let hit = object(vec![
        ("b", number("1")),
        ("_formatted", object(vec![("b", text("<em>1</em>"))])),
        ("a", JsonValue::Null),
        ("_matchesInfo", object(vec![])),
        ("c", JsonValue::List(vec![])),
    ]);
    let read = read_hit(&hit).unwrap();
    assert_eq!(
        read.result,
        object(vec![("b", number("1")), ("a", JsonValue::Null), ("c", JsonValue::List(vec![]))])
    );
    assert_eq!(read.formatted_result, Some(object(vec![("b", text("<em>1</em>"))])));
    assert_eq!(read.matches_info, Some(vec![]));
}

#[test]
fn null_side_members_count_as_absent() {
    let hit = object(vec![
        ("title", text("Foo")),
        ("_formatted", JsonValue::Null),
        ("_matchesInfo", JsonValue::Null),
    ]);
    let read = read_hit(&hit).unwrap();
    assert_eq!(read.result, object(vec![("title", text("Foo"))]));
    assert_eq!(read.formatted_result, None);
    assert_eq!(read.matches_info, None);
}

#[test]
fn hit_must_be_an_object_with_readable_match_information() {
    assert_eq!(read_hit(&JsonValue::List(vec![])), None);
    assert_eq!(read_hit(&text("Foo")), None);
    assert_eq!(read_hit(&object(vec![("_matchesInfo", text("x"))])), None);
    assert_eq!(
        read_hit(&object(vec![("_matchesInfo", object(vec![("title", number("1"))]))])),
        None
    );
    assert_eq!(read_hits(&object(vec![])), None);
    assert_eq!(read_hits(&JsonValue::List(vec![object(vec![]), JsonValue::Null])), None);
    assert_eq!(read_hits(&JsonValue::List(vec![])), Some(vec![]));
}

#[test]
fn leaf_readers_accept_only_their_kind() {
    assert_eq!(read_count(&number("12")), Some(12));
    assert_eq!(read_count(&number("-12")), None);
    assert_eq!(read_count(&number("1.0")), None);
    assert_eq!(read_count(&text("12")), None);
    assert_eq!(read_count(&JsonValue::Null), None);
    assert_eq!(read_flag(&JsonValue::Bool(true)), Some(true));
    assert_eq!(read_flag(&number("1")), None);
    assert_eq!(read_string(&text("a")), Some("a".to_string()));
    assert_eq!(read_string(&JsonValue::Null), None);
}

#[test]
fn range_needs_start_and_length() {
    assert_eq!(
        read_range(&object(vec![("start", number("4")), ("length", number("2"))])),
        Some(MatchRange { start: 4, length: 2 })
    );
    assert_eq!(
        read_range(&object(vec![
            ("length", number("2")),
            ("extra", JsonValue::Null),
            ("start", number("4"))
        ])),
        Some(MatchRange { start: 4, length: 2 })
    );
    assert_eq!(read_range(&object(vec![("start", number("4"))])), None);
    assert_eq!(read_range(&object(vec![("length", number("4"))])), None);
    assert_eq!(read_range(&object(vec![("start", text("4")), ("length", number("2"))])), None);
    assert_eq!(read_range(&object(vec![("start", number("4")), ("length", number("-2"))])), None);
    assert_eq!(read_range(&JsonValue::List(vec![number("4"), number("2")])), None);
    assert_eq!(read_ranges(&JsonValue::List(vec![])), Some(vec![]));
    assert_eq!(read_ranges(&object(vec![])), None);
    assert_eq!(read_ranges(&JsonValue::List(vec![JsonValue::Null])), None);
    assert_eq!(read_spans(&JsonValue::List(vec![])), None);
    assert_eq!(
        read_spans(&object(vec![("t", JsonValue::List(vec![]))])),
        Some(vec![("t".to_string(), vec![])])
    );
}

#[test]
fn decodes_facets_distribution() {
    let body = "{\"hits\":[],\"offset\":5,\"limit\":10,\"nbHits\":120,\"exhaustiveNbHits\":true,\"facetsDistribution\":{\"genre\":{\"action\":3,\"comedy\":0},\"year\":{}},\"exhaustiveFacetsCount\":true,\"processingTimeMs\":0,\"query\":\"\"}";
    let results = decode(body).unwrap();
    assert!(results.hits.is_empty());
    assert_eq!(results.offset, 5);
    assert_eq!(results.limit, 10);
    assert_eq!(results.nb_hits, 120);
    assert!(results.exhaustive_nb_hits);
    assert_eq!(results.exhaustive_facets_count, Some(true));
    assert_eq!(results.processing_time_ms, 0);
    assert_eq!(results.query, "");
    let facets = results.facets_distribution.unwrap();
    assert_eq!(facets.len(), 2);
    let genre = facets.iter().find(|facet| facet.0 == "genre").unwrap();
    let mut counts = genre.1.clone();
    counts.sort();
    assert_eq!(counts, vec![("action".to_string(), 3), ("comedy".to_string(), 0)]);
    let year = facets.iter().find(|facet| facet.0 == "year").unwrap();
    assert!(year.1.is_empty());
    assert_eq!(read_tallies(&object(vec![("a", text("1"))])), None);
    assert_eq!(read_facets(&object(vec![("a", number("1"))])), None);
    assert_eq!(read_facets(&JsonValue::Null), None);
}

#[test]
fn optional_members_may_be_null() {
    let value = envelope_with(
        "facetsDistribution",
        JsonValue::Null,
    );
    let results = decode_results(&value).unwrap();
    assert_eq!(results.facets_distribution, None);
    let value = envelope_with("exhaustiveFacetsCount", JsonValue::Null);
    assert_eq!(decode_results(&value).unwrap().exhaustive_facets_count, None);
    let value = envelope_with("exhaustiveFacetsCount", JsonValue::Bool(false));
    assert_eq!(decode_results(&value).unwrap().exhaustive_facets_count, Some(false));
}

#[test]
fn unknown_members_are_ignored() {
    let value = envelope_with("somethingNew", text("x"));
    assert!(decode_results(&value).is_ok());
}

#[test]
fn each_missing_member_is_named() {
    let names =
        ["hits", "offset", "limit", "nbHits", "exhaustiveNbHits", "processingTimeMs", "query"];
    for name in names.iter() {
        let failure = decode_results(&envelope_without(name)).unwrap_err();
        assert_eq!(unknown_text(failure), format!("missing field `{}`", name));
    }
    assert!(decode_results(&envelope_without("facetsDistribution")).is_ok());
}

#[test]
fn each_unreadable_member_is_named() {
    let cases = vec![
        ("hits", object(vec![])),
        ("hits", JsonValue::List(vec![text("no object")])),
        ("offset", number("-1")),
        ("limit", text("20")),
        ("nbHits", number("1.5")),
        ("exhaustiveNbHits", number("0")),
        ("facetsDistribution", JsonValue::List(vec![])),
        ("exhaustiveFacetsCount", text("true")),
        ("processingTimeMs", JsonValue::Null),
        ("query", number("1")),
    ];
    for (name, value) in cases.into_iter() {
        let failure = decode_results(&envelope_with(name, value)).unwrap_err();
        assert_eq!(unknown_text(failure), format!("invalid value for field `{}`", name));
    }
}

#[test]
fn the_first_defect_in_field_order_decides() {
    let value = object(vec![
        ("query", number("1")),
        ("limit", text("x")),
        ("hits", JsonValue::List(vec![])),
    ]);
    assert_eq!(unknown_text(decode_results(&value).unwrap_err()), "missing field `offset`");
    let value = object(vec![("offset", text("x"))]);
    assert_eq!(unknown_text(decode_results(&value).unwrap_err()), "missing field `hits`");
}

#[test]
fn a_response_must_be_an_object() {
    for value in [JsonValue::Null, JsonValue::List(vec![]), text("x"), number("1")].iter() {
        assert_eq!(
            unknown_text(decode_results(value).unwrap_err()),
            "invalid type: the response is not an object"
        );
    }
    assert_eq!(
        unknown_text(decode("[]").unwrap_err()),
        "invalid type: the response is not an object"
    );
}

#[test]
fn a_body_that_is_no_json_fails_with_the_parsers_message() {
    assert_eq!(
        unknown_text(decode("{\"hits\":").unwrap_err()),
        "EOF while parsing a value at line 1 column 8"
    );
    assert_eq!(
        unknown_text(decode("").unwrap_err()),
        "EOF while parsing a value at line 1 column 0"
    );
    assert_eq!(
        unknown_text(decode("<html>").unwrap_err()),
        serde_json::from_str::<serde_json::Value>("<html>").unwrap_err().to_string()
    );
}

#[test]
fn counts_must_fit() {
    let fits = envelope_with("nbHits", number(&usize::MAX.to_string()));
    assert_eq!(decode_results(&fits).unwrap().nb_hits, usize::MAX);
    let too_large = envelope_with("nbHits", number("340282366920938463463374607431768211456"));
    assert_eq!(
        unknown_text(decode_results(&too_large).unwrap_err()),
        "invalid value for field `nbHits`"
    );
}

#[test]
fn a_refused_document_fails_the_whole_decoding() {
    let body = "{\"hits\":[{\"title\":\"Foo\"},{\"name\":\"Bar\"}],\"offset\":0,\"limit\":20,\"nbHits\":2,\"exhaustiveNbHits\":false,\"processingTimeMs\":3,\"query\":\"foo\"}";
    let results = decode(body).unwrap();
    assert_eq!(results.hits.len(), 2);
    let failure = results.into_documents(read_movie).unwrap_err();
    assert_eq!(unknown_text(failure), "missing field `title`");

    let body = "{\"hits\":[{\"title\":\"Foo\",\"_formatted\":{\"title\":1}}],\"offset\":0,\"limit\":20,\"nbHits\":1,\"exhaustiveNbHits\":false,\"processingTimeMs\":3,\"query\":\"foo\"}";
    let failure = decode(body).unwrap().into_documents(read_movie).unwrap_err();
    assert_eq!(unknown_text(failure), "invalid type for field `title`");
}

#[test]
fn into_documents_keeps_everything_else() {
    let body = "{\"hits\":[{\"title\":\"A\",\"_matchesInfo\":{\"title\":[{\"start\":1,\"length\":2}]}},{\"title\":\"B\"}],\"offset\":1,\"limit\":2,\"nbHits\":3,\"exhaustiveNbHits\":true,\"facetsDistribution\":{\"g\":{\"x\":4}},\"exhaustiveFacetsCount\":false,\"processingTimeMs\":5,\"query\":\"t\"}";
    let typed = decode(body).unwrap().into_documents(read_movie).unwrap();
    assert_eq!(
        typed,
        SearchResults {
            hits: vec![
                SearchResult {
                    result: Movie { title: "A".to_string() },
                    formatted_result: None,
                    matches_info: Some(vec![(
                        "title".to_string(),
                        vec![MatchRange { start: 1, length: 2 }]
                    )]),
                },
                SearchResult {
                    result: Movie { title: "B".to_string() },
                    formatted_result: None,
                    matches_info: None,
                },
            ],
            offset: 1,
            limit: 2,
            nb_hits: 3,
            exhaustive_nb_hits: true,
            facets_distribution: Some(vec![("g".to_string(), vec![("x".to_string(), 4)])]),
            exhaustive_facets_count: Some(false),
            processing_time_ms: 5,
            query: "t".to_string(),
        }
    );
}

#[test]
fn read_response_decodes_successes() {
    let results = read_response(200, FOO_BODY).unwrap();
    assert_eq!(results.hits.len(), 1);
    assert_eq!(results.query, "foo");
    assert!(read_response(299, FOO_BODY).is_ok());
    assert_eq!(
        unknown_text(read_response(200, "{\"message\":\"Could not infer a primary key\"}").unwrap_err()),
        "missing field `hits`"
    );
}

#[test]
fn read_response_classifies_failures() {
    assert!(matches!(
        read_response(400, "{\"message\":\"Could not infer a primary key\"}").unwrap_err(),
        ClientError::CantInferPrimaryKey
    ));
    assert!(matches!(
        read_response(404, "{\"message\":\"Index abc not found\"}").unwrap_err(),
        ClientError::IndexNotFound
    ));
    assert!(matches!(
        read_response(503, "{\"message\":\"Server is in maintenance, please try again later\"}")
            .unwrap_err(),
        ClientError::ServerInMaintenance
    ));
    assert_eq!(
        unknown_text(read_response(418, "{\"message\":\"teapot\"}").unwrap_err()),
        "{\"message\":\"teapot\"}"
    );
    // A body that would decode is still a failure under a failing status.
    assert_eq!(unknown_text(read_response(500, FOO_BODY).unwrap_err()), FOO_BODY);
    assert_eq!(unknown_text(read_response(199, FOO_BODY).unwrap_err()), FOO_BODY);
    assert_eq!(unknown_text(read_response(300, FOO_BODY).unwrap_err()), FOO_BODY);
}

#[test]
fn names_written_twice_are_held_once() {
    let body = "{\"hits\":[{\"title\":\"A\",\"_matchesInfo\":{\"title\":[],\"title\":[{\"start\":1,\"length\":1}]}}],\"offset\":0,\"limit\":20,\"nbHits\":1,\"exhaustiveNbHits\":false,\"facetsDistribution\":{\"g\":{\"x\":1,\"x\":2},\"g\":{\"y\":3,\"y\":4}},\"processingTimeMs\":3,\"query\":\"a\"}";
    let results = decode(body).unwrap();
    let facets = results.facets_distribution.unwrap();
    assert_eq!(facets.len(), 1);
    assert_eq!(facets[0].0, "g");
    assert_eq!(facets[0].1.len(), 1);
    assert_eq!(facets[0].1[0].0, "y");
    let info = results.hits[0].matches_info.as_ref().unwrap();
    assert_eq!(info.len(), 1);
    assert_eq!(info[0].0, "title");
}
