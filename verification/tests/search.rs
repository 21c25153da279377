use ha_core::json_text::parse_json;
use ha_core::search::{
    check_status, collect_results, parse_search_body, read_result, search_url, SearchError,
    SearchParams, SearchResult,
};

fn params(language: Option<&str>, freshness: Option<&str>) -> SearchParams {
    SearchParams {
        language: language.map(str::to_string),
        freshness: freshness.map(str::to_string),
    }
}

#[test]
fn the_url_asks_for_the_query() {
    assert_eq!(
        search_url("https://s.example", "rust", &params(None, None)),
        "https://s.example/search?q=rust&format=json&categories=general&pageno=1"
    );
    assert_eq!(
        search_url("https://s.example/x//", "a b&c=d", &params(Some("zh-CN"), Some("day/week"))),
        "https://s.example/x/search?q=a%20b%26c%3Dd&format=json&categories=general&pageno=1&language=zh-CN&time_range=day%2Fweek"
    );
    assert_eq!(
        search_url("///", "", &params(None, Some(""))),
        "/search?q=&format=json&categories=general&pageno=1&time_range="
    );
}

#[test]
fn components_are_percent_encoded() {
    let url = search_url("", "az-AZ_09.~ é日\u{7f}%+/?#", &params(None, None));
    assert_eq!(
        url,
        "/search?q=az-AZ_09.~%20%C3%A9%E6%97%A5%7F%25%2B%2F%3F%23&format=json&categories=general&pageno=1"
    );
}

#[test]
fn queries_cannot_add_parameters() {
    let url = search_url("", "x&language=de&format=html", &params(None, None));
    assert_eq!(url.matches('&').count(), 3);
    assert_ne!(url, search_url("", "x", &params(Some("de"), None)));
}

#[test]
fn statuses_outside_the_two_hundreds_are_errors() {
    for status in [200, 204, 299] {
        assert!(check_status(status).is_ok());
    }
    for status in [0, 199, 300, 302, 404, 500, 999] {
        assert!(matches!(check_status(status), Err(SearchError::Status(s)) if s == status));
    }
}

fn fields(result: &SearchResult) -> [&str; 4] {
    [&result.title, &result.url, &result.snippet, &result.source]
}

const BODY: &str = r#"{"results":[
    {"title":"A","url":"https://a","content":"about a","engines":["x",7,"y"]},
    {"title":"no url"},
    {"title":5,"url":"https://number"},
    {"title":"B","url":"https://b","content":null,"engines":[]},
    "text",
    {"title":"C","url":"https://c","engines":"x"},
    {"title":"","url":"","engines":[""]}
]}"#;

#[test]
fn results_are_taken_from_the_items() {
    let found = parse_search_body(BODY, 100).unwrap();
    assert_eq!(found.len(), 4);
    assert_eq!(fields(&found[0]), ["A", "https://a", "about a", "x, y"]);
    assert_eq!(fields(&found[1]), ["B", "https://b", "", "SearXNG"]);
    assert_eq!(fields(&found[2]), ["C", "https://c", "", "SearXNG"]);
    assert_eq!(fields(&found[3]), ["", "", "", "SearXNG"]);
}

#[test]
fn the_count_limits_the_items_that_are_looked_at() {
    for (count, expected) in [(0, 0), (1, 1), (3, 1), (4, 2), (7, 4), (usize::MAX, 4)] {
        assert_eq!(parse_search_body(BODY, count).unwrap().len(), expected);
    }
    let few = parse_search_body(BODY, 4).unwrap();
    let many = parse_search_body(BODY, 7).unwrap();
    for (a, b) in few.iter().zip(&many) {
        assert_eq!(fields(a), fields(b));
    }
}

#[test]
fn bodies_without_results_have_none() {
    for body in ["{}", "[]", "null", r#"{"results":{}}"#, r#"{"results":null}"#] {
        assert!(parse_search_body(body, 10).unwrap().is_empty());
        assert!(collect_results(&parse_json(body).unwrap(), 10).is_empty());
    }
}

#[test]
fn bodies_that_are_no_json_are_errors() {
    for body in ["", "<html>", "{"] {
        assert!(matches!(
            parse_search_body(body, 10),
            Err(SearchError::InvalidJson(_))
        ));
    }
}

#[test]
fn items_need_a_title_and_a_url() {
    let item = |text: &str| read_result(&parse_json(text).unwrap());
    assert!(item(r#"{"title":"a","url":"b"}"#).is_some());
    assert!(item(r#"{"title":"a","url":1}"#).is_none());
    assert!(item(r#"{"url":"b"}"#).is_none());
    assert!(item("[]").is_none());
}
