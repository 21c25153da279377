//! Web search with a SearXNG instance: the request URL, and what is taken from
//! the response.

use vstd::prelude::*;
use vstd::utf8::*;
use crate::json::{Json, JsonModel};
use crate::json;
use crate::json_text;
use crate::text;

verus! {

/// The source of a result that names no engine.
pub const DEFAULT_SOURCE: &'static str = "SearXNG";

/// What narrows a search down.
#[derive(Debug)]
pub struct SearchParams {
    /// The language of the results.
    pub language: Option<String>,
    /// How recent the results are.
    pub freshness: Option<String>,
}

/// One result of a search.
#[derive(Debug)]
pub struct SearchResult {
    pub title: String,
    pub url: String,
    pub snippet: String,
    pub source: String,
}

/// What a result says.
#[verifier::ext_equal]
pub struct ResultModel {
    pub title: Seq<char>,
    pub url: Seq<char>,
    pub snippet: Seq<char>,
    pub source: Seq<char>,
}

impl View for SearchResult {
    type V = ResultModel;

    open spec fn view(&self) -> ResultModel {
        ResultModel {
            title: self.title@,
            url: self.url@,
            snippet: self.snippet@,
            source: self.source@,
        }
    }
}

/// What the results in `found` say.
pub open spec fn results_model(found: Seq<SearchResult>) -> Seq<ResultModel> {
    found.map_values(|result: SearchResult| result@)
}

/// Why a search has no results to show.
#[derive(Debug)]
pub enum SearchError {
    /// The instance answered with this HTTP status.
    Status(u16),
    /// The answer is not JSON.
    InvalidJson(serde_json::Error),
}

// ---------------------------------------------------------------------------
// The request
// ---------------------------------------------------------------------------

/// Whether a byte stands for itself in a URL component: an ASCII letter or
/// digit, or one of `-`, `.`, `_` and `~`.
pub open spec fn unreserved(byte: u8) -> bool {
    ||| 0x30 <= byte <= 0x39
    ||| 0x41 <= byte <= 0x5a
    ||| 0x61 <= byte <= 0x7a
    ||| byte == 0x2d
    ||| byte == 0x2e
    ||| byte == 0x5f
    ||| byte == 0x7e
}

/// The uppercase hexadecimal digit of `n`.
pub open spec fn hex_digit(n: u8) -> char {
    if n < 10 {
        (0x30 + n) as char
    } else {
        (0x37 + n) as char
    }
}

/// A byte in a URL component.
pub open spec fn percent_encoded_byte(byte: u8) -> Seq<char> {
    if unreserved(byte) {
        seq![byte as char]
    } else {
        seq!['%', hex_digit(byte / 16), hex_digit(byte % 16)]
    }
}

/// Bytes in a URL component.
pub open spec fn percent_encoded(bytes: Seq<u8>) -> Seq<char>
    decreases bytes.len(),
{
    if bytes.len() == 0 {
        Seq::empty()
    } else {
        percent_encoded_byte(bytes[0]) + percent_encoded(bytes.drop_first())
    }
}

/// Text in a URL component.
pub open spec fn component(chars: Seq<char>) -> Seq<char> {
    percent_encoded(encode_utf8(chars))
}

/// Calls `urlencoding::encode`, and `into_owned` of what it returns. Claimed of
/// them: each byte of the text stands for itself where it is unreserved, and
/// otherwise becomes a percent sign with the two hexadecimal digits of the byte.
#[verifier::external_body]
fn url_encode(chars: &str) -> (r: String)
    ensures
        r@ == component(chars@),
{
    urlencoding::encode(chars).into_owned()
}

/// `s` without the slashes at its end.
pub open spec fn without_trailing_slashes(s: Seq<char>) -> Seq<char>
    decreases s.len(),
{
    if s.len() > 0 && s.last() == '/' {
        without_trailing_slashes(s.drop_last())
    } else {
        s
    }
}

/// `text` without the slashes at its end.
fn trim_slashes(text: &str) -> (r: &str)
    ensures
        r@ == without_trailing_slashes(text@),
{
    let mut rest = text;
    let mut tail = text;
    let ghost mut n: int = 0;
    let ghost mut kept: int = 0;
    proof {
        assert(text@.skip(0) =~= text@);
        assert(without_trailing_slashes(text@.take(0)) =~= text@.take(0));
    }
    loop
        invariant
            0 <= kept <= n <= text@.len(),
            rest@ == text@.skip(n),
            tail@ == text@.skip(kept),
            without_trailing_slashes(text@.take(n)) == text@.take(kept),
        decreases text@.len() - n,
    {
        match text::pop_char(rest) {
            None => {
                assert(text@.take(n) =~= text@);
                return text::before(text, tail);
            },
            Some((c, next)) => {
                proof {
                    assert(text@.skip(n).drop_first() =~= text@.skip(n + 1));
                    assert(text@.take(n + 1).drop_last() =~= text@.take(n));
                    assert(text@.take(n + 1).last() == c);
                    n = n + 1;
                }
                rest = next;
                if c != '/' {
                    tail = next;
                    proof {
                        kept = n;
                    }
                }
            },
        }
    }
}

/// The query parameter `name` with a value, where there is one.
pub open spec fn parameter(name: Seq<char>, value: Option<Seq<char>>) -> Seq<char> {
    match value {
        Some(value) => name + component(value),
        None => Seq::empty(),
    }
}

/// The URL that asks the instance at `instance` for `query`.
pub open spec fn search_url_of(
    instance: Seq<char>,
    query: Seq<char>,
    language: Option<Seq<char>>,
    freshness: Option<Seq<char>>,
) -> Seq<char> {
    without_trailing_slashes(instance) + "/search?q="@ + component(query)
        + "&format=json&categories=general&pageno=1"@ + parameter("&language="@, language)
        + parameter("&time_range="@, freshness)
}

/// The URL that asks the instance at `instance_url` for `query`.
pub fn search_url(instance_url: &str, query: &str, params: &SearchParams) -> (r: String)
    ensures
        r@ == search_url_of(
            instance_url@,
            query@,
            text::optional_chars(params.language),
            text::optional_chars(params.freshness),
        ),
{
    let mut url = String::new();
    url.append(trim_slashes(instance_url));
    url.append("/search?q=");
    url.append(url_encode(query).as_str());
    url.append("&format=json&categories=general&pageno=1");
    let ghost asked = url@;
    proof {
        assert(asked =~= without_trailing_slashes(instance_url@) + "/search?q="@ + component(query@)
            + "&format=json&categories=general&pageno=1"@);
    }
    if let Some(language) = &params.language {
        url.append("&language=");
        url.append(url_encode(language.as_str()).as_str());
    }
    proof {
        assert(url@ =~= asked + parameter("&language="@, text::optional_chars(params.language)));
    }
    let ghost narrowed = url@;
    if let Some(freshness) = &params.freshness {
        url.append("&time_range=");
        url.append(url_encode(freshness.as_str()).as_str());
    }
    proof {
        assert(url@ =~= narrowed + parameter("&time_range="@, text::optional_chars(params.freshness)));
    }
    url
}

// ---------------------------------------------------------------------------
// The response
// ---------------------------------------------------------------------------

/// Whether an HTTP status says that the request succeeded.
pub open spec fn success(status: u16) -> bool {
    200 <= status < 300
}

/// Whether the body of a response with this HTTP status is worth reading.
pub fn check_status(status: u16) -> (r: Result<(), SearchError>)
    ensures
        match r {
            Ok(_) => success(status),
            Err(error) => !success(status) && error == SearchError::Status(status),
        },
{
    if 200 <= status && status < 300 {
        Ok(())
    } else {
        Err(SearchError::Status(status))
    }
}

/// The strings among `items`.
pub open spec fn texts(items: Seq<JsonModel>) -> Seq<Seq<char>>
    decreases items.len(),
{
    if items.len() == 0 {
        Seq::empty()
    } else {
        match items.last().text() {
            Some(chars) => texts(items.drop_last()).push(chars),
            None => texts(items.drop_last()),
        }
    }
}

/// The source of a result: the engines that found it.
pub open spec fn source_of(engines: JsonModel) -> Seq<char> {
    match engines.items() {
        Some(items) => if text::joined(texts(items), ", "@).len() == 0 {
            DEFAULT_SOURCE@
        } else {
            text::joined(texts(items), ", "@)
        },
        None => DEFAULT_SOURCE@,
    }
}

/// The result that an item of the response is. It needs a title and a URL.
pub open spec fn result_of(item: JsonModel) -> Option<ResultModel> {
    match (item.member("title"@).text(), item.member("url"@).text()) {
        (Some(title), Some(url)) => Some(
            ResultModel {
                title,
                url,
                snippet: match item.member("content"@).text() {
                    Some(snippet) => snippet,
                    None => Seq::empty(),
                },
                source: source_of(item.member("engines"@)),
            },
        ),
        _ => None,
    }
}

/// The results among `items`.
pub open spec fn results(items: Seq<JsonModel>) -> Seq<ResultModel>
    decreases items.len(),
{
    if items.len() == 0 {
        Seq::empty()
    } else {
        match result_of(items.last()) {
            Some(result) => results(items.drop_last()).push(result),
            None => results(items.drop_last()),
        }
    }
}

/// The first `count` of `items`, or all of them.
pub open spec fn first_items(items: Seq<JsonModel>, count: nat) -> Seq<JsonModel> {
    if items.len() <= count {
        items
    } else {
        items.take(count as int)
    }
}

/// The results among the first `count` items of a response.
pub open spec fn results_of(body: JsonModel, count: nat) -> Seq<ResultModel> {
    match body.member("results"@).items() {
        Some(items) => results(first_items(items, count)),
        None => Seq::empty(),
    }
}

/// The strings among `items`, one behind the other.
fn join_texts(items: &Vec<Json>) -> (r: String)
    ensures
        r@ == text::joined(texts(json::items_model(items@)), ", "@),
{
    let mut names: Vec<&str> = Vec::new();
    let ghost models = json::items_model(items@);
    let mut i: usize = 0;
    while i < items.len()
        invariant
            i <= items@.len(),
            models == json::items_model(items@),
            text::views(names@) == texts(models.take(i as int)),
        decreases items@.len() - i,
    {
        proof {
            assert(models.take(i + 1).drop_last() =~= models.take(i as int));
            assert(models.take(i + 1).last() == items@[i as int]@);
        }
        if let Some(name) = items[i].as_str() {
            proof {
                assert(text::views(names@.push(name)) =~= text::views(names@).push(name@));
            }
            names.push(name);
        }
        i += 1;
    }
    proof {
        assert(models.take(i as int) =~= models);
    }
    text::join(&names, ", ")
}

/// The source of a result, from the engines of its item.
fn read_source(engines: Option<&Json>) -> (r: String)
    ensures
        r@ == source_of(
            match engines {
                Some(value) => value@,
                None => JsonModel::Null,
            },
        ),
{
    if let Some(value) = engines {
        if let Some(items) = value.as_array() {
            let names = join_texts(items);
            if !names.as_str().is_empty() {
                return names;
            }
        }
    }
    DEFAULT_SOURCE.to_owned()
}

/// The result that an item of a response is.
pub fn read_result(item: &Json) -> (r: Option<SearchResult>)
    ensures
        match r {
            Some(result) => result_of(item@) == Some(result@),
            None => result_of(item@) is None,
        },
{
    let title = match item.get_str("title") {
        Some(title) => title,
        None => {
            return None;
        },
    };
    let url = match item.get_str("url") {
        Some(url) => url,
        None => {
            return None;
        },
    };
    let snippet = match item.get_str("content") {
        Some(snippet) => snippet.to_owned(),
        None => String::new(),
    };
    Some(
        SearchResult {
            title: title.to_owned(),
            url: url.to_owned(),
            snippet,
            source: read_source(item.get("engines")),
        },
    )
}

/// The results among the first `count` items of a response.
pub fn collect_results(body: &Json, count: usize) -> (r: Vec<SearchResult>)
    ensures
        results_model(r@) == results_of(body@, count as nat),
{
    let mut found: Vec<SearchResult> = Vec::new();
    let listed = match body.get("results") {
        Some(value) => value.as_array(),
        None => None,
    };
    proof {
        assert(results_model(found@) =~= Seq::empty());
    }
    if let Some(items) = listed {
        let ghost models = json::items_model(items@);
        let mut i: usize = 0;
        while i < items.len() && i < count
            invariant
                i <= items@.len(),
                i <= count,
                models == json::items_model(items@),
                results_model(found@) == results(models.take(i as int)),
            decreases items@.len() - i,
        {
            proof {
                assert(models.take(i + 1).drop_last() =~= models.take(i as int));
                assert(models.take(i + 1).last() == items@[i as int]@);
            }
            if let Some(result) = read_result(&items[i]) {
                proof {
                    assert(results_model(found@.push(result)) =~= results_model(found@).push(
                        result@,
                    ));
                }
                found.push(result);
            }
            i += 1;
        }
        proof {
            assert(models.take(i as int) =~= first_items(models, count as nat));
        }
    }
    found
}

/// The results in the body of a response, among its first `count` items.
pub fn parse_search_body(body: &str, count: usize) -> (r: Result<Vec<SearchResult>, SearchError>)
    ensures
        match json_text::read_json(body@) {
            Some(value) => r matches Ok(found) && results_model(found@) == results_of(
                value,
                count as nat,
            ),
            None => r matches Err(error) && error is InvalidJson,
        },
{
    match json_text::parse_json(body) {
        Ok(value) => Ok(collect_results(&value, count)),
        Err(error) => Err(SearchError::InvalidJson(error)),
    }
}

// ---------------------------------------------------------------------------
// Laws
// ---------------------------------------------------------------------------

/// Whether a character can stand in an encoded URL component.
pub open spec fn component_char(c: char) -> bool {
    c == '%' || (c as u32 <= 0x7f && unreserved(c as u8))
}

/// No text can end its URL component or start another: what is encoded holds
/// percent signs and unreserved characters only.
pub proof fn components_are_inert(chars: Seq<char>)
    ensures
        forall|i: int| 0 <= i < component(chars).len() ==> component_char(#[trigger] component(chars)[i]),
{
    lemma_inert(encode_utf8(chars));
}

proof fn lemma_inert(bytes: Seq<u8>)
    ensures
        forall|i: int|
            0 <= i < percent_encoded(bytes).len() ==> component_char(
                #[trigger] percent_encoded(bytes)[i],
            ),
    decreases bytes.len(),
{
    if bytes.len() > 0 {
        let head = percent_encoded_byte(bytes[0]);
        let tail = percent_encoded(bytes.drop_first());
        lemma_inert(bytes.drop_first());
        assert forall|i: int| 0 <= i < (head + tail).len() implies component_char(
            #[trigger] (head + tail)[i],
        ) by {
            if i >= head.len() {
                assert((head + tail)[i] == tail[i - head.len()]);
            }
        }
    }
}

/// Different texts have different URL components.
pub proof fn components_are_faithful(a: Seq<char>, b: Seq<char>)
    requires
        component(a) == component(b),
    ensures
        a == b,
{
    lemma_faithful(encode_utf8(a), encode_utf8(b));
    encode_utf8_decode_utf8(a);
    encode_utf8_decode_utf8(b);
}

proof fn lemma_faithful(a: Seq<u8>, b: Seq<u8>)
    requires
        percent_encoded(a) == percent_encoded(b),
    ensures
        a == b,
    decreases a.len(),
{
    if a.len() == 0 || b.len() == 0 {
        if a.len() > 0 {
            assert(percent_encoded(a).len() >= percent_encoded_byte(a[0]).len() > 0);
        }
        if b.len() > 0 {
            assert(percent_encoded(b).len() >= percent_encoded_byte(b[0]).len() > 0);
        }
        assert(percent_encoded(a).len() == percent_encoded(b).len());
        assert(a =~= b);
    } else {
        let (x, y) = (percent_encoded_byte(a[0]), percent_encoded_byte(b[0]));
        let (s, t) = (percent_encoded(a.drop_first()), percent_encoded(b.drop_first()));
        assert(x + s == y + t);
        assert((x + s)[0] == x[0] && (y + t)[0] == y[0]);
        assert(x.len() == y.len());
        assert forall|i: int| 0 <= i < x.len() implies x[i] == y[i] by {
            assert((x + s)[i] == x[i] && (y + t)[i] == y[i]);
        }
        assert(x =~= y);
        assert(a[0] == b[0]) by {
            if !unreserved(a[0]) {
                assert(hex_digit(a[0] / 16) == x[1] && hex_digit(b[0] / 16) == y[1]);
                assert(hex_digit(a[0] % 16) == x[2] && hex_digit(b[0] % 16) == y[2]);
            } else {
                assert(a[0] as char == x[0] && b[0] as char == y[0]);
            }
        }
        assert(s =~= (x + s).skip(x.len() as int));
        assert(t =~= (y + t).skip(y.len() as int));
        lemma_faithful(a.drop_first(), b.drop_first());
        assert(a =~= seq![a[0]] + a.drop_first());
        assert(b =~= seq![b[0]] + b.drop_first());
    }
}

/// A component ends where the next parameter begins.
proof fn lemma_component_ends(a: Seq<char>, r: Seq<char>, b: Seq<char>, s: Seq<char>)
    requires
        component(a) + r == component(b) + s,
        r.len() > 0 ==> r[0] == '&',
        s.len() > 0 ==> s[0] == '&',
    ensures
        a == b,
        r == s,
{
    let (x, y) = (component(a), component(b));
    components_are_inert(a);
    components_are_inert(b);
    assert((x + r).len() == (y + s).len());
    if x.len() < y.len() {
        assert((x + r)[x.len() as int] == r[0]);
        assert((y + s)[x.len() as int] == y[x.len() as int]);
        assert(component_char(y[x.len() as int]));
    }
    if y.len() < x.len() {
        assert((y + s)[y.len() as int] == s[0]);
        assert((x + r)[y.len() as int] == x[y.len() as int]);
        assert(component_char(x[y.len() as int]));
    }
    assert(x =~= (x + r).take(x.len() as int));
    assert(y =~= (y + s).take(y.len() as int));
    assert(r =~= (x + r).skip(x.len() as int));
    assert(s =~= (y + s).skip(y.len() as int));
    components_are_faithful(a, b);
}

/// A search URL tells what is asked for: two searches of one instance with the
/// same URL have the same query, language and freshness.
pub proof fn a_search_url_tells_the_search(
    instance: Seq<char>,
    query: Seq<char>,
    language: Option<Seq<char>>,
    freshness: Option<Seq<char>>,
    other_query: Seq<char>,
    other_language: Option<Seq<char>>,
    other_freshness: Option<Seq<char>>,
)
    requires
        search_url_of(instance, query, language, freshness) == search_url_of(
            instance,
            other_query,
            other_language,
            other_freshness,
        ),
    ensures
        query == other_query,
        language == other_language,
        freshness == other_freshness,
{
    let start = without_trailing_slashes(instance) + "/search?q="@;
    let fixed = "&format=json&categories=general&pageno=1"@;
    let (l, t) = (parameter("&language="@, language), parameter("&time_range="@, freshness));
    let (m, u) = (
        parameter("&language="@, other_language),
        parameter("&time_range="@, other_freshness),
    );
    reveal_strlit("&format=json&categories=general&pageno=1");
    reveal_strlit("&language=");
    reveal_strlit("&time_range=");
    let this = search_url_of(instance, query, language, freshness);
    let that = search_url_of(instance, other_query, other_language, other_freshness);
    assert(this.skip(start.len() as int) =~= component(query) + (fixed + (l + t)));
    assert(that.skip(start.len() as int) =~= component(other_query) + (fixed + (m + u)));
    lemma_component_ends(query, fixed + (l + t), other_query, fixed + (m + u));
    assert((fixed + (l + t)).skip(fixed.len() as int) =~= l + t);
    assert((fixed + (m + u)).skip(fixed.len() as int) =~= m + u);
    match (language, other_language) {
        (Some(a), Some(b)) => {
            assert((l + t).skip(10) =~= component(a) + t);
            assert((m + u).skip(10) =~= component(b) + u);
            lemma_component_ends(a, t, b, u);
        },
        (None, None) => {
            assert(l + t =~= t);
            assert(m + u =~= u);
        },
        (Some(_), None) => {
            assert((l + t)[1] == 'l');
            assert(m + u =~= u);
        },
        (None, Some(_)) => {
            assert((m + u)[1] == 'l');
            assert(l + t =~= t);
        },
    }
    assert(t == u);
    if let (Some(a), Some(b)) = (freshness, other_freshness) {
        assert(t.skip(12) =~= component(a));
        assert(u.skip(12) =~= component(b));
        components_are_faithful(a, b);
    }
}

/// There are never more results than were asked for.
pub proof fn results_are_bounded(body: JsonModel, count: nat)
    ensures
        results_of(body, count).len() <= count,
{
    if let Some(items) = body.member("results"@).items() {
        lemma_no_more_than_items(first_items(items, count));
    }
}

proof fn lemma_no_more_than_items(items: Seq<JsonModel>)
    ensures
        results(items).len() <= items.len(),
    decreases items.len(),
{
    if items.len() > 0 {
        lemma_no_more_than_items(items.drop_last());
    }
}

/// Every result names a source.
pub proof fn every_result_names_a_source(body: JsonModel, count: nat)
    ensures
        forall|i: int|
            0 <= i < results_of(body, count).len() ==> (#[trigger] results_of(
                body,
                count,
            )[i]).source.len() > 0,
{
    if let Some(items) = body.member("results"@).items() {
        lemma_sources(first_items(items, count));
    }
}

proof fn lemma_sources(items: Seq<JsonModel>)
    ensures
        forall|i: int| 0 <= i < results(items).len() ==> (#[trigger] results(items)[i]).source.len() > 0,
    decreases items.len(),
{
    if items.len() > 0 {
        lemma_sources(items.drop_last());
        reveal_strlit("SearXNG");
        let earlier = results(items.drop_last());
        assert forall|i: int| 0 <= i < results(items).len() implies (
        #[trigger] results(items)[i]).source.len() > 0 by {
            if i < earlier.len() {
                assert(results(items)[i] == earlier[i]);
            } else {
                assert(DEFAULT_SOURCE@.len() > 0);
                assert(Some(results(items)[i]) == result_of(items.last()));
            }
        }
    }
}

/// To ask for more results keeps the ones that came first.
pub proof fn more_results_keep_the_first(body: JsonModel, fewer: nat, more: nat)
    requires
        fewer <= more,
    ensures
        results_of(body, fewer).is_prefix_of(results_of(body, more)),
{
    if let Some(items) = body.member("results"@).items() {
        let all = first_items(items, more);
        let some = first_items(items, fewer);
        assert(some =~= all.take(some.len() as int));
        lemma_results_prefix(all, some.len() as int);
    }
}

proof fn lemma_results_prefix(items: Seq<JsonModel>, n: int)
    requires
        0 <= n <= items.len(),
    ensures
        results(items.take(n)).is_prefix_of(results(items)),
    decreases items.len(),
{
    if n == items.len() {
        assert(items.take(n) =~= items);
    } else {
        lemma_results_prefix(items.drop_last(), n);
        assert(items.drop_last().take(n) =~= items.take(n));
        let shorter = results(items.drop_last());
        let first = results(items.take(n));
        assert(first =~= results(items).subrange(0, first.len() as int)) by {
            assert(first == shorter.subrange(0, first.len() as int));
        }
    }
}

/// A text of unreserved characters is its own URL component, every other byte is
/// a percent sign with its two hexadecimal digits, and the component of a text is
/// made of those of its pieces.
pub proof fn components_are_encoded_piece_by_piece(a: Seq<u8>, b: Seq<u8>, byte: u8)
    ensures
        percent_encoded(a + b) == percent_encoded(a) + percent_encoded(b),
        percent_encoded(Seq::empty()) == Seq::<char>::empty(),
        ('0' <= byte as char <= '9' || 'A' <= byte as char <= 'Z' || 'a' <= byte as char <= 'z'
            || byte as char == '-' || byte as char == '.' || byte as char == '_' || byte as char
            == '~') ==> percent_encoded(seq![byte]) == seq![byte as char],
        !('0' <= byte as char <= '9' || 'A' <= byte as char <= 'Z' || 'a' <= byte as char <= 'z'
            || byte as char == '-' || byte as char == '.' || byte as char == '_' || byte as char
            == '~') ==> {
            let digits = seq![
                '0',
                '1',
                '2',
                '3',
                '4',
                '5',
                '6',
                '7',
                '8',
                '9',
                'A',
                'B',
                'C',
                'D',
                'E',
                'F',
            ];
            percent_encoded(seq![byte]) == seq![
                '%',
                digits[byte as int / 16],
                digits[byte as int % 16],
            ]
        },
    decreases a.len(),
{
    reveal_with_fuel(percent_encoded, 2);
    assert(seq![byte].drop_first() =~= Seq::empty());
    assert(percent_encoded(seq![byte]) =~= percent_encoded_byte(byte));
    if a.len() == 0 {
        assert(a + b =~= b);
        assert(percent_encoded(a) + percent_encoded(b) =~= percent_encoded(b));
    } else {
        components_are_encoded_piece_by_piece(a.drop_first(), b, byte);
        assert((a + b).drop_first() =~= a.drop_first() + b);
        assert(percent_encoded(a + b) =~= percent_encoded(a) + percent_encoded(b));
    }
}

/// Nothing but the slashes at its end is taken off an instance.
pub proof fn only_trailing_slashes_are_taken_off(instance: Seq<char>)
    ensures
        exists|slashes: Seq<char>|
            instance == #[trigger] (without_trailing_slashes(instance) + slashes) && forall|i: int|
                0 <= i < slashes.len() ==> slashes[i] == '/',
        without_trailing_slashes(instance).len() > 0 ==> without_trailing_slashes(instance).last()
            != '/',
        instance.len() == 0 || instance.last() != '/' ==> without_trailing_slashes(instance)
            == instance,
    decreases instance.len(),
{
    let base = without_trailing_slashes(instance);
    if instance.len() > 0 && instance.last() == '/' {
        only_trailing_slashes_are_taken_off(instance.drop_last());
        let fewer = choose|slashes: Seq<char>|
            instance.drop_last() == #[trigger] (base + slashes) && forall|i: int|
                0 <= i < slashes.len() ==> slashes[i] == '/';
        assert(instance =~= instance.drop_last().push('/'));
        assert(instance =~= base + fewer.push('/'));
        assert(instance == base + fewer.push('/'));
    } else {
        assert(instance =~= base + Seq::empty());
        assert(instance == base + Seq::<char>::empty());
    }
}

/// The URL is the instance without the slashes at its end, the search path with
/// the query, and the fixed parameters; a language and a freshness add one
/// parameter each at its end.
pub proof fn search_urls_are_built_in_order(
    instance: Seq<char>,
    query: Seq<char>,
    language: Option<Seq<char>>,
    value: Seq<char>,
)
    ensures
        search_url_of(instance, query, None, None) == without_trailing_slashes(instance)
            + "/search?q="@ + component(query) + "&format=json&categories=general&pageno=1"@,
        search_url_of(instance, query, Some(value), None) == search_url_of(
            instance,
            query,
            None,
            None,
        ) + "&language="@ + component(value),
        search_url_of(instance, query, language, Some(value)) == search_url_of(
            instance,
            query,
            language,
            None,
        ) + "&time_range="@ + component(value),
        without_trailing_slashes(instance).is_prefix_of(
            search_url_of(instance, query, language, Some(value)),
        ),
        component(value) == percent_encoded(encode_utf8(value)),
{
    let plain = search_url_of(instance, query, None, None);
    assert(plain =~= without_trailing_slashes(instance) + "/search?q="@ + component(query)
        + "&format=json&categories=general&pageno=1"@);
    assert(search_url_of(instance, query, Some(value), None) =~= plain + "&language="@ + component(
        value,
    ));
    assert(search_url_of(instance, query, language, Some(value)) =~= search_url_of(
        instance,
        query,
        language,
        None,
    ) + "&time_range="@ + component(value));
    assert(without_trailing_slashes(instance) =~= search_url_of(
        instance,
        query,
        language,
        Some(value),
    ).subrange(0, without_trailing_slashes(instance).len() as int));
}

/// An instance that does not end with a slash stands unchanged at the start of
/// every URL.
pub proof fn urls_begin_with_the_instance(
    instance: Seq<char>,
    query: Seq<char>,
    language: Option<Seq<char>>,
    freshness: Option<Seq<char>>,
)
    requires
        instance.len() == 0 || instance.last() != '/',
    ensures
        (instance + "/search?q="@ + component(query)).is_prefix_of(
            search_url_of(instance, query, language, freshness),
        ),
{
    only_trailing_slashes_are_taken_off(instance);
    let start = instance + "/search?q="@ + component(query);
    assert(start =~= search_url_of(instance, query, language, freshness).subrange(
        0,
        start.len() as int,
    ));
}

/// The statuses from 200 to 299 say that a request succeeded, and no others.
pub proof fn two_hundreds_succeed(status: u16)
    ensures
        success(status) <==> status as int / 100 == 2,
{
}

/// The strings of two lists are those of the first and those of the second; a
/// string is taken as it is, and what is no string is left out.
pub proof fn strings_are_taken_in_order(a: Seq<JsonModel>, b: Seq<JsonModel>, item: JsonModel)
    ensures
        texts(a + b) == texts(a) + texts(b),
        texts(Seq::empty()) == Seq::<Seq<char>>::empty(),
        item matches JsonModel::Text(chars) ==> texts(seq![item]) == seq![chars],
        !(item is Text) ==> texts(seq![item]) == Seq::<Seq<char>>::empty(),
    decreases b.len(),
{
    reveal_with_fuel(texts, 2);
    assert(seq![item].drop_last() =~= Seq::empty());
    if item is Text {
        assert(texts(seq![item]) =~= seq![item->Text_0]);
    }
    if b.len() == 0 {
        assert(a + b =~= a);
        assert(texts(a) + texts(b) =~= texts(a));
    } else {
        strings_are_taken_in_order(a, b.drop_last(), item);
        assert((a + b).drop_last() =~= a + b.drop_last());
        assert(texts(a + b) =~= texts(a) + texts(b));
    }
}

/// The source of a result is the names of its engines with commas between them;
/// where there are none to be named it is the search service.
pub proof fn sources_name_the_engines(engines: JsonModel)
    ensures
        match engines {
            JsonModel::Array(items) => {
                &&& text::joined(texts(items), ", "@).len() > 0 ==> source_of(engines)
                    == text::joined(texts(items), ", "@)
                &&& text::joined(texts(items), ", "@).len() == 0 ==> source_of(engines)
                    == "SearXNG"@
            },
            _ => source_of(engines) == "SearXNG"@,
        },
{
}

/// An item is a result exactly where it has a title and a URL that are strings,
/// and the result has these; its snippet is the content of the item, where that
/// is a string, and else empty.
pub proof fn items_with_title_and_url_are_results(item: JsonModel)
    ensures
        result_of(item) is Some <==> item.member("title"@) is Text && item.member("url"@) is Text,
        result_of(item) matches Some(result) ==> {
            &&& item.member("title"@) == JsonModel::Text(result.title)
            &&& item.member("url"@) == JsonModel::Text(result.url)
            &&& item.member("content"@) matches JsonModel::Text(chars) ==> result.snippet == chars
            &&& !(item.member("content"@) is Text) ==> result.snippet.len() == 0
            &&& result.source == source_of(item.member("engines"@))
        },
{
}

/// The results of two lists of items are those of the first and those of the
/// second; an item gives its result, if it is one, and nothing else.
pub proof fn results_are_taken_in_order(a: Seq<JsonModel>, b: Seq<JsonModel>, item: JsonModel)
    ensures
        results(a + b) == results(a) + results(b),
        results(Seq::empty()) == Seq::<ResultModel>::empty(),
        result_of(item) matches Some(result) ==> results(seq![item]) == seq![result],
        result_of(item) is None ==> results(seq![item]) == Seq::<ResultModel>::empty(),
    decreases b.len(),
{
    reveal_with_fuel(results, 2);
    assert(seq![item].drop_last() =~= Seq::empty());
    if let Some(result) = result_of(item) {
        assert(results(seq![item]) =~= seq![result]);
    }
    if b.len() == 0 {
        assert(a + b =~= a);
        assert(results(a) + results(b) =~= results(a));
    } else {
        results_are_taken_in_order(a, b.drop_last(), item);
        assert((a + b).drop_last() =~= a + b.drop_last());
        assert(results(a + b) =~= results(a) + results(b));
    }
}

/// The items that are looked at are the first ones, as many as were asked for or
/// all that there are, and without a list of items there are no results.
pub proof fn the_first_items_are_looked_at(
    body: JsonModel,
    first: Seq<JsonModel>,
    more: Seq<JsonModel>,
    count: nat,
)
    ensures
        !(body.member("results"@) is Array) ==> results_of(body, count).len() == 0,
        body.member("results"@) == JsonModel::Array(first) && first.len() <= count ==> results_of(
            body,
            count,
        ) == results(first),
        body.member("results"@) == JsonModel::Array(first + more) && first.len() == count
            ==> results_of(body, count) == results(first),
{
    if body.member("results"@) == JsonModel::Array(first + more) && first.len() == count {
        assert(first_items(first + more, count) =~= first);
    }
}

/// Every item among the first ones that has a title and a URL gives a result:
/// where all of them have, there is one result for each of them, in their order,
/// with its title and its URL.
pub proof fn every_complete_item_gives_a_result(
    body: JsonModel,
    items: Seq<JsonModel>,
    count: nat,
    n: nat,
)
    requires
        body.member("results"@) == JsonModel::Array(items),
        n == if items.len() <= count {
            items.len()
        } else {
            count
        },
        forall|i: int|
            0 <= i < n ==> (#[trigger] items[i]).member("title"@) is Text && items[i].member(
                "url"@,
            ) is Text,
    ensures
        results_of(body, count).len() == n,
        forall|i: int|
            0 <= i < n ==> JsonModel::Text((#[trigger] results_of(body, count)[i]).title)
                == items[i].member("title"@) && JsonModel::Text(results_of(body, count)[i].url)
                == items[i].member("url"@),
{
    let looked_at = items.take(n as int);
    assert(first_items(items, count) =~= looked_at);
    assert forall|i: int| 0 <= i < looked_at.len() implies (#[trigger] looked_at[i]).member(
        "title"@,
    ) is Text && looked_at[i].member("url"@) is Text by {
        assert(items[i].member("title"@) is Text);
    }
    lemma_complete_items(looked_at);
    assert forall|i: int| 0 <= i < n implies JsonModel::Text(
        (#[trigger] results_of(body, count)[i]).title,
    ) == items[i].member("title"@) && JsonModel::Text(results_of(body, count)[i].url)
        == items[i].member("url"@) by {
        assert(results(looked_at)[i] == results_of(body, count)[i]);
        assert(looked_at[i] == items[i]);
        assert(Some(results(looked_at)[i]) == result_of(looked_at[i]));
    }
}

proof fn lemma_complete_items(items: Seq<JsonModel>)
    requires
        forall|i: int|
            0 <= i < items.len() ==> (#[trigger] items[i]).member("title"@) is Text
                && items[i].member("url"@) is Text,
    ensures
        results(items).len() == items.len(),
        forall|i: int|
            0 <= i < items.len() ==> Some(#[trigger] results(items)[i]) == result_of(items[i]),
    decreases items.len(),
{
    if items.len() > 0 {
        let earlier = items.drop_last();
        assert forall|i: int| 0 <= i < earlier.len() implies (#[trigger] earlier[i]).member(
            "title"@,
        ) is Text && earlier[i].member("url"@) is Text by {
            assert(items[i].member("title"@) is Text);
        }
        lemma_complete_items(earlier);
        assert(items[items.len() - 1].member("title"@) is Text);
        assert forall|i: int| 0 <= i < items.len() implies Some(#[trigger] results(items)[i])
            == result_of(items[i]) by {
            if i < earlier.len() {
                assert(results(items)[i] == results(earlier)[i]);
                assert(Some(results(earlier)[i]) == result_of(earlier[i]));
            }
        }
    }
}

/// What results say is said one by one, in their order, in all four fields.
pub proof fn results_say_all_that_they_hold(found: Seq<SearchResult>, i: int)
    requires
        0 <= i < found.len(),
    ensures
        results_model(found).len() == found.len(),
        results_model(found)[i].title == found[i].title@,
        results_model(found)[i].url == found[i].url@,
        results_model(found)[i].snippet == found[i].snippet@,
        results_model(found)[i].source == found[i].source@,
{
}

} // verus!
