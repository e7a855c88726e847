//! Retrieval augmenter: turns the HTML of a web search result page into a
//! textual context block and a list of citable sources. Up to five result
//! triples (title, snippet, link) are extracted in listing order; triples
//! missing a title or link are skipped; links are normalized to absolute
//! https form. Zero extracted triples degrade to a fixed "no results"
//! context and an empty source list — never an error.
//!
//! The network call itself is the surrounding application's business; this
//! module owns everything from the fetched HTML onwards, as well as the
//! request URL construction and the fixed failure texts.

use vstd::prelude::*;
use vstd::string::*;
use vstd::utf8::encode_utf8;
use crate::message::{source_views, SourceView, WebSource};
use crate::text::{chars_of, has_prefix, hex_char, hex_char_of, seq_has_prefix, string_from_chars};

verus! {

/// One extracted result triple: title text, snippet text and link target,
/// each absent when the page lacked the element or attribute.
pub open spec fn triple_view(t: (Option<String>, Option<String>, Option<String>)) -> (
    Option<Seq<char>>,
    Option<Seq<char>>,
    Option<Seq<char>>,
) {
    (
        match t.0 {
            Option::Some(s) => Option::Some(s@),
            Option::None => Option::None,
        },
        match t.1 {
            Option::Some(s) => Option::Some(s@),
            Option::None => Option::None,
        },
        match t.2 {
            Option::Some(s) => Option::Some(s@),
            Option::None => Option::None,
        },
    )
}

/// The views of a triple list, in order.
pub open spec fn triple_views(s: Seq<(Option<String>, Option<String>, Option<String>)>) -> Seq<
    (Option<Seq<char>>, Option<Seq<char>>, Option<Seq<char>>),
> {
    s.map_values(|t: (Option<String>, Option<String>, Option<String>)| triple_view(t))
}

/// What scraper extracts from a given search result page: one triple per
/// result container, in document order.
pub uninterp spec fn extracted_results_of(html: Seq<char>) -> Seq<
    (Option<Seq<char>>, Option<Seq<char>>, Option<Seq<char>>),
>;

/// Relies on scraper's HTML parsing and CSS selection (`Html::parse_document`,
/// `Selector::parse`, `ElementRef::{select, text, attr}`): one entry per
/// `.result__body` container in document order, holding the text of the first
/// `.result__a` element, the text of the first `.result__snippet` element and
/// the `href` of the title link, each where present. The extraction is a
/// function of the document text alone.
#[verifier::external_body]
fn extract_results(html: &str) -> (r: Vec<(Option<String>, Option<String>, Option<String>)>)
    ensures
        triple_views(r@) == extracted_results_of(html@),
{
    let document = scraper::Html::parse_document(html);
    let result_selector = scraper::Selector::parse(".result__body").unwrap();
    let title_selector = scraper::Selector::parse(".result__a").unwrap();
    let snippet_selector = scraper::Selector::parse(".result__snippet").unwrap();
    let mut out = Vec::new();
    for result in document.select(&result_selector) {
        let title_el = result.select(&title_selector).next();
        let snippet_el = result.select(&snippet_selector).next();
        out.push((
            title_el.map(|el| el.text().collect::<String>()),
            snippet_el.map(|el| el.text().collect::<String>()),
            title_el.and_then(|el| el.value().attr("href")).map(|s| s.to_string()),
        ));
    }
    out
}

/// A link is already absolute when it carries a real scheme prefix.
pub open spec fn is_absolute_url(u: Seq<char>) -> bool {
    seq_has_prefix(u, "http://"@) || seq_has_prefix(u, "https://"@)
}

/// A normalized link: protocol-relative links get an explicit scheme,
/// already-absolute links stay untouched, and anything else is resolved
/// against the search engine's origin.
pub open spec fn normalized_url(u: Seq<char>) -> Seq<char> {
    if seq_has_prefix(u, "//"@) {
        "https:"@ + u
    } else if is_absolute_url(u) {
        u
    } else {
        "https://duckduckgo.com"@ + u
    }
}

/// Normalizes one raw link.
pub fn normalize_url(raw: &str) -> (r: String)
    ensures
        r@ == normalized_url(raw@),
{
    let cv = chars_of(raw);
    let slashes = chars_of("//");
    if has_prefix(&cv, &slashes) {
        let mut s = String::from_str("https:");
        s.append(raw);
        s
    } else {
        let http_scheme = chars_of("http://");
        let https_scheme = chars_of("https://");
        if has_prefix(&cv, &http_scheme) || has_prefix(&cv, &https_scheme) {
            String::from_str(raw)
        } else {
            let mut s = String::from_str("https://duckduckgo.com");
            s.append(raw);
            s
        }
    }
}

/// Law: whatever raw link comes in, the normalized link is absolute — it
/// starts with a real scheme.
pub proof fn lemma_normalized_url_absolute(u: Seq<char>)
    ensures
        is_absolute_url(normalized_url(u)),
{
    reveal_strlit("//");
    reveal_strlit("http://");
    reveal_strlit("https://");
    reveal_strlit("https:");
    reveal_strlit("https://duckduckgo.com");
    let r = normalized_url(u);
    if seq_has_prefix(u, "//"@) {
        assert(r == "https:"@ + u);
        assert forall|k: int| 0 <= k < "https://"@.len() implies r[k] == "https://"@[k] by {
            if k < "https:"@.len() {
                assert(r[k] == "https:"@[k]);
            } else {
                assert(r[k] == u[k - "https:"@.len()]);
                assert(u.subrange(0, 2)[k - "https:"@.len()] == u[k - "https:"@.len()]);
            }
        }
        assert(r.subrange(0, "https://"@.len() as int) =~= "https://"@);
    } else if is_absolute_url(u) {
    } else {
        assert(r == "https://duckduckgo.com"@ + u);
        assert forall|k: int| 0 <= k < "https://"@.len() implies r[k] == "https://"@[k] by {
            assert(r[k] == "https://duckduckgo.com"@[k]);
        }
        assert(r.subrange(0, "https://"@.len() as int) =~= "https://"@);
    }
}

/// A triple is usable when both elements were present and the title and
/// link are non-empty (an empty snippet is fine).
pub open spec fn is_valid(t: (Option<Seq<char>>, Option<Seq<char>>, Option<Seq<char>>)) -> bool {
    &&& t.0 is Some
    &&& t.1 is Some
    &&& t.2 is Some
    &&& t.0->Some_0.len() > 0
    &&& t.2->Some_0.len() > 0
}

/// The source a usable triple contributes.
pub open spec fn source_of(t: (Option<Seq<char>>, Option<Seq<char>>, Option<Seq<char>>))
    -> SourceView {
    SourceView { title: t.0->Some_0, url: normalized_url(t.2->Some_0) }
}

/// The context text a usable triple contributes.
pub open spec fn entry_text(t: (Option<Seq<char>>, Option<Seq<char>>, Option<Seq<char>>)) -> Seq<
    char,
> {
    "- Source: "@ + t.0->Some_0 + "\n  Content: "@ + t.1->Some_0 + "\n\n"@
}

/// The concatenated context entries of the usable triples, in order.
pub open spec fn outcome_body(ts: Seq<(Option<Seq<char>>, Option<Seq<char>>, Option<Seq<char>>)>)
    -> Seq<char>
    decreases ts.len(),
{
    if ts.len() == 0 {
        Seq::empty()
    } else {
        outcome_body(ts.drop_last()) + (if is_valid(ts.last()) {
            entry_text(ts.last())
        } else {
            Seq::empty()
        })
    }
}

/// The sources of the usable triples, in order.
pub open spec fn outcome_sources(ts: Seq<(Option<Seq<char>>, Option<Seq<char>>, Option<Seq<char>>)>)
    -> Seq<SourceView>
    decreases ts.len(),
{
    if ts.len() == 0 {
        Seq::empty()
    } else {
        outcome_sources(ts.drop_last()) + (if is_valid(ts.last()) {
            seq![source_of(ts.last())]
        } else {
            Seq::empty()
        })
    }
}

/// Only the first five triples of the listing are considered.
pub open spec fn considered(ts: Seq<(Option<Seq<char>>, Option<Seq<char>>, Option<Seq<char>>)>)
    -> Seq<(Option<Seq<char>>, Option<Seq<char>>, Option<Seq<char>>)> {
    if ts.len() > 5 {
        ts.take(5)
    } else {
        ts
    }
}

/// The banner that opens a non-empty context block.
pub open spec fn banner_text() -> Seq<char> {
    "\nWeb Search Data (Current Date: 2026):\n"@
}

/// The fixed context reported when nothing usable was extracted.
pub open spec fn no_results_text() -> Seq<char> {
    "No search results found on the web."@
}

/// The full context block of an extraction.
pub open spec fn search_context_text(ts: Seq<(Option<Seq<char>>, Option<Seq<char>>, Option<
    Seq<char>,
>)>) -> Seq<char> {
    if outcome_sources(considered(ts)).len() == 0 {
        no_results_text()
    } else {
        banner_text() + outcome_body(considered(ts))
    }
}

/// The sources of an extraction.
pub open spec fn search_sources(ts: Seq<(Option<Seq<char>>, Option<Seq<char>>, Option<Seq<char>>)>)
    -> Seq<SourceView> {
    outcome_sources(considered(ts))
}

/// The source list never outgrows the triples it came from.
proof fn lemma_outcome_sources_len(ts: Seq<(Option<Seq<char>>, Option<Seq<char>>, Option<
    Seq<char>,
>)>)
    ensures
        outcome_sources(ts).len() <= ts.len(),
    decreases ts.len(),
{
    if ts.len() > 0 {
        lemma_outcome_sources_len(ts.drop_last());
    }
}

/// Law: every gathered source has a non-empty title and an absolute link.
pub proof fn lemma_outcome_sources_shape(ts: Seq<(Option<Seq<char>>, Option<Seq<char>>, Option<
    Seq<char>,
>)>)
    ensures
        forall|k: int|
            0 <= k < outcome_sources(ts).len() ==> is_absolute_url(
                #[trigger] outcome_sources(ts)[k].url,
            ) && outcome_sources(ts)[k].title.len() > 0,
    decreases ts.len(),
{
    if ts.len() > 0 {
        lemma_outcome_sources_shape(ts.drop_last());
        if is_valid(ts.last()) {
            lemma_normalized_url_absolute(ts.last().2->Some_0);
            assert(forall|k: int|
                0 <= k < outcome_sources(ts.drop_last()).len() ==> outcome_sources(ts)[k]
                    == outcome_sources(ts.drop_last())[k]);
            assert(outcome_sources(ts).last() == source_of(ts.last()));
        } else {
            assert(outcome_sources(ts) =~= outcome_sources(ts.drop_last()));
        }
    }
}

/// Is this extracted triple usable?
fn triple_is_valid(t: &(Option<String>, Option<String>, Option<String>)) -> (r: bool)
    ensures
        r == is_valid(triple_view(*t)),
{
    match (&t.0, &t.1, &t.2) {
        (Option::Some(title), Option::Some(_snippet), Option::Some(raw)) => !title.as_str()
            .is_empty() && !raw.as_str().is_empty(),
        _ => false,
    }
}

/// The string inside a present option.
fn some_str(o: &Option<String>) -> (r: &str)
    requires
        o is Some,
    ensures
        r@ == o->Some_0@,
{
    match o {
        Option::Some(s) => s.as_str(),
        Option::None => {
            assert(false);
            ""
        },
    }
}

/// Builds the context block and source list from the extracted triples.
/// With no usable triple, the context is the non-empty "no results" text
/// and the source list is empty.
pub fn build_search_outcome(results: &Vec<(Option<String>, Option<String>, Option<String>)>) -> (r:
    (String, Vec<WebSource>))
    ensures
        r.0@ == search_context_text(triple_views(results@)),
        source_views(r.1@) == search_sources(triple_views(results@)),
        r.1@.len() == 0 ==> r.0@.len() > 0,
        r.1@.len() <= 5,
        forall|k: int|
            0 <= k < r.1@.len() ==> is_absolute_url(#[trigger] source_views(r.1@)[k].url)
                && source_views(r.1@)[k].title.len() > 0,
{
    proof {
        lemma_outcome_sources_len(considered(triple_views(results@)));
        lemma_outcome_sources_shape(considered(triple_views(results@)));
    }
    let ghost ts = triple_views(results@);
    let ghost cons = considered(ts);
    let n = results.len();
    let limit: usize = if n > 5 {
        5
    } else {
        n
    };
    proof {
        assert(cons =~= ts.take(limit as int));
    }
    let mut body = String::new();
    let mut sources: Vec<WebSource> = Vec::new();
    let mut i: usize = 0;
    while i < limit
        invariant
            ts == triple_views(results@),
            cons == considered(ts),
            n == results@.len(),
            limit <= n,
            cons =~= ts.take(limit as int),
            i <= limit,
            body@ == outcome_body(cons.take(i as int)),
            source_views(sources@) == outcome_sources(cons.take(i as int)),
        decreases limit - i,
    {
        let ghost tv = cons[i as int];
        proof {
            assert(tv == triple_view(results@[i as int]));
            assert(cons.take(i + 1).drop_last() =~= cons.take(i as int));
            assert(cons.take(i + 1).last() == tv);
        }
        if triple_is_valid(&results[i]) {
            let title = some_str(&results[i].0);
            let snippet = some_str(&results[i].1);
            let raw = some_str(&results[i].2);
            let url = normalize_url(raw);
            let ghost presources = source_views(sources@);
            sources.push(WebSource { title: String::from_str(title), url });
            body.append("- Source: ");
            body.append(title);
            body.append("\n  Content: ");
            body.append(snippet);
            body.append("\n\n");
            proof {
                assert(source_views(sources@) =~= presources + seq![source_of(tv)]);
                assert(body@ =~= outcome_body(cons.take(i + 1)));
            }
        } else {
            proof {
                assert(body@ =~= outcome_body(cons.take(i + 1)));
                assert(source_views(sources@) =~= outcome_sources(cons.take(i + 1)));
            }
        }
        i += 1;
    }
    proof {
        assert(cons.take(limit as int) =~= cons);
    }
    if sources.len() == 0 {
        proof {
            reveal_strlit("No search results found on the web.");
            assert(source_views(sources@) =~= Seq::<SourceView>::empty());
        }
        (String::from_str("No search results found on the web."), sources)
    } else {
        let mut ctx = String::from_str("\nWeb Search Data (Current Date: 2026):\n");
        ctx.append(body.as_str());
        proof {
            assert(source_views(sources@).len() == sources@.len());
        }
        (ctx, sources)
    }
}

/// Parses a fetched result page and builds the search outcome from it.
pub fn search_outcome_from_html(html: &str) -> (r: (String, Vec<WebSource>))
    ensures
        r.0@ == search_context_text(extracted_results_of(html@)),
        source_views(r.1@) == search_sources(extracted_results_of(html@)),
        r.1@.len() == 0 ==> r.0@.len() > 0,
        r.1@.len() <= 5,
        forall|k: int|
            0 <= k < r.1@.len() ==> is_absolute_url(#[trigger] source_views(r.1@)[k].url)
                && source_views(r.1@)[k].title.len() > 0,
{
    let results = extract_results(html);
    build_search_outcome(&results)
}

/// The outcome reported when the search client could not be built.
pub fn search_init_failure_outcome() -> (r: (String, Vec<WebSource>))
    ensures
        r.0@ == "Search failed to initialize."@,
        r.1@.len() == 0,
{
    (String::from_str("Search failed to initialize."), Vec::new())
}

/// The outcome reported when the search endpoint could not be reached.
pub fn search_connect_failure_outcome() -> (r: (String, Vec<WebSource>))
    ensures
        r.0@ == "Failed to connect to search engine."@,
        r.1@.len() == 0,
{
    (String::from_str("Failed to connect to search engine."), Vec::new())
}

/// A byte that percent-encoding leaves as it is.
pub open spec fn is_unreserved(b: u8) -> bool {
    (65 <= b <= 90) || (97 <= b <= 122) || (48 <= b <= 57) || b == 45 || b == 95 || b == 46
        || b == 126
}

/// The percent-encoding of one byte.
pub open spec fn enc_byte(b: u8) -> Seq<char> {
    if is_unreserved(b) {
        seq![b as char]
    } else {
        seq!['%', hex_char(b / 16), hex_char(b % 16)]
    }
}

/// The percent-encoding of a byte sequence.
pub open spec fn percent_encoded(bs: Seq<u8>) -> Seq<char>
    decreases bs.len(),
{
    if bs.len() == 0 {
        Seq::empty()
    } else {
        percent_encoded(bs.drop_last()) + enc_byte(bs.last())
    }
}

/// Percent-encodes a byte sequence.
pub fn percent_encode(bytes: &Vec<u8>) -> (r: Vec<char>)
    ensures
        r@ == percent_encoded(bytes@),
{
    let n = bytes.len();
    let mut r: Vec<char> = Vec::new();
    let mut i: usize = 0;
    while i < n
        invariant
            n == bytes@.len(),
            i <= n,
            r@ == percent_encoded(bytes@.take(i as int)),
        decreases n - i,
    {
        let b = bytes[i];
        if (65 <= b && b <= 90) || (97 <= b && b <= 122) || (48 <= b && b <= 57) || b == 45
            || b == 95 || b == 46 || b == 126 {
            r.push(b as char);
        } else {
            r.push('%');
            r.push(hex_char_of(b / 16));
            r.push(hex_char_of(b % 16));
        }
        proof {
            assert(bytes@.take(i + 1).drop_last() =~= bytes@.take(i as int));
            assert(bytes@.take(i + 1).last() == bytes@[i as int]);
            assert(r@ =~= percent_encoded(bytes@.take(i + 1)));
        }
        i += 1;
    }
    proof {
        assert(bytes@.take(n as int) =~= bytes@);
    }
    r
}

/// The request URL of one search: the fixed endpoint with the query
/// percent-encoded.
pub open spec fn search_url_text(q: Seq<char>) -> Seq<char> {
    "https://html.duckduckgo.com/html/?q="@ + percent_encoded(encode_utf8(q))
}

/// Builds the request URL for one query.
pub fn search_url_for(query: &str) -> (r: String)
    ensures
        r@ == search_url_text(query@),
{
    let bytes = query.as_bytes_vec();
    let enc = percent_encode(&bytes);
    let tail = string_from_chars(&enc);
    let mut url = String::from_str("https://html.duckduckgo.com/html/?q=");
    url.append(tail.as_str());
    url
}

} // verus!
