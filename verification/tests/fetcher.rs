use rdoc_mcp::cache::{Cache, InMemoryCache};
use rdoc_mcp::docs_parser::{DocContent, DocsFetchError, DocsRsClient, DocsRsParams, HttpReply};
use rdoc_mcp::mcp::{CacheAnswer, DocFetcher};
use std::path::PathBuf;

fn setup_test_fetcher() -> DocFetcher<InMemoryCache> {
    DocFetcher::new(InMemoryCache::new(PathBuf::from("cache_dir")))
}

fn serde_index() -> DocsRsParams {
    DocsRsParams {
        crate_name: "serde".to_string(),
        version: "1.0".to_string(),
        path: "serde/index.html".to_string(),
    }
}

/// Fetches as the service does, with a server that answers every request
/// with `reply`; counts the requests.
fn fetch_document(
    fetcher: &mut DocFetcher<InMemoryCache>,
    requests: &mut usize,
    params: &DocsRsParams,
    reply: HttpReply,
) -> Result<DocContent, DocsFetchError> {
    match fetcher.lookup_document(
        params.crate_name.clone(),
        params.version.clone(),
        params.path.clone(),
    ) {
        CacheAnswer::Hit(content) => Ok(content),
        CacheAnswer::Miss(params) => {
            *requests += 1;
            let fetched = DocsRsClient::new().fetch_docs(params.clone(), reply);
            fetcher.record_fetch(params, fetched)
        },
    }
}

#[test]
fn test_cache_hit() {
    let mut doc_fetcher = setup_test_fetcher();
    let mut requests = 0;
    let page = "<div id=\"rustdoc_body_wrapper\">A framework for serializing</div>";

    doc_fetcher.clear_cache();

    let result1 = fetch_document(
        &mut doc_fetcher,
        &mut requests,
        &serde_index(),
        HttpReply::Page(page.to_string()),
    )
    .unwrap();
    assert_eq!(requests, 1);

    let result2 = fetch_document(
        &mut doc_fetcher,
        &mut requests,
        &serde_index(),
        HttpReply::Page("<div id=\"rustdoc_body_wrapper\">changed</div>".to_string()),
    )
    .unwrap();
    assert_eq!(requests, 1, "the second request is answered from the cache");

    assert_eq!(result1.content, result2.content, "Cache returned different content");
    assert_eq!(result1.content, "A framework for serializing");
}

#[test]
fn lookup_answers_a_miss_with_the_parameters() {
    let fetcher = setup_test_fetcher();
    match fetcher.lookup_document("a".to_string(), "1".to_string(), "p".to_string()) {
        CacheAnswer::Miss(params) => {
            assert_eq!(
                params,
                DocsRsParams {
                    crate_name: "a".to_string(),
                    version: "1".to_string(),
                    path: "p".to_string(),
                }
            );
        },
        CacheAnswer::Hit(_) => panic!("nothing is cached yet"),
    }
}

#[test]
fn record_fetch_stores_content_and_hands_it_on() {
    let mut fetcher = setup_test_fetcher();
    let content = DocContent { content: "text".to_string() };
    assert!(!fetcher.is_cached(&serde_index()));
    let outcome = fetcher.record_fetch(serde_index(), Ok(content.clone()));
    assert_eq!(outcome.unwrap(), content);
    assert!(fetcher.is_cached(&serde_index()));
    assert_eq!(fetcher.cache().get(&serde_index()), Some(content.clone()));
    match fetcher.lookup_document(
        "serde".to_string(),
        "1.0".to_string(),
        "serde/index.html".to_string(),
    ) {
        CacheAnswer::Hit(found) => assert_eq!(found, content),
        CacheAnswer::Miss(_) => panic!("the page was stored"),
    }
}

#[test]
fn record_fetch_leaves_the_cache_alone_on_an_error() {
    let mut fetcher = setup_test_fetcher();
    let other = DocsRsParams {
        crate_name: "tokio".to_string(),
        version: "1".to_string(),
        path: "p".to_string(),
    };
    fetcher.record_fetch(other.clone(), Ok(DocContent { content: "kept".to_string() })).unwrap();
    let outcome = fetcher.record_fetch(serde_index(), Err(DocsFetchError::DocsNotFound));
    assert!(matches!(outcome, Err(DocsFetchError::DocsNotFound)));
    assert!(!fetcher.is_cached(&serde_index()));
    assert!(fetcher.is_cached(&other));
    assert_eq!(fetcher.cache().len(), 1);
}

#[test]
fn a_failed_fetch_is_tried_again() {
    let mut fetcher = setup_test_fetcher();
    let mut requests = 0;
    let first = fetch_document(&mut fetcher, &mut requests, &serde_index(), HttpReply::Refused);
    assert!(matches!(first, Err(DocsFetchError::DocsNotFound)));
    let second = fetch_document(
        &mut fetcher,
        &mut requests,
        &serde_index(),
        HttpReply::Page("<div id=\"rustdoc_body_wrapper\">now</div>".to_string()),
    );
    assert_eq!(second.unwrap().content, "now");
    assert_eq!(requests, 2);
}

#[test]
fn clear_cache_and_into_cache() {
    let mut fetcher = setup_test_fetcher();
    fetcher.record_fetch(serde_index(), Ok(DocContent { content: "x".to_string() })).unwrap();
    assert!(fetcher.is_cached(&serde_index()));
    fetcher.clear_cache();
    assert!(!fetcher.is_cached(&serde_index()));
    fetcher.record_fetch(serde_index(), Ok(DocContent { content: "y".to_string() })).unwrap();
    let cache = fetcher.into_cache();
    assert_eq!(cache.get(&serde_index()), Some(DocContent { content: "y".to_string() }));
}

#[test]
fn cache_mut_changes_the_cache_of_the_fetcher() {
    let mut fetcher = setup_test_fetcher();
    fetcher.cache_mut().insert(serde_index(), DocContent { content: "put in".to_string() });
    assert!(fetcher.is_cached(&serde_index()));
    fetcher.cache_mut().clear();
    assert!(!fetcher.is_cached(&serde_index()));
    assert!(fetcher.cache().is_empty());
}
