use rdoc_mcp::cache::{Cache, CacheTable, InMemoryCache};
use rdoc_mcp::docs_parser::{DocContent, DocsRsParams};
use std::path::PathBuf;

fn create_params(name: &str) -> DocsRsParams {
    DocsRsParams {
        crate_name: name.to_string(),
        version: "1.0".to_string(),
        path: name.to_string(),
    }
}

fn create_content(text: &str) -> DocContent {
    DocContent { content: text.to_string() }
}

#[test]
fn test_insert_get_contains() {
    let mut cache = InMemoryCache::new(PathBuf::from("cache_dir"));
    let params1 = create_params("test1");
    let content1 = create_content("content1");
    let params2 = create_params("test2");

    assert!(!cache.contains_key(&params1));
    assert!(cache.get(&params1).is_none());

    cache.insert(params1.clone(), content1.clone());

    assert!(cache.contains_key(&params1));
    assert_eq!(cache.get(&params1), Some(content1));
    assert!(!cache.contains_key(&params2));
}

#[test]
fn test_clear() {
    let mut cache = InMemoryCache::new(PathBuf::from("cache_dir"));
    let params1 = create_params("test1");
    let content1 = create_content("content1");

    cache.insert(params1.clone(), content1.clone());
    assert!(cache.contains_key(&params1));

    cache.clear();
    assert!(!cache.contains_key(&params1));
    assert!(cache.get(&params1).is_none());
}

#[test]
fn new_cache_is_empty_and_keeps_its_directory() {
    let cache = InMemoryCache::new(PathBuf::from("some/dir"));
    assert!(cache.is_empty());
    assert_eq!(cache.len(), 0);
    assert_eq!(cache.cache_dir(), &PathBuf::from("some/dir"));
}

#[test]
fn insert_overwrites_the_value_of_a_key() {
    let mut cache = InMemoryCache::new(PathBuf::from("cache_dir"));
    let key = create_params("serde");
    cache.insert(key.clone(), create_content("old"));
    cache.insert(key.clone(), create_content("new"));
    assert_eq!(cache.len(), 1);
    assert_eq!(cache.get(&key), Some(create_content("new")));
}

#[test]
fn keys_differ_when_any_component_differs() {
    let mut cache = InMemoryCache::new(PathBuf::from("cache_dir"));
    let base = DocsRsParams {
        crate_name: "a".to_string(),
        version: "1".to_string(),
        path: "p".to_string(),
    };
    let other_crate = DocsRsParams { crate_name: "b".to_string(), ..base.clone() };
    let other_version = DocsRsParams { version: "2".to_string(), ..base.clone() };
    let other_path = DocsRsParams { path: "q".to_string(), ..base.clone() };
    cache.insert(base.clone(), create_content("base"));
    assert!(!cache.contains_key(&other_crate));
    assert!(!cache.contains_key(&other_version));
    assert!(!cache.contains_key(&other_path));
    cache.insert(other_crate.clone(), create_content("crate"));
    cache.insert(other_version.clone(), create_content("version"));
    cache.insert(other_path.clone(), create_content("path"));
    assert_eq!(cache.len(), 4);
    assert_eq!(cache.get(&base), Some(create_content("base")));
    assert_eq!(cache.get(&other_crate), Some(create_content("crate")));
    assert_eq!(cache.get(&other_version), Some(create_content("version")));
    assert_eq!(cache.get(&other_path), Some(create_content("path")));
}

#[test]
fn clear_forgets_every_key_that_was_present() {
    let mut cache = InMemoryCache::new(PathBuf::from("cache_dir"));
    let names = ["serde", "tokio", "rand", "clap"];
    for name in names {
        cache.insert(create_params(name), create_content(name));
    }
    assert_eq!(cache.len(), 4);
    cache.clear();
    assert!(cache.is_empty());
    for name in names {
        assert!(cache.get(&create_params(name)).is_none());
        assert!(!cache.contains_key(&create_params(name)));
    }
    cache.clear();
    assert!(cache.is_empty());
}

#[test]
fn get_hands_out_a_copy() {
    let mut cache = InMemoryCache::new(PathBuf::from("cache_dir"));
    let key = create_params("serde");
    cache.insert(key.clone(), create_content("text"));
    let mut copy = cache.get(&key).unwrap();
    copy.content.push_str(" changed");
    assert_eq!(cache.get(&key), Some(create_content("text")));
}

#[test]
fn table_holds_entries_in_order_of_insertion() {
    let mut table = CacheTable::new();
    assert!(table.is_empty());
    assert!(table.entry(0).is_none());
    table.insert(create_params("b"), create_content("1"));
    table.insert(create_params("a"), create_content("2"));
    table.insert(create_params("b"), create_content("3"));
    assert_eq!(table.len(), 2);
    let (key0, value0) = table.entry(0).unwrap();
    assert_eq!(key0, &create_params("b"));
    assert_eq!(value0, &create_content("3"));
    let (key1, value1) = table.entry(1).unwrap();
    assert_eq!(key1, &create_params("a"));
    assert_eq!(value1, &create_content("2"));
    assert!(table.entry(2).is_none());
    assert!(table.contains_key(&create_params("a")));
    assert_eq!(table.get(&create_params("c")), None);
    table.clear();
    assert_eq!(table.len(), 0);
}
