use rdoc_mcp::cache::{denormalize_key, normalize_key};
use rdoc_mcp::docs_parser::DocsRsParams;

fn params(crate_name: &str, version: &str, path: &str) -> DocsRsParams {
    DocsRsParams {
        crate_name: crate_name.to_string(),
        version: version.to_string(),
        path: path.to_string(),
    }
}

#[test]
fn normalize_joins_version_and_path() {
    assert_eq!(normalize_key(&params("serde", "1.0", "index.html")), "1.0::index.html");
    assert_eq!(normalize_key(&params("serde", "1.0.150", "derive")), "1.0.150::derive");
    assert_eq!(normalize_key(&params("serde", "", "")), "::");
    assert_eq!(normalize_key(&params("x", "1.0", "std::vec")), "1.0::std::vec");
}

#[test]
fn denormalize_cuts_at_the_first_separator() {
    assert_eq!(
        denormalize_key("serde", "1.0::index.html"),
        Ok(params("serde", "1.0", "index.html"))
    );
    assert_eq!(denormalize_key("x", "1.0::std::vec"), Ok(params("x", "1.0", "std::vec")));
    assert_eq!(denormalize_key("x", "::"), Ok(params("x", "", "")));
    assert_eq!(denormalize_key("x", "a::"), Ok(params("x", "a", "")));
    assert_eq!(denormalize_key("x", "::b"), Ok(params("x", "", "b")));
    assert_eq!(denormalize_key("x", ":::"), Ok(params("x", "", ":")));
    assert_eq!(denormalize_key("", "v::p"), Ok(params("", "v", "p")));
}

#[test]
fn denormalize_refuses_a_key_without_separator() {
    assert_eq!(
        denormalize_key("serde", "no separator"),
        Err("Invalid normalized key format: no separator".to_string())
    );
    assert_eq!(denormalize_key("serde", ""), Err("Invalid normalized key format: ".to_string()));
    assert_eq!(
        denormalize_key("serde", "a:b"),
        Err("Invalid normalized key format: a:b".to_string())
    );
    assert_eq!(denormalize_key("serde", ":"), Err("Invalid normalized key format: :".to_string()));
}

#[test]
fn denormalize_counts_characters_not_bytes() {
    assert_eq!(
        denormalize_key("k", "é1.0::päth/ü"),
        Ok(params("k", "é1.0", "päth/ü"))
    );
    assert_eq!(normalize_key(&params("k", "日本", "語")), "日本::語");
    assert_eq!(denormalize_key("k", "日本::語"), Ok(params("k", "日本", "語")));
}

#[test]
fn keys_come_back_from_their_normalized_form() {
    let keys = [
        params("serde", "1.0", "index.html"),
        params("serde", "1.0.150", "serde/derive"),
        params("tokio", "", "tokio/time/fn.sleep.html"),
        params("rand", "0.8", ""),
        params("x", "1:0", "a::b::c"),
        params("x", ":1", ":p"),
    ];
    for key in keys {
        let normalized = normalize_key(&key);
        assert_eq!(denormalize_key(&key.crate_name, &normalized), Ok(key));
    }
}

#[test]
fn a_version_with_separator_or_final_colon_does_not_come_back() {
    let with_separator = params("x", "1::0", "p");
    assert_eq!(
        denormalize_key("x", &normalize_key(&with_separator)),
        Ok(params("x", "1", "0::p"))
    );
    let final_colon = params("x", "a:", "p");
    assert_eq!(normalize_key(&final_colon), "a:::p");
    assert_eq!(denormalize_key("x", &normalize_key(&final_colon)), Ok(params("x", "a", ":p")));
}

#[test]
fn a_cut_key_has_the_normalized_key_it_was_cut_from() {
    for text in ["1.0::a", "::", "a::::b", ":::", "x::y::z"] {
        let cut = denormalize_key("c", text).unwrap();
        assert_eq!(cut.crate_name, "c");
        assert_eq!(normalize_key(&cut), text);
    }
}
