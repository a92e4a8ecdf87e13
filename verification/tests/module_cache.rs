use conclave::ir::canonical::compute_plan_ir_hash;
use conclave::lang::lower::lower;
use conclave::lang::module_cache::{hash_hex, module_listing, ModuleCache, ModuleCacheError};

const SRC: &str = "version 0.1;
capability fetch: fetch(String) -> Html;
intrinsic assemble_json: assemble_json(List<Html>) -> Json;
goal G(urls: List<String>) -> Json {
  want {
    map urls as url {
      let page = fetch(url);
      emit page;
    }
    return assemble_json(collected);
  }
}
";

#[test]
fn put_then_get_by_full_or_bare_hash() {
    let out = lower(SRC, 2).unwrap();
    let expected = out.plan_ir_hash.clone();
    let mut cache = ModuleCache::new("cache".to_string());
    let hash = cache.put(out.plan_ir);
    assert_eq!(hash, expected);
    let by_full = cache.get(&hash).expect("stored under its hash");
    assert_eq!(compute_plan_ir_hash(by_full).to_string(), hash);
    let bare = hash_hex(&hash);
    assert_eq!(bare.len(), 64);
    assert!(cache.get(&bare).is_some());
}

#[test]
fn stored_form_orders_nodes_by_id() {
    let out = lower(SRC, 3).unwrap();
    let mut cache = ModuleCache::new("cache".to_string());
    let hash = cache.put(out.plan_ir);
    let stored = cache.get(&hash).unwrap();
    let ids: Vec<&str> = stored.nodes.iter().map(|n| n.node_id.as_str()).collect();
    let mut sorted = ids.clone();
    sorted.sort();
    assert_eq!(ids, sorted);
}

#[test]
fn require_missing_is_not_found() {
    let cache = ModuleCache::new("cache".to_string());
    let h = "sha256:cccccccccccccccccccccccccccccccccccccccccccccccccccccccccccccccc";
    assert!(cache.get(h).is_none());
    match cache.require(h) {
        Err(ModuleCacheError::NotFound(s)) => assert_eq!(s, h),
        _ => panic!("expected NotFound"),
    }
    assert_eq!(
        ModuleCacheError::NotFound(h.to_string()).to_string(),
        format!("module not found in cache: {}", h)
    );
}

#[test]
fn hash_hex_strips_prefix_only() {
    assert_eq!(hash_hex("sha256:abc"), "abc");
    assert_eq!(hash_hex("abc"), "abc");
    assert_eq!(hash_hex("md5:abc"), "md5:abc");
}

#[test]
fn listing_is_sorted_by_hash_with_previews() {
    let long = "x".repeat(80);
    let files = vec![
        ("bb".to_string(), "{\"b\":1}".to_string()),
        ("aa".to_string(), long.clone()),
    ];
    let listing = module_listing(&files);
    assert_eq!(listing.len(), 2);
    assert_eq!(listing[0].0, "sha256:aa");
    assert_eq!(listing[0].1, "x".repeat(60));
    assert_eq!(listing[1], ("sha256:bb".to_string(), "{\"b\":1}".to_string()));
}
