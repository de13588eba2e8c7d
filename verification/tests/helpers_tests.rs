use sonnetics_core::helpers::{
    cdn_url, choose_cache_root, choose_windows_cache_root, normalize_model_id, CacheRoot,
    HomeNotSet, WindowsCacheRoot, CDN_BASE, MODEL_ID_PREFIX,
};

#[test]
fn normalize_adds_prefix_to_bare_uuid() {
    assert_eq!(
        normalize_model_id("efea8354-3f81-4c61-9d50-7452cb901620"),
        "sonnetics-model-efea8354-3f81-4c61-9d50-7452cb901620"
    );
}

#[test]
fn normalize_keeps_prefixed_id() {
    assert_eq!(
        normalize_model_id("sonnetics-model-a770c126-a4ff-4be4-b95e-7e104a01da73"),
        "sonnetics-model-a770c126-a4ff-4be4-b95e-7e104a01da73"
    );
}

#[test]
fn normalize_is_idempotent() {
    for id in ["abc", "sonnetics-model-abc", "", "sonnetics-mod", "sonnetics-model-"] {
        let once = normalize_model_id(id);
        let twice = normalize_model_id(&once);
        assert_eq!(once, twice);
        assert!(once.starts_with(MODEL_ID_PREFIX));
    }
}

#[test]
fn normalize_edge_cases() {
    assert_eq!(normalize_model_id(""), "sonnetics-model-");
    assert_eq!(normalize_model_id("sonnetics-mod"), "sonnetics-model-sonnetics-mod");
    assert_eq!(normalize_model_id("sonnetics-model-"), "sonnetics-model-");
    assert_eq!(normalize_model_id("Sonnetics-model-x"), "sonnetics-model-Sonnetics-model-x");
    assert_eq!(normalize_model_id("ünï-côdé"), "sonnetics-model-ünï-côdé");
}

#[test]
fn cdn_url_for_bare_and_prefixed_ids() {
    let expected =
        "https://cdn.sonnetics.com/models/sonnetics-model-efea8354-3f81-4c61-9d50-7452cb901620.tar.gz";
    assert_eq!(cdn_url("efea8354-3f81-4c61-9d50-7452cb901620"), expected);
    assert_eq!(cdn_url("sonnetics-model-efea8354-3f81-4c61-9d50-7452cb901620"), expected);
    assert!(cdn_url("x").starts_with(CDN_BASE));
}

#[test]
fn cache_root_prefers_configured_directory() {
    assert_eq!(
        choose_cache_root(Some("/tmp/cache".to_string()), Some("/home/u".to_string())),
        Ok(CacheRoot::Configured("/tmp/cache".to_string()))
    );
}

#[test]
fn cache_root_falls_back_to_home() {
    assert_eq!(
        choose_cache_root(None, Some("/home/u".to_string())),
        Ok(CacheRoot::UnderHome("/home/u".to_string()))
    );
}

#[test]
fn cache_root_without_home_is_an_error() {
    assert_eq!(choose_cache_root(None, None), Err(HomeNotSet));
}

fn some(s: &str) -> Option<String> {
    Some(s.to_string())
}

#[test]
fn windows_cache_prefers_configured_directory() {
    assert_eq!(
        choose_windows_cache_root(some("D:\\cache"), some("C:\\AppData"), some("C:\\Users\\u")),
        WindowsCacheRoot::Configured("D:\\cache".to_string())
    );
}

#[test]
fn windows_cache_uses_app_data_next() {
    assert_eq!(
        choose_windows_cache_root(None, some("C:\\AppData"), some("C:\\Users\\u")),
        WindowsCacheRoot::UnderAppData("C:\\AppData".to_string())
    );
}

#[test]
fn windows_cache_uses_profile_then_current_dir() {
    assert_eq!(
        choose_windows_cache_root(None, None, some("C:\\Users\\u")),
        WindowsCacheRoot::UnderProfile("C:\\Users\\u".to_string())
    );
    assert_eq!(
        choose_windows_cache_root(None, None, None),
        WindowsCacheRoot::UnderProfile(".".to_string())
    );
}
