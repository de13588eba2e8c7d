//! Model identifiers and where a model pack is fetched from.

use vstd::prelude::*;

verus! {

/// Where model packs are published.
pub const CDN_BASE: &'static str = "https://cdn.sonnetics.com/models";

/// Prefix of a fully qualified model identifier.
pub const MODEL_ID_PREFIX: &'static str = "sonnetics-model-";

/// The identifier a model is known by: unchanged when it already carries the
/// prefix, the prefix followed by the identifier otherwise.
pub open spec fn spec_normalize_model_id(id: Seq<char>) -> Seq<char> {
    if MODEL_ID_PREFIX@.is_prefix_of(id) {
        id
    } else {
        MODEL_ID_PREFIX@ + id
    }
}

/// A normalized identifier carries the prefix, and normalizing it again
/// leaves it unchanged.
pub proof fn lemma_normalize_idempotent(id: Seq<char>)
    ensures
        MODEL_ID_PREFIX@.is_prefix_of(spec_normalize_model_id(id)),
        spec_normalize_model_id(spec_normalize_model_id(id)) == spec_normalize_model_id(id),
{
    let p = MODEL_ID_PREFIX@;
    if !p.is_prefix_of(id) {
        assert((p + id).subrange(0, p.len() as int) =~= p);
    }
}

/// An identifier that carries the prefix is kept as it is; any other gets
/// the prefix once, in front of the whole identifier.
pub proof fn lemma_normalize_adds_prefix_once(id: Seq<char>)
    ensures
        "sonnetics-model-"@.is_prefix_of(id) ==> spec_normalize_model_id(id) == id,
        !"sonnetics-model-"@.is_prefix_of(id) ==> spec_normalize_model_id(id)
            == "sonnetics-model-"@ + id,
        spec_normalize_model_id(id).len() == id.len() || spec_normalize_model_id(id).len()
            == id.len() + 16,
        spec_normalize_model_id(id).subrange(
            spec_normalize_model_id(id).len() - id.len(),
            spec_normalize_model_id(id).len() as int,
        ) == id,
{
    reveal_strlit("sonnetics-model-");
    let n = spec_normalize_model_id(id);
    assert(n.subrange(n.len() - id.len(), n.len() as int) =~= id);
}

/// The archive address of a model is the publishing location, a slash, the
/// normalized identifier and `.tar.gz`: for a bare identifier `u`,
/// `https://cdn.sonnetics.com/models/sonnetics-model-` + `u` + `.tar.gz`; for
/// a prefixed one, the identifier as it is.
pub proof fn lemma_cdn_url_shape(id: Seq<char>)
    ensures
        "sonnetics-model-"@.is_prefix_of(id) ==> spec_cdn_url(id)
            == "https://cdn.sonnetics.com/models/"@ + id + ".tar.gz"@,
        !"sonnetics-model-"@.is_prefix_of(id) ==> spec_cdn_url(id)
            == "https://cdn.sonnetics.com/models/sonnetics-model-"@ + id + ".tar.gz"@,
{
    reveal_strlit("sonnetics-model-");
    reveal_strlit("https://cdn.sonnetics.com/models");
    reveal_strlit("https://cdn.sonnetics.com/models/");
    reveal_strlit("https://cdn.sonnetics.com/models/sonnetics-model-");
    reveal_strlit("/");
    reveal_strlit(".tar.gz");
    let base = "https://cdn.sonnetics.com/models"@;
    let slash = "/"@;
    let p = "sonnetics-model-"@;
    let tail = ".tar.gz"@;
    assert(base + slash =~= "https://cdn.sonnetics.com/models/"@);
    assert(base + slash + p =~= "https://cdn.sonnetics.com/models/sonnetics-model-"@);
    if p.is_prefix_of(id) {
        assert(spec_cdn_url(id) =~= (base + slash) + id + tail);
    } else {
        assert(spec_cdn_url(id) =~= (base + slash + p) + id + tail);
    }
}

/// Whether `s` begins with the model identifier prefix.
fn has_model_prefix(s: &str) -> (r: bool)
    ensures
        r == MODEL_ID_PREFIX@.is_prefix_of(s@),
{
    let n = s.unicode_len();
    let p = MODEL_ID_PREFIX.unicode_len();
    if n < p {
        false
    } else {
        let head = String::from_str(s.substring_char(0, p));
        let prefix = String::from_str(MODEL_ID_PREFIX);
        head == prefix
    }
}

/// Normalize a model identifier.
///
/// Accepts bare UUIDs or `sonnetics-model-{uuid}` prefixed strings.
pub fn normalize_model_id(model_id: &str) -> (r: String)
    ensures
        r@ == spec_normalize_model_id(model_id@),
        MODEL_ID_PREFIX@.is_prefix_of(model_id@) ==> r@ == model_id@,
        !MODEL_ID_PREFIX@.is_prefix_of(model_id@) ==> r@ == MODEL_ID_PREFIX@ + model_id@,
{
    if has_model_prefix(model_id) {
        String::from_str(model_id)
    } else {
        let mut out = String::from_str(MODEL_ID_PREFIX);
        out.append(model_id);
        out
    }
}

/// The address of the packed archive of a model.
pub open spec fn spec_cdn_url(id: Seq<char>) -> Seq<char> {
    CDN_BASE@ + "/"@ + spec_normalize_model_id(id) + ".tar.gz"@
}

/// The address of the archive of the model `model_id` (bare or prefixed).
pub fn cdn_url(model_id: &str) -> (r: String)
    ensures
        r@ == spec_cdn_url(model_id@),
        MODEL_ID_PREFIX@.is_prefix_of(model_id@) ==> r@ == CDN_BASE@ + "/"@ + model_id@
            + ".tar.gz"@,
        !MODEL_ID_PREFIX@.is_prefix_of(model_id@) ==> r@ == CDN_BASE@ + "/"@ + MODEL_ID_PREFIX@
            + model_id@ + ".tar.gz"@,
{
    let id = normalize_model_id(model_id);
    let mut url = String::from_str(CDN_BASE);
    url.append("/");
    url.append(id.as_str());
    url.append(".tar.gz");
    url
}

/// Where the model cache lives.
#[derive(PartialEq, Eq, Debug)]
pub enum CacheRoot {
    /// The directory named by the cache override (`SONNETICS_CACHE_DIR`).
    Configured(String),
    /// `.cache/sonnetics` under this home directory.
    UnderHome(String),
}

/// Neither a cache override nor a home directory is known.
#[derive(PartialEq, Eq, Structural, Clone, Copy, Debug)]
pub struct HomeNotSet;

/// Choose the model cache from the cache override and the home directory,
/// as read from the environment: the override when it is set, else the
/// cache directory under home, else an error.
pub fn choose_cache_root(configured: Option<String>, home: Option<String>) -> (r: Result<
    CacheRoot,
    HomeNotSet,
>)
    ensures
        r == (match configured {
            Some(dir) => Ok(CacheRoot::Configured(dir)),
            None => match home {
                Some(h) => Ok(CacheRoot::UnderHome(h)),
                None => Err(HomeNotSet),
            },
        }),
{
    match configured {
        Some(dir) => Ok(CacheRoot::Configured(dir)),
        None => match home {
            Some(h) => Ok(CacheRoot::UnderHome(h)),
            None => Err(HomeNotSet),
        },
    }
}

/// Where the model cache lives on Windows.
#[derive(PartialEq, Eq, Debug)]
pub enum WindowsCacheRoot {
    /// The directory named by the cache override (`SONNETICS_CACHE_DIR`).
    Configured(String),
    /// `sonnetics/cache` under this roaming application-data directory (`%APPDATA%`).
    UnderAppData(String),
    /// `AppData/Roaming/sonnetics/cache` under this profile directory
    /// (`%USERPROFILE%`, or the current directory `.` when that is unknown too).
    UnderProfile(String),
}

/// The directory a relative path starts from.
pub const CURRENT_DIR: &'static str = ".";

/// Choose the model cache on Windows from the cache override, the roaming
/// application-data directory and the profile directory, as read from the
/// environment: the override when it is set, else the cache under
/// application data, else the cache under the profile's roaming data, else
/// the cache under `./AppData/Roaming`. There is always a choice.
pub fn choose_windows_cache_root(
    configured: Option<String>,
    app_data: Option<String>,
    user_profile: Option<String>,
) -> (r: WindowsCacheRoot)
    ensures
        configured matches Some(dir) ==> r == WindowsCacheRoot::Configured(dir),
        configured is None ==> (app_data matches Some(a) ==> r == WindowsCacheRoot::UnderAppData(
            a,
        )),
        configured is None && app_data is None ==> (user_profile matches Some(p) ==> r
            == WindowsCacheRoot::UnderProfile(p)),
        configured is None && app_data is None && user_profile is None ==> (r matches WindowsCacheRoot::UnderProfile(
            p,
        ) && p@ == CURRENT_DIR@),
{
    match configured {
        Some(dir) => WindowsCacheRoot::Configured(dir),
        None => match app_data {
            Some(a) => WindowsCacheRoot::UnderAppData(a),
            None => match user_profile {
                Some(p) => WindowsCacheRoot::UnderProfile(p),
                None => WindowsCacheRoot::UnderProfile(String::from_str(CURRENT_DIR)),
            },
        },
    }
}

} // verus!
