//! Cached predictions: their keys and file names, when a cached
//! configuration token is refreshed, and what preloads give.

use vstd::prelude::*;
use crate::acceleration::Acceleration;
use crate::error::MunaError;
use crate::models::owned;
use crate::text::{decimal_digits, padded_hex, push_chars, push_padded_hex, push_str_chars, string_from_chars};

verus! {

/// Identity of a cached prediction: the predictor tag, the target that it
/// was created for and the configuration it belongs to.
#[derive(Debug, Clone, PartialEq, Eq, Hash)]
pub struct PredictionCacheKey {
    pub tag: String,
    pub target: String,
    pub configuration_id: Option<String>,
}

pub open spec fn opt_string_view(s: Option<String>) -> Option<Seq<char>> {
    match s {
        Some(t) => Some(t@),
        None => None,
    }
}

/// The cache key of a prediction: the target is the given client id, else
/// the native runtime's client id, else `rust`; the configuration is the
/// given one, else the native runtime's configuration id.
pub fn prediction_cache_key(
    tag: &str,
    client_id: Option<String>,
    configuration_id: Option<String>,
    native_client_id: Option<String>,
    native_unique_id: Option<String>,
) -> (key: PredictionCacheKey)
    ensures
        key.tag@ == tag@,
        key.target@ == match client_id {
            Some(c) => c@,
            None => match native_client_id {
                Some(n) => n@,
                None => "rust"@,
            },
        },
        key.configuration_id == match configuration_id {
            Some(c) => Some(c),
            None => native_unique_id,
        },
{
    let target = match client_id {
        Some(c) => c,
        None => match native_client_id {
            Some(n) => n,
            None => owned("rust"),
        },
    };
    let configuration_id = match configuration_id {
        Some(c) => Some(c),
        None => native_unique_id,
    };
    PredictionCacheKey { tag: owned(tag), target, configuration_id }
}

impl PredictionCacheKey {
    /// Whether two keys name the same cached prediction.
    pub fn same_as(&self, other: &PredictionCacheKey) -> (r: bool)
        ensures
            r == (self.tag@ == other.tag@ && self.target@ == other.target@ && opt_string_view(
                self.configuration_id,
            ) == opt_string_view(other.configuration_id)),
    {
        let ids = match (&self.configuration_id, &other.configuration_id) {
            (Some(a), Some(b)) => *a == *b,
            (None, None) => true,
            _ => false,
        };
        self.tag == other.tag && self.target == other.target && ids
    }
}

/// The file name of a cached prediction whose key hashes to `hash`:
/// sixteen hexadecimal digits and `.json`.
pub fn cache_file_name(hash: u64) -> (r: String)
    ensures
        r@ == padded_hex(hash as nat, 16) + ".json"@,
{
    let mut out: Vec<char> = Vec::new();
    push_padded_hex(&mut out, hash, 16);
    push_str_chars(&mut out, ".json");
    string_from_chars(out.as_slice())
}

/// The names of the temporary and backup files that a cache write uses
/// beside `file_name` (`prediction.json` when it has none):
/// `.{name}.{pid}.{nonce}.{sequence}.tmp` and `.backup`.
pub fn cache_write_names(file_name: Option<&str>, pid: u32, nonce: u128, sequence: u64) -> (r: (String, String))
    ensures
        ({
            let stem = "."@ + match file_name {
                Some(n) => n@,
                None => "prediction.json"@,
            } + "."@ + decimal_digits(pid as nat) + "."@ + decimal_digits(nonce as nat) + "."@ + decimal_digits(
                sequence as nat,
            );
            r.0@ == stem + ".tmp"@ && r.1@ == stem + ".backup"@
        }),
{
    let mut stem: Vec<char> = Vec::new();
    push_str_chars(&mut stem, ".");
    match file_name {
        Some(n) => push_str_chars(&mut stem, n),
        None => push_str_chars(&mut stem, "prediction.json"),
    }
    push_str_chars(&mut stem, ".");
    push_chars(&mut stem, &crate::text::decimal_chars(pid as u64));
    push_str_chars(&mut stem, ".");
    push_chars(&mut stem, &crate::text::decimal_chars_wide(nonce));
    push_str_chars(&mut stem, ".");
    push_chars(&mut stem, &crate::text::decimal_chars(sequence));
    let mut temporary: Vec<char> = Vec::new();
    push_chars(&mut temporary, &stem);
    push_str_chars(&mut temporary, ".tmp");
    let mut backup: Vec<char> = Vec::new();
    push_chars(&mut backup, &stem);
    push_str_chars(&mut backup, ".backup");
    (string_from_chars(temporary.as_slice()), string_from_chars(backup.as_slice()))
}

/// The timing claims of a configuration token.
#[derive(Debug, Clone, Copy, PartialEq, Eq, Default)]
pub struct TokenTimingClaims {
    /// Expiry, in seconds since the epoch.
    pub exp: Option<i64>,
    /// Issue time, in seconds since the epoch.
    pub iat: Option<i64>,
}

/// `x` clamped to the range of `i64`.
pub open spec fn saturate(x: int) -> int {
    if x > i64::MAX {
        i64::MAX as int
    } else if x < i64::MIN {
        i64::MIN as int
    } else {
        x
    }
}

/// When a token with these claims, cached at `cached_at`, is refreshed:
/// never without an expiry; at half its lifetime from issue (the cache time
/// when it has no issue time); at expiry when its lifetime is not positive.
/// The arithmetic saturates.
pub open spec fn refresh_time(claims: TokenTimingClaims, cached_at: int) -> Option<int> {
    match claims.exp {
        None => None,
        Some(exp) => {
            let issued = match claims.iat {
                Some(i) => i as int,
                None => cached_at,
            };
            let lifetime = saturate(exp - issued);
            if lifetime <= 0 {
                Some(exp as int)
            } else {
                Some(saturate(issued + lifetime / 2))
            }
        },
    }
}

/// `x` clamped to the range of `i64`.
fn clamp_i64(x: i128) -> (r: i64)
    ensures
        r == saturate(x as int),
{
    if x > 9223372036854775807i128 {
        i64::MAX
    } else if x < -9223372036854775808i128 {
        i64::MIN
    } else {
        x as i64
    }
}

/// When a configuration token is refreshed, from its timing claims
/// (`None` when the token has none that parse).
pub fn token_refresh_at(claims: Option<TokenTimingClaims>, cached_at: i64) -> (r: Option<i64>)
    ensures
        match claims {
            None => r is None,
            Some(c) => match refresh_time(c, cached_at as int) {
                Some(t) => r == Some(t as i64),
                None => r is None,
            },
        },
        r matches Some(t) ==> claims matches Some(c) && refresh_time(c, cached_at as int) == Some(t as int),
{
    let claims = match claims {
        Some(c) => c,
        None => return None,
    };
    let exp = match claims.exp {
        Some(e) => e,
        None => return None,
    };
    let issued_at = match claims.iat {
        Some(i) => i,
        None => cached_at,
    };
    let lifetime = clamp_i64(exp as i128 - issued_at as i128);
    if lifetime <= 0 {
        return Some(exp);
    }
    Some(clamp_i64(issued_at as i128 + (lifetime / 2) as i128))
}

/// A token is refreshed within its lifetime: at expiry when it was issued
/// at or after expiry, else at or after issue and at or before expiry.
pub proof fn lemma_refresh_within_lifetime(claims: TokenTimingClaims, cached_at: int)
    requires
        claims.exp is Some,
        i64::MIN <= cached_at <= i64::MAX,
    ensures
        ({
            let exp = claims.exp.unwrap() as int;
            let issued = match claims.iat {
                Some(i) => i as int,
                None => cached_at,
            };
            refresh_time(claims, cached_at) matches Some(t) && if exp <= issued {
                t == exp
            } else {
                issued <= t <= exp
            }
        }),
{
}

/// Whether a loaded predictor's token is due for refresh at `now`.
pub open spec fn refresh_due(next_refresh: Option<i64>, now: int) -> bool {
    next_refresh matches Some(t) && now >= t
}

/// Whether a loaded predictor's token is due for refresh at `now`.
pub fn needs_refresh(next_refresh: Option<i64>, now: i64) -> (r: bool)
    ensures
        r == refresh_due(next_refresh, now as int),
{
    match next_refresh {
        Some(t) => now >= t,
        None => false,
    }
}

/// How a prediction is resolved for a cache key.
#[derive(Debug, Clone, Copy, PartialEq, Eq, Structural)]
pub enum ResolutionPlan {
    /// Use the cached prediction as it is.
    UseCached,
    /// Ask for a fresh prediction with the cached one's id; on failure,
    /// keep the cached one and try again later.
    RefreshCached,
    /// Ask for a new prediction.
    FetchNew,
}

/// How a prediction is resolved: a cached prediction whose token is not
/// due is used, one whose token is due is refreshed, and without a cached
/// prediction, or when a refresh is forced, a new one is fetched.
/// `cached` holds the refresh time of the cached prediction, if any.
pub fn resolution_plan(cached: Option<Option<i64>>, force_refresh: bool, now: i64) -> (r: ResolutionPlan)
    ensures
        r == if force_refresh || cached is None {
            ResolutionPlan::FetchNew
        } else if refresh_due(cached.unwrap(), now as int) {
            ResolutionPlan::RefreshCached
        } else {
            ResolutionPlan::UseCached
        },
{
    if force_refresh {
        return ResolutionPlan::FetchNew;
    }
    match cached {
        None => ResolutionPlan::FetchNew,
        Some(next_refresh) => {
            if needs_refresh(next_refresh, now) {
                ResolutionPlan::RefreshCached
            } else {
                ResolutionPlan::UseCached
            }
        },
    }
}

/// Seconds before a failed refresh is tried again.
pub const REFRESH_RETRY_SECONDS: i64 = 3600;

/// When a refresh that failed at `now` is tried again.
pub fn retry_refresh_at(now: i64) -> (r: i64)
    requires
        now + REFRESH_RETRY_SECONDS <= i64::MAX,
    ensures
        r == now + REFRESH_RETRY_SECONDS,
        !refresh_due(Some(r), now as int),
{
    now + REFRESH_RETRY_SECONDS
}

/// A predictor to preload before another, from a configuration token's
/// claims: its tag, acceleration, and the metadata key its output fills.
#[derive(Debug, Clone, PartialEq, Eq)]
pub struct PreloadEntry {
    pub tag: String,
    pub acceleration: Acceleration,
    pub metadata: String,
}

/// The first result of a prediction, as a preload reads it.
#[derive(Debug, Clone, PartialEq, Eq)]
pub enum FirstResult {
    /// The prediction returned no results.
    Missing,
    /// The first result is this string.
    Text(String),
    /// The first result is not a string.
    Other,
}

/// What a preload gives: the prediction's first result, which must be a
/// string; the prediction's error, or a message saying what is wrong.
pub fn preload_output(tag: &str, error: Option<&str>, first: &FirstResult) -> (r: Result<String, MunaError>)
    ensures
        match error {
            Some(e) => r matches Err(MunaError::Prediction(m)) && m@ == "Failed to preload "@ + tag@ + ": "@ + e@,
            None => match first {
                FirstResult::Text(s) => r matches Ok(v) && v@ == s@,
                FirstResult::Other => r matches Err(MunaError::Prediction(m)) && m@ == "Failed to preload "@ + tag@
                    + " because its first result is not a string"@,
                FirstResult::Missing => r matches Err(MunaError::Prediction(m)) && m@ == "Failed to preload "@ + tag@
                    + " because it returned no results"@,
            },
        },
{
    let mut out: Vec<char> = Vec::new();
    push_str_chars(&mut out, "Failed to preload ");
    push_str_chars(&mut out, tag);
    match error {
        Some(e) => {
            push_str_chars(&mut out, ": ");
            push_str_chars(&mut out, e);
            return Err(MunaError::Prediction(string_from_chars(out.as_slice())));
        },
        None => {},
    }
    match first {
        FirstResult::Text(s) => Ok(s.clone()),
        FirstResult::Other => {
            push_str_chars(&mut out, " because its first result is not a string");
            Err(MunaError::Prediction(string_from_chars(out.as_slice())))
        },
        FirstResult::Missing => {
            push_str_chars(&mut out, " because it returned no results");
            Err(MunaError::Prediction(string_from_chars(out.as_slice())))
        },
    }
}

/// The error for a prediction that came without a configuration token.
pub fn missing_configuration_error(tag: &str) -> (r: MunaError)
    ensures
        r matches MunaError::Prediction(m) && m@ == "Failed to create "@ + tag@
            + " prediction because configuration token is missing"@,
{
    let mut out: Vec<char> = Vec::new();
    push_str_chars(&mut out, "Failed to create ");
    push_str_chars(&mut out, tag);
    push_str_chars(&mut out, " prediction because configuration token is missing");
    MunaError::Prediction(string_from_chars(out.as_slice()))
}

/// The last segment of the path of `url`, as the `url` crate parses it;
/// `None` when the URL does not parse or has no path segments.
pub uninterp spec fn url_last_segment(url: Seq<char>) -> Option<Seq<char>>;

/// Calls `url::Url::parse`, then `path_segments` and `next_back` on the
/// result; the segment is named `url_last_segment` of the URL text.
#[verifier::external_body]
fn last_path_segment(url: &str) -> (r: Option<String>)
    ensures
        opt_string_view(r) == url_last_segment(url@),
{
    let parsed = url::Url::parse(url).ok()?;
    let mut segments = parsed.path_segments()?;
    segments.next_back().map(str::to_string)
}

/// The directory name under which a resource is cached: the last segment
/// of its URL's path, `resource` when there is none.
pub fn resource_stem(url: &str) -> (r: String)
    ensures
        r@ == match url_last_segment(url@) {
            Some(s) => s,
            None => "resource"@,
        },
{
    match last_path_segment(url) {
        Some(s) => s,
        None => owned("resource"),
    }
}

} // verus!
