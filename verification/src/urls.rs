//! Calls into the `url` crate, each taking and returning plain strings.
use vstd::prelude::*;

verus! {

/// What `url::Url::parse(s)` followed by `Url::path` yields: `None` when `s`
/// does not parse as an absolute URL, otherwise the path component.
pub uninterp spec fn url_path_of(s: Seq<char>) -> Option<Seq<char>>;

/// The `Debug` text of the error that `url::Url::parse(s)` returns, or `None`
/// when `s` parses.
pub uninterp spec fn url_parse_error_of(s: Seq<char>) -> Option<Seq<char>>;

/// The serialization of `url::Url::parse(base)?.join(relative)?`, or `None`
/// when either step fails.
pub uninterp spec fn url_joined(base: Seq<char>, relative: Seq<char>) -> Option<Seq<char>>;

/// Parses `s` with `url::Url::parse` and returns the URL's path (`Url::path`).
/// Trusted: the result is `url_path_of(s)`; `url::Url::parse` and `Url::path`
/// are deterministic functions of the input text.
#[verifier::external_body]
pub(crate) fn url_path(s: &str) -> (r: Option<String>)
    ensures
        r is Some <==> url_path_of(s@) is Some,
        r matches Some(p) ==> url_path_of(s@) == Some(p@),
{
    url::Url::parse(s).ok().map(|u| u.path().to_string())
}

/// Parses `s` with `url::Url::parse` and returns the `Debug` text of the error,
/// if there is one. Trusted: the result is `url_parse_error_of(s)`.
#[verifier::external_body]
pub(crate) fn url_parse_error(s: &str) -> (r: Option<String>)
    ensures
        r is Some <==> url_parse_error_of(s@) is Some,
        r matches Some(e) ==> url_parse_error_of(s@) == Some(e@),
{
    url::Url::parse(s).err().map(|e| format!("{e:?}"))
}

/// Parses `base` with `url::Url::parse`, resolves `relative` against it with
/// `Url::join` and returns the serialization (`Url::to_string`).
/// Trusted: the result is `url_joined(base, relative)`.
#[verifier::external_body]
pub(crate) fn url_join(base: &str, relative: &str) -> (r: Option<String>)
    ensures
        r is Some <==> url_joined(base@, relative@) is Some,
        r matches Some(u) ==> url_joined(base@, relative@) == Some(u@),
{
    url::Url::parse(base).ok().and_then(|b| b.join(relative).ok()).map(|u| u.to_string())
}

/// Whether `url::Url::parse(s)` succeeds.
pub uninterp spec fn url_parses(s: Seq<char>) -> bool;

/// `Url::scheme` of the URL that `s` parses to.
pub uninterp spec fn url_scheme_of(s: Seq<char>) -> Seq<char>;

/// `Url::host_str` of the URL that `s` parses to.
pub uninterp spec fn url_host_of(s: Seq<char>) -> Option<Seq<char>>;

/// `Url::port` of the URL that `s` parses to.
pub uninterp spec fn url_port_of(s: Seq<char>) -> Option<u16>;

/// The most characters, in all, that the wrappers below that edit a URL
/// take. `url` keeps its offsets in `u32` and panics past `u32::MAX` bytes;
/// a character takes at most 4 bytes and percent-encoding at most triples
/// them, so 12 bytes a character stay below that.
pub const URL_ROOM: usize = 300_000_000;

/// The length of `s`, or one more than [URL_ROOM] when it is longer.
pub fn capped_len(s: &str) -> (r: usize)
    ensures
        r == if s@.len() <= URL_ROOM { s@.len() } else { (URL_ROOM + 1) as nat },
{
    let n = s.unicode_len();
    if n <= URL_ROOM { n } else { URL_ROOM + 1 }
}

/// The serialization of the URL that `origin` parses to, after appending the
/// `pairs` to its query with `Url::query_pairs_mut` and setting its path to
/// `path` with `Url::set_path`; `None` when `origin` does not parse.
pub uninterp spec fn url_with_query_of(origin: Seq<char>, pairs: Seq<(Seq<char>, Seq<char>)>, path: Seq<char>) -> Option<Seq<char>>;

/// Parses `s` with `url::Url::parse` and returns the scheme, host and port
/// of the URL (`Url::scheme`, `Url::host_str`, `Url::port`). Trusted: `None`
/// exactly when parsing fails, and otherwise the three parts as named.
#[verifier::external_body]
pub(crate) fn url_parts(s: &str) -> (r: Option<(String, Option<String>, Option<u16>)>)
    ensures
        r is Some <==> url_parses(s@),
        r matches Some((scheme, host, port)) ==> scheme@ == url_scheme_of(s@)
            && (match host { Some(h) => url_host_of(s@) == Some(h@), None => url_host_of(s@) is None })
            && port == url_port_of(s@),
{
    url::Url::parse(s).ok().map(|u| (u.scheme().to_string(), u.host_str().map(|h| h.to_string()), u.port()))
}

/// Parses `origin` with `url::Url::parse`, appends the four pairs
/// `(k1, v1)` to `(k4, v4)` to its query, in order (`Url::query_pairs_mut`
/// and `append_pair`), sets its path with `Url::set_path` and returns the
/// serialization. Trusted: the result is `url_with_query_of` of the origin,
/// the pairs and the path.
#[verifier::external_body]
pub(crate) fn url_with_query(origin: &str, k1: &str, v1: &str, k2: &str, v2: &str, k3: &str, v3: &str, k4: &str, v4: &str, path: &str)
    -> (r: Option<String>)
    requires
        origin@.len() + k1@.len() + v1@.len() + k2@.len() + v2@.len() + k3@.len() + v3@.len() + k4@.len() + v4@.len()
            + path@.len() <= URL_ROOM,
    ensures
        r is Some <==> url_with_query_of(origin@, seq![(k1@, v1@), (k2@, v2@), (k3@, v3@), (k4@, v4@)], path@) is Some,
        r matches Some(u) ==> url_with_query_of(origin@, seq![(k1@, v1@), (k2@, v2@), (k3@, v3@), (k4@, v4@)], path@) == Some(u@),
{
    url::Url::parse(origin).ok().map(|mut u| {
        u.query_pairs_mut().append_pair(k1, v1).append_pair(k2, v2).append_pair(k3, v3).append_pair(k4, v4);
        u.set_path(path);
        u.to_string()
    })
}

/// The serialization (`Url::to_string`) of the URL that `s` parses to.
pub uninterp spec fn url_serialized_of(s: Seq<char>) -> Seq<char>;

/// The names of the pairs of the query of the URL that `s` parses to, in
/// order (`Url::query_pairs`).
pub uninterp spec fn url_query_keys_of(s: Seq<char>) -> Seq<Seq<char>>;

/// The serialization of the URL that `s` parses to after appending the
/// pair `(key, value)` to its query (`Url::query_pairs_mut`, `append_pair`).
pub uninterp spec fn url_with_pair_of(s: Seq<char>, key: Seq<char>, value: Seq<char>) -> Seq<char>;

/// Parses `s` with `url::Url::parse`; returns its serialization, the names
/// of its query pairs, and the serialization after appending `(key, value)`
/// to its query. Trusted: `None` exactly when parsing fails, and otherwise
/// the three results as named.
#[verifier::external_body]
pub(crate) fn url_query_parts(s: &str, key: &str, value: &str) -> (r: Option<(String, Vec<String>, String)>)
    requires
        s@.len() + key@.len() + value@.len() <= URL_ROOM,
    ensures
        r is Some <==> url_parses(s@),
        r matches Some((ser, keys, with)) ==> ser@ == url_serialized_of(s@)
            && keys@.map_values(|k: String| k@) == url_query_keys_of(s@)
            && with@ == url_with_pair_of(s@, key@, value@),
{
    url::Url::parse(s).ok().map(|u| {
        let keys: Vec<String> = u.query_pairs().map(|p| p.0.to_string()).collect();
        let mut w = u.clone();
        w.query_pairs_mut().append_pair(key, value);
        (u.to_string(), keys, w.to_string())
    })
}

/// The serialization of the URL that `s` parses to, after setting its
/// scheme to `scheme` (`Url::set_scheme`, whose refusal leaves the scheme
/// as it was), its path to `path` (`Url::set_path`), and appending the pair
/// `(key, value)` to its query (`Url::query_pairs_mut`, `append_pair`).
pub uninterp spec fn url_relocated_of(s: Seq<char>, scheme: Seq<char>, path: Seq<char>, key: Seq<char>, value: Seq<char>) -> Seq<char>;

/// Parses `s` with `url::Url::parse`, sets its scheme and its path, appends
/// `(key, value)` to its query and returns the serialization. Trusted:
/// `None` exactly when parsing fails, and otherwise the result named
/// `url_relocated_of`.
#[verifier::external_body]
pub(crate) fn url_relocate(s: &str, scheme: &str, path: &str, key: &str, value: &str) -> (r: Option<String>)
    requires
        s@.len() + scheme@.len() + path@.len() + key@.len() + value@.len() <= URL_ROOM,
    ensures
        r is Some <==> url_parses(s@),
        r matches Some(u) ==> u@ == url_relocated_of(s@, scheme@, path@, key@, value@),
{
    match url::Url::parse(s) {
        Ok(mut u) => {
            let _ = u.set_scheme(scheme);
            u.set_path(path);
            u.query_pairs_mut().append_pair(key, value);
            Some(u.to_string())
        },
        Err(_) => None,
    }
}

} // verus!
