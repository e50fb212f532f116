//! The decisions taken while fetching a dead render: where to send the
//! request, and which redirects to follow.
use vstd::prelude::*;
use crate::urls::{url_parses, url_serialized_of, url_query_keys_of, url_with_pair_of, url_query_parts, url_joined, url_join, URL_ROOM, capped_len};
use crate::dom::attribute::string_eq;
use super::dead_render::LiveSocketError;

verus! {

/// The most redirects followed when fetching a dead render.
pub const MAX_REDIRECTS: usize = 10;

/// The name of the query pair that carries the format.
pub open spec fn format_key() -> Seq<char> {
    seq!['_', 'f', 'o', 'r', 'm', 'a', 't']
}

/// `url` with the pair `_format=format` added to its query, unless the
/// query already names a format; `None` when `url` does not parse.
pub open spec fn formatted(url: Seq<char>, format: Seq<char>) -> Option<Seq<char>> {
    if url.len() + format_key().len() + format.len() > URL_ROOM {
        None
    } else if !url_parses(url) {
        None
    } else if url_query_keys_of(url).contains(format_key()) {
        Some(url_serialized_of(url))
    } else {
        Some(url_with_pair_of(url, format_key(), format))
    }
}

/// The URL a dead render is fetched from: `url` with the format added to
/// its query unless the query already names one.
pub fn with_format(url: &str, format: &str) -> (r: Option<String>)
    ensures
        match r {
            Some(u) => formatted(url@, format@) == Some(u@),
            None => formatted(url@, format@) is None,
        },
{
    proof { reveal_strlit("_format"); }
    let key = "_format";
    assert(key@ =~= format_key());
    if capped_len(url) + capped_len(key) + capped_len(format) > URL_ROOM {
        return None;
    }
    let (serialized, keys, with_pair) = match url_query_parts(url, key, format) {
        None => return None,
        Some(parts) => parts,
    };
    let ghost kv = keys@.map_values(|k: String| k@);
    let mut i: usize = 0;
    while i < keys.len()
        invariant
            i <= keys.len(),
            kv == keys@.map_values(|k: String| k@),
            kv == url_query_keys_of(url@),
            url_parses(url@),
            serialized@ == url_serialized_of(url@),
            key@ == format_key(),
            url@.len() + format_key().len() + format@.len() <= URL_ROOM,
            forall|j: int| 0 <= j < i ==> kv[j] != format_key(),
        decreases keys.len() - i,
    {
        if string_eq(keys[i].as_str(), key) {
            assert(kv[i as int] == format_key());
            assert(kv.contains(format_key()));
            return Some(serialized);
        }
        i = i + 1;
    }
    assert(!kv.contains(format_key()));
    Some(with_pair)
}

/// The reason given when a redirect names no location that resolves.
pub open spec fn no_location_text() -> Seq<char> {
    "No valid redirect location in 300 response"@
}

/// The error of a redirect that names no location that resolves.
fn no_location() -> (r: LiveSocketError)
    ensures
        r matches LiveSocketError::Request { error: e } && e@ == no_location_text(),
{
    LiveSocketError::Request { error: "No valid redirect location in 300 response".to_string() }
}

/// What to do with a response while fetching a dead render.
#[derive(Debug, Clone, PartialEq, Eq)]
pub enum FetchStep {
    /// Use this response.
    Use,
    /// Follow the redirect: request `url`.
    Follow { url: String },
    /// Give up.
    Fail { error: LiveSocketError },
}

/// Decides what to do with a response, after `hops` redirects were followed
/// from `url`: a redirect is followed while fewer than [MAX_REDIRECTS] were,
/// to its `location` resolved against `url`, with the format added; a
/// redirect without a location that resolves fails. Any other response is
/// used.
pub fn after_response(hops: usize, redirects: bool, location: Option<&str>, url: &str, format: &str) -> (r: FetchStep)
    ensures
        !redirects || hops >= MAX_REDIRECTS ==> r == FetchStep::Use,
        redirects && hops < MAX_REDIRECTS ==> match location {
            None => r matches FetchStep::Fail { error: LiveSocketError::Request { error: e } } && e@ == no_location_text(),
            Some(loc) => match url_joined(url@, loc@) {
                None => r matches FetchStep::Fail { error: LiveSocketError::Request { error: e } } && e@ == no_location_text(),
                Some(target) => match formatted(target, format@) {
                    Some(u) => r matches FetchStep::Follow { url: v } && v@ == u,
                    None => r == (FetchStep::Fail { error: LiveSocketError::ParseError }),
                },
            },
        },
{
    if !redirects || hops >= MAX_REDIRECTS {
        return FetchStep::Use;
    }
    let loc = match location {
        None => return FetchStep::Fail { error: no_location() },
        Some(l) => l,
    };
    let target = match url_join(url, loc) {
        None => return FetchStep::Fail { error: no_location() },
        Some(t) => t,
    };
    match with_format(target.as_str(), format) {
        Some(u) => FetchStep::Follow { url: u },
        None => FetchStep::Fail { error: LiveSocketError::ParseError },
    }
}

} // verus!
