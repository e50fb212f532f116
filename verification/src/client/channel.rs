//! What joining the channels of a LiveView decides: the topic of the view,
//! the URL of the live reload socket, and which rejected joins are retried.
use vstd::prelude::*;
use crate::dom::attribute::string_eq;
use crate::urls::{url_parses, url_scheme_of, url_parts, url_relocated_of, url_relocate, URL_ROOM, capped_len};
use super::dead_render::{LiveSocketError, socket_scheme};

verus! {

/// The topic of the channel of the view with the given `data-phx-main` id:
/// `lv:` and the id.
pub fn liveview_topic(phx_id: &str) -> (r: String)
    ensures
        r@ == seq!['l', 'v', ':'] + phx_id@,
{
    let mut t = String::from_str("lv:");
    t.append(phx_id);
    proof {
        reveal_strlit("lv:");
        assert("lv:"@ =~= seq!['l', 'v', ':']);
    }
    t
}

/// Whether a join rejected for `reason` is retried after a new dead render:
/// when the reason is `stale` or `unauthorized`.
pub fn retries_join(reason: Option<&str>) -> (r: bool)
    ensures
        r == (reason matches Some(s) && (s@ == seq!['s', 't', 'a', 'l', 'e']
            || s@ == seq!['u', 'n', 'a', 'u', 't', 'h', 'o', 'r', 'i', 'z', 'e', 'd'])),
{
    proof {
        reveal_strlit("stale");
        reveal_strlit("unauthorized");
        assert("stale"@ =~= seq!['s', 't', 'a', 'l', 'e']);
        assert("unauthorized"@ =~= seq!['u', 'n', 'a', 'u', 't', 'h', 'o', 'r', 'i', 'z', 'e', 'd']);
    }
    match reason {
        Some(s) => string_eq(s, "stale") || string_eq(s, "unauthorized"),
        None => false,
    }
}

/// The path of the live reload socket.
pub open spec fn live_reload_path() -> Seq<char> {
    "phoenix/live_reload/socket/websocket"@
}

/// The URL of the live reload socket of a page at `session_url`: the page's
/// URL with `wss` for `https` and `ws` for `http`, the live reload path,
/// and the protocol version appended to its query.
pub fn live_reload_url(session_url: &str) -> (r: Result<String, LiveSocketError>)
    ensures
        !url_parses(session_url@) ==> r == Err::<String, LiveSocketError>(LiveSocketError::ParseError),
        url_parses(session_url@) && socket_scheme(url_scheme_of(session_url@)) is None ==>
            (r matches Err(LiveSocketError::SchemeNotSupported { scheme }) && scheme@ == url_scheme_of(session_url@)),
        url_parses(session_url@) && socket_scheme(url_scheme_of(session_url@)) is Some
            && session_url@.len() + 47 > URL_ROOM ==> r == Err::<String, LiveSocketError>(LiveSocketError::ParseError),
        url_parses(session_url@) && socket_scheme(url_scheme_of(session_url@)) is Some
            && session_url@.len() + 47 <= URL_ROOM ==>
            (r matches Ok(u) && u@ == url_relocated_of(session_url@, socket_scheme(url_scheme_of(session_url@))->0,
                live_reload_path(), seq!['v', 's', 'n'], seq!['2', '.', '0', '.', '0'])),
{
    proof {
        reveal_strlit("https");
        reveal_strlit("http");
        reveal_strlit("wss");
        reveal_strlit("ws");
        reveal_strlit("vsn");
        reveal_strlit("2.0.0");
        reveal_strlit("phoenix/live_reload/socket/websocket");
    }
    assert("https"@ =~= seq!['h', 't', 't', 'p', 's']);
    assert("http"@ =~= seq!['h', 't', 't', 'p']);
    assert("wss"@ =~= seq!['w', 's', 's']);
    assert("ws"@ =~= seq!['w', 's']);
    assert("vsn"@ =~= seq!['v', 's', 'n']);
    assert("2.0.0"@ =~= seq!['2', '.', '0', '.', '0']);
    let scheme = match url_parts(session_url) {
        None => return Err(LiveSocketError::ParseError),
        Some(parts) => parts.0,
    };
    let ws: &str = if string_eq(scheme.as_str(), "https") {
        "wss"
    } else if string_eq(scheme.as_str(), "http") {
        "ws"
    } else {
        return Err(LiveSocketError::SchemeNotSupported { scheme });
    };
    assert(Some(ws@) == socket_scheme(url_scheme_of(session_url@)));
    if capped_len(session_url) + 47 > URL_ROOM {
        return Err(LiveSocketError::ParseError);
    }
    match url_relocate(session_url, ws, "phoenix/live_reload/socket/websocket", "vsn", "2.0.0") {
        Some(u) => Ok(u),
        None => Err(LiveSocketError::ParseError),
    }
}

} // verus!
