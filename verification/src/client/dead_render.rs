//! The session data of a LiveView, read from its dead render: the page the
//! server answers a plain request with.
use vstd::prelude::*;
use crate::dom::attribute::{Attribute, AttributeV, attrs_view};
use crate::dom::document::{Document, DocumentV, wf};
use crate::dom::node::{NodeRef, node_attrs};
use crate::dom::select::{Selector, walkable, chain_ends, lemma_walkable, selection, refs_nat, matching, matcher, walk_order, some_attr, matches_spec, unique_spec, value_pred, lemma_walk_order_nodes, lemma_matching_below};
use crate::dom::attribute::{AttributeNameV, split_qualified, opt_str_view, clone_opt_str};
use crate::dom::node::NodeDataV;
use crate::dom::attribute::string_eq;
use crate::text::{decimal, u64_text};
use crate::diff::fragment::model::{find_key, insert_entry, lemma_find_key_keys};
use crate::diff::fragment::merge::{keys_of, insert_entry_exec};
use crate::urls::{url_parses, url_scheme_of, url_host_of, url_port_of, url_with_query_of, url_parts, url_with_query, URL_ROOM, capped_len};

verus! {

/// Why the session data could not be read.
#[derive(Debug, Clone, PartialEq, Eq)]
pub enum LiveSocketError {
    CSRFTokenMissing,
    PhoenixMainMissing,
    PhoenixIDMissing,
    PhoenixStaticMissing,
    PhoenixSessionMissing,
    SchemeNotSupported { scheme: String },
    NoHostInURL,
    /// A URL did not parse.
    ParseError,
    /// The payload of a redirect did not read as one.
    InvalidRedirect,
    /// No upload input of the given name is in the document.
    NoInputRefInDocument,
    /// A request failed, for the reason given.
    Request { error: String },
}

/// Static information read from the dead render when connecting.
pub struct SessionData {
    /// The cross site request forgery token sent with the dead render.
    pub csrf_token: String,
    /// The id of the phoenix channel to join.
    pub phx_id: String,
    pub phx_static: String,
    pub phx_session: String,
    pub url: String,
    /// One of `swiftui`, `jetpack` or `html`: the platform rendered for.
    pub format: String,
    /// The page that bootstraps the connection.
    pub dead_render: Document,
    pub style_urls: Vec<String>,
    /// Whether the page holds the live reload frame of development mode.
    pub has_live_reload: bool,
}

/// The value of the last attribute whose name (whatever its namespace) is
/// `name`: `None` when there is no such attribute.
pub open spec fn last_named(attrs: Seq<AttributeV>, name: Seq<char>) -> Option<Option<Seq<char>>>
    decreases attrs.len(),
{
    if attrs.len() == 0 {
        None
    } else if attrs.last().0.1 == name {
        Some(attrs.last().1)
    } else {
        last_named(attrs.drop_last(), name)
    }
}

/// The text value of the last attribute named `name`, when there is one and
/// it has a value.
pub open spec fn last_value(attrs: Seq<AttributeV>, name: Seq<char>) -> Option<Seq<char>> {
    match last_named(attrs, name) {
        Some(Some(v)) => Some(v),
        _ => None,
    }
}

/// The elements of `d` with an attribute named `name`.
pub open spec fn has_attr_named(d: DocumentV, name: AttributeNameV) -> spec_fn(nat) -> bool {
    |n: nat| match d.nodes[n as int] {
        NodeDataV::Element(e) => some_attr(e.1, name, |v: Seq<char>| true),
        _ => false,
    }
}

/// The elements of `d` named `tag`.
pub open spec fn has_tag(d: DocumentV, tag: AttributeNameV) -> spec_fn(nat) -> bool {
    |n: nat| match d.nodes[n as int] {
        NodeDataV::Element(e) => e.0 == tag,
        _ => false,
    }
}

/// The elements of `d` with an attribute named `name`, in selection order.
pub open spec fn with_attr(d: DocumentV, name: Seq<char>) -> Seq<nat> {
    matching(has_attr_named(d, (None, name)), walk_order(d))
}

/// The elements of `d` named `tag`, in selection order.
pub open spec fn with_tag(d: DocumentV, tag: Seq<char>) -> Seq<nat> {
    matching(has_tag(d, (None, tag)), walk_order(d))
}

/// The URLs of the style sheets named by the nodes `ns`, in order: the value
/// of the last `url` attribute of each, when it has one.
pub open spec fn style_urls_of(d: DocumentV, ns: Seq<nat>) -> Seq<Seq<char>>
    decreases ns.len(),
{
    if ns.len() == 0 {
        Seq::empty()
    } else {
        let rest = style_urls_of(d, ns.drop_last());
        match last_value(node_attrs(d.nodes[ns.last() as int]), url_name()) {
            Some(u) => rest.push(u),
            None => rest,
        }
    }
}

/// Whether one of the frames `ns` has the live reload frame as the value of
/// its last `src` attribute.
pub open spec fn has_reload_frame(d: DocumentV, ns: Seq<nat>) -> bool {
    exists|i: int| 0 <= i < ns.len() && last_value(node_attrs(d.nodes[#[trigger] ns[i] as int]), src_name()) == Some(live_reload_src())
}

pub open spec fn main_name() -> Seq<char> {
    seq!['d', 'a', 't', 'a', '-', 'p', 'h', 'x', '-', 'm', 'a', 'i', 'n']
}

pub open spec fn id_name() -> Seq<char> {
    seq!['i', 'd']
}

pub open spec fn static_name() -> Seq<char> {
    seq!['d', 'a', 't', 'a', '-', 'p', 'h', 'x', '-', 's', 't', 'a', 't', 'i', 'c']
}

pub open spec fn session_name() -> Seq<char> {
    seq!['d', 'a', 't', 'a', '-', 'p', 'h', 'x', '-', 's', 'e', 's', 's', 'i', 'o', 'n']
}

pub open spec fn style_tag() -> Seq<char> {
    seq!['S', 't', 'y', 'l', 'e']
}

pub open spec fn url_name() -> Seq<char> {
    seq!['u', 'r', 'l']
}

pub open spec fn iframe_tag() -> Seq<char> {
    seq!['i', 'f', 'r', 'a', 'm', 'e']
}

pub open spec fn src_name() -> Seq<char> {
    seq!['s', 'r', 'c']
}

pub open spec fn live_reload_src() -> Seq<char> {
    seq!['/', 'p', 'h', 'o', 'e', 'n', 'i', 'x', '/', 'l', 'i', 'v', 'e', '_', 'r', 'e', 'l', 'o', 'a', 'd', '/', 'f', 'r', 'a', 'm', 'e']
}

/// Matching with equal predicates gives equal results.
proof fn lemma_matching_ext(p: spec_fn(nat) -> bool, q: spec_fn(nat) -> bool, w: Seq<nat>)
    requires
        forall|n: nat| #[trigger] p(n) == q(n),
    ensures
        matching(p, w) == matching(q, w),
    decreases w.len(),
{
    if w.len() > 0 {
        lemma_matching_ext(p, q, w.drop_last());
    }
}

/// Selecting by an attribute name without a namespace.
proof fn lemma_attr_selection(d: DocumentV, s: String)
    requires
        forall|i: int| 0 <= i < s@.len() ==> s@[i] != ':',
    ensures
        selection(d, Selector::Attribute(s)) == with_attr(d, s@),
{
    let sel = Selector::Attribute(s);
    assert(split_qualified(s@) == (None::<Seq<char>>, s@));
    assert forall|n: nat| #[trigger] (matcher(d, sel))(n) == (has_attr_named(d, (None, s@)))(n) by {
        assert(value_pred(sel) =~= (|v: Seq<char>| true));
    }
    lemma_matching_ext(matcher(d, sel), has_attr_named(d, (None, s@)), walk_order(d));
    assert(!unique_spec(sel));
}

/// Selecting by a tag without a namespace.
proof fn lemma_tag_selection(d: DocumentV, s: String)
    requires
        forall|i: int| 0 <= i < s@.len() ==> s@[i] != ':',
    ensures
        selection(d, Selector::Tag(s)) == with_tag(d, s@),
{
    let sel = Selector::Tag(s);
    assert(split_qualified(s@) == (None::<Seq<char>>, s@));
    assert forall|n: nat| #[trigger] (matcher(d, sel))(n) == (has_tag(d, (None, s@)))(n) by {}
    lemma_matching_ext(matcher(d, sel), has_tag(d, (None, s@)), walk_order(d));
    assert(!unique_spec(sel));
}

/// The value of the last attribute of `attrs` named `name`.
fn last_named_exec(attrs: &Vec<Attribute>, name: &str) -> (r: Option<Option<String>>)
    ensures
        match r {
            None => last_named(attrs_view(attrs@), name@) is None,
            Some(v) => last_named(attrs_view(attrs@), name@) == Some(opt_str_view(v)),
        },
{
    let ghost av = attrs_view(attrs@);
    let mut out: Option<Option<String>> = None;
    let mut i: usize = 0;
    assert(av.take(0) =~= Seq::<AttributeV>::empty());
    while i < attrs.len()
        invariant
            i <= attrs.len(),
            av == attrs_view(attrs@),
            match out {
                None => last_named(av.take(i as int), name@) is None,
                Some(v) => last_named(av.take(i as int), name@) == Some(opt_str_view(v)),
            },
        decreases attrs.len() - i,
    {
        assert(av.take(i + 1).drop_last() =~= av.take(i as int));
        assert(av.take(i + 1).last() == av[i as int]);
        if string_eq(attrs[i].name.name.as_str(), name) {
            out = Some(clone_opt_str(&attrs[i].value));
        }
        i = i + 1;
    }
    assert(av.take(attrs.len() as int) =~= av);
    out
}

/// The text value of the last attribute of `attrs` named `name`.
fn last_value_exec(attrs: &Vec<Attribute>, name: &str) -> (r: Option<String>)
    ensures
        opt_str_view(r) == last_value(attrs_view(attrs@), name@),
{
    match last_named_exec(attrs, name) {
        Some(Some(v)) => Some(v),
        _ => None,
    }
}

/// The value of the last attribute named `name` of node `n`.
fn node_value(doc: &Document, n: NodeRef, name: &str) -> (r: Option<String>)
    requires
        n.0 < doc@.nodes.len(),
    ensures
        opt_str_view(r) == last_value(node_attrs(doc@.nodes[n.0 as int]), name@),
{
    let attrs = doc.get(n).attributes();
    last_value_exec(&attrs, name)
}

/// The URLs named by the style elements `styles`, in order.
fn style_urls_exec(doc: &Document, styles: &Vec<NodeRef>) -> (r: Vec<String>)
    requires
        forall|k: int| 0 <= k < styles.len() ==> (#[trigger] styles@[k]).0 < doc@.nodes.len(),
    ensures
        r@.map_values(|u: String| u@) == style_urls_of(doc@, refs_nat(styles@)),
{
    proof { reveal_strlit("url"); }
    let ghost ns = refs_nat(styles@);
    let mut out: Vec<String> = Vec::new();
    let mut i: usize = 0;
    assert(ns.take(0) =~= Seq::<nat>::empty());
    while i < styles.len()
        invariant
            i <= styles.len(),
            ns == refs_nat(styles@),
            forall|k: int| 0 <= k < styles.len() ==> (#[trigger] styles@[k]).0 < doc@.nodes.len(),
            out@.map_values(|u: String| u@) == style_urls_of(doc@, ns.take(i as int)),
        decreases styles.len() - i,
    {
        assert(ns.take(i + 1).drop_last() =~= ns.take(i as int));
        assert(ns.take(i + 1).last() == styles@[i as int].0 as nat);
        let ghost before = out@;
        let name = "url";
        proof { reveal_strlit("url"); }
        assert(name@ =~= url_name());
        match node_value(doc, styles[i], name) {
            Some(u) => {
                out.push(u);
                assert(out@.map_values(|u: String| u@) =~= before.map_values(|u: String| u@).push(out@[out@.len() - 1]@));
            },
            None => {},
        }
        i = i + 1;
    }
    assert(ns.take(styles.len() as int) =~= ns);
    out
}

/// Whether one of the frames `frames` is the live reload frame.
fn has_reload_frame_exec(doc: &Document, frames: &Vec<NodeRef>) -> (r: bool)
    requires
        forall|k: int| 0 <= k < frames.len() ==> (#[trigger] frames@[k]).0 < doc@.nodes.len(),
    ensures
        r == has_reload_frame(doc@, refs_nat(frames@)),
{
    proof {
        reveal_strlit("src");
        reveal_strlit("/phoenix/live_reload/frame");
    }
    let ghost ns = refs_nat(frames@);
    let mut i: usize = 0;
    while i < frames.len()
        invariant
            i <= frames.len(),
            ns == refs_nat(frames@),
            forall|k: int| 0 <= k < frames.len() ==> (#[trigger] frames@[k]).0 < doc@.nodes.len(),
            forall|j: int| 0 <= j < i ==> last_value(node_attrs(doc@.nodes[#[trigger] ns[j] as int]), src_name()) != Some(live_reload_src()),
        decreases frames.len() - i,
    {
        assert(ns[i as int] == frames@[i as int].0 as nat);
        let name = "src";
        proof {
            reveal_strlit("src");
            reveal_strlit("/phoenix/live_reload/frame");
        }
        assert(name@ =~= src_name());
        let target = "/phoenix/live_reload/frame";
        assert(target@ =~= live_reload_src());
        match node_value(doc, frames[i], name) {
            Some(v) => {
                if string_eq(v.as_str(), target) {
                    assert(last_value(node_attrs(doc@.nodes[ns[i as int] as int]), src_name()) == Some(live_reload_src()));
                    return true;
                }
            },
            None => {},
        }
        i = i + 1;
    }
    false
}

impl SessionData {
    /// Reads the session data from the dead render of the LiveView at `url`,
    /// rendered for `format`, given the token that the page carries.
    ///
    /// The main element is the last one, in selection order, with a
    /// `data-phx-main` attribute; its last `id`, `data-phx-static` and
    /// `data-phx-session` attributes give the channel and session. Each
    /// `Style` element names a style sheet in its last `url` attribute, and an
    /// `iframe` whose last `src` is `/phoenix/live_reload/frame` marks
    /// development mode.
    pub fn from_dead_render(dead_render: Document, csrf_token: Option<String>, url: String, format: String)
        -> (r: Result<SessionData, LiveSocketError>)
        requires
            wf(dead_render@),
            chain_ends(dead_render@, dead_render@.root),
        ensures
            ({
                let d = dead_render@;
                let mains = with_attr(d, main_name());
                let main_attrs = node_attrs(d.nodes[mains.last() as int]);
                match r {
                    Err(e) => e == (if csrf_token is None {
                        LiveSocketError::CSRFTokenMissing
                    } else if mains.len() == 0 {
                        LiveSocketError::PhoenixMainMissing
                    } else if last_value(main_attrs, id_name()) is None {
                        LiveSocketError::PhoenixIDMissing
                    } else if last_value(main_attrs, static_name()) is None {
                        LiveSocketError::PhoenixStaticMissing
                    } else {
                        LiveSocketError::PhoenixSessionMissing
                    }),
                    Ok(s) => {
                        &&& csrf_token matches Some(t) && s.csrf_token@ == t@
                        &&& mains.len() > 0
                        &&& last_value(main_attrs, id_name()) == Some(s.phx_id@)
                        &&& last_value(main_attrs, static_name()) == Some(s.phx_static@)
                        &&& last_value(main_attrs, session_name()) == Some(s.phx_session@)
                        &&& s.url@ == url@
                        &&& s.format@ == format@
                        &&& s.dead_render@ == d
                        &&& s.style_urls@.map_values(|u: String| u@) == style_urls_of(d, with_tag(d, style_tag()))
                        &&& s.has_live_reload == has_reload_frame(d, with_tag(d, iframe_tag()))
                    },
                }
            }),
    {
        let ghost d = dead_render@;
        proof {
            reveal_strlit("data-phx-main");
            reveal_strlit("Style");
            reveal_strlit("iframe");
            reveal_strlit("id");
            reveal_strlit("data-phx-static");
            reveal_strlit("data-phx-session");
        }
        let csrf_token = match csrf_token {
            Some(t) => t,
            None => return Err(LiveSocketError::CSRFTokenMissing),
        };
        let main_sel = String::from_str("data-phx-main");
        assert(main_sel@ =~= main_name());
        proof { lemma_attr_selection(d, main_sel); }
        let mains = dead_render.select(Selector::Attribute(main_sel));
        assert(refs_nat(mains@) == with_attr(d, main_name()));
        if mains.len() == 0 {
            return Err(LiveSocketError::PhoenixMainMissing);
        }
        let main = mains[mains.len() - 1];
        proof {
            lemma_walkable(d);
            lemma_walk_order_nodes(d);
            lemma_matching_below(has_attr_named(d, (None, main_name())), walk_order(d), d.nodes.len());
            lemma_matching_below(has_tag(d, (None, style_tag())), walk_order(d), d.nodes.len());
            lemma_matching_below(has_tag(d, (None, iframe_tag())), walk_order(d), d.nodes.len());
            assert(refs_nat(mains@)[mains.len() - 1] == main.0 as nat);
        }
        let id_text = "id";
        assert(id_text@ =~= id_name());
        let static_text = "data-phx-static";
        assert(static_text@ =~= static_name());
        let session_text = "data-phx-session";
        assert(session_text@ =~= session_name());
        assert(with_attr(d, main_name()).last() == main.0 as nat);
        let phx_id = match node_value(&dead_render, main, id_text) {
            Some(v) => v,
            None => return Err(LiveSocketError::PhoenixIDMissing),
        };
        let phx_static = match node_value(&dead_render, main, static_text) {
            Some(v) => v,
            None => return Err(LiveSocketError::PhoenixStaticMissing),
        };
        let phx_session = match node_value(&dead_render, main, session_text) {
            Some(v) => v,
            None => return Err(LiveSocketError::PhoenixSessionMissing),
        };
        let style_sel = String::from_str("Style");
        assert(style_sel@ =~= style_tag());
        proof { lemma_tag_selection(d, style_sel); }
        let styles = dead_render.select(Selector::Tag(style_sel));
        proof {
            assert forall|k: int| 0 <= k < styles.len() implies (#[trigger] styles@[k]).0 < d.nodes.len() by {
                assert(refs_nat(styles@)[k] == styles@[k].0 as nat);
            }
        }
        let style_urls = style_urls_exec(&dead_render, &styles);
        let frame_sel = String::from_str("iframe");
        assert(frame_sel@ =~= iframe_tag());
        proof { lemma_tag_selection(d, frame_sel); }
        let frames = dead_render.select(Selector::Tag(frame_sel));
        proof {
            assert forall|k: int| 0 <= k < frames.len() implies (#[trigger] frames@[k]).0 < d.nodes.len() by {
                assert(refs_nat(frames@)[k] == frames@[k].0 as nat);
            }
        }
        let has_live_reload = has_reload_frame_exec(&dead_render, &frames);
        Ok(SessionData {
            csrf_token,
            phx_id,
            phx_static,
            phx_session,
            url,
            format,
            dead_render,
            style_urls,
            has_live_reload,
        })
    }
}

/// The scheme of the socket for a page served over `scheme`.
pub open spec fn socket_scheme(scheme: Seq<char>) -> Option<Seq<char>> {
    if scheme == seq!['h', 't', 't', 'p', 's'] {
        Some(seq!['w', 's', 's'])
    } else if scheme == seq!['h', 't', 't', 'p'] {
        Some(seq!['w', 's'])
    } else {
        None
    }
}

/// `scheme://host` followed by `:port` when there is a port.
pub open spec fn socket_origin(scheme: Seq<char>, host: Seq<char>, port: Option<u16>) -> Seq<char> {
    scheme + seq![':', '/', '/'] + host + match port {
        Some(p) => seq![':'] + decimal(p as nat),
        None => Seq::empty(),
    }
}

/// The query of the socket URL: the protocol version, the token, the mount
/// count and the format.
pub open spec fn socket_query(csrf_token: Seq<char>, format: Seq<char>) -> Seq<(Seq<char>, Seq<char>)> {
    seq![
        (seq!['v', 's', 'n'], seq!['2', '.', '0', '.', '0']),
        (seq!['_', 'c', 's', 'r', 'f', '_', 't', 'o', 'k', 'e', 'n'], csrf_token),
        (seq!['_', 'm', 'o', 'u', 'n', 't', 's'], seq!['0']),
        (seq!['_', 'f', 'o', 'r', 'm', 'a', 't'], format),
    ]
}

/// The path of the socket.
pub open spec fn socket_path() -> Seq<char> {
    seq!['/', 'l', 'i', 'v', 'e', '/', 'w', 'e', 'b', 's', 'o', 'c', 'k', 'e', 't']
}

impl SessionData {
    /// The URL of the web socket of the LiveView: `wss` for a page served
    /// over `https`, `ws` for `http`, on the page's host and port, at
    /// `/live/websocket`, with the version, token, mount count and format in
    /// the query.
    pub fn get_live_socket_url(&self) -> (r: Result<String, LiveSocketError>)
        ensures
            !url_parses(self.url@) ==> r == Err::<String, LiveSocketError>(LiveSocketError::ParseError),
            url_parses(self.url@) && socket_scheme(url_scheme_of(self.url@)) is None ==>
                (r matches Err(LiveSocketError::SchemeNotSupported { scheme }) && scheme@ == url_scheme_of(self.url@)),
            url_parses(self.url@) && socket_scheme(url_scheme_of(self.url@)) is Some && url_host_of(self.url@) is None ==>
                r == Err::<String, LiveSocketError>(LiveSocketError::NoHostInURL),
            url_parses(self.url@) && socket_scheme(url_scheme_of(self.url@)) is Some && url_host_of(self.url@) is Some ==> ({
                let o = socket_origin(socket_scheme(url_scheme_of(self.url@))->0, url_host_of(self.url@)->0, url_port_of(self.url@));
                let q = url_with_query_of(o, socket_query(self.csrf_token@, self.format@), socket_path());
                if o.len() + self.csrf_token@.len() + self.format@.len() + 49 > URL_ROOM {
                    r == Err::<String, LiveSocketError>(LiveSocketError::ParseError)
                } else {
                    match q {
                        Some(u) => r matches Ok(v) && v@ == u,
                        None => r == Err::<String, LiveSocketError>(LiveSocketError::ParseError),
                    }
                }
            }),
    {
        proof {
            reveal_strlit("https");
            reveal_strlit("http");
            reveal_strlit("wss");
            reveal_strlit("ws");
            reveal_strlit("://");
            reveal_strlit(":");
            reveal_strlit("vsn");
            reveal_strlit("2.0.0");
            reveal_strlit("_csrf_token");
            reveal_strlit("_mounts");
            reveal_strlit("0");
            reveal_strlit("_format");
            reveal_strlit("/live/websocket");
        }
        assert("https"@ =~= seq!['h', 't', 't', 'p', 's']);
        assert("http"@ =~= seq!['h', 't', 't', 'p']);
        assert("wss"@ =~= seq!['w', 's', 's']);
        assert("ws"@ =~= seq!['w', 's']);
        assert("vsn"@ =~= seq!['v', 's', 'n']);
        assert("2.0.0"@ =~= seq!['2', '.', '0', '.', '0']);
        assert("_csrf_token"@ =~= seq!['_', 'c', 's', 'r', 'f', '_', 't', 'o', 'k', 'e', 'n']);
        assert("_mounts"@ =~= seq!['_', 'm', 'o', 'u', 'n', 't', 's']);
        assert("0"@ =~= seq!['0']);
        assert("_format"@ =~= seq!['_', 'f', 'o', 'r', 'm', 'a', 't']);
        assert("/live/websocket"@ =~= socket_path());
        let (scheme, host, port) = match url_parts(self.url.as_str()) {
            None => return Err(LiveSocketError::ParseError),
            Some(parts) => parts,
        };
        let ws: &str = if string_eq(scheme.as_str(), "https") {
            "wss"
        } else if string_eq(scheme.as_str(), "http") {
            "ws"
        } else {
            return Err(LiveSocketError::SchemeNotSupported { scheme });
        };
        assert(Some(ws@) == socket_scheme(url_scheme_of(self.url@)));
        let host = match host {
            Some(h) => h,
            None => return Err(LiveSocketError::NoHostInURL),
        };
        let mut origin = String::from_str(ws);
        origin.append("://");
        origin.append(host.as_str());
        match port {
            Some(p) => {
                origin.append(":");
                origin.append(u64_text(p as u64).as_str());
            },
            None => {},
        }
        assert(origin@ =~= socket_origin(ws@, host@, port));
        let ghost pairs = socket_query(self.csrf_token@, self.format@);
        assert(seq![("vsn"@, "2.0.0"@), ("_csrf_token"@, self.csrf_token@), ("_mounts"@, "0"@), ("_format"@, self.format@)] =~= pairs);
        if capped_len(origin.as_str()) + capped_len(self.csrf_token.as_str()) + capped_len(self.format.as_str()) + 49 > URL_ROOM {
            return Err(LiveSocketError::ParseError);
        }
        match url_with_query(origin.as_str(), "vsn", "2.0.0", "_csrf_token", self.csrf_token.as_str(), "_mounts", "0",
            "_format", self.format.as_str(), "/live/websocket") {
            Some(u) => Ok(u),
            None => Err(LiveSocketError::ParseError),
        }
    }
}


/// A parameter sent when joining a view: a number, a string, or a JSON
/// value given by its text.
#[derive(Debug, Clone, PartialEq, Eq)]
pub enum ParamValue {
    Number(u64),
    Text(String),
    Json(String),
}

/// The value of a parameter.
pub enum ParamValueV {
    Number(nat),
    Text(Seq<char>),
    Json(Seq<char>),
}

/// The value of a parameter.
pub open spec fn param_v(p: ParamValue) -> ParamValueV {
    match p {
        ParamValue::Number(n) => ParamValueV::Number(n as nat),
        ParamValue::Text(s) => ParamValueV::Text(s@),
        ParamValue::Json(s) => ParamValueV::Json(s@),
    }
}

/// A copy of a parameter.
fn copy_param(p: &ParamValue) -> (r: ParamValue)
    ensures
        param_v(r) == param_v(*p),
{
    match p {
        ParamValue::Number(n) => ParamValue::Number(*n),
        ParamValue::Text(s) => ParamValue::Text(s.clone()),
        ParamValue::Json(s) => ParamValue::Json(s.clone()),
    }
}

/// The keys of a list of parameters and of its value agree.
proof fn lemma_param_keys(s: Seq<(String, ParamValue)>, k: Seq<char>)
    ensures
        find_key(keys_of(s), k) == find_key(params_v(s), k),
{
    assert forall|i: int| 0 <= i < s.len() implies #[trigger] keys_of(s)[i].0 == params_v(s)[i].0 by {}
    lemma_find_key_keys(keys_of(s), params_v(s), k);
}

/// The values of a list of parameters.
pub open spec fn params_v(s: Seq<(String, ParamValue)>) -> Seq<(Seq<char>, ParamValueV)> {
    s.map_values(|e: (String, ParamValue)| (e.0@, param_v(e.1)))
}

/// Where a join asks to go: the page's URL, or the target of a redirect.
#[derive(Debug, Clone, PartialEq, Eq)]
pub enum UrlOrRedirect {
    Url { url: String },
    Redirect { redirect: String },
}

/// The payload sent when joining the channel of a view.
#[derive(Debug, Clone, PartialEq, Eq)]
pub struct JoinPayload {
    /// The `data-phx-static` token.
    pub static_token: String,
    /// The `data-phx-session` token.
    pub session: String,
    pub url_or_redirect: UrlOrRedirect,
    /// The parameters, each key once.
    pub params: Vec<(String, ParamValue)>,
}

/// `base` with the first `k` of `extra` stored in it, each replacing the
/// value already stored under its key.
pub open spec fn extend_params(base: Seq<(Seq<char>, ParamValueV)>, extra: Seq<(Seq<char>, ParamValueV)>, k: nat) -> Seq<(Seq<char>, ParamValueV)>
    decreases k,
{
    if k == 0 {
        base
    } else {
        insert_entry(extend_params(base, extra, (k - 1) as nat), extra[k - 1].0, extra[k - 1].1)
    }
}

/// The parameters of a join: the mount count 0, the token and the format,
/// then the additional parameters, each replacing one of the same key.
pub open spec fn join_params_spec(csrf_token: Seq<char>, format: Seq<char>, extra: Seq<(Seq<char>, ParamValueV)>) -> Seq<(Seq<char>, ParamValueV)> {
    extend_params(seq![
        ("_mounts"@, ParamValueV::Number(0)),
        ("_csrf_token"@, ParamValueV::Text(csrf_token)),
        ("_format"@, ParamValueV::Text(format)),
    ], extra, extra.len())
}

impl SessionData {
    /// The payload of the join of this session's view: its static and
    /// session tokens, the redirect target when there is one and else the
    /// page's URL, and the parameters of [join_params_spec].
    pub fn create_join_payload(&self, additional_params: &Option<Vec<(String, ParamValue)>>, redirect: Option<String>) -> (r: JoinPayload)
        ensures
            r.static_token == self.phx_static,
            r.session == self.phx_session,
            r.url_or_redirect == match redirect {
                Some(t) => UrlOrRedirect::Redirect { redirect: t },
                None => UrlOrRedirect::Url { url: self.url },
            },
            params_v(r.params@) == join_params_spec(self.csrf_token@, self.format@, match additional_params {
                Some(v) => params_v(v@),
                None => Seq::empty(),
            }),
    {
        let mut params: Vec<(String, ParamValue)> = Vec::new();
        params.push(("_mounts".to_string(), ParamValue::Number(0)));
        params.push(("_csrf_token".to_string(), ParamValue::Text(self.csrf_token.clone())));
        params.push(("_format".to_string(), ParamValue::Text(self.format.clone())));
        proof {
            reveal_strlit("_mounts");
            reveal_strlit("_csrf_token");
            reveal_strlit("_format");
        }
        let ghost base = params_v(params@);
        assert(base =~= seq![
            ("_mounts"@, ParamValueV::Number(0)),
            ("_csrf_token"@, ParamValueV::Text(self.csrf_token@)),
            ("_format"@, ParamValueV::Text(self.format@)),
        ]);
        let ghost extra: Seq<(Seq<char>, ParamValueV)> = match additional_params {
            Some(v) => params_v(v@),
            None => Seq::empty(),
        };
        match additional_params {
            Some(v) => {
                let mut i: usize = 0;
                while i < v.len()
                    invariant
                        i <= v@.len(),
                        extra == params_v(v@),
                        params_v(params@) == extend_params(base, extra, i as nat),
                    decreases v@.len() - i,
                {
                    let k = v[i].0.clone();
                    let x = copy_param(&v[i].1);
                    let ghost before = params@;
                    let ghost kv = k@;
                    let ghost xv = param_v(x);
                    assert(extra[i as int] == (kv, xv));
                    proof {
                        lemma_param_keys(before, kv);
                        crate::diff::fragment::model::lemma_find_key(keys_of(before), kv);
                    }
                    insert_entry_exec(&mut params, k, x);
                    proof {
                        match find_key(keys_of(before), kv) {
                            Some(j) => {
                                assert(params_v(params@) =~= params_v(before).update(j, (kv, xv)));
                            },
                            None => {
                                assert(params_v(params@) =~= params_v(before).push((kv, xv)));
                            },
                        }
                    }
                    i = i + 1;
                }
            },
            None => {},
        }
        let url_or_redirect = match redirect {
            Some(t) => UrlOrRedirect::Redirect { redirect: t },
            None => UrlOrRedirect::Url { url: self.url.clone() },
        };
        JoinPayload {
            static_token: self.phx_static.clone(),
            session: self.phx_session.clone(),
            url_or_redirect,
            params,
        }
    }
}

} // verus!
