use liveview_native_core::client::channel::{live_reload_url, liveview_topic, retries_join};
use liveview_native_core::client::dead_render::{LiveSocketError, SessionData};
use liveview_native_core::dom::attribute::AttributeName;
use liveview_native_core::dom::document::Document;
use liveview_native_core::dom::node::{Element, ElementName, NodeData, NodeRef};
use liveview_native_core::dom::select::Selector;

fn add(doc: &mut Document, parent: NodeRef, tag: &str, attrs: &[(&str, &str)]) -> NodeRef {
    let n = doc.push_node(NodeData::NodeElement { element: Element::new(ElementName::new(tag.to_string())) });
    doc.append_child(parent, n);
    for (k, v) in attrs {
        doc.set_attribute(n, AttributeName::new(k.to_string()), Some(v.to_string()));
    }
    n
}

/// A dead render with a main element, two style sheets and the live reload
/// frame.
fn page(main_attrs: &[(&str, &str)]) -> (Document, NodeRef, NodeRef, NodeRef) {
    let mut doc = Document::empty();
    let root = doc.root();
    let html = add(&mut doc, root, "html", &[]);
    let head = add(&mut doc, html, "head", &[]);
    let s1 = add(&mut doc, head, "Style", &[("url", "/a.css")]);
    let s2 = add(&mut doc, head, "Style", &[("url", "/b.css")]);
    add(&mut doc, head, "Style", &[]);
    let body = add(&mut doc, html, "body", &[]);
    let main = add(&mut doc, body, "div", main_attrs);
    add(&mut doc, body, "iframe", &[("hidden", ""), ("src", "/phoenix/live_reload/frame")]);
    (doc, main, s1, s2)
}

const MAIN: [(&str, &str); 4] =
    [("data-phx-main", ""), ("id", "phx-F1"), ("data-phx-session", "SESSION"), ("data-phx-static", "STATIC")];

#[test]
fn select_walks_children_last_first() {
    let (doc, main, s1, s2) = page(&MAIN);
    assert_eq!(doc.select(Selector::Tag("Style".to_string())).len(), 3);
    let styles = doc.select(Selector::Attribute("url".to_string()));
    assert_eq!(styles, vec![s2, s1]);
    assert_eq!(doc.select(Selector::Id("nothing")), vec![]);
    assert_eq!(doc.select(Selector::Attribute("data-phx-main".to_string())), vec![main]);
}

#[test]
fn session_data_from_dead_render() {
    let (doc, _, _, _) = page(&MAIN);
    let s = SessionData::from_dead_render(doc, Some("tok".to_string()), "https://example.com:4000/x".to_string(), "swiftui".to_string())
        .expect("session data");
    assert_eq!(s.phx_id, "phx-F1");
    assert_eq!(s.phx_session, "SESSION");
    assert_eq!(s.phx_static, "STATIC");
    assert_eq!(s.csrf_token, "tok");
    assert_eq!(s.style_urls, vec!["/b.css".to_string(), "/a.css".to_string()]);
    assert!(s.has_live_reload);
    assert_eq!(
        s.get_live_socket_url(),
        Ok("wss://example.com:4000/live/websocket?vsn=2.0.0&_csrf_token=tok&_mounts=0&_format=swiftui".to_string())
    );
}

#[test]
fn session_data_errors() {
    let (doc, _, _, _) = page(&MAIN);
    let r = SessionData::from_dead_render(doc, None, "http://localhost/".to_string(), "jetpack".to_string());
    assert_eq!(r.err(), Some(LiveSocketError::CSRFTokenMissing));
    let (doc, _, _, _) = page(&[("id", "x")]);
    let r = SessionData::from_dead_render(doc, Some("t".to_string()), "http://localhost/".to_string(), "jetpack".to_string());
    assert_eq!(r.err(), Some(LiveSocketError::PhoenixMainMissing));
    let (doc, _, _, _) = page(&[("data-phx-main", "")]);
    let r = SessionData::from_dead_render(doc, Some("t".to_string()), "http://localhost/".to_string(), "jetpack".to_string());
    assert_eq!(r.err(), Some(LiveSocketError::PhoenixIDMissing));
    let (doc, _, _, _) = page(&[("data-phx-main", ""), ("id", "i")]);
    let r = SessionData::from_dead_render(doc, Some("t".to_string()), "http://localhost/".to_string(), "jetpack".to_string());
    assert_eq!(r.err(), Some(LiveSocketError::PhoenixStaticMissing));
    let (doc, _, _, _) = page(&[("data-phx-main", ""), ("id", "i"), ("data-phx-static", "s")]);
    let r = SessionData::from_dead_render(doc, Some("t".to_string()), "http://localhost/".to_string(), "jetpack".to_string());
    assert_eq!(r.err(), Some(LiveSocketError::PhoenixSessionMissing));
}

#[test]
fn live_socket_url_schemes() {
    let (doc, _, _, _) = page(&MAIN);
    let mut s = SessionData::from_dead_render(doc, Some("a b".to_string()), "http://localhost/".to_string(), "jetpack".to_string())
        .expect("session data");
    assert_eq!(
        s.get_live_socket_url(),
        Ok("ws://localhost/live/websocket?vsn=2.0.0&_csrf_token=a+b&_mounts=0&_format=jetpack".to_string())
    );
    s.url = "ftp://localhost/".to_string();
    assert_eq!(s.get_live_socket_url(), Err(LiveSocketError::SchemeNotSupported { scheme: "ftp".to_string() }));
    s.url = "not a url".to_string();
    assert_eq!(s.get_live_socket_url(), Err(LiveSocketError::ParseError));
}

use liveview_native_core::client::event::{reply_action, server_event_action, EventAction, Issuer, LiveRedirect, RedirectKind, Reply, ReplyAction, ServerEvent};
use liveview_native_core::navigation::NavAction;

fn user(name: &str, json: bool, redirect: Option<LiveRedirect>) -> ServerEvent {
    ServerEvent::User { name: name.to_string(), json, redirect }
}

#[test]
fn server_events_decide_actions() {
    let base = "http://localhost:4000/thermostat";
    assert_eq!(server_event_action(&ServerEvent::Phoenix, base), Ok(EventAction::Ignore));
    assert_eq!(server_event_action(&user("diff", true, None), base), Ok(EventAction::MergeDiff));
    assert_eq!(server_event_action(&user("diff", false, None), base), Ok(EventAction::Ignore));
    assert_eq!(server_event_action(&user("assets_change", true, None), base), Ok(EventAction::Reconnect { url: base.to_string() }));
    let to = |kind| Some(LiveRedirect { to: "/counter?x=1".to_string(), kind });
    assert_eq!(
        server_event_action(&user("live_patch", true, to(None)), base),
        Ok(EventAction::SetUrl { url: "http://localhost:4000/counter?x=1".to_string() })
    );
    assert_eq!(
        server_event_action(&user("live_redirect", true, to(Some(RedirectKind::Replace))), base),
        Ok(EventAction::Navigate { url: "http://localhost:4000/counter?x=1".to_string(), action: NavAction::Replace })
    );
    assert_eq!(
        server_event_action(&user("live_redirect", true, to(None)), base),
        Ok(EventAction::Navigate { url: "http://localhost:4000/counter?x=1".to_string(), action: NavAction::Push })
    );
    assert_eq!(
        server_event_action(&user("redirect", true, to(Some(RedirectKind::Push))), base),
        Ok(EventAction::Reconnect { url: "http://localhost:4000/counter?x=1".to_string() })
    );
    assert_eq!(server_event_action(&user("redirect", false, to(None)), base), Ok(EventAction::Ignore));
    assert_eq!(server_event_action(&user("redirect", true, None), base), Err(LiveSocketError::InvalidRedirect));
    assert_eq!(server_event_action(&user("live_patch", true, to(None)), "not a url"), Err(LiveSocketError::ParseError));
    assert_eq!(server_event_action(&user("something", true, None), base), Ok(EventAction::Ignore));
}

use liveview_native_core::client::upload::upload_id;

#[test]
fn upload_inputs_are_found_by_name() {
    let mut doc = Document::empty();
    let root = doc.root();
    let form = add(&mut doc, root, "form", &[]);
    add(&mut doc, form, "input", &[("data-phx-upload-ref", "r"), ("name", "avatar"), ("id", "phx-123")]);
    add(&mut doc, form, "input", &[("data-phx-upload-ref", "r"), ("name", "plain")]);
    add(&mut doc, form, "input", &[("name", "loose"), ("id", "x")]);
    let bare = add(&mut doc, form, "input", &[("data-phx-upload-ref", "r"), ("name", "bare")]);
    doc.set_attribute(bare, AttributeName::new("id".to_string()), None);
    assert_eq!(upload_id(&doc, "avatar"), Ok("phx-123".to_string()));
    assert_eq!(upload_id(&doc, "plain"), Ok("".to_string()));
    assert_eq!(upload_id(&doc, "loose"), Err(LiveSocketError::NoInputRefInDocument));
    assert_eq!(upload_id(&doc, "bare"), Err(LiveSocketError::NoInputRefInDocument));
    assert_eq!(upload_id(&doc, "nothing"), Err(LiveSocketError::NoInputRefInDocument));
}

use liveview_native_core::client::fetch::{after_response, with_format, FetchStep, MAX_REDIRECTS};

#[test]
fn dead_render_urls_carry_the_format() {
    assert_eq!(with_format("http://localhost:4000/counter", "swiftui"), Some("http://localhost:4000/counter?_format=swiftui".to_string()));
    assert_eq!(
        with_format("http://localhost:4000/counter?a=1", "jetpack"),
        Some("http://localhost:4000/counter?a=1&_format=jetpack".to_string())
    );
    assert_eq!(
        with_format("http://localhost:4000/counter?_format=html", "jetpack"),
        Some("http://localhost:4000/counter?_format=html".to_string())
    );
    assert_eq!(with_format("nope", "jetpack"), None);
}

#[test]
fn redirects_are_followed_a_bounded_number_of_times() {
    let base = "http://localhost:4000/a?_format=swiftui";
    assert_eq!(after_response(0, false, None, base, "swiftui"), FetchStep::Use);
    assert_eq!(
        after_response(0, true, Some("/b"), base, "swiftui"),
        FetchStep::Follow { url: "http://localhost:4000/b?_format=swiftui".to_string() }
    );
    assert_eq!(after_response(MAX_REDIRECTS, true, Some("/b"), base, "swiftui"), FetchStep::Use);
    assert_eq!(after_response(3, true, None, base, "swiftui"), FetchStep::Fail { error: LiveSocketError::Request { error: "No valid redirect location in 300 response".to_string() } });
}

#[test]
fn replies_decide_actions() {
    let base = "http://localhost:4000/a";
    let rd = |to: &str, kind| Some(Some(LiveRedirect { to: to.to_string(), kind }));
    let reply = |live_redirect, redirect, diff| Reply { json_object: true, live_redirect, redirect, diff };
    assert_eq!(
        reply_action(&Reply { json_object: false, live_redirect: None, redirect: None, diff: true }, base),
        Ok(ReplyAction::NoAction)
    );
    assert_eq!(
        reply_action(&reply(rd("/b", Some(RedirectKind::Replace)), rd("/c", None), true), base),
        Ok(ReplyAction::Redirected { issuer: Issuer::LiveRedirect, url: "http://localhost:4000/b".to_string(), action: NavAction::Replace })
    );
    assert_eq!(
        reply_action(&reply(None, rd("/c", None), true), base),
        Ok(ReplyAction::Redirected { issuer: Issuer::Redirect, url: "http://localhost:4000/c".to_string(), action: NavAction::Push })
    );
    assert_eq!(reply_action(&reply(None, None, true), base), Ok(ReplyAction::DiffMerged));
    assert_eq!(reply_action(&reply(None, None, false), base), Ok(ReplyAction::NoAction));
    assert_eq!(reply_action(&reply(Some(None), None, false), base), Err(LiveSocketError::InvalidRedirect));
}

#[test]
fn liveview_topics() {
    assert_eq!(liveview_topic("phx-F1"), "lv:phx-F1");
    assert_eq!(liveview_topic(""), "lv:");
}

#[test]
fn rejected_joins_retried() {
    assert!(retries_join(Some("stale")));
    assert!(retries_join(Some("unauthorized")));
    assert!(!retries_join(Some("unauthorised")));
    assert!(!retries_join(Some("")));
    assert!(!retries_join(None));
}

#[test]
fn live_reload_urls() {
    assert_eq!(
        live_reload_url("https://example.com/live?x=1"),
        Ok("wss://example.com/phoenix/live_reload/socket/websocket?x=1&vsn=2.0.0".to_string())
    );
    assert_eq!(
        live_reload_url("http://localhost:4000/"),
        Ok("ws://localhost:4000/phoenix/live_reload/socket/websocket?vsn=2.0.0".to_string())
    );
    assert_eq!(live_reload_url("ftp://example.com/"), Err(LiveSocketError::SchemeNotSupported { scheme: "ftp".to_string() }));
    assert_eq!(live_reload_url("not a url"), Err(LiveSocketError::ParseError));
}

use liveview_native_core::client::event::{response_steps, ResponsePlan, ResponseStep};

#[test]
fn responses_take_every_step() {
    let base = "http://localhost:4000/a";
    let rd = |to: &str, kind| Some(Some(LiveRedirect { to: to.to_string(), kind }));
    let reply = |live_redirect, redirect, diff| Reply { json_object: true, live_redirect, redirect, diff };
    assert_eq!(
        response_steps(&Reply { json_object: false, live_redirect: None, redirect: None, diff: true }, base),
        ResponsePlan { steps: vec![], error: None }
    );
    assert_eq!(
        response_steps(&reply(rd("/b", Some(RedirectKind::Replace)), rd("/c", None), true), base),
        ResponsePlan {
            steps: vec![
                ResponseStep::Navigate { url: "http://localhost:4000/b".to_string(), action: NavAction::Replace },
                ResponseStep::Reconnect { url: "http://localhost:4000/c".to_string() },
                ResponseStep::MergeDiff,
            ],
            error: None,
        }
    );
    assert_eq!(
        response_steps(&reply(rd("/b", None), Some(None), true), base),
        ResponsePlan {
            steps: vec![ResponseStep::Navigate { url: "http://localhost:4000/b".to_string(), action: NavAction::Push }],
            error: Some(LiveSocketError::InvalidRedirect),
        }
    );
    assert_eq!(
        response_steps(&reply(None, None, true), base),
        ResponsePlan { steps: vec![ResponseStep::MergeDiff], error: None }
    );
}

use liveview_native_core::client::dead_render::{JoinPayload, ParamValue, UrlOrRedirect};

fn session() -> SessionData {
    SessionData {
        csrf_token: "tok".to_string(),
        phx_id: "phx-1".to_string(),
        phx_static: "st".to_string(),
        phx_session: "se".to_string(),
        url: "http://localhost:4000/a".to_string(),
        format: "swiftui".to_string(),
        dead_render: Document::empty(),
        style_urls: vec![],
        has_live_reload: false,
    }
}

#[test]
fn join_payloads() {
    let s = session();
    assert_eq!(
        s.create_join_payload(&None, None),
        JoinPayload {
            static_token: "st".to_string(),
            session: "se".to_string(),
            url_or_redirect: UrlOrRedirect::Url { url: "http://localhost:4000/a".to_string() },
            params: vec![
                ("_mounts".to_string(), ParamValue::Number(0)),
                ("_csrf_token".to_string(), ParamValue::Text("tok".to_string())),
                ("_format".to_string(), ParamValue::Text("swiftui".to_string())),
            ],
        }
    );
    let extra = Some(vec![
        ("_format".to_string(), ParamValue::Text("jetpack".to_string())),
        ("user".to_string(), ParamValue::Json("{\"id\":1}".to_string())),
    ]);
    let p = s.create_join_payload(&extra, Some("/b".to_string()));
    assert_eq!(p.url_or_redirect, UrlOrRedirect::Redirect { redirect: "/b".to_string() });
    assert_eq!(
        p.params,
        vec![
            ("_mounts".to_string(), ParamValue::Number(0)),
            ("_csrf_token".to_string(), ParamValue::Text("tok".to_string())),
            ("_format".to_string(), ParamValue::Text("jetpack".to_string())),
            ("user".to_string(), ParamValue::Json("{\"id\":1}".to_string())),
        ]
    );
}
