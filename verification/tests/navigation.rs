use std::sync::{Arc, Mutex};

use liveview_native_core::callbacks::{HandlerResponse, NavEvent, NavEventHandler, NavEventType, NavHistoryEntry};
use liveview_native_core::navigation::{NavAction, NavCtx, NavOptions, NavigationError};
use url::Url;

// Records the last event it was handed.
struct NavigationInspector {
    last_event: Mutex<Option<NavEvent>>,
}

impl NavEventHandler for NavigationInspector {
    fn handle_event(&self, event: NavEvent) -> HandlerResponse {
        *self.last_event.lock().expect("Lock poisoned!") = Some(event);
        HandlerResponse::Default
    }
}

impl NavigationInspector {
    fn new() -> Self {
        Self { last_event: Mutex::new(None) }
    }

    fn last_event(&self) -> Option<NavEvent> {
        self.last_event.lock().expect("Lock poisoned!").clone()
    }
}

// Refuses every navigation.
struct Refuser;

impl NavEventHandler for Refuser {
    fn handle_event(&self, _event: NavEvent) -> HandlerResponse {
        HandlerResponse::PreventDefault
    }
}

fn url(s: &str) -> String {
    Url::parse(s).expect("URL failed to parse").to_string()
}

#[test]
fn basic_internal_nav() {
    let handler = Arc::new(NavigationInspector::new());
    let mut ctx = NavCtx::default();
    ctx.set_event_handler(Some(handler.clone()));

    let url_str = "https://www.website.com/live";
    ctx.navigate(url(url_str), NavOptions::default(), true).expect("Nav Failed");

    assert_eq!(
        NavEvent {
            event: NavEventType::Push,
            to: NavHistoryEntry { state: None, id: 1, url: url_str.to_string() },
            ..NavEvent::empty()
        },
        handler.last_event().expect("Missing Event")
    );
}

#[test]
fn basic_internal_navigate_back() {
    let handler = Arc::new(NavigationInspector::new());
    let mut ctx = NavCtx::default();
    ctx.set_event_handler(Some(handler.clone()));

    let first_url_str = "https://www.website.com/first";
    ctx.navigate(url(first_url_str), NavOptions::default(), true).expect("Nav Failed");

    let url_str = "https://www.website.com/second";
    ctx.navigate(url(url_str), NavOptions::default(), true).expect("Failed.");

    assert_eq!(
        NavEvent {
            to: NavHistoryEntry { state: None, id: 2, url: url_str.to_string() },
            from: Some(NavHistoryEntry { state: None, id: 1, url: first_url_str.to_string() }),
            ..NavEvent::empty()
        },
        handler.last_event().expect("Missing Event")
    );

    ctx.back(None, true).expect("Failed Back.");

    assert_eq!(
        NavEvent {
            to: NavHistoryEntry { state: None, id: 1, url: first_url_str.to_string() },
            from: Some(NavHistoryEntry { state: None, id: 2, url: url_str.to_string() }),
            ..NavEvent::empty()
        },
        handler.last_event().expect("Missing Event")
    );
}

#[test]
fn test_navigation_with_state() {
    let handler = Arc::new(NavigationInspector::new());
    let mut ctx = NavCtx::default();
    ctx.set_event_handler(Some(handler.clone()));

    let state = vec![1, 2, 3];
    let info = vec![4, 5, 6];
    let opts = NavOptions { state: Some(state.clone()), extra_event_info: Some(info.clone()), ..Default::default() };

    let id = ctx.navigate(url("https://example.com"), opts, true).expect("nav");

    let last_ev = handler.last_event().expect("no event.");
    assert_eq!(last_ev.info, Some(info));

    let current = ctx.current().expect("current");
    assert_eq!(current.id, id);
    assert_eq!(current.state, Some(state));
}

#[test]
fn test_navigation_stack() {
    let mut ctx = NavCtx::default();
    let first = url("https://example.com/first");
    let second = url("https://example.com/second");
    let third = url("https://example.com/third");

    let id1 = ctx.navigate(first.clone(), NavOptions::default(), true).expect("nav first");
    let id2 = ctx.navigate(second.clone(), NavOptions::default(), true).expect("nav second");
    let id3 = ctx.navigate(third.clone(), NavOptions::default(), true).expect("nav third");

    assert_eq!(ctx.current().expect("current").url, third);

    let prev_id = ctx.back(None, true).expect("back");
    assert_eq!(prev_id, id2);
    assert_eq!(ctx.current().expect("current").url, second);
    assert_eq!(ctx.entries().len(), 3);

    let next_id = ctx.forward(None, true).expect("forward");
    assert_eq!(next_id, id3);
    assert_eq!(ctx.current().expect("current").url, third);
    assert_eq!(ctx.entries().len(), 3);

    ctx.traverse_to(id1, None, true).expect("Failed to traverse");
    assert_eq!(ctx.current().expect("current").url, first);
    assert_eq!(ctx.entries().len(), 3);

    ctx.traverse_to(id3, None, true).expect("Failed to traverse");
    assert_eq!(ctx.current().expect("current").url, third);
    assert_eq!(ctx.entries().len(), 3);
}

#[test]
fn test_navigation_rollback_forward() {
    let mut ctx = NavCtx::default();
    let id1 = ctx.navigate(url("https://example.com/first"), NavOptions::default(), true).expect("nav first");
    let id2 = ctx.navigate(url("https://example.com/second"), NavOptions::default(), true).expect("nav second");

    ctx.back(None, true).expect("back");
    assert_eq!(ctx.current().expect("current").id, id1);

    ctx.forward(None, true).expect("forward");
    assert_eq!(ctx.current().expect("current").id, id2);
}

#[test]
fn back_then_forward_returns_to_the_same_entry() {
    let mut ctx = NavCtx::default();
    ctx.navigate(url("https://example.com/a"), NavOptions::default(), false).expect("a");
    let b = ctx.navigate(url("https://example.com/b"), NavOptions::default(), false).expect("b");
    let before = ctx.entries();
    ctx.back(None, false).expect("back");
    let again = ctx.forward(None, false).expect("forward");
    assert_eq!(again, b);
    assert_eq!(ctx.entries(), before);
}

#[test]
fn back_with_one_entry_is_refused() {
    let mut ctx = NavCtx::default();
    assert!(!ctx.can_go_back());
    ctx.navigate(url("https://example.com/a"), NavOptions::default(), false).expect("a");
    assert!(!ctx.can_go_back());
    assert!(ctx.back(None, false).is_err());
    assert!(ctx.forward(None, false).is_err());
}

#[test]
fn traverse_to_unknown_id_is_refused() {
    let mut ctx = NavCtx::default();
    ctx.navigate(url("https://example.com/a"), NavOptions::default(), false).expect("a");
    assert!(!ctx.can_traverse_to(42));
    assert!(ctx.traverse_to(42, None, false).is_err());
}

#[test]
fn refusing_handler_prevents_navigation() {
    let mut ctx = NavCtx::default();
    ctx.set_event_handler(Some(Arc::new(Refuser)));
    let r = ctx.navigate(url("https://example.com/a"), NavOptions::default(), true);
    assert!(r.is_err());
    assert!(ctx.current().is_none());
    let r = ctx.navigate(url("https://example.com/a"), NavOptions::default(), false);
    assert!(r.is_ok());
    assert_eq!(ctx.entries().len(), 1);
}

#[test]
fn replace_keeps_the_history_length() {
    let mut ctx = NavCtx::default();
    ctx.navigate(url("https://example.com/a"), NavOptions::default(), false).expect("a");
    let opts = NavOptions { action: Some(NavAction::Replace), ..Default::default() };
    ctx.navigate(url("https://example.com/b"), opts, false).expect("b");
    assert_eq!(ctx.entries().len(), 1);
    assert_eq!(ctx.current().expect("current").url, url("https://example.com/b"));
}

#[test]
fn same_document_compares_paths() {
    let handler = Arc::new(NavigationInspector::new());
    let mut ctx = NavCtx::default();
    ctx.set_event_handler(Some(handler.clone()));
    ctx.navigate(url("https://example.com/a?x=1"), NavOptions::default(), true).expect("a");
    ctx.navigate(url("https://example.com/a?x=2"), NavOptions::default(), true).expect("a again");
    assert!(handler.last_event().expect("event").same_document);
    ctx.navigate(url("https://example.com/b"), NavOptions::default(), true).expect("b");
    assert!(!handler.last_event().expect("event").same_document);
}

#[test]
fn navigation_error_messages_are_not_empty() {
    let mut ctx = NavCtx::default();
    let e: NavigationError = ctx.back(None, false).expect_err("no history");
    assert!(!e.message().is_empty());
}

#[test]
fn patch_changes_the_top_entry() {
    let mut ctx = NavCtx::default();
    let first = ctx
        .navigate("https://example.com/a/b".to_string(), NavOptions::default(), false)
        .expect("nav");
    let r = ctx.patch("c?x=1".to_string(), false);
    assert_eq!(r, Ok(first));
    let cur = ctx.current().expect("current");
    assert_eq!(cur.url, "https://example.com/a/c?x=1");
    assert_eq!(cur.id, first);
    assert_eq!(ctx.entries().len(), 1);
    assert!(!ctx.can_go_back());
}

#[test]
fn reload_hands_the_current_entry_to_the_handler() {
    let handler = Arc::new(NavigationInspector::new());
    let mut ctx = NavCtx::default();
    ctx.set_event_handler(Some(handler.clone()));
    let id = ctx.navigate(url("https://example.com/a"), NavOptions::default(), true).expect("nav");
    assert_eq!(ctx.reload(Some(vec![7]), true), Ok(id));
    let cur = ctx.current().expect("current");
    let ev = handler.last_event().expect("event");
    assert_eq!(ev.event, NavEventType::Reload);
    assert_eq!(ev.to, cur.clone());
    assert_eq!(ev.from, Some(cur));
    assert_eq!(ev.info, Some(vec![7]));
    assert!(ev.same_document);
}

#[test]
fn events_go_to_the_handler_installed_last() {
    let first = Arc::new(NavigationInspector::new());
    let second = Arc::new(NavigationInspector::new());
    let mut ctx = NavCtx::default();
    ctx.set_event_handler(Some(first.clone()));
    ctx.navigate(url("https://example.com/a"), NavOptions::default(), true).expect("nav");
    ctx.set_event_handler(Some(second.clone()));
    ctx.navigate(url("https://example.com/b"), NavOptions::default(), true).expect("nav");
    assert_eq!(first.last_event().expect("first").to.url, url("https://example.com/a"));
    assert_eq!(second.last_event().expect("second").to.url, url("https://example.com/b"));
    ctx.navigate(url("https://example.com/c"), NavOptions::default(), false).expect("nav");
    assert_eq!(second.last_event().expect("second").to.url, url("https://example.com/b"));
}
