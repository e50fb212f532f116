//! Types exchanged with the host application: navigation history entries and
//! events, handler responses and the status enums reported to the host.
use vstd::prelude::*;

use crate::urls::{url_path, url_path_of};

verus! {

/// Unique id in the history stack
pub type HistoryId = u64;

/// The view of an optional byte buffer.
pub open spec fn bytes_view(b: Option<Vec<u8>>) -> Option<Seq<u8>> {
    match b {
        Some(v) => Some(v@),
        None => None,
    }
}

/// Clones an optional byte buffer.
pub fn clone_bytes(b: &Option<Vec<u8>>) -> (r: Option<Vec<u8>>)
    ensures
        bytes_view(r) == bytes_view(*b),
{
    match b {
        Some(v) => {
            let c = v.clone();
            assert(c@ =~= v@);
            Some(c)
        },
        None => None,
    }
}

/// User emitted response from [NavEventHandler::handle_event].
/// Determines whether or not the default navigation action is taken.
#[derive(Clone, Copy, Debug, PartialEq, Eq)]
pub enum HandlerResponse {
    /// Return this to proceed as normal.
    Default,
    /// Return this to cancel the navigation before it occurs.
    PreventDefault,
}

impl std::default::Default for HandlerResponse {
    fn default() -> (r: Self)
        ensures
            r == HandlerResponse::Default,
    {
        HandlerResponse::Default
    }
}

/// The kind of a navigation event.
#[derive(Clone, Copy, Debug, PartialEq, Eq)]
pub enum NavEventType {
    /// Changing the url of the object on the top of the stack
    Patch,
    /// Pushing a new event onto the history stack
    Push,
    /// Replacing the most recent event on the history stack
    Replace,
    /// Reloading the view in place
    Reload,
    /// Skipping multiple items on the history stack, leaving them in tact.
    Traverse,
}

/// A location in the navigation history.
#[derive(Debug, PartialEq)]
pub struct NavHistoryEntry {
    /// The target url.
    pub url: String,
    /// Unique id for this piece of nav entry state.
    pub id: HistoryId,
    /// state passed in by the user, to be passed in to the navigation event callback.
    pub state: Option<Vec<u8>>,
}

/// The mathematical value of a [NavHistoryEntry].
pub struct NavEntryView {
    pub url: Seq<char>,
    pub id: HistoryId,
    pub state: Option<Seq<u8>>,
}

impl View for NavHistoryEntry {
    type V = NavEntryView;

    open spec fn view(&self) -> NavEntryView {
        NavEntryView { url: self.url@, id: self.id, state: bytes_view(self.state) }
    }
}

impl Clone for NavHistoryEntry {
    fn clone(&self) -> (r: Self)
        ensures
            r@ == self@,
    {
        NavHistoryEntry { url: self.url.clone(), id: self.id, state: clone_bytes(&self.state) }
    }
}

impl NavHistoryEntry {
    /// Create a new navigation history entry
    pub fn new(url: String, id: HistoryId, state: Option<Vec<u8>>) -> (r: Self)
        ensures
            r.url == url,
            r.id == id,
            r.state == state,
    {
        Self { url, id, state }
    }
}

/// The view of an optional history entry.
pub open spec fn entry_opt_view(e: Option<NavHistoryEntry>) -> Option<NavEntryView> {
    match e {
        Some(x) => Some(x@),
        None => None,
    }
}

/// Clones an optional history entry.
pub fn clone_entry_opt(e: &Option<NavHistoryEntry>) -> (r: Option<NavHistoryEntry>)
    ensures
        entry_opt_view(r) == entry_opt_view(*e),
{
    match e {
        Some(x) => Some(x.clone()),
        None => None,
    }
}

/// An event emitted when the user navigates between views.
#[derive(Debug, PartialEq)]
pub struct NavEvent {
    /// The type of event being emitted.
    pub event: NavEventType,
    /// True if from and to point to the same path.
    pub same_document: bool,
    /// The previous location of the page, if there was one.
    pub from: Option<NavHistoryEntry>,
    /// Destination URL.
    pub to: NavHistoryEntry,
    /// Additional user provided metadata handed to the event handler.
    pub info: Option<Vec<u8>>,
}

impl Clone for NavEvent {
    fn clone(&self) -> (r: Self)
        ensures
            r.event == self.event,
            r.same_document == self.same_document,
            entry_opt_view(r.from) == entry_opt_view(self.from),
            r.to@ == self.to@,
            bytes_view(r.info) == bytes_view(self.info),
    {
        NavEvent {
            event: self.event,
            same_document: self.same_document,
            from: clone_entry_opt(&self.from),
            to: self.to.clone(),
            info: clone_bytes(&self.info),
        }
    }
}

/// Two locations belong to the same document when both parse as URLs and
/// their paths are equal.
pub open spec fn same_document_spec(to: Seq<char>, from: Option<Seq<char>>) -> bool {
    match from {
        Some(f) => {
            &&& url_path_of(f) is Some
            &&& url_path_of(to) is Some
            &&& url_path_of(f) == url_path_of(to)
        },
        None => false,
    }
}

/// The url of an optional entry.
pub open spec fn entry_url_opt(e: Option<NavHistoryEntry>) -> Option<Seq<char>> {
    match e {
        Some(x) => Some(x.url@),
        None => None,
    }
}

/// The mathematical value of a [NavEvent].
pub struct NavEventView {
    pub event: NavEventType,
    pub same_document: bool,
    pub from: Option<NavEntryView>,
    pub to: NavEntryView,
    pub info: Option<Seq<u8>>,
}

impl View for NavEvent {
    type V = NavEventView;

    open spec fn view(&self) -> NavEventView {
        NavEventView {
            event: self.event,
            same_document: self.same_document,
            from: entry_opt_view(self.from),
            to: self.to@,
            info: bytes_view(self.info),
        }
    }
}

/// The event of kind `event` for a move from `from` to `to` carrying `info`:
/// the one [NavEvent::new] builds.
pub open spec fn nav_event_view(
    event: NavEventType,
    to: NavEntryView,
    from: Option<NavEntryView>,
    info: Option<Seq<u8>>,
) -> NavEventView {
    NavEventView {
        event,
        same_document: same_document_spec(to.url, match from { Some(f) => Some(f.url), None => None }),
        from,
        to,
        info,
    }
}

impl NavEvent {
    /// Builds the event for a move from `from` to `to`; `same_document` tells
    /// whether both URLs share their path.
    pub fn new(
        event: NavEventType,
        to: NavHistoryEntry,
        from: Option<NavHistoryEntry>,
        info: Option<Vec<u8>>,
    ) -> (r: Self)
        ensures
            r.event == event,
            r.to == to,
            r.from == from,
            r.info == info,
            r.same_document == same_document_spec(to.url@, entry_url_opt(from)),
            r@ == nav_event_view(event, to@, entry_opt_view(from), bytes_view(info)),
    {
        let new_path = url_path(to.url.as_str());
        let old_path = match &from {
            Some(dest) => url_path(dest.url.as_str()),
            None => None,
        };
        let same_document = match (old_path, new_path) {
            (Some(old), Some(new)) => old == new,
            _ => false,
        };
        NavEvent { event, same_document, from, to, info }
    }

    /// A push event to an empty entry, with no origin and no extra info.
    pub fn empty() -> (r: Self)
        ensures
            r.event == NavEventType::Push,
            !r.same_document,
            r.from is None,
            r.to.url@ == Seq::<char>::empty(),
            r.to.id == 0,
            r.to.state is None,
            r.info is None,
    {
        NavEvent {
            event: NavEventType::Push,
            same_document: false,
            from: None,
            to: NavHistoryEntry { url: String::new(), id: 0, state: None },
            info: None,
        }
    }
}

/// This callback instruments events that occur when your user navigates to a
/// new view. Implemented by the host application.
pub trait NavEventHandler {
    /// Called before a navigation takes effect; returning
    /// [HandlerResponse::PreventDefault] cancels it.
    fn handle_event(&self, event: NavEvent) -> HandlerResponse;
}

/// Provides secure persistent storage for session data like cookies.
/// Implementations should handle platform-specific storage (e.g. NSUserDefaults on iOS)
/// and ensure data is stored securely as some of it may be session tokens.
pub trait SecurePersistentStore: Send + Sync {
    /// Removes the entry for the given key
    fn remove_entry(&self, key: String);

    /// Gets the value for the given key, or None if not found
    fn get(&self, key: String) -> Option<Vec<u8>>;

    /// Sets the value for the given key
    fn set(&self, key: String, value: Vec<u8>);
}

/// The state of the live channel, as reported to the host.
#[derive(Copy, Clone, Debug, Eq, PartialEq)]
pub enum LiveChannelStatus {
    /// The channel is waiting for the socket to connect or automatically reconnect.
    WaitingForSocketToConnect,
    /// The socket is connected and the channel is waiting to be joined.
    WaitingToJoin,
    /// A join was requested and the server's response is awaited.
    Joining,
    /// The channel was joined before, but the socket was disconnected and reconnected.
    WaitingToRejoin,
    /// The server responded that the topic was joined.
    Joined,
    /// A leave was requested and the server's response is awaited.
    Leaving,
    /// The server responded that the topic was left.
    Left,
    /// A shutdown was requested, but the async task hasn't exited yet.
    ShuttingDown,
    /// The async task has exited.
    ShutDown,
}

/// The kind of change made to a document node.
#[derive(Copy, Clone, Debug, PartialEq, Eq)]
pub enum ChangeType {
    Change,
    Add,
    Remove,
    Replace,
}

/// The kind of a document event.
#[derive(Copy, Clone, Debug, PartialEq, Eq)]
pub enum EventType {
    Changed,
}

/// What an event listener asks of its loop.
#[derive(Clone, Debug, PartialEq, Eq)]
pub enum ControlFlow {
    ExitOk,
    ExitErr(String),
    ContinueListening,
}

/// The client call that started a navigation.
#[derive(Clone, Copy, Debug, PartialEq, Eq)]
pub enum NavigationCall {
    /// calls to initial_connect
    Initialization,
    /// calls to navigate
    Navigate,
    /// calls to forward
    Forward,
    /// calls to back
    Back,
    /// calls to traverse_to
    Traverse,
    /// calls to reload
    Reload,
    /// calls to disconnect
    Disconnect,
    /// calls to reconnect and post_form
    Reconnect,
}

/// The issuer of the event that triggered a given live reload
#[derive(Clone, Debug, PartialEq, Eq)]
pub enum Issuer {
    /// An external function call from the client's external API
    External(NavigationCall),
    /// A "live_reload" message on any channel.
    LiveReload,
    /// A "redirect" message on any channel.
    Redirect,
    /// A "live_redirect" message on any channel.
    LiveRedirect,
    /// An "asset_change" message on a live reload channel.
    AssetChange,
    Other(String),
}

} // verus!
