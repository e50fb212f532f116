//! The navigation context: the history of visited views, the views that are
//! "forward" of the current one, and the user's navigation event handler.
use std::sync::Arc;

use vstd::prelude::*;

use crate::callbacks::{bytes_view, clone_bytes, nav_event_view, HandlerResponse, HistoryId, NavEntryView, NavEvent, NavEventHandler, NavEventType, NavEventView, NavHistoryEntry};
use crate::urls::{url_join, url_joined, url_parse_error, url_parse_error_of};

verus! {

/// How a navigation changes the history stack.
#[derive(Clone, Copy, Debug, PartialEq, Eq)]
pub enum NavAction {
    /// Push a new entry on the history stack.
    Push,
    /// Replace the current entry of the history stack.
    Replace,
}

/// Options of a navigation.
#[derive(Debug, PartialEq)]
pub struct NavOptions {
    /// `None` pushes a new entry.
    pub action: Option<NavAction>,
    /// State stored in the new history entry.
    pub state: Option<Vec<u8>>,
    /// Extra information handed to the event handler.
    pub extra_event_info: Option<Vec<u8>>,
}

impl Default for NavOptions {
    fn default() -> (r: Self)
        ensures
            r.action is None,
            r.state is None,
            r.extra_event_info is None,
    {
        NavOptions { action: None, state: None, extra_event_info: None }
    }
}

/// Why a navigation failed.
#[derive(Debug, Clone, PartialEq, Eq)]
pub enum NavigationError {
    PreventedByHandler,
    InvalidUrl { reason: String },
    NoCurrentEntry,
    CannotGoBack,
    CannotGoForward,
    CannotTraverseToId { id: HistoryId },
    Other { reason: String },
}

impl NavigationError {
    /// The message describing this error.
    pub fn message(&self) -> (r: String)
        ensures
            r@ == match self {
                NavigationError::PreventedByHandler => "Navigation was prevented by a user handler"@,
                NavigationError::InvalidUrl { reason } => "Invalid URL: "@ + reason@,
                NavigationError::NoCurrentEntry => "No current entry in navigation history"@,
                NavigationError::CannotGoBack => "Cannot navigate back: history is empty or has only one entry"@,
                NavigationError::CannotGoForward => "Cannot navigate forward: no forward entries available"@,
                NavigationError::CannotTraverseToId { .. } => "Cannot traverse to ID: not found in history"@,
                NavigationError::Other { reason } => "Navigation failed: "@ + reason@,
            },
    {
        match self {
            NavigationError::PreventedByHandler => "Navigation was prevented by a user handler".to_string(),
            NavigationError::InvalidUrl { reason } => {
                let mut s = "Invalid URL: ".to_string();
                s.append(reason.as_str());
                s
            },
            NavigationError::NoCurrentEntry => "No current entry in navigation history".to_string(),
            NavigationError::CannotGoBack => "Cannot navigate back: history is empty or has only one entry".to_string(),
            NavigationError::CannotGoForward => "Cannot navigate forward: no forward entries available".to_string(),
            NavigationError::CannotTraverseToId { .. } => "Cannot traverse to ID: not found in history".to_string(),
            NavigationError::Other { reason } => {
                let mut s = "Navigation failed: ".to_string();
                s.append(reason.as_str());
                s
            },
        }
    }
}

/// The views of a sequence of history entries.
pub open spec fn entries_view(s: Seq<NavHistoryEntry>) -> Seq<NavEntryView> {
    s.map_values(|e: NavHistoryEntry| e@)
}

/// History and future stacks after going back one step.
pub open spec fn back_spec(history: Seq<NavEntryView>, future: Seq<NavEntryView>) -> (Seq<NavEntryView>, Seq<NavEntryView>) {
    (history.drop_last(), future.push(history.last()))
}

/// History and future stacks after going forward one step.
pub open spec fn forward_spec(history: Seq<NavEntryView>, future: Seq<NavEntryView>) -> (Seq<NavEntryView>, Seq<NavEntryView>) {
    (history.push(future.last()), future.drop_last())
}

/// The first position of an entry with id `id` in `s`, if any.
pub open spec fn position_of(s: Seq<NavEntryView>, id: HistoryId) -> Option<int> {
    if exists|i: int| 0 <= i < s.len() && s[i].id == id {
        Some(choose|i: int| 0 <= i < s.len() && s[i].id == id && forall|j: int| 0 <= j < i ==> s[j].id != id)
    } else {
        None
    }
}

/// A position found by [position_of] lies in the sequence and holds `id`.
pub proof fn lemma_position_in_range(s: Seq<NavEntryView>, id: HistoryId)
    ensures
        position_of(s, id) matches Some(p) ==> 0 <= p < s.len() && s[p].id == id
            && forall|j: int| 0 <= j < p ==> s[j].id != id,
        position_of(s, id) is None <==> forall|j: int| 0 <= j < s.len() ==> s[j].id != id,
{
    if exists|i: int| 0 <= i < s.len() && s[i].id == id {
        let w = choose|i: int| 0 <= i < s.len() && s[i].id == id;
        lemma_first_exists(s, id, w);
    }
}

/// If some position holds `id`, a first such position exists.
proof fn lemma_first_exists(s: Seq<NavEntryView>, id: HistoryId, w: int)
    requires
        0 <= w < s.len(),
        s[w].id == id,
    ensures
        exists|i: int| 0 <= i < s.len() && s[i].id == id && forall|j: int| 0 <= j < i ==> s[j].id != id,
    decreases w,
{
    if exists|j: int| 0 <= j < w && s[j].id == id {
        let j = choose|j: int| 0 <= j < w && s[j].id == id;
        lemma_first_exists(s, id, j);
    } else {
        assert(forall|j: int| 0 <= j < w ==> s[j].id != id);
    }
}

/// History and future stacks after traversing to `id`.
pub open spec fn traverse_spec(history: Seq<NavEntryView>, future: Seq<NavEntryView>, id: HistoryId) -> (Seq<NavEntryView>, Seq<NavEntryView>) {
    match position_of(history, id) {
        Some(p) => (history.take(p + 1), future + history.skip(p + 1).reverse()),
        None => match position_of(future, id) {
            Some(q) => (history + future.skip(q).reverse(), future.take(q)),
            None => (history, future),
        },
    }
}

/// All tracked entries in traversal order: the history, then the future from
/// nearest to furthest.
pub open spec fn all_entries_spec(history: Seq<NavEntryView>, future: Seq<NavEntryView>) -> Seq<NavEntryView> {
    history + future.reverse()
}

/// The last entry of `h`, if any: the current one of a history stack.
pub open spec fn current_of(h: Seq<NavEntryView>) -> Option<NavEntryView> {
    if h.len() > 0 { Some(h.last()) } else { None }
}

/// The entry that a traversal to `id` moves to: the first with that id in
/// the history, else the first in the future.
pub open spec fn traverse_target(history: Seq<NavEntryView>, future: Seq<NavEntryView>, id: HistoryId) -> NavEntryView {
    match position_of(history, id) {
        Some(p) => history[p],
        None => future[position_of(future, id)->0],
    }
}

/// The internal navigation context.
/// handles the history state of the visited views.
pub struct NavCtx {
    /// Previously visited views
    history: Vec<NavHistoryEntry>,
    /// Views that are "forward" in history
    future: Vec<NavHistoryEntry>,
    /// monotonically increasing ID for `NavHistoryEntry`
    id_source: HistoryId,
    /// user provided callback
    navigation_event_handler: Option<Arc<dyn NavEventHandler + 'static>>,
    /// How many times a callback was installed.
    installs: Ghost<nat>,
    /// The events handed to the callback so far, oldest first, each with
    /// the installation of the callback it went to.
    handed: Ghost<Seq<(nat, NavEventView)>>,
}

impl Default for NavCtx {
    fn default() -> (r: Self)
        ensures
            r.history() == Seq::<NavEntryView>::empty(),
            r.future() == Seq::<NavEntryView>::empty(),
            r.id_source() == 0,
            !r.has_handler(),
            r.handed() == Seq::<(nat, NavEventView)>::empty(),
            r.installs() == 0,
    {
        let r = NavCtx {
            history: Vec::new(),
            future: Vec::new(),
            id_source: 0,
            navigation_event_handler: None,
            installs: Ghost(0),
            handed: Ghost(Seq::empty()),
        };
        assert(entries_view(r.history@) =~= Seq::<NavEntryView>::empty());
        assert(entries_view(r.future@) =~= Seq::<NavEntryView>::empty());
        r
    }
}

impl NavCtx {
    /// The previously visited views, the current one last.
    pub closed spec fn history(&self) -> Seq<NavEntryView> {
        entries_view(self.history@)
    }

    /// The views "forward" of the current one, the nearest last.
    pub closed spec fn future(&self) -> Seq<NavEntryView> {
        entries_view(self.future@)
    }

    /// The last issued history id.
    pub closed spec fn id_source(&self) -> HistoryId {
        self.id_source
    }

    /// Whether a navigation event handler is installed.
    pub closed spec fn has_handler(&self) -> bool {
        self.navigation_event_handler is Some
    }

    /// The navigation event handler installed, if any.
    pub closed spec fn handler(&self) -> Option<Arc<dyn NavEventHandler + 'static>> {
        self.navigation_event_handler
    }

    /// How many times a navigation event handler was installed (or
    /// removed): the handler in place is that of installation `installs()`.
    pub closed spec fn installs(&self) -> nat {
        self.installs@
    }

    /// The events handed to the navigation event handler so far, oldest
    /// first, each with the installation of the handler it was handed to.
    pub closed spec fn handed(&self) -> Seq<(nat, NavEventView)> {
        self.handed@
    }

    /// Whether `self` has the same handler installed as `other`.
    pub closed spec fn same_handler(&self, other: &Self) -> bool {
        self.navigation_event_handler == other.navigation_event_handler
    }

    /// Whether the handler could be consulted for an event.
    pub open spec fn consults_handler(&self, emit_event: bool) -> bool {
        emit_event && self.has_handler()
    }

    /// The events handed to a handler once `ev` was offered: `ev` is added,
    /// with the installed handler, when the handler is consulted.
    pub open spec fn handed_after(&self, emit_event: bool, ev: NavEventView) -> Seq<(nat, NavEventView)> {
        if self.consults_handler(emit_event) { self.handed().push((self.installs(), ev)) } else { self.handed() }
    }

    /// Whether `self` has the stacks, the id source and the handler of
    /// `other`.
    pub open spec fn keeps_stacks(&self, other: &Self) -> bool {
        &&& self.history() == other.history()
        &&& self.future() == other.future()
        &&& self.id_source() == other.id_source()
        &&& self.has_handler() == other.has_handler()
        &&& self.same_handler(other)
        &&& self.installs() == other.installs()
    }

    /// Navigate to `url` with behavior and metadata specified in `opts`.
    /// Returns the id of the new current entry.
    pub fn navigate(&mut self, url: String, opts: NavOptions, emit_event: bool) -> (r: Result<HistoryId, NavigationError>)
        requires
            old(self).id_source() < u64::MAX,
        ensures
            !old(self).consults_handler(emit_event) ==> r is Ok,
            final(self).installs() == old(self).installs(),
            final(self).handed() == old(self).handed_after(emit_event, nav_event_view(
                if opts.action == Some(NavAction::Replace) { NavEventType::Replace } else { NavEventType::Push },
                NavEntryView { url: url@, id: (old(self).id_source() + 1) as u64, state: bytes_view(opts.state) },
                current_of(old(self).history()),
                bytes_view(opts.extra_event_info),
            )),
            match r {
                Ok(id) => {
                    let entry = NavEntryView { url: url@, id: id, state: bytes_view(opts.state) };
                    &&& id == old(self).id_source() + 1
                    &&& final(self).id_source() == id
                    &&& final(self).future() == Seq::<NavEntryView>::empty()
                    &&& final(self).has_handler() == old(self).has_handler()
                    &&& final(self).history() == if opts.action == Some(NavAction::Replace) && old(self).history().len() > 0 {
                        old(self).history().drop_last().push(entry)
                    } else {
                        old(self).history().push(entry)
                    }
                },
                Err(e) => e == NavigationError::PreventedByHandler && final(self).keeps_stacks(old(self))
                    && old(self).consults_handler(emit_event),
            },
    {
        let replace = match opts.action {
            Some(NavAction::Replace) => true,
            _ => false,
        };
        let next_dest = self.speculative_next_dest(url, clone_bytes(&opts.state));
        let next_id = next_dest.id;
        let event_type = if replace { NavEventType::Replace } else { NavEventType::Push };
        let event = NavEvent::new(event_type, next_dest.clone(), self.current(), opts.extra_event_info);
        match self.handle_event(event, emit_event) {
            HandlerResponse::Default => {},
            HandlerResponse::PreventDefault => return Err(NavigationError::PreventedByHandler),
        }
        if replace {
            self.replace_entry(next_dest);
        } else {
            self.push_entry(next_dest);
        }
        // successful navigation invalidates previously coalesced state from
        // calls to `back`
        self.future.clear();
        assert(entries_view(self.future@) =~= Seq::<NavEntryView>::empty());
        Ok(next_id)
    }

    /// Changes the path of the current location to `url_path`, resolved
    /// against the current URL: the entry on top of the history is replaced
    /// by one with the new URL and the current id and state. Returns the id
    /// of the current entry.
    pub fn patch(&mut self, url_path: String, emit_event: bool) -> (r: Result<HistoryId, NavigationError>)
        requires
            old(self).history().len() > 0 ==> old(self).id_source() < u64::MAX,
        ensures
            match r {
                Ok(id) => {
                    let cur = old(self).history().last();
                    &&& old(self).history().len() > 0
                    &&& id == cur.id
                    &&& url_parse_error_of(cur.url) is None
                    &&& url_joined(cur.url, url_path@) is Some
                    &&& final(self).history() == old(self).history().drop_last().push(NavEntryView {
                        url: url_joined(cur.url, url_path@).unwrap(),
                        id: cur.id,
                        state: cur.state,
                    })
                    &&& final(self).future() == old(self).future()
                    &&& final(self).id_source() == old(self).id_source() + 1
                    &&& final(self).has_handler() == old(self).has_handler()
                },
                Err(e) => final(self).keeps_stacks(old(self)) && match e {
                    NavigationError::NoCurrentEntry => old(self).history().len() == 0,
                    NavigationError::InvalidUrl { reason } => {
                        let cur = old(self).history().last();
                        &&& old(self).history().len() > 0
                        &&& match url_parse_error_of(cur.url) {
                            Some(msg) => reason@ == msg,
                            None => url_joined(cur.url, url_path@) is None && reason@ == "Join Failed"@,
                        }
                    },
                    NavigationError::PreventedByHandler => old(self).consults_handler(emit_event)
                        && old(self).history().len() > 0
                        && url_parse_error_of(old(self).history().last().url) is None
                        && url_joined(old(self).history().last().url, url_path@) is Some,
                    _ => false,
                },
            },
            old(self).history().len() > 0 && url_parse_error_of(old(self).history().last().url) is None
                && url_joined(old(self).history().last().url, url_path@) is Some
                && !old(self).consults_handler(emit_event) ==> r is Ok,
            final(self).installs() == old(self).installs(),
            final(self).handed() == if old(self).history().len() > 0
                && url_parse_error_of(old(self).history().last().url) is None
                && url_joined(old(self).history().last().url, url_path@) is Some {
                let cur = old(self).history().last();
                old(self).handed_after(emit_event, nav_event_view(
                    NavEventType::Patch,
                    NavEntryView { url: url_joined(cur.url, url_path@).unwrap(), id: cur.id, state: cur.state },
                    Some(cur),
                    None,
                ))
            } else {
                old(self).handed()
            },
    {
        let old_dest = match self.current() {
            Some(d) => d,
            None => return Err(NavigationError::NoCurrentEntry),
        };
        let old_id = old_dest.id;
        if let Some(reason) = url_parse_error(old_dest.url.as_str()) {
            return Err(NavigationError::InvalidUrl { reason });
        }
        let new_url = match url_join(old_dest.url.as_str(), url_path.as_str()) {
            Some(u) => u,
            None => {
                proof { reveal_strlit("Join Failed"); }
                return Err(NavigationError::InvalidUrl { reason: "Join Failed".to_string() });
            },
        };
        let new_dest = NavHistoryEntry::new(new_url, old_dest.id, clone_bytes(&old_dest.state));
        let event = NavEvent::new(NavEventType::Patch, new_dest.clone(), Some(old_dest), None);
        match self.handle_event(event, emit_event) {
            HandlerResponse::Default => {},
            HandlerResponse::PreventDefault => return Err(NavigationError::PreventedByHandler),
        }
        self.replace_entry(new_dest);
        Ok(old_id)
    }

    /// Returns true if the navigator can go back one entry.
    pub fn can_go_back(&self) -> (r: bool)
        ensures
            r == (self.history().len() >= 2),
    {
        self.history.len() >= 2
    }

    /// Returns true if the navigator can go forward one entry.
    pub fn can_go_forward(&self) -> (r: bool)
        ensures
            r == (self.future().len() > 0),
    {
        self.future.len() > 0
    }

    /// Returns true if the `id` is tracked in the navigation context.
    pub fn can_traverse_to(&self, id: HistoryId) -> (r: bool)
        ensures
            r == (position_of(self.history(), id) is Some || position_of(self.future(), id) is Some),
    {
        Self::find_position(&self.history, id).is_some() || Self::find_position(&self.future, id).is_some()
    }

    /// The first position of an entry with id `id`.
    fn find_position(entries: &Vec<NavHistoryEntry>, id: HistoryId) -> (r: Option<usize>)
        ensures
            match r {
                Some(p) => position_of(entries_view(entries@), id) == Some(p as int),
                None => position_of(entries_view(entries@), id) is None,
            },
    {
        let ghost s = entries_view(entries@);
        let mut i: usize = 0;
        while i < entries.len()
            invariant
                i <= entries.len(),
                s == entries_view(entries@),
                forall|j: int| 0 <= j < i ==> s[j].id != id,
            decreases entries.len() - i,
        {
            if entries[i].id == id {
                assert(s[i as int].id == id);
                let ghost p = choose|k: int| 0 <= k < s.len() && s[k].id == id && forall|j: int| 0 <= j < k ==> s[j].id != id;
                assert(0 <= p < s.len() && s[p].id == id && forall|j: int| 0 <= j < p ==> s[j].id != id);
                proof {
                    if p < i as int {
                        assert(s[p].id != id);
                    } else if p > i as int {
                        assert(s[i as int].id != id);
                    }
                }
                return Some(i);
            }
            i = i + 1;
        }
        None
    }

    /// Returns all of the tracked history entries by cloning them.
    /// They are in traversal sequence order, with no guarantees about
    /// the position of the current entry.
    pub fn entries(&self) -> (r: Vec<NavHistoryEntry>)
        ensures
            entries_view(r@) == all_entries_spec(self.history(), self.future()),
    {
        let mut out: Vec<NavHistoryEntry> = Vec::new();
        let mut i: usize = 0;
        while i < self.history.len()
            invariant
                i <= self.history.len(),
                entries_view(out@) =~= self.history().take(i as int),
            decreases self.history.len() - i,
        {
            let e = self.history[i].clone();
            proof {
                assert(self.history()[i as int] == self.history@[i as int]@);
            }
            out.push(e);
            i = i + 1;
            assert(self.history().take(i as int) =~= self.history().take(i - 1).push(e@));
        }
        let mut j: usize = self.future.len();
        while j > 0
            invariant
                j <= self.future.len(),
                entries_view(out@) =~= self.history() + self.future().skip(j as int).reverse(),
            decreases j,
        {
            j = j - 1;
            let e = self.future[j].clone();
            proof {
                assert(self.future()[j as int] == self.future@[j as int]@);
                assert(self.future().skip(j as int).reverse() =~= self.future().skip(j + 1).reverse().push(e@));
            }
            let ghost before = entries_view(out@);
            out.push(e);
            assert(entries_view(out@) =~= before.push(e@));
        }
        assert(self.future().skip(0) =~= self.future());
        out
    }

    /// Calls the handler for reload events
    pub fn reload(&mut self, info: Option<Vec<u8>>, emit_event: bool) -> (r: Result<HistoryId, NavigationError>)
        ensures
            final(self).keeps_stacks(old(self)),
            final(self).installs() == old(self).installs(),
            final(self).handed() == if old(self).history().len() > 0 {
                let cur = old(self).history().last();
                old(self).handed_after(emit_event, nav_event_view(NavEventType::Reload, cur, Some(cur), bytes_view(info)))
            } else {
                old(self).handed()
            },
            match r {
                Ok(id) => old(self).history().len() > 0 && id == old(self).history().last().id,
                Err(e) => (e == NavigationError::NoCurrentEntry && old(self).history().len() == 0)
                    || (e == NavigationError::PreventedByHandler && old(self).history().len() > 0
                        && old(self).consults_handler(emit_event)),
            },
            old(self).history().len() > 0 && !old(self).consults_handler(emit_event) ==> r is Ok,
    {
        let current = match self.current() {
            Some(c) => c,
            None => return Err(NavigationError::NoCurrentEntry),
        };
        let id = current.id;
        let event = NavEvent::new(NavEventType::Reload, current.clone(), Some(current), info);
        match self.handle_event(event, emit_event) {
            HandlerResponse::Default => {},
            HandlerResponse::PreventDefault => return Err(NavigationError::PreventedByHandler),
        }
        Ok(id)
    }

    /// Navigates back one step in the stack, returning the id of the new
    /// current entry if successful.
    pub fn back(&mut self, info: Option<Vec<u8>>, emit_event: bool) -> (r: Result<HistoryId, NavigationError>)
        ensures
            match r {
                Ok(id) => {
                    &&& old(self).history().len() >= 2
                    &&& id == old(self).history()[old(self).history().len() - 2].id
                    &&& (final(self).history(), final(self).future()) == back_spec(old(self).history(), old(self).future())
                    &&& final(self).id_source() == old(self).id_source()
                    &&& final(self).has_handler() == old(self).has_handler()
                },
                Err(e) => final(self).keeps_stacks(old(self)) && (
                    (e == NavigationError::CannotGoBack && old(self).history().len() < 2)
                    || (e == NavigationError::PreventedByHandler && old(self).history().len() >= 2
                        && old(self).consults_handler(emit_event))),
            },
            old(self).history().len() >= 2 && !old(self).consults_handler(emit_event) ==> r is Ok,
            final(self).installs() == old(self).installs(),
            final(self).handed() == if old(self).history().len() >= 2 {
                let h = old(self).history();
                old(self).handed_after(emit_event, nav_event_view(NavEventType::Push, h[h.len() - 2], Some(h.last()), bytes_view(info)))
            } else {
                old(self).handed()
            },
    {
        if !self.can_go_back() {
            return Err(NavigationError::CannotGoBack);
        }
        let previous = match self.current() {
            Some(p) => p,
            None => return Err(NavigationError::NoCurrentEntry),
        };
        let next = self.history[self.history.len() - 2].clone();
        let next_id = next.id;
        let event = NavEvent::new(NavEventType::Push, next, Some(previous), info);
        match self.handle_event(event, emit_event) {
            HandlerResponse::Default => {
                let ghost h = self.history();
                let ghost f = self.future();
                let previous = self.history.pop().unwrap();
                self.future.push(previous);
                assert(self.history() =~= h.drop_last());
                assert(self.future() =~= f.push(h.last()));
                Ok(next_id)
            },
            HandlerResponse::PreventDefault => Err(NavigationError::PreventedByHandler),
        }
    }

    /// Navigate one step forward, fails if there is no entry in the future
    /// stack.
    pub fn forward(&mut self, info: Option<Vec<u8>>, emit_event: bool) -> (r: Result<HistoryId, NavigationError>)
        requires
            old(self).future().len() > 0 ==> old(self).id_source() < u64::MAX,
        ensures
            match r {
                Ok(id) => {
                    &&& old(self).future().len() > 0
                    &&& id == old(self).future().last().id
                    &&& (final(self).history(), final(self).future()) == forward_spec(old(self).history(), old(self).future())
                    &&& final(self).id_source() == old(self).id_source() + 1
                    &&& final(self).has_handler() == old(self).has_handler()
                },
                Err(e) => final(self).keeps_stacks(old(self)) && (
                    (e == NavigationError::CannotGoForward && old(self).future().len() == 0)
                    || (e == NavigationError::PreventedByHandler && old(self).future().len() > 0
                        && old(self).consults_handler(emit_event))),
            },
            old(self).future().len() > 0 && !old(self).consults_handler(emit_event) ==> r is Ok,
            final(self).installs() == old(self).installs(),
            final(self).handed() == if old(self).future().len() > 0 {
                old(self).handed_after(emit_event, nav_event_view(NavEventType::Push, old(self).future().last(),
                    current_of(old(self).history()), bytes_view(info)))
            } else {
                old(self).handed()
            },
    {
        if !self.can_go_forward() {
            return Err(NavigationError::CannotGoForward);
        }
        let next = self.future[self.future.len() - 1].clone();
        let previous = self.current();
        let event = NavEvent::new(NavEventType::Push, next, previous, info);
        match self.handle_event(event, emit_event) {
            HandlerResponse::Default => {
                let ghost h = self.history();
                let ghost f = self.future();
                let next = self.future.pop().unwrap();
                let out = next.id;
                assert(self.future() =~= f.drop_last());
                self.push_entry(next);
                assert(self.history() =~= h.push(f.last()));
                Ok(out)
            },
            HandlerResponse::PreventDefault => Err(NavigationError::PreventedByHandler),
        }
    }

    /// Traverses to the entry with id `id`, in the history or in the future.
    pub fn traverse_to(&mut self, id: HistoryId, info: Option<Vec<u8>>, emit_event: bool) -> (r: Result<HistoryId, NavigationError>)
        ensures
            match r {
                Ok(rid) => {
                    &&& rid == id
                    &&& old(self).history().len() > 0
                    &&& (position_of(old(self).history(), id) is Some || position_of(old(self).future(), id) is Some)
                    &&& (final(self).history(), final(self).future()) == traverse_spec(old(self).history(), old(self).future(), id)
                    &&& final(self).id_source() == old(self).id_source()
                    &&& final(self).has_handler() == old(self).has_handler()
                },
                Err(e) => final(self).keeps_stacks(old(self)) && match e {
                    NavigationError::CannotTraverseToId { id: eid } => eid == id
                        && position_of(old(self).history(), id) is None && position_of(old(self).future(), id) is None,
                    NavigationError::NoCurrentEntry => old(self).history().len() == 0
                        && position_of(old(self).future(), id) is Some,
                    NavigationError::PreventedByHandler => old(self).history().len() > 0
                        && old(self).consults_handler(emit_event)
                        && (position_of(old(self).history(), id) is Some || position_of(old(self).future(), id) is Some),
                    _ => false,
                },
            },
            old(self).history().len() > 0 && !old(self).consults_handler(emit_event)
                && (position_of(old(self).history(), id) is Some || position_of(old(self).future(), id) is Some) ==> r is Ok,
            final(self).installs() == old(self).installs(),
            final(self).handed() == if old(self).history().len() > 0
                && (position_of(old(self).history(), id) is Some || position_of(old(self).future(), id) is Some) {
                old(self).handed_after(emit_event, nav_event_view(NavEventType::Traverse,
                    traverse_target(old(self).history(), old(self).future(), id),
                    Some(old(self).history().last()), bytes_view(info)))
            } else {
                old(self).handed()
            },
    {
        if !self.can_traverse_to(id) {
            return Err(NavigationError::CannotTraverseToId { id });
        }
        let old_dest = match self.current() {
            Some(d) => d,
            None => {
                assert(self.history().len() == 0);
                assert(position_of(self.history(), id) is None);
                return Err(NavigationError::NoCurrentEntry);
            },
        };
        let ghost h = self.history();
        let ghost f = self.future();
        if let Some(entry) = Self::find_position(&self.history, id) {
            proof { lemma_position_in_range(h, id); }
            let new_dest = self.history[entry].clone();
            let event = NavEvent::new(NavEventType::Traverse, new_dest, Some(old_dest), info);
            match self.handle_event(event, emit_event) {
                HandlerResponse::Default => {},
                HandlerResponse::PreventDefault => return Err(NavigationError::PreventedByHandler),
            }
            let ghost log = self.handed;
            // All entries after the target move to the future, nearest last.
            while self.history.len() > entry + 1
                invariant
                    entry < self.history.len() <= h.len(),
                    self.history() == h.take(self.history.len() as int),
                    self.future() == f + h.skip(self.history.len() as int).reverse(),
                    self.id_source == old(self).id_source,
                    self.navigation_event_handler == old(self).navigation_event_handler,
                    self.handed == log,
                    self.installs == old(self).installs,
                    h.len() == old(self).history().len(),
                decreases self.history.len(),
            {
                let ghost n = self.history.len() as int;
                let ghost fut = self.future();
                proof {
                    assert(self.history()[n - 1] == h[n - 1]);
                    assert(self.history@[n - 1]@ == h[n - 1]);
                }
                let e = self.history.pop().unwrap();
                self.future.push(e);
                assert(self.future() =~= fut.push(h[n - 1]));
                assert(self.history() =~= h.take(n - 1));
                assert(h.skip(n - 1).reverse() =~= h.skip(n).reverse().push(h[n - 1]));
                assert(self.future() =~= f + h.skip(n - 1).reverse());
            }
            return Ok(id);
        }
        if let Some(entry) = Self::find_position(&self.future, id) {
            proof { lemma_position_in_range(f, id); }
            let new_dest = self.future[entry].clone();
            let event = NavEvent::new(NavEventType::Traverse, new_dest, Some(old_dest), info);
            match self.handle_event(event, emit_event) {
                HandlerResponse::Default => {},
                HandlerResponse::PreventDefault => return Err(NavigationError::PreventedByHandler),
            }
            let ghost log = self.handed;
            // All entries including the target move to the history.
            while self.future.len() > entry
                invariant
                    entry <= self.future.len() <= f.len(),
                    self.future() == f.take(self.future.len() as int),
                    self.history() == h + f.skip(self.future.len() as int).reverse(),
                    self.id_source == old(self).id_source,
                    self.navigation_event_handler == old(self).navigation_event_handler,
                    self.handed == log,
                    self.installs == old(self).installs,
                    f.len() == old(self).future().len(),
                decreases self.future.len(),
            {
                let ghost n = self.future.len() as int;
                let ghost his = self.history();
                proof {
                    assert(self.future()[n - 1] == f[n - 1]);
                    assert(self.future@[n - 1]@ == f[n - 1]);
                }
                let e = self.future.pop().unwrap();
                self.history.push(e);
                assert(self.history() =~= his.push(f[n - 1]));
                assert(self.future() =~= f.take(n - 1));
                assert(f.skip(n - 1).reverse() =~= f.skip(n).reverse().push(f[n - 1]));
                assert(self.history() =~= h + f.skip(n - 1).reverse());
            }
            return Ok(id);
        }
        Err(NavigationError::CannotTraverseToId { id })
    }

    /// Returns the current history entry and state
    pub fn current(&self) -> (r: Option<NavHistoryEntry>)
        ensures
            match r {
                Some(e) => self.history().len() > 0 && e@ == self.history().last(),
                None => self.history().len() == 0,
            },
    {
        if self.history.len() == 0 {
            None
        } else {
            Some(self.history[self.history.len() - 1].clone())
        }
    }

    /// Replaces the current entry, or pushes when there is none.
    fn replace_entry(&mut self, history_entry: NavHistoryEntry)
        requires
            old(self).id_source < u64::MAX,
        ensures
            final(self).history() == if old(self).history().len() > 0 {
                old(self).history().drop_last().push(history_entry@)
            } else {
                old(self).history().push(history_entry@)
            },
            final(self).future == old(self).future,
            final(self).id_source == old(self).id_source + 1,
            final(self).navigation_event_handler == old(self).navigation_event_handler,
            final(self).handed == old(self).handed,
            final(self).installs == old(self).installs,
    {
        let n = self.history.len();
        if n > 0 {
            let ghost h = self.history();
            self.id_source = self.id_source + 1;
            self.history.set(n - 1, history_entry);
            assert(self.history() =~= h.drop_last().push(history_entry@));
        } else {
            self.push_entry(history_entry);
        }
    }

    /// Pushes a new current entry.
    fn push_entry(&mut self, history_entry: NavHistoryEntry)
        requires
            old(self).id_source < u64::MAX,
        ensures
            final(self).history() == old(self).history().push(history_entry@),
            final(self).future == old(self).future,
            final(self).id_source == old(self).id_source + 1,
            final(self).navigation_event_handler == old(self).navigation_event_handler,
            final(self).handed == old(self).handed,
            final(self).installs == old(self).installs,
    {
        let ghost h = self.history();
        self.id_source = self.id_source + 1;
        self.history.push(history_entry);
        assert(self.history() =~= h.push(history_entry@));
    }

    /// Installs (or, with `None`, removes) the navigation event handler.
    pub fn set_event_handler(&mut self, handler: Option<Arc<dyn NavEventHandler + 'static>>)
        ensures
            final(self).has_handler() == handler is Some,
            final(self).handler() == handler,
            final(self).installs() == old(self).installs() + 1,
            final(self).history() == old(self).history(),
            final(self).future() == old(self).future(),
            final(self).id_source() == old(self).id_source(),
            final(self).handed() == old(self).handed(),
    {
        self.navigation_event_handler = handler;
        proof {
            self.installs@ = self.installs@ + 1;
        }
    }

    /// Hands `event` to the user's handler when `emit_event` is set and a
    /// handler is installed; otherwise answers [HandlerResponse::Default].
    pub fn handle_event(&mut self, event: NavEvent, emit_event: bool) -> (r: HandlerResponse)
        ensures
            final(self).keeps_stacks(old(self)),
            final(self).handed() == old(self).handed_after(emit_event, event@),
            !old(self).consults_handler(emit_event) ==> r == HandlerResponse::Default,
    {
        if !emit_event || self.navigation_event_handler.is_none() {
            return HandlerResponse::Default;
        }
        let ghost ev = event@;
        proof {
            self.handed@ = self.handed@.push((self.installs@, ev));
        }
        match &self.navigation_event_handler {
            Some(handler) => handler.handle_event(event),
            None => HandlerResponse::Default,
        }
    }

    /// The destination that a navigation to `url` would add to history,
    /// including the next unique id that would be issued.
    fn speculative_next_dest(&self, url: String, state: Option<Vec<u8>>) -> (r: NavHistoryEntry)
        requires
            self.id_source < u64::MAX,
        ensures
            r.url == url,
            r.id == self.id_source + 1,
            r.state == state,
    {
        NavHistoryEntry { id: self.id_source + 1, url, state }
    }
}

} // verus!

verus! {

/// Once a handler is installed, an event offered with `emit_event` set is
/// handed to that handler, the one of the latest installation, and to no
/// other; offered without it, it is handed to none.
pub proof fn law_events_reach_installed_handler(ctx: NavCtx, ev: NavEventView)
    requires
        ctx.has_handler(),
    ensures
        ctx.handed_after(true, ev) == ctx.handed().push((ctx.installs(), ev)),
        ctx.handed_after(false, ev) == ctx.handed(),
{
}

/// Going back one step and then forward one step restores both stacks.
pub proof fn law_back_then_forward(history: Seq<NavEntryView>, future: Seq<NavEntryView>)
    requires
        history.len() >= 2,
    ensures
        forward_spec(back_spec(history, future).0, back_spec(history, future).1) == (history, future),
{
    assert(history.drop_last().push(history.last()) =~= history);
    assert(future.push(history.last()).drop_last() =~= future);
}

/// Going forward one step and then back one step restores both stacks.
pub proof fn law_forward_then_back(history: Seq<NavEntryView>, future: Seq<NavEntryView>)
    requires
        future.len() > 0,
    ensures
        back_spec(forward_spec(history, future).0, forward_spec(history, future).1) == (history, future),
{
    assert(history.push(future.last()).drop_last() =~= history);
    assert(future.drop_last().push(future.last()) =~= future);
}

/// Going back does not change the tracked entries, nor their order.
pub proof fn law_back_keeps_entries(history: Seq<NavEntryView>, future: Seq<NavEntryView>)
    requires
        history.len() >= 1,
    ensures
        all_entries_spec(back_spec(history, future).0, back_spec(history, future).1)
            == all_entries_spec(history, future),
{
    assert(future.push(history.last()).reverse() =~= seq![history.last()] + future.reverse());
    assert(history.drop_last() + (seq![history.last()] + future.reverse()) =~= history + future.reverse());
}

/// Going forward does not change the tracked entries, nor their order.
pub proof fn law_forward_keeps_entries(history: Seq<NavEntryView>, future: Seq<NavEntryView>)
    requires
        future.len() >= 1,
    ensures
        all_entries_spec(forward_spec(history, future).0, forward_spec(history, future).1)
            == all_entries_spec(history, future),
{
    assert(future.reverse() =~= seq![future.last()] + future.drop_last().reverse());
    assert(history.push(future.last()) + future.drop_last().reverse() =~= history + future.reverse());
}

/// Traversing does not change the tracked entries, nor their order, and the
/// target becomes the current entry.
pub proof fn law_traverse_keeps_entries(history: Seq<NavEntryView>, future: Seq<NavEntryView>, id: HistoryId)
    requires
        position_of(history, id) is Some || position_of(future, id) is Some,
    ensures
        all_entries_spec(traverse_spec(history, future, id).0, traverse_spec(history, future, id).1)
            == all_entries_spec(history, future),
        traverse_spec(history, future, id).0.len() > 0,
        traverse_spec(history, future, id).0.last().id == id,
{
    lemma_position_in_range(history, id);
    lemma_position_in_range(future, id);
    match position_of(history, id) {
        Some(p) => {
            let h2 = history.take(p + 1);
            let f2 = future + history.skip(p + 1).reverse();
            assert(f2.reverse() =~= history.skip(p + 1) + future.reverse());
            assert(h2 + (history.skip(p + 1) + future.reverse()) =~= history + future.reverse());
            assert(h2.last() == history[p]);
        },
        None => {
            let q = position_of(future, id).unwrap();
            let h2 = history + future.skip(q).reverse();
            let f2 = future.take(q);
            assert(future.reverse() =~= future.skip(q).reverse() + f2.reverse());
            assert(h2 + f2.reverse() =~= history + future.reverse());
            assert(future.skip(q).reverse().last() == future[q]);
        },
    }
}

/// The tracked entries are the history stack in order, oldest first, so
/// that the current entry comes at the end of the history part, followed by
/// the future stack from the nearest entry to the furthest; with no future
/// they are the history itself.
pub proof fn law_entries_order(history: Seq<NavEntryView>, future: Seq<NavEntryView>)
    ensures
        all_entries_spec(history, future).len() == history.len() + future.len(),
        forall|i: int| 0 <= i < history.len() ==> #[trigger] all_entries_spec(history, future)[i] == history[i],
        forall|j: int| 0 <= j < future.len() ==>
            #[trigger] all_entries_spec(history, future)[history.len() + j] == future[future.len() - 1 - j],
        history.len() > 0 ==> all_entries_spec(history, future)[history.len() - 1] == history.last(),
        future.len() == 0 ==> all_entries_spec(history, future) == history,
{
    if future.len() == 0 {
        assert(history + future.reverse() =~= history);
    }
}

} // verus!
