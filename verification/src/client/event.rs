//! What a connected client does with an event pushed by the server.
use vstd::prelude::*;
use crate::navigation::NavAction;
use crate::urls::{url_joined, url_join};
use crate::dom::attribute::string_eq;
use super::dead_render::LiveSocketError;

verus! {

/// How a redirect changes the history.
#[derive(Debug, Clone, Copy, PartialEq, Eq, Structural)]
pub enum RedirectKind {
    Push,
    Replace,
}

/// The payload of a redirect event: where to go, and how.
#[derive(Debug, Clone, PartialEq, Eq)]
pub struct LiveRedirect {
    pub to: String,
    pub kind: Option<RedirectKind>,
}

/// An event pushed by the server.
#[derive(Debug, Clone, PartialEq, Eq)]
pub enum ServerEvent {
    /// A channel event of the Phoenix protocol itself.
    Phoenix,
    /// An event of the application, by name. `json` tells whether its
    /// payload is JSON, and `redirect` holds that payload read as a redirect,
    /// when it reads as one.
    User { name: String, json: bool, redirect: Option<LiveRedirect> },
}

/// What the client does about an event.
#[derive(Debug, Clone, PartialEq, Eq)]
pub enum EventAction {
    /// Nothing but a log line.
    Ignore,
    /// Merge the JSON payload, a diff, into the document.
    MergeDiff,
    /// Reconnect, with the channel's join parameters, to `url`.
    Reconnect { url: String },
    /// Make `url` the URL of the session, without navigating.
    SetUrl { url: String },
    /// Navigate, with the channel's join parameters, to `url`.
    Navigate { url: String, action: NavAction },
}

pub open spec fn diff_name() -> Seq<char> { seq!['d', 'i', 'f', 'f'] }
pub open spec fn assets_change_name() -> Seq<char> { seq!['a', 's', 's', 'e', 't', 's', '_', 'c', 'h', 'a', 'n', 'g', 'e'] }
pub open spec fn live_patch_name() -> Seq<char> { seq!['l', 'i', 'v', 'e', '_', 'p', 'a', 't', 'c', 'h'] }
pub open spec fn live_redirect_name() -> Seq<char> { seq!['l', 'i', 'v', 'e', '_', 'r', 'e', 'd', 'i', 'r', 'e', 'c', 't'] }
pub open spec fn redirect_name() -> Seq<char> { seq!['r', 'e', 'd', 'i', 'r', 'e', 'c', 't'] }

/// The history action of a redirect: a push unless it asks to replace.
pub open spec fn nav_action_of(kind: Option<RedirectKind>) -> NavAction {
    match kind {
        Some(RedirectKind::Replace) => NavAction::Replace,
        _ => NavAction::Push,
    }
}

/// Whether `a` is the action taken for the event `name` with a redirect to
/// the joined URL `target` (of the session URL and the redirect's target).
pub open spec fn redirect_action(name: Seq<char>, target: Seq<char>, kind: Option<RedirectKind>, a: EventAction) -> bool {
    if name == live_patch_name() {
        a matches EventAction::SetUrl { url } && url@ == target
    } else if name == live_redirect_name() {
        a matches EventAction::Navigate { url, action } && url@ == target && action == nav_action_of(kind)
    } else {
        a matches EventAction::Reconnect { url } && url@ == target
    }
}

/// Whether `name` is one of the events that redirect.
pub open spec fn is_redirect_event(name: Seq<char>) -> bool {
    name == live_patch_name() || name == live_redirect_name() || name == redirect_name()
}

/// Decides what to do about `event` for a session at `session_url`.
///
/// A diff is merged, a change of assets reconnects to the session URL, and
/// the three redirects resolve their target against the session URL: a live
/// patch only changes the session URL, a live redirect navigates and a
/// redirect reconnects. A payload that is not JSON, an unknown event and a
/// Phoenix event change nothing.
pub fn server_event_action(event: &ServerEvent, session_url: &str) -> (r: Result<EventAction, LiveSocketError>)
    ensures
        match event {
            ServerEvent::Phoenix => r == Ok::<EventAction, LiveSocketError>(EventAction::Ignore),
            ServerEvent::User { name, json, redirect } => {
                if name@ == diff_name() {
                    r == Ok::<EventAction, LiveSocketError>(if *json { EventAction::MergeDiff } else { EventAction::Ignore })
                } else if name@ == assets_change_name() {
                    r matches Ok(EventAction::Reconnect { url }) && url@ == session_url@
                } else if is_redirect_event(name@) {
                    if !*json {
                        r == Ok::<EventAction, LiveSocketError>(EventAction::Ignore)
                    } else {
                        match redirect {
                            None => r == Err::<EventAction, LiveSocketError>(LiveSocketError::InvalidRedirect),
                            Some(rd) => match url_joined(session_url@, rd.to@) {
                                None => r == Err::<EventAction, LiveSocketError>(LiveSocketError::ParseError),
                                Some(target) => r matches Ok(a) && redirect_action(name@, target, rd.kind, a),
                            },
                        }
                    }
                } else {
                    r == Ok::<EventAction, LiveSocketError>(EventAction::Ignore)
                }
            },
        },
{
    proof {
        reveal_strlit("diff");
        reveal_strlit("assets_change");
        reveal_strlit("live_patch");
        reveal_strlit("live_redirect");
        reveal_strlit("redirect");
    }
    assert("diff"@ =~= diff_name());
    assert("assets_change"@ =~= assets_change_name());
    assert("live_patch"@ =~= live_patch_name());
    assert("live_redirect"@ =~= live_redirect_name());
    assert("redirect"@ =~= redirect_name());
    match event {
        ServerEvent::Phoenix => Ok(EventAction::Ignore),
        ServerEvent::User { name, json, redirect } => {
            let n = name.as_str();
            if string_eq(n, "diff") {
                if *json { Ok(EventAction::MergeDiff) } else { Ok(EventAction::Ignore) }
            } else if string_eq(n, "assets_change") {
                Ok(EventAction::Reconnect { url: String::from_str(session_url) })
            } else if string_eq(n, "live_patch") || string_eq(n, "live_redirect") || string_eq(n, "redirect") {
                if !*json {
                    return Ok(EventAction::Ignore);
                }
                let rd = match redirect {
                    None => return Err(LiveSocketError::InvalidRedirect),
                    Some(rd) => rd,
                };
                let target = match url_join(session_url, rd.to.as_str()) {
                    None => return Err(LiveSocketError::ParseError),
                    Some(t) => t,
                };
                if string_eq(n, "live_patch") {
                    Ok(EventAction::SetUrl { url: target })
                } else if string_eq(n, "live_redirect") {
                    let action = match rd.kind {
                        Some(RedirectKind::Replace) => NavAction::Replace,
                        _ => NavAction::Push,
                    };
                    Ok(EventAction::Navigate { url: target, action })
                } else {
                    Ok(EventAction::Reconnect { url: target })
                }
            } else {
                Ok(EventAction::Ignore)
            }
        },
    }
}

/// Which reply entry asked for a redirect.
#[derive(Debug, Clone, Copy, PartialEq, Eq, Structural)]
pub enum Issuer {
    LiveRedirect,
    Redirect,
}

/// The parts of a reply to a call that decide what the client does: each
/// entry that is present, read as a redirect when it is one.
#[derive(Debug, Clone, PartialEq, Eq)]
pub struct Reply {
    /// Whether the reply is a JSON object.
    pub json_object: bool,
    /// The `live_redirect` entry, when present: `Some(None)` when it does
    /// not read as a redirect.
    pub live_redirect: Option<Option<LiveRedirect>>,
    /// The `redirect` entry, likewise.
    pub redirect: Option<Option<LiveRedirect>>,
    /// Whether a `diff` entry is present.
    pub diff: bool,
}

/// What the client does about a reply.
#[derive(Debug, Clone, PartialEq, Eq)]
pub enum ReplyAction {
    /// Navigate to `url` with `action`, on behalf of `issuer`.
    Redirected { issuer: Issuer, url: String, action: NavAction },
    /// Merge the `diff` entry into the document.
    DiffMerged,
    /// Nothing.
    NoAction,
}

/// The navigation a redirect entry asks for, against `session_url`.
fn redirect_target(entry: &Option<LiveRedirect>, session_url: &str) -> (r: Result<(String, NavAction), LiveSocketError>)
    ensures
        match entry {
            None => r == Err::<(String, NavAction), LiveSocketError>(LiveSocketError::InvalidRedirect),
            Some(rd) => match url_joined(session_url@, rd.to@) {
                None => r == Err::<(String, NavAction), LiveSocketError>(LiveSocketError::ParseError),
                Some(t) => r matches Ok((u, a)) && u@ == t && a == nav_action_of(rd.kind),
            },
        },
{
    let rd = match entry {
        None => return Err(LiveSocketError::InvalidRedirect),
        Some(rd) => rd,
    };
    let url = match url_join(session_url, rd.to.as_str()) {
        None => return Err(LiveSocketError::ParseError),
        Some(u) => u,
    };
    let action = match rd.kind {
        Some(RedirectKind::Replace) => NavAction::Replace,
        _ => NavAction::Push,
    };
    Ok((url, action))
}

/// Whether `r` is the outcome of redirecting as `entry` asks, for `issuer`.
pub open spec fn redirect_outcome(entry: Option<LiveRedirect>, session_url: Seq<char>, issuer: Issuer, r: Result<ReplyAction, LiveSocketError>) -> bool {
    match entry {
        None => r == Err::<ReplyAction, LiveSocketError>(LiveSocketError::InvalidRedirect),
        Some(rd) => match url_joined(session_url, rd.to@) {
            None => r == Err::<ReplyAction, LiveSocketError>(LiveSocketError::ParseError),
            Some(t) => r matches Ok(ReplyAction::Redirected { issuer: i, url, action })
                && i == issuer && url@ == t && action == nav_action_of(rd.kind),
        },
    }
}

/// Decides what to do about the reply to a call, for a session at
/// `session_url`: a `live_redirect` entry navigates, else a `redirect` entry
/// does, else a `diff` entry is merged; a reply that is not a JSON object,
/// or has none of these, changes nothing.
pub fn reply_action(reply: &Reply, session_url: &str) -> (r: Result<ReplyAction, LiveSocketError>)
    ensures
        !reply.json_object ==> r == Ok::<ReplyAction, LiveSocketError>(ReplyAction::NoAction),
        reply.json_object ==> match (reply.live_redirect, reply.redirect) {
            (Some(entry), _) => redirect_outcome(entry, session_url@, Issuer::LiveRedirect, r),
            (None, Some(entry)) => redirect_outcome(entry, session_url@, Issuer::Redirect, r),
            (None, None) => r == Ok::<ReplyAction, LiveSocketError>(if reply.diff { ReplyAction::DiffMerged } else { ReplyAction::NoAction }),
        },
{
    if !reply.json_object {
        return Ok(ReplyAction::NoAction);
    }
    if let Some(entry) = &reply.live_redirect {
        return match redirect_target(entry, session_url) {
            Ok((url, action)) => Ok(ReplyAction::Redirected { issuer: Issuer::LiveRedirect, url, action }),
            Err(e) => Err(e),
        };
    }
    if let Some(entry) = &reply.redirect {
        return match redirect_target(entry, session_url) {
            Ok((url, action)) => Ok(ReplyAction::Redirected { issuer: Issuer::Redirect, url, action }),
            Err(e) => Err(e),
        };
    }
    if reply.diff {
        Ok(ReplyAction::DiffMerged)
    } else {
        Ok(ReplyAction::NoAction)
    }
}


/// A step the connected client takes on the reply to a call.
#[derive(Debug, Clone, PartialEq, Eq)]
pub enum ResponseStep {
    /// Navigate, as the server pushed it, to `url` with `action`.
    Navigate { url: String, action: NavAction },
    /// Reconnect, with the channel's join parameters, to `url`.
    Reconnect { url: String },
    /// Merge the `diff` entry into the document.
    MergeDiff,
}

/// The steps taken on a reply, in order, and the error that stopped them,
/// if one did.
#[derive(Debug, Clone, PartialEq, Eq)]
pub struct ResponsePlan {
    pub steps: Vec<ResponseStep>,
    pub error: Option<LiveSocketError>,
}

/// The value of a step.
pub enum ResponseStepV {
    Navigate(Seq<char>, NavAction),
    Reconnect(Seq<char>),
    MergeDiff,
}

/// The value of a step.
pub open spec fn response_step_v(s: ResponseStep) -> ResponseStepV {
    match s {
        ResponseStep::Navigate { url, action } => ResponseStepV::Navigate(url@, action),
        ResponseStep::Reconnect { url } => ResponseStepV::Reconnect(url@),
        ResponseStep::MergeDiff => ResponseStepV::MergeDiff,
    }
}

/// Where a redirect entry leads, against `session_url`: its target joined
/// to the session URL and its history action; an entry that is not a
/// redirect, or a target that does not join, is an error.
pub open spec fn redirect_target_spec(entry: Option<LiveRedirect>, session_url: Seq<char>) -> Result<(Seq<char>, NavAction), LiveSocketError> {
    match entry {
        None => Err(LiveSocketError::InvalidRedirect),
        Some(rd) => match url_joined(session_url, rd.to@) {
            None => Err(LiveSocketError::ParseError),
            Some(t) => Ok((t, nav_action_of(rd.kind))),
        },
    }
}

/// What the connected client does on the reply to a call, at
/// `session_url`: nothing unless the reply is a JSON object; then a
/// `live_redirect` entry navigates, a `redirect` entry reconnects, and a
/// `diff` entry is merged, each that is present, in that order; an entry
/// that does not lead anywhere stops the steps with its error.
pub open spec fn response_plan(reply: Reply, session_url: Seq<char>) -> (Seq<ResponseStepV>, Option<LiveSocketError>) {
    if !reply.json_object {
        (Seq::empty(), None)
    } else {
        let first: Result<Seq<ResponseStepV>, LiveSocketError> = match reply.live_redirect {
            None => Ok(Seq::empty()),
            Some(e) => match redirect_target_spec(e, session_url) {
                Ok((u, a)) => Ok(seq![ResponseStepV::Navigate(u, a)]),
                Err(er) => Err(er),
            },
        };
        match first {
            Err(er) => (Seq::empty(), Some(er)),
            Ok(s1) => {
                let second: Result<Seq<ResponseStepV>, LiveSocketError> = match reply.redirect {
                    None => Ok(s1),
                    Some(e) => match redirect_target_spec(e, session_url) {
                        Ok((u, a)) => Ok(s1.push(ResponseStepV::Reconnect(u))),
                        Err(er) => Err(er),
                    },
                };
                match second {
                    Err(er) => (s1, Some(er)),
                    Ok(s2) => (if reply.diff { s2.push(ResponseStepV::MergeDiff) } else { s2 }, None),
                }
            },
        }
    }
}

/// Decides the steps the connected client takes on the reply to a call, at
/// `session_url`, as [response_plan] says.
pub fn response_steps(reply: &Reply, session_url: &str) -> (r: ResponsePlan)
    ensures
        (r.steps@.map_values(|s: ResponseStep| response_step_v(s)), r.error) == response_plan(*reply, session_url@),
{
    let mut steps: Vec<ResponseStep> = Vec::new();
    if !reply.json_object {
        assert(steps@.map_values(|s: ResponseStep| response_step_v(s)) =~= Seq::<ResponseStepV>::empty());
        return ResponsePlan { steps, error: None };
    }
    let ghost s0 = steps@.map_values(|s: ResponseStep| response_step_v(s));
    assert(s0 =~= Seq::<ResponseStepV>::empty());
    if let Some(entry) = &reply.live_redirect {
        match redirect_target(entry, session_url) {
            Ok((url, action)) => {
                steps.push(ResponseStep::Navigate { url, action });
            },
            Err(e) => {
                return ResponsePlan { steps, error: Some(e) };
            },
        }
    }
    let ghost s1 = steps@.map_values(|s: ResponseStep| response_step_v(s));
    assert(reply.live_redirect is None ==> s1 =~= Seq::<ResponseStepV>::empty());
    assert(reply.live_redirect is Some ==> s1 =~= seq![response_step_v(steps@[0])]);
    if let Some(entry) = &reply.redirect {
        match redirect_target(entry, session_url) {
            Ok((url, _action)) => {
                steps.push(ResponseStep::Reconnect { url });
                assert(steps@.map_values(|s: ResponseStep| response_step_v(s)) =~= s1.push(response_step_v(steps@[steps@.len() - 1])));
            },
            Err(e) => {
                return ResponsePlan { steps, error: Some(e) };
            },
        }
    }
    let ghost s2 = steps@.map_values(|s: ResponseStep| response_step_v(s));
    if reply.diff {
        steps.push(ResponseStep::MergeDiff);
        assert(steps@.map_values(|s: ResponseStep| response_step_v(s)) =~= s2.push(ResponseStepV::MergeDiff));
    }
    ResponsePlan { steps, error: None }
}

} // verus!
