//! The boundary of the ledger: what a request handler decides between
//! reading the session, reading the store and writing to it, and the answer
//! it gives when it refuses.

use vstd::prelude::*;
use crate::model::{
    ErrorKind, Event, EventId, EventWithMembers, NewEvent, NewEventMember, NewEventMsg, Timestamp,
    UpdateEvent, UpdateUser, UserId,
};
use crate::ledger::is_among;
use crate::outside::nil_id;
use crate::policy::{
    amend, amendment_error, creation_error, effective_patch, has_changes, names_a_field,
    validate_new_event,
};

verus! {

/// The body of a refusal.
#[derive(Clone, Debug, PartialEq, Eq)]
pub struct DefaultError {
    pub message: String,
    pub error_code: String,
}

/// The body of an answer that carries nothing but a message.
#[derive(Clone, Debug, PartialEq, Eq)]
pub struct DefaultMsg {
    pub message: String,
    pub message_code: String,
}

/// The form that a browser posts to sign in: the token of the identity
/// provider and the token that must match the one in the browser's cookie.
#[derive(Clone, Debug, PartialEq, Eq)]
pub struct LoginFormData {
    pub credential: String,
    pub g_csrf_token: String,
}

/// What the identity provider's token says of a user.
#[derive(Clone, Debug, PartialEq, Eq)]
pub struct TokenClaims {
    pub sub: String,
    pub email: String,
    pub name: String,
    pub picture: String,
}

/// What reading the user's identity from the session gave.
#[derive(Clone, Copy, Debug, PartialEq, Eq)]
pub enum Session {
    /// The session could not be read.
    Unreadable,
    /// The session names no user.
    Anonymous,
    /// The session names this user.
    User(UserId),
}

/// A refusal: the status of the answer and its body.
#[derive(Clone, Debug, PartialEq, Eq)]
pub struct Refusal {
    pub status: u16,
    pub body: DefaultError,
}

/// What is to be done about an amendment that was not refused.
#[derive(Clone, Debug, PartialEq, Eq)]
pub enum PatchStep {
    /// Write these changes to the event, then show it.
    Write(UpdateEvent),
    /// Nothing is left to write: show the event as it is.
    Show,
}

impl Refusal {
    /// The refusal has this status, this message and this code.
    pub open spec fn says(self, status: u16, message: Seq<char>, code: Seq<char>) -> bool {
        self.status == status && self.body.message@ == message && self.body.error_code@ == code
    }
}

impl DefaultMsg {
    /// The answer has this message and this code.
    pub open spec fn says(self, message: Seq<char>, code: Seq<char>) -> bool {
        self.message@ == message && self.message_code@ == code
    }
}

fn refuse(status: u16, text: &str, code: &str) -> (r: Refusal)
    ensures
        r.says(status, text@, code@),
{
    Refusal { status, body: DefaultError { message: text.to_owned(), error_code: code.to_owned() } }
}

fn reply(text: &str, code: &str) -> (r: DefaultMsg)
    ensures
        r.says(text@, code@),
{
    DefaultMsg { message: text.to_owned(), message_code: code.to_owned() }
}

/// The user of a request that only a signed-in user may make. An anonymous
/// session is refused with 403, an unreadable one with 500.
pub fn require_user(session: Session) -> (r: Result<UserId, Refusal>)
    ensures
        match r {
            Ok(user_id) => session == Session::User(user_id),
            Err(refusal) => match session {
                Session::Unreadable => refusal.says(500, "Failed to get session"@, "500"@),
                Session::Anonymous => refusal.says(403, "Forbidden"@, "403"@),
                Session::User(_) => false,
            },
        },
{
    match session {
        Session::User(user_id) => Ok(user_id),
        Session::Anonymous => Err(refuse(403, "Forbidden", "403")),
        Session::Unreadable => Err(refuse(500, "Failed to get session", "500")),
    }
}

/// The viewer of a request that anyone may make: the signed-in user, or for
/// an anonymous session the identity 0, which no user has. An unreadable
/// session is refused with 500.
pub fn viewer_of(session: Session) -> (r: Result<UserId, Refusal>)
    ensures
        match r {
            Ok(viewer) => match session {
                Session::User(user_id) => viewer == user_id,
                Session::Anonymous => viewer == 0,
                Session::Unreadable => false,
            },
            Err(refusal) => session == Session::Unreadable && refusal.says(
                500,
                "Failed to get session"@,
                "500"@,
            ),
        },
{
    match session {
        Session::User(user_id) => Ok(user_id),
        Session::Anonymous => Ok(nil_id()),
        Session::Unreadable => Err(refuse(500, "Failed to get session", "500")),
    }
}

/// The refusal that answers an error of the lifecycle policy.
fn policy_refusal(kind: ErrorKind) -> (r: Refusal)
    requires
        kind == ErrorKind::InvalidSchedule || kind == ErrorKind::InvalidRange || kind
            == ErrorKind::InvalidTransition,
    ensures
        answers_policy(r, kind),
{
    match kind {
        ErrorKind::InvalidSchedule => refuse(400, "Start time should be earlier than end time", "400"),
        ErrorKind::InvalidRange => refuse(400, "Min amount should be smaller than max amount", "400"),
        _ => refuse(400, "established can only be set to true", "400"),
    }
}

/// `refusal` is the answer to the policy error `kind`.
pub open spec fn answers_policy(refusal: Refusal, kind: ErrorKind) -> bool {
    match kind {
        ErrorKind::InvalidSchedule => refusal.says(
            400,
            "Start time should be earlier than end time"@,
            "400"@,
        ),
        ErrorKind::InvalidRange => refusal.says(
            400,
            "Min amount should be smaller than max amount"@,
            "400"@,
        ),
        ErrorKind::InvalidTransition => refusal.says(
            400,
            "established can only be set to true"@,
            "400"@,
        ),
        _ => false,
    }
}

/// Decides the creation of an event by `user_id`: the form is held to the
/// two ordering rules and, if it passes, returned with `user_id` as owner
/// for the caller to store.
pub fn create_event(user_id: UserId, form: NewEvent) -> (r: Result<NewEvent, Refusal>)
    ensures
        match r {
            Ok(data) => creation_error(form) is None && data == (NewEvent { user_id, ..form }),
            Err(refusal) => creation_error(form) is Some && answers_policy(
                refusal,
                creation_error(form)->0,
            ),
        },
{
    match validate_new_event(&form) {
        Err(kind) => Err(policy_refusal(kind)),
        Ok(_) => Ok(
            NewEvent {
                name: form.name,
                description: form.description,
                category: form.category,
                start_time: form.start_time,
                end_time: form.end_time,
                min_amount: form.min_amount,
                max_amount: form.max_amount,
                user_id,
            },
        ),
    }
}

/// Answers the lookup of one event: the event, or 404 where there is none.
pub fn get_event(event: Option<EventWithMembers>) -> (r: Result<EventWithMembers, Refusal>)
    ensures
        match r {
            Ok(found) => event == Some(found),
            Err(refusal) => event is None && refusal.says(404, "Not Found"@, "404"@),
        },
{
    match event {
        Some(found) => Ok(found),
        None => Err(refuse(404, "Not Found", "404")),
    }
}

/// The event that a handler has read from the store, if it found one.
pub open spec fn current_of(event: Option<&Event>) -> Option<Event> {
    match event {
        Some(current) => Some(*current),
        None => None,
    }
}

/// What [`patch_event`] answers at the instant `now`.
pub open spec fn patch_event_decides(
    user_id: UserId,
    event: Option<Event>,
    form: UpdateEvent,
    now: Timestamp,
    r: Result<PatchStep, Refusal>,
) -> bool {
    match event {
        None => r is Err && r->Err_0.says(404, "Not Found"@, "404"@),
        Some(current) => if current.user_id != user_id {
            r is Err && r->Err_0.says(403, "Forbidden"@, "403"@)
        } else {
            match amendment_error(current, form, now) {
                Some(kind) => r is Err && answers_policy(r->Err_0, kind),
                None => {
                    let accepted = effective_patch(current.end_time, form, now);
                    r == Ok::<PatchStep, Refusal>(
                        if names_a_field(accepted) {
                            PatchStep::Write(accepted)
                        } else {
                            PatchStep::Show
                        },
                    )
                },
            }
        },
    }
}

/// Decides the amendment of an event by `user_id` at the instant `now`.
/// `event` is the event as stored, or `None` where there is none. A missing
/// event is answered with 404, a caller who is not the owner with 403, a
/// patch that the lifecycle policy refuses with 400. Otherwise the caller is
/// told what to write, if anything is left to write.
pub fn patch_event(user_id: UserId, event: Option<&Event>, form: UpdateEvent, now: Timestamp) -> (r: Result<PatchStep, Refusal>)
    ensures
        patch_event_decides(
            user_id,
            current_of(event),
            form,
            now,
            r,
        ),
{
    let current = match event {
        Some(current) => current,
        None => {
            return Err(refuse(404, "Not Found", "404"));
        },
    };
    if current.user_id != user_id {
        return Err(refuse(403, "Forbidden", "403"));
    }
    match amend(current, form, now) {
        Err(kind) => Err(policy_refusal(kind)),
        Ok(accepted) => {
            if has_changes(&accepted) {
                Ok(PatchStep::Write(accepted))
            } else {
                Ok(PatchStep::Show)
            }
        },
    }
}

/// Decides whether `user_id` may delete an event. `owner` is the owner of
/// the event, or `None` where there is no such event.
pub fn delete_event(user_id: UserId, owner: Option<UserId>) -> (r: Result<(), Refusal>)
    ensures
        match r {
            Ok(_) => owner == Some(user_id),
            Err(refusal) => match owner {
                None => refusal.says(404, "Not Found"@, "404"@),
                Some(owner_id) => owner_id != user_id && refusal.says(403, "Forbidden"@, "403"@),
            },
        },
{
    match owner {
        None => Err(refuse(404, "Not Found", "404")),
        Some(owner_id) => {
            if owner_id != user_id {
                Err(refuse(403, "Forbidden", "403"))
            } else {
                Ok(())
            }
        },
    }
}

/// Answers a deletion that the store has carried out, or failed to.
pub fn delete_event_reply(deleted: bool) -> (r: Result<DefaultMsg, Refusal>)
    ensures
        match r {
            Ok(msg) => deleted && msg.says("Event deleted"@, "200"@),
            Err(refusal) => !deleted && refusal.says(500, "Failed to delete event"@, "500"@),
        },
{
    if deleted {
        Ok(reply("Event deleted", "200"))
    } else {
        Err(refuse(500, "Failed to delete event", "500"))
    }
}

/// Decides whether `user_id` may see what belongs to the user `path_id`:
/// the events they own or joined, or their profile. Only the user
/// themselves may.
pub fn require_self(path_id: UserId, user_id: UserId) -> (r: Result<(), Refusal>)
    ensures
        match r {
            Ok(_) => path_id == user_id,
            Err(refusal) => path_id != user_id && refusal.says(403, "Forbidden"@, "403"@),
        },
{
    if path_id != user_id {
        Err(refuse(403, "Forbidden", "403"))
    } else {
        Ok(())
    }
}

/// Decides whether `user_id` may list the events of the user `path_id`.
pub fn get_user_events(path_id: UserId, user_id: UserId) -> (r: Result<(), Refusal>)
    ensures
        match r {
            Ok(_) => path_id == user_id,
            Err(refusal) => path_id != user_id && refusal.says(403, "Forbidden"@, "403"@),
        },
{
    require_self(path_id, user_id)
}

/// Decides whether `user_id` may see the profile of the user `path_id`.
pub fn get_user(path_id: UserId, user_id: UserId) -> (r: Result<(), Refusal>)
    ensures
        match r {
            Ok(_) => path_id == user_id,
            Err(refusal) => path_id != user_id && refusal.says(403, "Forbidden"@, "403"@),
        },
{
    require_self(path_id, user_id)
}

/// Decides whether `user_id` may change the profile of the user `path_id`,
/// and tells whether `form` names anything to write.
pub fn patch_user(path_id: UserId, user_id: UserId, form: &UpdateUser) -> (r: Result<bool, Refusal>)
    ensures
        match r {
            Ok(write) => path_id == user_id && write == (form.avatar is Some || form.name is Some
                || form.email is Some || form.phone is Some),
            Err(refusal) => path_id != user_id && refusal.says(403, "Forbidden"@, "403"@),
        },
{
    match require_self(path_id, user_id) {
        Err(refusal) => Err(refusal),
        Ok(_) => Ok(
            form.avatar.is_some() || form.name.is_some() || form.email.is_some()
                || form.phone.is_some(),
        ),
    }
}

/// Decides whether `user_id` may commit to the event `event_id`. `owner` is
/// the owner of the event, or `None` where there is no such event. The
/// owner of an event is refused, whatever the amount. Otherwise the
/// commitment is returned for the caller to record, with the event and the
/// user filled in.
pub fn join_event(user_id: UserId, event_id: EventId, owner: Option<UserId>, form: NewEventMember) -> (r: Result<NewEventMember, Refusal>)
    ensures
        match r {
            Ok(data) => owner is Some && owner != Some(user_id) && data == (NewEventMember {
                event_id,
                user_id,
                amount: form.amount,
            }),
            Err(refusal) => match owner {
                None => refusal.says(404, "Event not found"@, "404"@),
                Some(owner_id) => owner_id == user_id && refusal.says(
                    400,
                    "You are the owner of this event"@,
                    "400"@,
                ),
            },
        },
{
    match owner {
        None => Err(refuse(404, "Event not found", "404")),
        Some(owner_id) => {
            if owner_id == user_id {
                Err(refuse(400, "You are the owner of this event", "400"))
            } else {
                Ok(NewEventMember { event_id, user_id, amount: form.amount })
            }
        },
    }
}

/// Answers a commitment that the ledger has recorded or refused. A
/// commitment that passed the cap was undone on purpose and is the caller's
/// to mend; any other failure is the store's.
pub fn join_event_reply(result: Result<(), ErrorKind>) -> (r: Result<DefaultMsg, Refusal>)
    ensures
        match r {
            Ok(msg) => result is Ok && msg.says("Success"@, "200"@),
            Err(refusal) => match result {
                Ok(_) => false,
                Err(ErrorKind::CapacityExceeded) => refusal.says(
                    400,
                    "Have already Reach Max Limit"@,
                    "400"@,
                ),
                Err(_) => refusal.says(500, "Failed to join event"@, "500"@),
            },
        },
{
    match result {
        Ok(_) => Ok(reply("Success", "200")),
        Err(ErrorKind::CapacityExceeded) => Err(refuse(400, "Have already Reach Max Limit", "400")),
        Err(_) => Err(refuse(500, "Failed to join event", "500")),
    }
}

/// Decides whether `user_id` may withdraw from an event. `owner` is the
/// owner of the event, or `None` where there is no such event.
pub fn leave_event(user_id: UserId, owner: Option<UserId>) -> (r: Result<(), Refusal>)
    ensures
        match r {
            Ok(_) => owner is Some && owner != Some(user_id),
            Err(refusal) => match owner {
                None => refusal.says(404, "Event not found"@, "404"@),
                Some(owner_id) => owner_id == user_id && refusal.says(
                    400,
                    "You are the owner of this event"@,
                    "400"@,
                ),
            },
        },
{
    match owner {
        None => Err(refuse(404, "Event not found", "404")),
        Some(owner_id) => {
            if owner_id == user_id {
                Err(refuse(400, "You are the owner of this event", "400"))
            } else {
                Ok(())
            }
        },
    }
}

/// Answers a withdrawal that the store has carried out, or failed to. A
/// user who had no commitment is told so; a failure of the store is the
/// store's.
pub fn leave_event_reply(result: Result<bool, ErrorKind>) -> (r: Result<DefaultMsg, Refusal>)
    ensures
        match r {
            Ok(msg) => result == Ok::<bool, ErrorKind>(true) && msg.says("Success"@, "200"@),
            Err(refusal) => match result {
                Ok(removed) => !removed && refusal.says(
                    400,
                    "You are not in this event"@,
                    "400"@,
                ),
                Err(_) => refusal.says(500, "Failed to leave event"@, "500"@),
            },
        },
{
    match result {
        Ok(true) => Ok(reply("Success", "200")),
        Ok(false) => Err(refuse(400, "You are not in this event", "400")),
        Err(_) => Err(refuse(500, "Failed to leave event", "500")),
    }
}

/// Decides whether `user_id` may post to the thread of the event
/// `event_id`: the owner may, and so may every user with a commitment to
/// the event. `owner` is the owner of the event, or `None` where there is no
/// such event; `members` are the users committed to it. The message is
/// returned for the caller to store, with the event and the user filled in.
pub fn add_event_msg(
    user_id: UserId,
    event_id: EventId,
    owner: Option<UserId>,
    members: &Vec<UserId>,
    form: NewEventMsg,
) -> (r: Result<NewEventMsg, Refusal>)
    ensures
        match r {
            Ok(data) => owner is Some && (owner == Some(user_id) || members@.contains(user_id))
                && data == (NewEventMsg { event_id, user_id, content: form.content }),
            Err(refusal) => match owner {
                None => refusal.says(404, "Event not found"@, "404"@),
                Some(owner_id) => owner_id != user_id && !members@.contains(user_id)
                    && refusal.says(403, "You are not in this event"@, "403"@),
            },
        },
{
    match owner {
        None => Err(refuse(404, "Event not found", "404")),
        Some(owner_id) => {
            if owner_id != user_id && !is_among(members, user_id) {
                Err(refuse(403, "You are not in this event", "403"))
            } else {
                Ok(NewEventMsg { event_id, user_id, content: form.content })
            }
        },
    }
}

/// Decides whether the thread of an event may be read: the event must exist.
pub fn get_event_msgs(event_exists: bool) -> (r: Result<(), Refusal>)
    ensures
        match r {
            Ok(_) => event_exists,
            Err(refusal) => !event_exists && refusal.says(404, "Event not found"@, "404"@),
        },
{
    if event_exists {
        Ok(())
    } else {
        Err(refuse(404, "Event not found", "404"))
    }
}

/// Decides whether a browser may sign in. `signed_in` is what the session
/// holds as the user's identity; `cookie_token` is the token in the
/// browser's cookie, if it sent one. A session that already names a user is
/// refused with 409. Unless requests from other origins are enabled, the
/// token of the form must equal the token of the cookie, where a missing
/// cookie counts as the empty token; else the answer is 401.
pub fn user_login(
    signed_in: Result<Option<String>, ()>,
    cookie_token: Option<String>,
    form: &LoginFormData,
    cors_enabled: bool,
) -> (r: Result<(), Refusal>)
    ensures
        match r {
            Ok(_) => signed_in == Ok::<Option<String>, ()>(None) && (cors_enabled || csrf_token_of(
                cookie_token,
            ) == form.g_csrf_token@),
            Err(refusal) => match signed_in {
                Err(_) => refusal.says(500, "Failed to get session"@, "500"@),
                Ok(Some(user_id)) => refusal.says(
                    409,
                    "Already logged in as "@ + user_id@,
                    "409"@,
                ),
                Ok(None) => !cors_enabled && csrf_token_of(cookie_token) != form.g_csrf_token@
                    && refusal.says(401, "Invalid CSRF token"@, "401"@),
            },
        },
{
    match signed_in {
        Err(_) => {
            return Err(refuse(500, "Failed to get session", "500"));
        },
        Ok(Some(user_id)) => {
            let mut text = "Already logged in as ".to_owned();
            text.append(user_id.as_str());
            return Err(
                Refusal {
                    status: 409,
                    body: DefaultError { message: text, error_code: "409".to_owned() },
                },
            );
        },
        Ok(None) => {},
    }
    let g_csrf_token = match cookie_token {
        Some(token) => token,
        None => String::new(),
    };
    if !cors_enabled && g_csrf_token != form.g_csrf_token {
        return Err(refuse(401, "Invalid CSRF token", "401"));
    }
    Ok(())
}

/// The token that a browser's cookie stands for: its value, or the empty
/// token where the browser sent none.
pub open spec fn csrf_token_of(cookie_token: Option<String>) -> Seq<char> {
    match cookie_token {
        Some(token) => token@,
        None => Seq::empty(),
    }
}

/// Answers a sign-out.
pub fn user_logout() -> (msg: DefaultMsg)
    ensures
        msg.says("Logged out"@, "200"@),
{
    reply("Logged out", "200")
}

/// Answers a probe of the service's health.
pub fn ping() -> (msg: DefaultMsg)
    ensures
        msg.says("pong"@, "200"@),
{
    reply("pong", "200")
}

/// Answers a failure of the store to take a message.
pub fn add_event_msg_failed() -> (refusal: Refusal)
    ensures
        refusal.says(500, "Failed to add event msg"@, "500"@),
{
    refuse(500, "Failed to add event msg", "500")
}

/// Answers a failure of the store to list a thread.
pub fn get_event_msgs_failed() -> (refusal: Refusal)
    ensures
        refusal.says(500, "Failed to get event msg"@, "500"@),
{
    refuse(500, "Failed to get event msg", "500")
}

/// Answers a failure to write the user's identity to the session.
pub fn session_write_failed() -> (refusal: Refusal)
    ensures
        refusal.says(500, "Failed to set session"@, "500"@),
{
    refuse(500, "Failed to set session", "500")
}

} // verus!
