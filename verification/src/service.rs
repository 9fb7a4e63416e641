//! The operations of the ledger as callers know them: each one checks what
//! the caller may do, then reads or changes the store as one unit.

use vstd::prelude::*;
use crate::api::TokenClaims;
use crate::db::{
    create_event_member, create_event_msg, delete_event_member, get_event_by_id,
    get_event_members, get_event_msg_by_event_id, get_or_create_user, Store,
};
use crate::tables::{created_event, found_or_created, Tables};
use crate::ledger::{is_among, lemma_member_ids, member_ids};
use crate::model::{
    ErrorKind, EventId, EventMsg, EventWithMembers, NewEvent, NewEventMember, NewEventMsg,
    ProjectionView, Timestamp, UpdateEvent, User, UserId,
};
use crate::policy::{
    amend, amendment_error, creation_error, effective_patch, has_changes, merged,
    validate_new_event,
};

verus! {

/// `data` with `owner_id` as the owner.
pub open spec fn owned_by(owner_id: UserId, data: NewEvent) -> NewEvent {
    NewEvent { user_id: owner_id, ..data }
}

/// Why `owner_id` cannot create the event `data`, if it cannot. The two
/// ordering rules come first; an owner that does not exist, or a store that
/// has given out its last identity, is a fault.
pub open spec fn create_error(t: Tables, owner_id: UserId, data: NewEvent) -> Option<ErrorKind> {
    if creation_error(data) is Some {
        creation_error(data)
    } else if !t.has_user(owner_id) || !t.has_room() {
        Some(ErrorKind::Fault)
    } else {
        None
    }
}

/// The tables after `owner_id` has asked to create the event `data`.
pub open spec fn created(t: Tables, owner_id: UserId, data: NewEvent) -> Tables {
    if create_error(t, owner_id, data) is None {
        t.with_event(owned_by(owner_id, data))
    } else {
        t
    }
}

/// Why `caller` cannot amend the event `event_id` by `patch` at `now`, if it
/// cannot: the event must exist, the caller must own it, and the patch must
/// pass the lifecycle policy, in this order.
pub open spec fn amend_error(
    t: Tables,
    event_id: EventId,
    caller: UserId,
    patch: UpdateEvent,
    now: Timestamp,
) -> Option<ErrorKind> {
    if !t.has_event(event_id) {
        Some(ErrorKind::NotFound)
    } else if t.event(event_id).user_id != caller {
        Some(ErrorKind::Forbidden)
    } else {
        amendment_error(t.event(event_id), patch, now)
    }
}

/// The tables after `caller` has asked to amend the event `event_id` by
/// `patch` at `now`: the part of the patch that the event still accepts is
/// written, if the amendment is allowed at all.
pub open spec fn amended(
    t: Tables,
    event_id: EventId,
    caller: UserId,
    patch: UpdateEvent,
    now: Timestamp,
) -> Tables {
    if amend_error(t, event_id, caller, patch, now) is None {
        t.with_update(event_id, effective_patch(t.event(event_id).end_time, patch, now))
    } else {
        t
    }
}

/// Why `caller` cannot delete the event `event_id`, if it cannot.
pub open spec fn delete_error(t: Tables, event_id: EventId, caller: UserId) -> Option<ErrorKind> {
    if !t.has_event(event_id) {
        Some(ErrorKind::NotFound)
    } else if t.event(event_id).user_id != caller {
        Some(ErrorKind::Forbidden)
    } else {
        None
    }
}

/// The tables after `caller` has asked to delete the event `event_id`.
pub open spec fn deleted(t: Tables, event_id: EventId, caller: UserId) -> Tables {
    if delete_error(t, event_id, caller) is None {
        t.without(event_id)
    } else {
        t
    }
}

/// The row that records a commitment of `amount` by `user_id` to `event_id`.
pub open spec fn commitment_row(event_id: EventId, user_id: UserId, amount: i64) -> crate::ledger::Membership {
    crate::ledger::Membership { event_id, user_id, amount }
}

/// Why `user_id` cannot commit `amount` to the event `event_id`, if it
/// cannot: the event must exist, the user must not own it, the user must
/// exist, and the event's total with this commitment in place must not pass
/// the event's cap, in this order.
pub open spec fn join_error(t: Tables, event_id: EventId, user_id: UserId, amount: i64) -> Option<ErrorKind> {
    if !t.has_event(event_id) {
        Some(ErrorKind::NotFound)
    } else if t.event(event_id).user_id == user_id {
        Some(ErrorKind::OwnerConflict)
    } else {
        t.record_error(commitment_row(event_id, user_id, amount))
    }
}

/// The tables after `user_id` has asked to commit `amount` to the event
/// `event_id`.
pub open spec fn joined(t: Tables, event_id: EventId, user_id: UserId, amount: i64) -> Tables {
    if join_error(t, event_id, user_id, amount) is None {
        t.recorded(commitment_row(event_id, user_id, amount))
    } else {
        t
    }
}

/// Why `user_id` cannot withdraw from the event `event_id`, if it cannot.
pub open spec fn leave_error(t: Tables, event_id: EventId, user_id: UserId) -> Option<ErrorKind> {
    if !t.has_event(event_id) {
        Some(ErrorKind::NotFound)
    } else if t.event(event_id).user_id == user_id {
        Some(ErrorKind::OwnerConflict)
    } else if !t.is_member(event_id, user_id) {
        Some(ErrorKind::NotAMember)
    } else {
        None
    }
}

/// The tables after `user_id` has asked to withdraw from the event `event_id`.
pub open spec fn left(t: Tables, event_id: EventId, user_id: UserId) -> Tables {
    if leave_error(t, event_id, user_id) is None {
        t.withdrawn(event_id, user_id)
    } else {
        t
    }
}

/// Why the message `data` cannot be posted to its thread, if it cannot:
/// the event must exist, and the author must own it or have a commitment to
/// it.
pub open spec fn post_error(t: Tables, data: NewEventMsg) -> Option<ErrorKind> {
    if !t.has_event(data.event_id) {
        Some(ErrorKind::NotFound)
    } else if t.event(data.event_id).user_id != data.user_id && !t.is_member(
        data.event_id,
        data.user_id,
    ) {
        Some(ErrorKind::NotAMember)
    } else {
        None
    }
}

/// The tables after the author of `data` has asked to post it at `created_at`.
pub open spec fn posted(t: Tables, data: NewEventMsg, created_at: Timestamp) -> Tables {
    if post_error(t, data) is None {
        t.with_comment(data, created_at)
    } else {
        t
    }
}

/// Signs in the user of whom the identity provider's token says `claims`:
/// the user known under the token's subject, or a new user with the token's
/// name, email and picture where the subject is new. A store that has given
/// out its last identity cannot take a new user: that is a fault.
pub fn sign_in(store: &mut Store, claims: TokenClaims) -> (r: Result<User, ErrorKind>)
    requires
        old(store)@.wf(),
    ensures
        final(store)@.wf(),
        match r {
            Ok(user) => (old(store)@.has_guid(claims.sub@) || old(store)@.has_room())
                && found_or_created(
                old(store)@,
                final(store)@,
                claims.sub,
                claims.name,
                claims.email,
                claims.picture,
                user,
            ),
            Err(kind) => kind == ErrorKind::Fault && !old(store)@.has_guid(claims.sub@) && !old(store)@.has_room() && final(store)@ == old(store)@,
        },
{
    if !store.has_guid(&claims.sub) && !store.has_room() {
        return Err(ErrorKind::Fault);
    }
    Ok(get_or_create_user(store, claims.sub, claims.name, claims.email, claims.picture))
}

/// Creates an event owned by `owner_id` and shows it to its owner.
pub fn create_event(store: &mut Store, owner_id: UserId, attrs: NewEvent) -> (r: Result<EventWithMembers, ErrorKind>)
    requires
        old(store)@.wf(),
    ensures
        final(store)@.wf(),
        final(store)@ == created(old(store)@, owner_id, attrs),
        match r {
            Ok(event) => {
                &&& create_error(old(store)@, owner_id, attrs) is None
                &&& final(store)@.has_event(old(store)@.next_id)
                &&& final(store)@.event(old(store)@.next_id) == created_event(
                    old(store)@.next_id,
                    owned_by(owner_id, attrs),
                )
                &&& event@ == final(store)@.presented(final(store)@.event(old(store)@.next_id), true)
                &&& event@.projection == (ProjectionView::Owner {
                    total_committed: 0,
                    member_count: 0,
                    roster: Seq::empty(),
                })
            },
            Err(kind) => create_error(old(store)@, owner_id, attrs) == Some(kind),
        },
{
    match validate_new_event(&attrs) {
        Err(kind) => {
            return Err(kind);
        },
        Ok(_) => {},
    }
    if !store.has_user(owner_id) || !store.has_room() {
        return Err(ErrorKind::Fault);
    }
    let data = NewEvent {
        name: attrs.name,
        description: attrs.description,
        category: attrs.category,
        start_time: attrs.start_time,
        end_time: attrs.end_time,
        min_amount: attrs.min_amount,
        max_amount: attrs.max_amount,
        user_id: owner_id,
    };
    let ghost before = store@;
    let event = crate::db::create_event(store, data);
    proof {
        store@.lemma_event_added(before, data);
    }
    Ok(event)
}

/// Shows the event `event_id` to `viewer_id`: the total and the count of
/// its commitments for everyone, the roster for its owner alone.
pub fn get_event_projection(store: &Store, event_id: EventId, viewer_id: UserId) -> (r: Result<EventWithMembers, ErrorKind>)
    requires
        store@.wf(),
    ensures
        match r {
            Ok(event) => store@.has_event(event_id) && event@ == store@.presented(
                store@.event(event_id),
                viewer_id == store@.event(event_id).user_id,
            ) && (event@.projection is Owner <==> viewer_id == store@.event(event_id).user_id)
                && event@.projection.total() == store@.total(event_id)
                && event@.projection.count() == store@.count(event_id),
            Err(kind) => !store@.has_event(event_id) && kind == ErrorKind::NotFound,
        },
{
    proof {
        store@.lemma_roster(event_id);
    }
    match get_event_by_id(store, event_id, viewer_id) {
        Some(event) => Ok(event),
        None => Err(ErrorKind::NotFound),
    }
}

/// Amends the event `event_id` on behalf of `caller` at the instant `now`
/// and shows the event as it then is. An amendment that is allowed and
/// changes nothing writes nothing.
pub fn amend_event(
    store: &mut Store,
    event_id: EventId,
    caller: UserId,
    patch: UpdateEvent,
    now: Timestamp,
) -> (r: Result<EventWithMembers, ErrorKind>)
    requires
        old(store)@.wf(),
    ensures
        final(store)@.wf(),
        final(store)@ == amended(old(store)@, event_id, caller, patch, now),
        match r {
            Ok(event) => amend_error(old(store)@, event_id, caller, patch, now) is None && event@
                == final(store)@.presented(
                merged(
                    old(store)@.event(event_id),
                    effective_patch(old(store)@.event(event_id).end_time, patch, now),
                ),
                true,
            ),
            Err(kind) => amend_error(old(store)@, event_id, caller, patch, now) == Some(kind),
        },
{
    let accepted = match store.event(event_id) {
        None => {
            return Err(ErrorKind::NotFound);
        },
        Some(event) => {
            if event.user_id != caller {
                return Err(ErrorKind::Forbidden);
            }
            match amend(event, patch, now) {
                Err(kind) => {
                    return Err(kind);
                },
                Ok(accepted) => accepted,
            }
        },
    };
    if has_changes(&accepted) {
        Ok(crate::db::update_event(store, event_id, accepted))
    } else {
        proof {
            let t = store@;
            assert(merged(t.event(event_id), accepted) == t.event(event_id));
            assert(t.events.update(t.event_index(event_id), t.event(event_id)) =~= t.events);
        }
        match get_event_by_id(store, event_id, caller) {
            Some(event) => Ok(event),
            None => Err(ErrorKind::NotFound),
        }
    }
}

/// Deletes the event `event_id` on behalf of `caller`, together with every
/// commitment to it.
pub fn delete_event(store: &mut Store, event_id: EventId, caller: UserId) -> (r: Result<(), ErrorKind>)
    requires
        old(store)@.wf(),
    ensures
        final(store)@.wf(),
        final(store)@ == deleted(old(store)@, event_id, caller),
        match r {
            Ok(_) => delete_error(old(store)@, event_id, caller) is None,
            Err(kind) => delete_error(old(store)@, event_id, caller) == Some(kind),
        },
{
    match store.event(event_id) {
        None => {
            return Err(ErrorKind::NotFound);
        },
        Some(event) => {
            if event.user_id != caller {
                return Err(ErrorKind::Forbidden);
            }
        },
    }
    crate::db::delete_event(store, event_id);
    Ok(())
}

/// Commits `amount` of `user_id` to the event `event_id`. An earlier
/// commitment of the same user to the same event is replaced, not added to.
/// The owner of an event cannot join it. If the event's total with the new
/// commitment in place passes the event's cap, nothing is written.
pub fn join(store: &mut Store, event_id: EventId, user_id: UserId, amount: i64) -> (r: Result<(), ErrorKind>)
    requires
        old(store)@.wf(),
    ensures
        final(store)@.wf(),
        final(store)@ == joined(old(store)@, event_id, user_id, amount),
        match r {
            Ok(_) => join_error(old(store)@, event_id, user_id, amount) is None,
            Err(kind) => join_error(old(store)@, event_id, user_id, amount) == Some(kind),
        },
        old(store)@.has_event(event_id) && old(store)@.event(event_id).user_id == user_id ==> r
            == Err::<(), ErrorKind>(ErrorKind::OwnerConflict),
{
    match store.event(event_id) {
        None => {
            return Err(ErrorKind::NotFound);
        },
        Some(event) => {
            if event.user_id == user_id {
                return Err(ErrorKind::OwnerConflict);
            }
        },
    }
    create_event_member(store, NewEventMember { event_id, user_id, amount })
}

/// Withdraws the commitment of `user_id` to the event `event_id`. The owner
/// of an event cannot leave it.
pub fn leave(store: &mut Store, event_id: EventId, user_id: UserId) -> (r: Result<(), ErrorKind>)
    requires
        old(store)@.wf(),
    ensures
        final(store)@.wf(),
        final(store)@ == left(old(store)@, event_id, user_id),
        match r {
            Ok(_) => leave_error(old(store)@, event_id, user_id) is None,
            Err(kind) => leave_error(old(store)@, event_id, user_id) == Some(kind),
        },
{
    match store.event(event_id) {
        None => {
            return Err(ErrorKind::NotFound);
        },
        Some(event) => {
            if event.user_id == user_id {
                return Err(ErrorKind::OwnerConflict);
            }
        },
    }
    if delete_event_member(store, event_id, user_id) {
        Ok(())
    } else {
        Err(ErrorKind::NotAMember)
    }
}

/// Lists the users currently committed to the event `event_id`.
pub fn list_member_identities(store: &Store, event_id: EventId) -> (ids: Vec<UserId>)
    ensures
        ids@ == member_ids(store@.members, event_id),
{
    get_event_members(store, event_id)
}

/// Posts the message `data` to the thread of its event at the instant
/// `created_at` and lists the thread as it then is. Only the owner of the
/// event and the users with a commitment to it may post.
pub fn post_message(store: &mut Store, data: NewEventMsg, created_at: Timestamp) -> (r: Result<Vec<EventMsg>, ErrorKind>)
    requires
        old(store)@.wf(),
    ensures
        final(store)@.wf(),
        final(store)@ == posted(old(store)@, data, created_at),
        match r {
            Ok(msgs) => post_error(old(store)@, data) is None && final(store)@.shows_thread(
                data.event_id,
                msgs@,
            ),
            Err(kind) => post_error(old(store)@, data) == Some(kind),
        },
{
    let owner_id = match store.event(data.event_id) {
        None => {
            return Err(ErrorKind::NotFound);
        },
        Some(event) => event.user_id,
    };
    proof {
        lemma_member_ids(store@.members, data.event_id, data.user_id);
        store@.lemma_members_exist(data.event_id, data.user_id);
        store@.lemma_owner_exists(data.event_id);
    }
    if owner_id != data.user_id && !is_among(
        &get_event_members(store, data.event_id),
        data.user_id,
    ) {
        return Err(ErrorKind::NotAMember);
    }
    create_event_msg(store, data, created_at)
}

/// Lists the thread of the event `event_id`, from the earliest message to
/// the latest.
pub fn read_messages(store: &Store, event_id: EventId) -> (r: Result<Vec<EventMsg>, ErrorKind>)
    requires
        store@.wf(),
    ensures
        match r {
            Ok(msgs) => store@.has_event(event_id) && store@.shows_thread(event_id, msgs@),
            Err(kind) => !store@.has_event(event_id) && kind == ErrorKind::NotFound,
        },
{
    if store.event(event_id).is_none() {
        return Err(ErrorKind::NotFound);
    }
    Ok(get_event_msg_by_event_id(store, event_id))
}

} // verus!
