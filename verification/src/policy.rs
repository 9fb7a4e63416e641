//! Lifecycle policy: what a new event must satisfy and which changes an
//! existing event still accepts.

use vstd::prelude::*;
use crate::model::{ErrorKind, Event, NewEvent, Timestamp, UpdateEvent};

verus! {

/// A schedule is in order when it does not end before it starts.
pub open spec fn schedule_in_order(start_time: Timestamp, end_time: Timestamp) -> bool {
    !end_time.is_before(start_time)
}

/// A commitment range is in order when its lower bound does not exceed its upper bound.
pub open spec fn range_in_order(min_amount: i64, max_amount: i64) -> bool {
    min_amount <= max_amount
}

/// The two ordering rules that every stored event obeys.
pub open spec fn event_in_order(event: Event) -> bool {
    &&& schedule_in_order(event.start_time, event.end_time)
    &&& range_in_order(event.min_amount, event.max_amount)
}

/// Why the attributes of a new event are refused, if they are. A schedule
/// out of order is reported before a range out of order.
pub open spec fn creation_error(data: NewEvent) -> Option<ErrorKind> {
    if !schedule_in_order(data.start_time, data.end_time) {
        Some(ErrorKind::InvalidSchedule)
    } else if !range_in_order(data.min_amount, data.max_amount) {
        Some(ErrorKind::InvalidRange)
    } else {
        None
    }
}

/// The patch that changes nothing.
pub open spec fn empty_patch() -> UpdateEvent {
    UpdateEvent {
        name: None,
        description: None,
        category: None,
        start_time: None,
        end_time: None,
        min_amount: None,
        max_amount: None,
        established: None,
    }
}

/// The part of `patch` that an event ending at `end_time` still accepts at
/// `now`: all of it while the event has not ended, and afterwards nothing
/// but the `established` field.
pub open spec fn effective_patch(end_time: Timestamp, patch: UpdateEvent, now: Timestamp) -> UpdateEvent {
    if end_time.is_before(now) {
        UpdateEvent { established: patch.established, ..empty_patch() }
    } else {
        patch
    }
}

/// `event` with every field that `patch` names replaced.
pub open spec fn merged(event: Event, patch: UpdateEvent) -> Event {
    Event {
        id: event.id,
        user_id: event.user_id,
        name: if let Some(v) = patch.name { v } else { event.name },
        description: if let Some(v) = patch.description { v } else { event.description },
        category: if let Some(v) = patch.category { v } else { event.category },
        start_time: if let Some(v) = patch.start_time { v } else { event.start_time },
        end_time: if let Some(v) = patch.end_time { v } else { event.end_time },
        min_amount: if let Some(v) = patch.min_amount { v } else { event.min_amount },
        max_amount: if let Some(v) = patch.max_amount { v } else { event.max_amount },
        established: if let Some(v) = patch.established { v } else { event.established },
    }
}

/// `patch` names at least one field.
pub open spec fn names_a_field(patch: UpdateEvent) -> bool {
    ||| patch.established is Some
    ||| patch.start_time is Some
    ||| patch.end_time is Some
    ||| patch.max_amount is Some
    ||| patch.min_amount is Some
    ||| patch.category is Some
    ||| patch.name is Some
    ||| patch.description is Some
}

/// Why an amendment of `event` by `patch` at `now` is refused, if it is.
/// Clearing `established` is refused first; then the event as it would be
/// after the accepted part of the patch is held to the two ordering rules,
/// the schedule before the range.
pub open spec fn amendment_error(event: Event, patch: UpdateEvent, now: Timestamp) -> Option<ErrorKind> {
    let after = merged(event, effective_patch(event.end_time, patch, now));
    if patch.established == Some(false) {
        Some(ErrorKind::InvalidTransition)
    } else if !schedule_in_order(after.start_time, after.end_time) {
        Some(ErrorKind::InvalidSchedule)
    } else if !range_in_order(after.min_amount, after.max_amount) {
        Some(ErrorKind::InvalidRange)
    } else {
        None
    }
}

/// Accepts a schedule exactly when `start_time` is not later than `end_time`.
pub fn time_check(start_time: Timestamp, end_time: Timestamp) -> (ok: bool)
    ensures
        ok == schedule_in_order(start_time, end_time),
{
    if end_time.before(&start_time) {
        return false;
    }
    true
}

/// Accepts a commitment range exactly when `min_amount` is not larger than `max_amount`.
pub fn amount_check(min_amount: i64, max_amount: i64) -> (ok: bool)
    ensures
        ok == range_in_order(min_amount, max_amount),
{
    if min_amount > max_amount {
        return false;
    }
    true
}

/// Holds the attributes of a new event to the two ordering rules.
pub fn validate_new_event(data: &NewEvent) -> (r: Result<(), ErrorKind>)
    ensures
        match r {
            Ok(_) => creation_error(*data) is None,
            Err(kind) => creation_error(*data) == Some(kind),
        },
        !schedule_in_order(data.start_time, data.end_time) ==> r == Err::<(), ErrorKind>(
            ErrorKind::InvalidSchedule,
        ),
        schedule_in_order(data.start_time, data.end_time) && !range_in_order(
            data.min_amount,
            data.max_amount,
        ) ==> r == Err::<(), ErrorKind>(ErrorKind::InvalidRange),
{
    if !time_check(data.start_time, data.end_time) {
        return Err(ErrorKind::InvalidSchedule);
    }
    if !amount_check(data.min_amount, data.max_amount) {
        return Err(ErrorKind::InvalidRange);
    }
    Ok(())
}

/// Reduces `patch` to what an event ending at `end_time` still accepts at `now`.
pub fn restrict_patch(end_time: Timestamp, patch: UpdateEvent, now: Timestamp) -> (r: UpdateEvent)
    ensures
        r == effective_patch(end_time, patch, now),
        end_time.is_before(now) ==> r.established == patch.established && r.name is None
            && r.description is None && r.category is None && r.start_time is None
            && r.end_time is None && r.min_amount is None && r.max_amount is None,
{
    if end_time.before(&now) {
        UpdateEvent {
            established: patch.established,
            start_time: None,
            end_time: None,
            max_amount: None,
            min_amount: None,
            category: None,
            name: None,
            description: None,
        }
    } else {
        patch
    }
}

/// Tells whether `patch` names at least one field.
pub fn has_changes(patch: &UpdateEvent) -> (b: bool)
    ensures
        b == names_a_field(*patch),
{
    patch.established.is_some() || patch.start_time.is_some() || patch.end_time.is_some()
        || patch.max_amount.is_some() || patch.min_amount.is_some() || patch.category.is_some()
        || patch.name.is_some() || patch.description.is_some()
}

/// Replaces in `event` every field that `patch` names.
pub fn apply_update(event: Event, patch: UpdateEvent) -> (r: Event)
    ensures
        r == merged(event, patch),
{
    Event {
        id: event.id,
        user_id: event.user_id,
        name: match patch.name { Some(v) => v, None => event.name },
        description: match patch.description { Some(v) => v, None => event.description },
        category: match patch.category { Some(v) => v, None => event.category },
        start_time: match patch.start_time { Some(v) => v, None => event.start_time },
        end_time: match patch.end_time { Some(v) => v, None => event.end_time },
        min_amount: match patch.min_amount { Some(v) => v, None => event.min_amount },
        max_amount: match patch.max_amount { Some(v) => v, None => event.max_amount },
        established: match patch.established { Some(v) => v, None => event.established },
    }
}

/// Decides an amendment of `event` by `patch` at the instant `now`.
///
/// A patch that clears `established` is refused with `InvalidTransition`,
/// whatever else it holds and whatever the event's state. Otherwise the patch
/// is reduced to what the event still accepts at `now`, the event as it would
/// be afterwards is held to the two ordering rules, and the reduced patch is
/// returned for the caller to write; it may name no field at all.
pub fn amend(event: &Event, patch: UpdateEvent, now: Timestamp) -> (r: Result<UpdateEvent, ErrorKind>)
    ensures
        match r {
            Ok(accepted) => amendment_error(*event, patch, now) is None && accepted
                == effective_patch(event.end_time, patch, now),
            Err(kind) => amendment_error(*event, patch, now) == Some(kind),
        },
        patch.established == Some(false) ==> r == Err::<UpdateEvent, ErrorKind>(
            ErrorKind::InvalidTransition,
        ),
{
    match patch.established {
        Some(established) => {
            if !established {
                return Err(ErrorKind::InvalidTransition);
            }
        },
        None => {},
    }
    let accepted = restrict_patch(event.end_time, patch, now);
    let start_time = match accepted.start_time { Some(v) => v, None => event.start_time };
    let end_time = match accepted.end_time { Some(v) => v, None => event.end_time };
    let max_amount = match accepted.max_amount { Some(v) => v, None => event.max_amount };
    let min_amount = match accepted.min_amount { Some(v) => v, None => event.min_amount };
    if !time_check(start_time, end_time) {
        return Err(ErrorKind::InvalidSchedule);
    }
    if !amount_check(min_amount, max_amount) {
        return Err(ErrorKind::InvalidRange);
    }
    Ok(accepted)
}

} // verus!
