//! What holds of the ledger whatever its callers do: the cap on an event's
//! total, the exclusion of owners from their own events, the ordering rules
//! of stored events, and how repeated and competing requests end.

use vstd::prelude::*;
use crate::tables::Tables;
use crate::ledger::{
    has_key, is_member, lemma_position, lemma_push, lemma_remove, lemma_update,
    lemma_without_event, lemma_without_event_rows, position, Membership,
};
use crate::model::{
    ErrorKind, Event, EventId, NewEvent, NewEventMsg, ProjectionView, Timestamp, UpdateEvent,
    UserId,
};
use crate::projection::roster_total;
use crate::policy::{effective_patch, event_in_order, merged};
use crate::service::{
    amend_error, amended, commitment_row, create_error, created, delete_error, deleted,
    join_error, joined, leave_error, left, owned_by, post_error, posted,
};

verus! {

/// No event's committed total passes the event's cap.
pub open spec fn within_capacity(t: Tables) -> bool {
    forall|i: int|
        0 <= i < t.events.len() ==> t.total((#[trigger] t.events[i]).id) <= t.events[i].max_amount
}

/// No owner of an event has a commitment to it.
pub open spec fn owners_excluded(t: Tables) -> bool {
    forall|i: int|
        0 <= i < t.events.len() ==> !t.is_member((#[trigger] t.events[i]).id, t.events[i].user_id)
}

/// Every stored event obeys the two ordering rules.
pub open spec fn events_in_order(t: Tables) -> bool {
    forall|i: int| 0 <= i < t.events.len() ==> event_in_order(#[trigger] t.events[i])
}

/// What the commitment of `user_id` to `event_id` counts for in the event's
/// total: its amount, or nothing where there is none.
pub open spec fn share(t: Tables, event_id: EventId, user_id: UserId) -> int {
    if t.is_member(event_id, user_id) {
        t.commitment(event_id, user_id) as int
    } else {
        0
    }
}

/// Recording a row moves the total of the row's event by the difference
/// between the new amount and the user's earlier share, and moves no other
/// total; the count grows by one exactly for a user who had no commitment.
pub proof fn lemma_recorded(t: Tables, row: Membership, event_id: EventId)
    requires
        t.wf(),
    ensures
        t.recorded(row).total(event_id) == t.total(event_id) + if event_id == row.event_id {
            row.amount - share(t, row.event_id, row.user_id)
        } else {
            0
        },
        t.recorded(row).count(event_id) == t.count(event_id) + if event_id == row.event_id
            && !t.is_member(row.event_id, row.user_id) {
            1nat
        } else {
            0nat
        },
        t.recorded(row).is_member(row.event_id, row.user_id),
        t.recorded(row).commitment(row.event_id, row.user_id) == row.amount,
        crate::ledger::keys_distinct(t.recorded(row).members),
        forall|e: EventId, u: UserId|
            !(e == row.event_id && u == row.user_id) ==> t.recorded(row).is_member(e, u)
                == t.is_member(e, u) && (t.is_member(e, u) ==> t.recorded(row).commitment(e, u)
                == t.commitment(e, u)),
{
    let after = t.recorded(row).members;
    if is_member(t.members, row.event_id, row.user_id) {
        let p = position(t.members, row.event_id, row.user_id);
        lemma_update(t.members, p, row, event_id);
        assert(has_key(after[p], row.event_id, row.user_id));
        assert forall|a: int, b: int| 0 <= a < b < after.len() implies !has_key(
            #[trigger] after[a],
            after[b].event_id,
            #[trigger] after[b].user_id,
        ) by {
            assert(!has_key(t.members[a], t.members[b].event_id, t.members[b].user_id));
        }
        lemma_position(after, p);
        assert forall|e: EventId, u: UserId| !(e == row.event_id && u == row.user_id) implies is_member(
            after,
            e,
            u,
        ) == is_member(t.members, e, u) && (is_member(t.members, e, u) ==> after[position(
            after,
            e,
            u,
        )].amount == t.members[position(t.members, e, u)].amount) by {
            if is_member(t.members, e, u) {
                let q = position(t.members, e, u);
                assert(after[q] == t.members[q]);
                assert(has_key(after[q], e, u));
                lemma_position(after, q);
            }
            if is_member(after, e, u) {
                let q = position(after, e, u);
                assert(after[q] == t.members[q]);
                assert(has_key(t.members[q], e, u));
            }
        }
    } else {
        lemma_push(t.members, row, event_id);
        let n = t.members.len() as int;
        assert(has_key(after[n], row.event_id, row.user_id));
        assert forall|a: int, b: int| 0 <= a < b < after.len() implies !has_key(
            #[trigger] after[a],
            after[b].event_id,
            #[trigger] after[b].user_id,
        ) by {
            if b < n {
                assert(!has_key(t.members[a], t.members[b].event_id, t.members[b].user_id));
            } else {
                assert(!has_key(t.members[a], row.event_id, row.user_id));
            }
        }
        lemma_position(after, n);
        assert forall|e: EventId, u: UserId| !(e == row.event_id && u == row.user_id) implies is_member(
            after,
            e,
            u,
        ) == is_member(t.members, e, u) && (is_member(t.members, e, u) ==> after[position(
            after,
            e,
            u,
        )].amount == t.members[position(t.members, e, u)].amount) by {
            if is_member(t.members, e, u) {
                let q = position(t.members, e, u);
                assert(after[q] == t.members[q]);
                assert(has_key(after[q], e, u));
                lemma_position(after, q);
            }
            if is_member(after, e, u) {
                let q = position(after, e, u);
                assert(after[q] == t.members[q]);
                assert(has_key(t.members[q], e, u));
            }
        }
    }
}

/// Withdrawing a commitment takes the user's share from the total of the
/// event and moves no other total.
pub proof fn lemma_withdrawn(t: Tables, event_id: EventId, user_id: UserId, other: EventId)
    requires
        t.wf(),
    ensures
        t.withdrawn(event_id, user_id).total(other) == t.total(other) - if other == event_id {
            share(t, event_id, user_id)
        } else {
            0
        },
        t.withdrawn(event_id, user_id).count(other) == t.count(other) - if other == event_id
            && t.is_member(event_id, user_id) {
            1nat
        } else {
            0nat
        },
        !t.withdrawn(event_id, user_id).is_member(event_id, user_id),
        forall|e: EventId, u: UserId|
            t.withdrawn(event_id, user_id).is_member(e, u) ==> t.is_member(e, u),
{
    let after = t.withdrawn(event_id, user_id).members;
    if is_member(t.members, event_id, user_id) {
        let p = position(t.members, event_id, user_id);
        lemma_remove(t.members, p, other);
        assert forall|k: int| 0 <= k < after.len() implies (#[trigger] after[k]) == t.members[if k
            < p {
            k
        } else {
            k + 1
        }] by {}
        if is_member(after, event_id, user_id) {
            let q = position(after, event_id, user_id);
            let q0 = if q < p { q } else { q + 1 };
            assert(after[q] == t.members[q0]);
            if q0 < p {
                assert(!has_key(t.members[q0], t.members[p].event_id, t.members[p].user_id));
            } else {
                assert(!has_key(t.members[p], t.members[q0].event_id, t.members[q0].user_id));
            }
        }
        assert forall|e: EventId, u: UserId| is_member(after, e, u) implies is_member(
            t.members,
            e,
            u,
        ) by {
            let q = position(after, e, u);
            let q0 = if q < p { q } else { q + 1 };
            assert(after[q] == t.members[q0]);
            assert(has_key(t.members[q0], e, u));
        }
    }
}

/// The roster of an event has one line for each
/// of its commitments, and what an owner is shown as total and count is the
/// sum of the amounts of those lines and their number.
pub proof fn law_roster_matches_totals(t: Tables, event_id: EventId)
    ensures
        t.roster(event_id).len() == t.count(event_id),
        roster_total(t.roster(event_id)) == t.total(event_id),
        t.projection(event_id, true) == (ProjectionView::Owner {
            total_committed: t.total(event_id),
            member_count: t.count(event_id),
            roster: t.roster(event_id),
        }),
        t.projection(event_id, false) == (ProjectionView::Public {
            total_committed: t.total(event_id),
            member_count: t.count(event_id),
        }),
{
    t.lemma_roster(event_id);
}

/// An event is shown with a roster exactly to its owner, and the
/// total and the count are the same for every viewer.
pub proof fn law_roster_for_owner_only(t: Tables, event: Event, viewer: UserId, other: UserId)
    ensures
        t.presented(event, viewer == event.user_id).projection is Owner <==> viewer == event.user_id,
        t.presented(event, viewer == event.user_id).projection is Public <==> viewer != event.user_id,
        t.presented(event, viewer == event.user_id).projection.total() == t.presented(
            event,
            other == event.user_id,
        ).projection.total(),
        t.presented(event, viewer == event.user_id).projection.count() == t.presented(
            event,
            other == event.user_id,
        ).projection.count(),
        t.presented(event, viewer == event.user_id).projection.total() == t.total(event.id),
        t.presented(event, viewer == event.user_id).projection.count() == t.count(event.id),
{
    t.lemma_roster(event.id);
}

/// A commitment that is admitted leaves its event's total within
/// the event's cap, whatever the total was before; and where every event
/// was within its cap before a join, every event is so after it, admitted or
/// not.
pub proof fn law_join_keeps_capacity(t: Tables, event_id: EventId, user_id: UserId, amount: i64)
    requires
        t.wf(),
    ensures
        joined(t, event_id, user_id, amount).wf(),
        join_error(t, event_id, user_id, amount) is None ==> joined(
            t,
            event_id,
            user_id,
            amount,
        ).total(event_id) <= t.event(event_id).max_amount,
        within_capacity(t) ==> within_capacity(joined(t, event_id, user_id, amount)),
{
    let after = joined(t, event_id, user_id, amount);
    if join_error(t, event_id, user_id, amount) is None {
        let row = commitment_row(event_id, user_id, amount);
        after.lemma_recorded(t, row);
        if within_capacity(t) {
            assert forall|i: int| 0 <= i < after.events.len() implies after.total(
                (#[trigger] after.events[i]).id,
            ) <= after.events[i].max_amount by {
                lemma_recorded(t, row, t.events[i].id);
                if t.events[i].id == event_id {
                    t.lemma_event_at(i);
                }
            }
        }
    }
}

/// Withdrawing a commitment of a non-negative amount keeps every
/// event within its cap.
pub proof fn law_leave_keeps_capacity(t: Tables, event_id: EventId, user_id: UserId)
    requires
        t.wf(),
        within_capacity(t),
        share(t, event_id, user_id) >= 0,
    ensures
        within_capacity(left(t, event_id, user_id)),
{
    let after = left(t, event_id, user_id);
    assert forall|i: int| 0 <= i < after.events.len() implies after.total(
        (#[trigger] after.events[i]).id,
    ) <= after.events[i].max_amount by {
        lemma_withdrawn(t, event_id, user_id, t.events[i].id);
    }
}

/// Creating an event whose cap is not negative keeps every event
/// within its cap; the new event starts with a total of 0.
pub proof fn law_create_keeps_capacity(t: Tables, owner_id: UserId, data: NewEvent)
    requires
        t.wf(),
        within_capacity(t),
        data.max_amount >= 0,
    ensures
        within_capacity(created(t, owner_id, data)),
{
    let after = created(t, owner_id, data);
    if create_error(t, owner_id, data) is None {
        after.lemma_event_added(t, owned_by(owner_id, data));
        assert forall|i: int| 0 <= i < after.events.len() implies after.total(
            (#[trigger] after.events[i]).id,
        ) <= after.events[i].max_amount by {
            if i < t.events.len() {
                assert(after.events[i] == t.events[i]);
            }
        }
    }
}

/// An amendment that does not lower the cap of the event below the
/// event's total keeps every event within its cap.
pub proof fn law_amend_keeps_capacity(
    t: Tables,
    event_id: EventId,
    caller: UserId,
    patch: UpdateEvent,
    now: Timestamp,
)
    requires
        t.wf(),
        within_capacity(t),
        amend_error(t, event_id, caller, patch, now) is None ==> t.total(event_id) <= merged(
            t.event(event_id),
            effective_patch(t.event(event_id).end_time, patch, now),
        ).max_amount,
    ensures
        within_capacity(amended(t, event_id, caller, patch, now)),
{
    let after = amended(t, event_id, caller, patch, now);
    if amend_error(t, event_id, caller, patch, now) is None {
        let x = t.event_index(event_id);
        assert forall|i: int| 0 <= i < after.events.len() implies after.total(
            (#[trigger] after.events[i]).id,
        ) <= after.events[i].max_amount by {
            if i != x {
                assert(after.events[i] == t.events[i]);
            }
        }
    }
}

/// Deleting an event keeps every remaining event within its cap.
pub proof fn law_delete_keeps_capacity(t: Tables, event_id: EventId, caller: UserId)
    requires
        t.wf(),
        within_capacity(t),
    ensures
        within_capacity(deleted(t, event_id, caller)),
{
    let after = deleted(t, event_id, caller);
    if delete_error(t, event_id, caller) is None {
        after.lemma_event_removed(t, event_id);
        let x = t.event_index(event_id);
        assert forall|i: int| 0 <= i < after.events.len() implies after.total(
            (#[trigger] after.events[i]).id,
        ) <= after.events[i].max_amount by {
            let i0 = if i < x { i } else { i + 1 };
            assert(after.events[i] == t.events[i0]);
            t.lemma_event_at(i0);
            t.lemma_event_at(x);
            lemma_without_event(t.members, event_id, t.events[i0].id);
        }
    }
}

/// A join repeated at once ends as the first did and leaves
/// the tables as the first left them. After an admitted join the user has
/// one commitment to the event, of the amount asked for, and the event has
/// one member more than before exactly if the user was none.
pub proof fn law_join_idempotent(t: Tables, event_id: EventId, user_id: UserId, amount: i64)
    requires
        t.wf(),
    ensures
        join_error(joined(t, event_id, user_id, amount), event_id, user_id, amount) == join_error(
            t,
            event_id,
            user_id,
            amount,
        ),
        joined(joined(t, event_id, user_id, amount), event_id, user_id, amount) == joined(
            t,
            event_id,
            user_id,
            amount,
        ),
        join_error(t, event_id, user_id, amount) is None ==> {
            &&& joined(t, event_id, user_id, amount).is_member(event_id, user_id)
            &&& joined(t, event_id, user_id, amount).commitment(event_id, user_id) == amount
            &&& joined(t, event_id, user_id, amount).count(event_id) == t.count(event_id) + if t.is_member(
                event_id,
                user_id,
            ) {
                0nat
            } else {
                1nat
            }
        },
{
    let once = joined(t, event_id, user_id, amount);
    if join_error(t, event_id, user_id, amount) is None {
        let row = commitment_row(event_id, user_id, amount);
        once.lemma_recorded(t, row);
        lemma_recorded(t, row, event_id);
        lemma_recorded(once, row, event_id);
        let p = position(once.members, event_id, user_id);
        assert(has_key(once.members[p], event_id, user_id));
        assert(once.members[p] == row);
        assert(once.members.update(p, row) =~= once.members);
    }
}

/// Two users ask to commit to one event at the same time; each commitment
/// alone would be admitted, both together would pass the cap. Whichever
/// request the store serves first is admitted, the other one fails with
/// `CapacityExceeded` and writes nothing: exactly one succeeds, and the
/// total afterwards is that of the first alone.
pub proof fn law_competing_joins(
    t: Tables,
    event_id: EventId,
    first: UserId,
    first_amount: i64,
    second: UserId,
    second_amount: i64,
)
    requires
        t.wf(),
        first != second,
        join_error(t, event_id, first, first_amount) is None,
        join_error(t, event_id, second, second_amount) is None,
        t.total(event_id) + (first_amount - share(t, event_id, first)) + (second_amount - share(
            t,
            event_id,
            second,
        )) > t.event(event_id).max_amount,
    ensures
        join_error(joined(t, event_id, first, first_amount), event_id, second, second_amount)
            == Some(ErrorKind::CapacityExceeded),
        joined(joined(t, event_id, first, first_amount), event_id, second, second_amount)
            == joined(t, event_id, first, first_amount),
        joined(t, event_id, first, first_amount).total(event_id) == t.total(event_id) + (
        first_amount - share(t, event_id, first)),
        join_error(joined(t, event_id, second, second_amount), event_id, first, first_amount)
            == Some(ErrorKind::CapacityExceeded),
        joined(joined(t, event_id, second, second_amount), event_id, first, first_amount)
            == joined(t, event_id, second, second_amount),
        joined(t, event_id, second, second_amount).total(event_id) == t.total(event_id) + (
        second_amount - share(t, event_id, second)),
{
    let r1 = commitment_row(event_id, first, first_amount);
    let r2 = commitment_row(event_id, second, second_amount);
    let t1 = joined(t, event_id, first, first_amount);
    let t2 = joined(t, event_id, second, second_amount);
    t1.lemma_recorded(t, r1);
    t2.lemma_recorded(t, r2);
    lemma_recorded(t, r1, event_id);
    lemma_recorded(t, r2, event_id);
    lemma_recorded(t1, r2, event_id);
    lemma_recorded(t2, r1, event_id);
}

/// A patch that clears `established` fails with
/// `InvalidTransition` for the owner of any event, established or not, and
/// changes nothing; and no amendment that is allowed turns an established
/// event into one that is not.
pub proof fn law_established_is_a_latch(
    t: Tables,
    event_id: EventId,
    caller: UserId,
    patch: UpdateEvent,
    now: Timestamp,
)
    requires
        t.wf(),
        t.has_event(event_id),
        t.event(event_id).user_id == caller,
    ensures
        patch.established == Some(false) ==> amend_error(t, event_id, caller, patch, now) == Some(
            ErrorKind::InvalidTransition,
        ) && amended(t, event_id, caller, patch, now) == t,
        amended(t, event_id, caller, patch, now).has_event(event_id),
        t.event(event_id).established ==> amended(t, event_id, caller, patch, now).event(
            event_id,
        ).established,
{
    let after = amended(t, event_id, caller, patch, now);
    if amend_error(t, event_id, caller, patch, now) is None {
        lemma_amended(t, event_id, caller, patch, now);
    }
}

/// An allowed amendment rewrites the one event and nothing else.
pub proof fn lemma_amended(t: Tables, event_id: EventId, caller: UserId, patch: UpdateEvent, now: Timestamp)
    requires
        t.wf(),
        amend_error(t, event_id, caller, patch, now) is None,
    ensures
        amended(t, event_id, caller, patch, now).wf(),
        amended(t, event_id, caller, patch, now).has_event(event_id),
        amended(t, event_id, caller, patch, now).event(event_id) == merged(
            t.event(event_id),
            effective_patch(t.event(event_id).end_time, patch, now),
        ),
        forall|id: EventId|
            id != event_id && t.has_event(id) ==> amended(t, event_id, caller, patch, now).has_event(
                id,
            ) && amended(t, event_id, caller, patch, now).event(id) == t.event(id),
{
    let after = amended(t, event_id, caller, patch, now);
    let x = t.event_index(event_id);
    assert forall|k: int| 0 <= k < after.members.len() implies t.has_event(
        (#[trigger] after.members[k]).event_id,
    ) && t.has_user(after.members[k].user_id) by {
        assert(t.has_event(t.members[k].event_id));
    }
    after.lemma_wf_kept(t);
    after.lemma_event_at(x);
    assert forall|id: EventId| id != event_id && t.has_event(id) implies after.has_event(id)
        && after.event(id) == t.event(id) by {
        let w = t.event_index(id);
        t.lemma_event_at(w);
        assert(after.events[w] == t.events[w]);
        after.lemma_event_at(w);
    }
}

/// Once an event has ended, an allowed amendment
/// changes nothing of it but `established`, and that only where the patch
/// names it.
pub proof fn law_after_the_deadline(
    t: Tables,
    event_id: EventId,
    caller: UserId,
    patch: UpdateEvent,
    now: Timestamp,
)
    requires
        t.wf(),
        amend_error(t, event_id, caller, patch, now) is None,
        t.event(event_id).end_time.is_before(now),
    ensures
        amended(t, event_id, caller, patch, now).event(event_id) == (Event {
            established: if patch.established is Some {
                true
            } else {
                t.event(event_id).established
            },
            ..t.event(event_id)
        }),
{
    lemma_amended(t, event_id, caller, patch, now);
}

/// The owner of an event cannot join or leave it,
/// whatever the amount and whatever the state of the ledger.
pub proof fn law_owner_cannot_join(t: Tables, event_id: EventId, amount: i64)
    requires
        t.has_event(event_id),
    ensures
        join_error(t, event_id, t.event(event_id).user_id, amount) == Some(ErrorKind::OwnerConflict),
        joined(t, event_id, t.event(event_id).user_id, amount) == t,
        leave_error(t, event_id, t.event(event_id).user_id) == Some(ErrorKind::OwnerConflict),
        left(t, event_id, t.event(event_id).user_id) == t,
{
}

/// An event that would start after it ends is
/// refused with `InvalidSchedule`; one with a schedule in order whose lower
/// bound exceeds its upper bound is refused with `InvalidRange`; either way
/// nothing is written.
pub proof fn law_creation_is_validated(t: Tables, owner_id: UserId, data: NewEvent)
    ensures
        data.end_time.is_before(data.start_time) ==> create_error(t, owner_id, data) == Some(
            ErrorKind::InvalidSchedule,
        ) && created(t, owner_id, data) == t,
        !data.end_time.is_before(data.start_time) && data.min_amount > data.max_amount
            ==> create_error(t, owner_id, data) == Some(ErrorKind::InvalidRange) && created(
            t,
            owner_id,
            data,
        ) == t,
{
}

/// A request to the ledger.
pub enum Request {
    Create { owner_id: UserId, data: NewEvent },
    Amend { event_id: EventId, caller: UserId, patch: UpdateEvent, now: Timestamp },
    Delete { event_id: EventId, caller: UserId },
    Join { event_id: EventId, user_id: UserId, amount: i64 },
    Leave { event_id: EventId, user_id: UserId },
    Post { data: NewEventMsg, created_at: Timestamp },
}

/// Why `request` fails on the tables `t`, if it does.
pub open spec fn refusal(t: Tables, request: Request) -> Option<ErrorKind> {
    match request {
        Request::Create { owner_id, data } => create_error(t, owner_id, data),
        Request::Amend { event_id, caller, patch, now } => amend_error(t, event_id, caller, patch, now),
        Request::Delete { event_id, caller } => delete_error(t, event_id, caller),
        Request::Join { event_id, user_id, amount } => join_error(t, event_id, user_id, amount),
        Request::Leave { event_id, user_id } => leave_error(t, event_id, user_id),
        Request::Post { data, created_at } => post_error(t, data),
    }
}

/// The tables after `request` is served on the tables `t`.
pub open spec fn served(t: Tables, request: Request) -> Tables {
    match request {
        Request::Create { owner_id, data } => created(t, owner_id, data),
        Request::Amend { event_id, caller, patch, now } => amended(t, event_id, caller, patch, now),
        Request::Delete { event_id, caller } => deleted(t, event_id, caller),
        Request::Join { event_id, user_id, amount } => joined(t, event_id, user_id, amount),
        Request::Leave { event_id, user_id } => left(t, event_id, user_id),
        Request::Post { data, created_at } => posted(t, data, created_at),
    }
}

/// The tables after `requests` are served one after the other, in any
/// order that the store chose for requests that arrived together.
pub open spec fn served_all(t: Tables, requests: Seq<Request>) -> Tables
    decreases requests.len(),
{
    if requests.len() == 0 {
        t
    } else {
        served(served_all(t, requests.drop_last()), requests.last())
    }
}

/// `request` cannot lift a total above a cap by a side door. The cap is
/// checked when a commitment is written and at no other time, so three
/// requests can leave an event above its cap: creating an event with a
/// negative cap, lowering a cap below the event's total, and withdrawing a
/// commitment of a negative amount. Every other request qualifies.
pub open spec fn minds_the_cap(t: Tables, request: Request) -> bool {
    match request {
        Request::Create { owner_id, data } => data.max_amount >= 0,
        Request::Amend { event_id, caller, patch, now } => amend_error(
            t,
            event_id,
            caller,
            patch,
            now,
        ) is None ==> t.total(event_id) <= merged(
            t.event(event_id),
            effective_patch(t.event(event_id).end_time, patch, now),
        ).max_amount,
        Request::Delete { .. } => true,
        Request::Join { .. } => true,
        Request::Leave { event_id, user_id } => share(t, event_id, user_id) >= 0,
        Request::Post { .. } => true,
    }
}

/// Whatever is asked of consistent tables, they stay consistent; no request
/// makes an owner a member of its own event; and no request leaves a stored
/// event with its schedule or its range out of order.
pub proof fn law_requests_keep_the_rules(t: Tables, request: Request)
    requires
        t.wf(),
    ensures
        served(t, request).wf(),
        refusal(t, request) is Some ==> served(t, request) == t,
        owners_excluded(t) ==> owners_excluded(served(t, request)),
        events_in_order(t) ==> events_in_order(served(t, request)),
{
    let after = served(t, request);
    if refusal(t, request) is None {
        match request {
            Request::Create { owner_id, data } => {
                let stored = owned_by(owner_id, data);
                after.lemma_event_added(t, stored);
                let n = t.events.len() as int;
                if owners_excluded(t) {
                    assert forall|i: int| 0 <= i < after.events.len() implies !after.is_member(
                        (#[trigger] after.events[i]).id,
                        after.events[i].user_id,
                    ) by {
                        if i < n {
                            assert(after.events[i] == t.events[i]);
                        } else if after.is_member(after.events[i].id, after.events[i].user_id) {
                            let p = position(t.members, after.events[i].id, after.events[i].user_id);
                            assert(t.has_event(t.members[p].event_id));
                            let w = t.event_index(t.members[p].event_id);
                            assert(0 < t.events[w].id < t.next_id);
                        }
                    }
                }
                if events_in_order(t) {
                    assert forall|i: int| 0 <= i < after.events.len() implies event_in_order(
                        #[trigger] after.events[i],
                    ) by {
                        if i < n {
                            assert(after.events[i] == t.events[i]);
                        }
                    }
                }
            },
            Request::Amend { event_id, caller, patch, now } => {
                lemma_amended(t, event_id, caller, patch, now);
                let x = t.event_index(event_id);
                if owners_excluded(t) {
                    assert forall|i: int| 0 <= i < after.events.len() implies !after.is_member(
                        (#[trigger] after.events[i]).id,
                        after.events[i].user_id,
                    ) by {
                        assert(after.events[i].id == t.events[i].id);
                        assert(after.events[i].user_id == t.events[i].user_id);
                    }
                }
                if events_in_order(t) {
                    assert forall|i: int| 0 <= i < after.events.len() implies event_in_order(
                        #[trigger] after.events[i],
                    ) by {
                        if i != x {
                            assert(after.events[i] == t.events[i]);
                        }
                    }
                }
            },
            Request::Delete { event_id, caller } => {
                after.lemma_event_removed(t, event_id);
                lemma_without_event_rows(t.members, event_id);
                let x = t.event_index(event_id);
                assert forall|i: int| 0 <= i < after.events.len() implies (#[trigger] after.events[i])
                    == t.events[if i < x { i } else { i + 1 }] by {}
                if owners_excluded(t) {
                    assert forall|i: int| 0 <= i < after.events.len() implies !after.is_member(
                        (#[trigger] after.events[i]).id,
                        after.events[i].user_id,
                    ) by {
                        let i0 = if i < x { i } else { i + 1 };
                        assert(after.events[i] == t.events[i0]);
                        if after.is_member(after.events[i].id, after.events[i].user_id) {
                            let p = position(after.members, after.events[i].id, after.events[i].user_id);
                            assert(t.members.contains(after.members[p]));
                            let q = choose|q: int|
                                0 <= q < t.members.len() && t.members[q] == after.members[p];
                            assert(has_key(t.members[q], t.events[i0].id, t.events[i0].user_id));
                        }
                    }
                }
                if events_in_order(t) {
                    assert forall|i: int| 0 <= i < after.events.len() implies event_in_order(
                        #[trigger] after.events[i],
                    ) by {
                        let i0 = if i < x { i } else { i + 1 };
                        assert(after.events[i] == t.events[i0]);
                    }
                }
            },
            Request::Join { event_id, user_id, amount } => {
                let row = commitment_row(event_id, user_id, amount);
                after.lemma_recorded(t, row);
                lemma_recorded(t, row, event_id);
                if owners_excluded(t) {
                    assert forall|i: int| 0 <= i < after.events.len() implies !after.is_member(
                        (#[trigger] after.events[i]).id,
                        after.events[i].user_id,
                    ) by {
                        t.lemma_event_at(i);
                    }
                }
            },
            Request::Leave { event_id, user_id } => {
                lemma_withdrawn(t, event_id, user_id, event_id);
                let p = position(t.members, event_id, user_id);
                assert forall|k: int| 0 <= k < after.members.len() implies (#[trigger] after.members[k])
                    == t.members[if k < p { k } else { k + 1 }] by {}
                assert forall|a: int, b: int| 0 <= a < b < after.members.len() implies !has_key(
                    #[trigger] after.members[a],
                    after.members[b].event_id,
                    #[trigger] after.members[b].user_id,
                ) by {
                    let a0 = if a < p { a } else { a + 1 };
                    let b0 = if b < p { b } else { b + 1 };
                    assert(!has_key(t.members[a0], t.members[b0].event_id, t.members[b0].user_id));
                }
                assert forall|k: int| 0 <= k < after.members.len() implies t.has_event(
                    (#[trigger] after.members[k]).event_id,
                ) && t.has_user(after.members[k].user_id) by {
                    let k0 = if k < p { k } else { k + 1 };
                    assert(t.has_event(t.members[k0].event_id));
                }
                after.lemma_wf_kept(t);
            },
            Request::Post { data, created_at } => {
                t.lemma_members_exist(data.event_id, data.user_id);
                t.lemma_owner_exists(data.event_id);
                after.lemma_comment_added(t, data, created_at);
            },
        }
    }
}

/// Capacity, one request at a time: where every event is within its cap, it
/// is so after any request that minds the cap.
pub proof fn law_request_keeps_capacity(t: Tables, request: Request)
    requires
        t.wf(),
        within_capacity(t),
        minds_the_cap(t, request),
    ensures
        within_capacity(served(t, request)),
{
    match request {
        Request::Create { owner_id, data } => law_create_keeps_capacity(t, owner_id, data),
        Request::Amend { event_id, caller, patch, now } => law_amend_keeps_capacity(
            t,
            event_id,
            caller,
            patch,
            now,
        ),
        Request::Delete { event_id, caller } => law_delete_keeps_capacity(t, event_id, caller),
        Request::Join { event_id, user_id, amount } => law_join_keeps_capacity(
            t,
            event_id,
            user_id,
            amount,
        ),
        Request::Leave { event_id, user_id } => law_leave_keeps_capacity(t, event_id, user_id),
        Request::Post { .. } => {},
    }
}

/// Start from consistent tables in which every event
/// is within its cap, and serve any requests, in any order, each of which
/// minds the cap in the state in which it is served. Then after every one of
/// them the tables are consistent and every event is within its cap; and
/// owners stay excluded and events stay in order if they were so at the
/// start.
pub proof fn law_capacity_at_all_times(t: Tables, requests: Seq<Request>)
    requires
        t.wf(),
        within_capacity(t),
        forall|k: int|
            0 <= k < requests.len() ==> minds_the_cap(
                served_all(t, requests.take(k)),
                #[trigger] requests[k],
            ),
    ensures
        served_all(t, requests).wf(),
        within_capacity(served_all(t, requests)),
        owners_excluded(t) ==> owners_excluded(served_all(t, requests)),
        events_in_order(t) ==> events_in_order(served_all(t, requests)),
    decreases requests.len(),
{
    if requests.len() > 0 {
        let earlier = requests.drop_last();
        assert forall|k: int| 0 <= k < earlier.len() implies minds_the_cap(
            served_all(t, earlier.take(k)),
            #[trigger] earlier[k],
        ) by {
            assert(earlier.take(k) =~= requests.take(k));
            assert(earlier[k] == requests[k]);
        }
        law_capacity_at_all_times(t, earlier);
        let k = requests.len() - 1;
        assert(requests.take(k) =~= earlier);
        assert(minds_the_cap(served_all(t, requests.take(k)), requests[k]));
        law_request_keeps_capacity(served_all(t, earlier), requests.last());
        law_requests_keep_the_rules(served_all(t, earlier), requests.last());
    }
}

} // verus!
