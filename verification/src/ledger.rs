//! The membership ledger: commitments of users to events, at most one per
//! user and event, and the arithmetic of an event's committed total.

use vstd::prelude::*;
use crate::model::{ErrorKind, EventId, UserId};

verus! {

/// One commitment: `user_id` has committed `amount` to `event_id`.
#[derive(Clone, Copy, Debug, PartialEq, Eq, Structural)]
pub struct Membership {
    pub event_id: EventId,
    pub user_id: UserId,
    pub amount: i64,
}

/// The sum of a sequence of amounts; 0 for the empty sequence.
pub open spec fn sum(amounts: Seq<i64>) -> int
    decreases amounts.len(),
{
    if amounts.len() == 0 {
        0
    } else {
        sum(amounts.drop_last()) + amounts.last()
    }
}

/// What `row` adds to the total of `event_id`.
pub open spec fn contribution(row: Membership, event_id: EventId) -> int {
    if row.event_id == event_id {
        row.amount as int
    } else {
        0
    }
}

/// The sum of the amounts committed to `event_id`; 0 if there are none.
pub open spec fn committed_total(rows: Seq<Membership>, event_id: EventId) -> int
    decreases rows.len(),
{
    if rows.len() == 0 {
        0
    } else {
        committed_total(rows.drop_last(), event_id) + contribution(rows.last(), event_id)
    }
}

/// The number of commitments to `event_id`.
pub open spec fn member_count(rows: Seq<Membership>, event_id: EventId) -> nat
    decreases rows.len(),
{
    if rows.len() == 0 {
        0
    } else {
        member_count(rows.drop_last(), event_id) + if rows.last().event_id == event_id {
            1nat
        } else {
            0nat
        }
    }
}

/// The users committed to `event_id`, in the order of their rows.
pub open spec fn member_ids(rows: Seq<Membership>, event_id: EventId) -> Seq<UserId>
    decreases rows.len(),
{
    if rows.len() == 0 {
        Seq::empty()
    } else if rows.last().event_id == event_id {
        member_ids(rows.drop_last(), event_id).push(rows.last().user_id)
    } else {
        member_ids(rows.drop_last(), event_id)
    }
}

/// The amounts committed to `event_id`, in the order of their rows.
pub open spec fn amounts_of(rows: Seq<Membership>, event_id: EventId) -> Seq<i64>
    decreases rows.len(),
{
    if rows.len() == 0 {
        Seq::empty()
    } else if rows.last().event_id == event_id {
        amounts_of(rows.drop_last(), event_id).push(rows.last().amount)
    } else {
        amounts_of(rows.drop_last(), event_id)
    }
}

/// `row` is the commitment of `user_id` to `event_id`.
pub open spec fn has_key(row: Membership, event_id: EventId, user_id: UserId) -> bool {
    row.event_id == event_id && row.user_id == user_id
}

/// `user_id` has a commitment to `event_id`.
pub open spec fn is_member(rows: Seq<Membership>, event_id: EventId, user_id: UserId) -> bool {
    exists|i: int| 0 <= i < rows.len() && has_key(#[trigger] rows[i], event_id, user_id)
}

/// The place of the commitment of `user_id` to `event_id`, where there is one.
pub open spec fn position(rows: Seq<Membership>, event_id: EventId, user_id: UserId) -> int {
    choose|i: int| 0 <= i < rows.len() && has_key(#[trigger] rows[i], event_id, user_id)
}

/// No user has two commitments to one event.
pub open spec fn keys_distinct(rows: Seq<Membership>) -> bool {
    forall|i: int, j: int|
        0 <= i < j < rows.len() ==> !has_key(#[trigger] rows[i], rows[j].event_id, #[trigger] rows[j].user_id)
}

/// The ledger after `row` is recorded: it takes the place of the commitment
/// with the same user and event where there is one, and joins the end
/// otherwise. The amount is replaced, not added to.
pub open spec fn upserted(rows: Seq<Membership>, row: Membership) -> Seq<Membership> {
    if is_member(rows, row.event_id, row.user_id) {
        rows.update(position(rows, row.event_id, row.user_id), row)
    } else {
        rows.push(row)
    }
}

/// The ledger after the commitment of `user_id` to `event_id` is withdrawn.
pub open spec fn withdrawn(rows: Seq<Membership>, event_id: EventId, user_id: UserId) -> Seq<Membership> {
    if is_member(rows, event_id, user_id) {
        rows.remove(position(rows, event_id, user_id))
    } else {
        rows
    }
}

/// The ledger without any commitment to `event_id`.
pub open spec fn without_event(rows: Seq<Membership>, event_id: EventId) -> Seq<Membership>
    decreases rows.len(),
{
    if rows.len() == 0 {
        rows
    } else if rows.last().event_id == event_id {
        without_event(rows.drop_last(), event_id)
    } else {
        without_event(rows.drop_last(), event_id).push(rows.last())
    }
}

/// An amount is within 64 bits, so a sum of `n` of them is within `n` times that.
pub proof fn lemma_sum_bounds(amounts: Seq<i64>)
    ensures
        -(amounts.len() * 0x8000_0000_0000_0000) <= sum(amounts) <= amounts.len()
            * 0x7fff_ffff_ffff_ffff,
    decreases amounts.len(),
{
    if amounts.len() > 0 {
        lemma_sum_bounds(amounts.drop_last());
    }
}

/// The committed total of an event is the sum of the amounts committed to it.
pub proof fn lemma_total_is_sum(rows: Seq<Membership>, event_id: EventId)
    ensures
        committed_total(rows, event_id) == sum(amounts_of(rows, event_id)),
    decreases rows.len(),
{
    if rows.len() > 0 {
        lemma_total_is_sum(rows.drop_last(), event_id);
        if rows.last().event_id == event_id {
            assert(amounts_of(rows, event_id).drop_last() =~= amounts_of(rows.drop_last(), event_id));
        }
    }
}

/// Appending a row adds its contribution to each total, one to the count of
/// its event, and its user to the member list of its event.
pub proof fn lemma_push(rows: Seq<Membership>, row: Membership, event_id: EventId)
    ensures
        committed_total(rows.push(row), event_id) == committed_total(rows, event_id)
            + contribution(row, event_id),
        member_count(rows.push(row), event_id) == member_count(rows, event_id) + if row.event_id
            == event_id {
            1nat
        } else {
            0nat
        },
        member_ids(rows.push(row), event_id) == if row.event_id == event_id {
            member_ids(rows, event_id).push(row.user_id)
        } else {
            member_ids(rows, event_id)
        },
        without_event(rows.push(row), event_id) == if row.event_id == event_id {
            without_event(rows, event_id)
        } else {
            without_event(rows, event_id).push(row)
        },
{
    assert(rows.push(row).drop_last() =~= rows);
}

/// Replacing the row at `i` by one of the same event changes that event's
/// total by the difference of the two amounts and leaves every count alone.
pub proof fn lemma_update(rows: Seq<Membership>, i: int, row: Membership, event_id: EventId)
    requires
        0 <= i < rows.len(),
        rows[i].event_id == row.event_id,
    ensures
        committed_total(rows.update(i, row), event_id) == committed_total(rows, event_id)
            - contribution(rows[i], event_id) + contribution(row, event_id),
        member_count(rows.update(i, row), event_id) == member_count(rows, event_id),
    decreases rows.len(),
{
    if i == rows.len() - 1 {
        assert(rows.update(i, row).drop_last() =~= rows.drop_last());
    } else {
        assert(rows.update(i, row).drop_last() =~= rows.drop_last().update(i, row));
        lemma_update(rows.drop_last(), i, row, event_id);
    }
}

/// Removing the row at `i` takes its contribution from each total and one
/// from the count of its event.
pub proof fn lemma_remove(rows: Seq<Membership>, i: int, event_id: EventId)
    requires
        0 <= i < rows.len(),
    ensures
        committed_total(rows.remove(i), event_id) == committed_total(rows, event_id)
            - contribution(rows[i], event_id),
        member_count(rows.remove(i), event_id) == member_count(rows, event_id) - if rows[i].event_id
            == event_id {
            1nat
        } else {
            0nat
        },
    decreases rows.len(),
{
    if i == rows.len() - 1 {
        assert(rows.remove(i) =~= rows.drop_last());
    } else {
        assert(rows.remove(i).drop_last() =~= rows.drop_last().remove(i));
        assert(rows.remove(i).last() == rows.last());
        lemma_remove(rows.drop_last(), i, event_id);
    }
}

/// Dropping an event's commitments empties that event and leaves the totals,
/// counts and member lists of every other event as they were.
pub proof fn lemma_without_event(rows: Seq<Membership>, dropped: EventId, event_id: EventId)
    ensures
        committed_total(without_event(rows, dropped), event_id) == if event_id == dropped {
            0
        } else {
            committed_total(rows, event_id)
        },
        member_count(without_event(rows, dropped), event_id) == if event_id == dropped {
            0nat
        } else {
            member_count(rows, event_id)
        },
        member_ids(without_event(rows, dropped), event_id) == if event_id == dropped {
            Seq::<UserId>::empty()
        } else {
            member_ids(rows, event_id)
        },
    decreases rows.len(),
{
    if rows.len() > 0 {
        lemma_without_event(rows.drop_last(), dropped, event_id);
        if rows.last().event_id != dropped {
            lemma_push(without_event(rows.drop_last(), dropped), rows.last(), event_id);
        }
    }
}

/// Every row that survives the dropping of an event was there before, so
/// distinct keys stay distinct.
pub proof fn lemma_without_event_rows(rows: Seq<Membership>, dropped: EventId)
    ensures
        forall|k: int|
            0 <= k < without_event(rows, dropped).len() ==> rows.contains(
                #[trigger] without_event(rows, dropped)[k],
            ) && without_event(rows, dropped)[k].event_id != dropped,
        forall|k: int|
            0 <= k < rows.len() && rows[k].event_id != dropped ==> without_event(
                rows,
                dropped,
            ).contains(#[trigger] rows[k]),
        keys_distinct(rows) ==> keys_distinct(without_event(rows, dropped)),
    decreases rows.len(),
{
    let out = without_event(rows, dropped);
    if rows.len() > 0 {
        let rest = rows.drop_last();
        let kept = without_event(rest, dropped);
        lemma_without_event_rows(rest, dropped);
        assert forall|k: int| 0 <= k < out.len() implies rows.contains(#[trigger] out[k])
            && out[k].event_id != dropped by {
            if k < kept.len() {
                assert(out[k] == kept[k]);
                let w = choose|w: int| 0 <= w < rest.len() && rest[w] == kept[k];
                assert(rows[w] == out[k]);
            } else {
                assert(out[k] == rows[rows.len() - 1]);
            }
        }
        assert forall|k: int| 0 <= k < rows.len() && rows[k].event_id != dropped implies out.contains(
            #[trigger] rows[k],
        ) by {
            if k < rest.len() {
                assert(rest[k] == rows[k]);
                let w = choose|w: int| 0 <= w < kept.len() && kept[w] == rest[k];
                assert(out[w] == rows[k]);
            } else {
                assert(out[out.len() - 1] == rows[k]);
            }
        }
        if keys_distinct(rows) {
            assert(keys_distinct(rest)) by {
                assert forall|i: int, j: int| 0 <= i < j < rest.len() implies !has_key(
                    #[trigger] rest[i],
                    rest[j].event_id,
                    #[trigger] rest[j].user_id,
                ) by {
                    assert(rest[i] == rows[i] && rest[j] == rows[j]);
                }
            }
            if rows.last().event_id != dropped {
                assert forall|i: int, j: int| 0 <= i < j < out.len() implies !has_key(
                    #[trigger] out[i],
                    out[j].event_id,
                    #[trigger] out[j].user_id,
                ) by {
                    if j < kept.len() {
                        assert(out[i] == kept[i] && out[j] == kept[j]);
                    } else {
                        assert(out[i] == kept[i]);
                        let w = choose|w: int| 0 <= w < rest.len() && rest[w] == kept[i];
                        assert(rows[w] == out[i]);
                        assert(out[j] == rows[rows.len() - 1]);
                    }
                }
            }
        }
    }
}

/// With distinct keys, the commitment of a user to an event has one place.
pub proof fn lemma_position(rows: Seq<Membership>, i: int)
    requires
        keys_distinct(rows),
        0 <= i < rows.len(),
    ensures
        is_member(rows, rows[i].event_id, rows[i].user_id),
        position(rows, rows[i].event_id, rows[i].user_id) == i,
{
    assert(has_key(rows[i], rows[i].event_id, rows[i].user_id));
    let p = position(rows, rows[i].event_id, rows[i].user_id);
    assert(0 <= p < rows.len() && has_key(rows[p], rows[i].event_id, rows[i].user_id));
    if p < i {
        assert(!has_key(rows[p], rows[i].event_id, rows[i].user_id));
    } else if i < p {
        assert(!has_key(rows[i], rows[p].event_id, rows[p].user_id));
    }
}

/// The users listed for an event are exactly those with a commitment to it.
pub proof fn lemma_member_ids(rows: Seq<Membership>, event_id: EventId, user_id: UserId)
    ensures
        member_ids(rows, event_id).contains(user_id) <==> is_member(rows, event_id, user_id),
    decreases rows.len(),
{
    if rows.len() > 0 {
        let rest = rows.drop_last();
        lemma_member_ids(rest, event_id, user_id);
        let ids = member_ids(rows, event_id);
        let earlier = member_ids(rest, event_id);
        if is_member(rows, event_id, user_id) {
            let p = position(rows, event_id, user_id);
            if p < rest.len() {
                assert(has_key(rest[p], event_id, user_id));
                let w = choose|w: int| 0 <= w < earlier.len() && earlier[w] == user_id;
                assert(ids[w] == user_id);
            } else {
                assert(ids[ids.len() - 1] == user_id);
            }
        }
        if ids.contains(user_id) {
            let w = choose|w: int| 0 <= w < ids.len() && ids[w] == user_id;
            if w < earlier.len() {
                assert(earlier[w] == user_id);
                assert(earlier.contains(user_id));
                let p = position(rest, event_id, user_id);
                assert(has_key(rows[p], event_id, user_id));
            } else {
                assert(has_key(rows[rows.len() - 1], event_id, user_id));
            }
        }
    }
}

/// Tells whether `user_id` is among `ids`.
pub fn is_among(ids: &Vec<UserId>, user_id: UserId) -> (found: bool)
    ensures
        found == ids@.contains(user_id),
{
    let mut i: usize = 0;
    while i < ids.len()
        invariant
            0 <= i <= ids.len(),
            forall|j: int| 0 <= j < i ==> ids@[j] != user_id,
        decreases ids.len() - i,
    {
        if ids[i] == user_id {
            return true;
        }
        i = i + 1;
    }
    false
}

/// The sum of `amounts`, exact for every vector that fits in memory.
pub fn total_amount(amounts: &Vec<i64>) -> (total: i128)
    ensures
        total == sum(amounts@),
{
    let mut total: i128 = 0;
    let mut i: usize = 0;
    while i < amounts.len()
        invariant
            0 <= i <= amounts.len(),
            total == sum(amounts@.take(i as int)),
        decreases amounts.len() - i,
    {
        proof {
            lemma_sum_bounds(amounts@.take(i as int));
            assert(amounts@.take(i + 1).drop_last() =~= amounts@.take(i as int));
        }
        total = total + amounts[i] as i128;
        i = i + 1;
    }
    proof {
        assert(amounts@.take(amounts.len() as int) =~= amounts@);
    }
    total
}

/// Holds the amounts committed to an event against the event's cap: the
/// sum may reach `max_amount` and not pass it.
pub fn capacity_check(amounts: &Vec<i64>, max_amount: i64) -> (r: Result<(), ErrorKind>)
    ensures
        r == if sum(amounts@) > max_amount {
            Err::<(), ErrorKind>(ErrorKind::CapacityExceeded)
        } else {
            Ok::<(), ErrorKind>(())
        },
{
    if total_amount(amounts) > max_amount as i128 {
        Err(ErrorKind::CapacityExceeded)
    } else {
        Ok(())
    }
}

} // verus!
