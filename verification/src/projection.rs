//! The aggregation view: what is shown of an event's commitments, and to whom.

use vstd::prelude::*;
use crate::model::{
    Event, EventMember, EventOwner, EventWithMembers, EventWithMembersView, Projection,
    ProjectionView, UserId,
};

verus! {

/// The sum of the amounts of a roster; 0 for the empty roster.
pub open spec fn roster_total(roster: Seq<EventMember>) -> int
    decreases roster.len(),
{
    if roster.len() == 0 {
        0
    } else {
        roster_total(roster.drop_last()) + roster.last().amount
    }
}

/// The projection of the commitments that `roster` lists: their sum and
/// their number, and the roster itself only where `with_roster` asks for it.
pub open spec fn projection_of(roster: Seq<EventMember>, with_roster: bool) -> ProjectionView {
    if with_roster {
        ProjectionView::Owner {
            total_committed: roster_total(roster),
            member_count: roster.len(),
            roster,
        }
    } else {
        ProjectionView::Public { total_committed: roster_total(roster), member_count: roster.len() }
    }
}

/// An amount is within 64 bits, so the total of a roster of `n` lines is
/// within `n` times that.
pub proof fn lemma_roster_total_bounds(roster: Seq<EventMember>)
    ensures
        -(roster.len() * 0x8000_0000_0000_0000) <= roster_total(roster) <= roster.len()
            * 0x7fff_ffff_ffff_ffff,
    decreases roster.len(),
{
    if roster.len() > 0 {
        lemma_roster_total_bounds(roster.drop_last());
    }
}

/// Builds the projection of the commitments that `members` lists. The total
/// and the count are taken from the list afresh on every call. Without
/// `with_roster` the list itself is dropped: the result has no roster, not an
/// empty one.
pub fn build_projection(members: Vec<EventMember>, with_roster: bool) -> (projection: Projection)
    ensures
        projection@ == projection_of(members@, with_roster),
        projection@ is Owner <==> with_roster,
{
    let mut total_committed: i128 = 0;
    let mut i: usize = 0;
    while i < members.len()
        invariant
            0 <= i <= members.len(),
            total_committed == roster_total(members@.take(i as int)),
        decreases members.len() - i,
    {
        proof {
            lemma_roster_total_bounds(members@.take(i as int));
            assert(members@.take(i + 1).drop_last() =~= members@.take(i as int));
        }
        total_committed = total_committed + members[i].amount as i128;
        i = i + 1;
    }
    proof {
        assert(members@.take(members.len() as int) =~= members@);
    }
    let member_count = members.len();
    if with_roster {
        Projection::Owner { total_committed, member_count, roster: members }
    } else {
        Projection::Public { total_committed, member_count }
    }
}

/// Shows `event` to `viewer_id`. `owner` is the public face of the event's
/// owner and `members` lists the event's commitments. The viewer gets the
/// roster exactly if it is the event's owner; every other viewer gets the
/// total and the count alone.
pub fn show_event(event: Event, owner: EventOwner, members: Vec<EventMember>, viewer_id: UserId) -> (shown: EventWithMembers)
    ensures
        shown@ == (EventWithMembersView {
            event,
            owner,
            projection: projection_of(members@, viewer_id == event.user_id),
        }),
        shown@.projection is Owner <==> viewer_id == event.user_id,
{
    let with_roster = viewer_id == event.user_id;
    event_with(event, owner, build_projection(members, with_roster))
}

/// Puts an event, its owner's public face and a projection together.
pub fn event_with(event: Event, owner: EventOwner, projection: Projection) -> (shown: EventWithMembers)
    ensures
        shown@ == (EventWithMembersView { event, owner, projection: projection@ }),
{
    EventWithMembers {
        id: event.id,
        user_id: event.user_id,
        owner,
        name: event.name,
        description: event.description,
        category: event.category,
        start_time: event.start_time,
        end_time: event.end_time,
        min_amount: event.min_amount,
        max_amount: event.max_amount,
        established: event.established,
        projection,
    }
}

} // verus!
