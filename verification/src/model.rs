//! Plain data of the ledger: identities, instants, rows and request payloads.

use vstd::prelude::*;

verus! {

/// Identity of a user: the 128 bits of its UUID, most significant byte first.
pub type UserId = u128;

/// Identity of an event: the 128 bits of its UUID, most significant byte first.
pub type EventId = u128;

/// An instant without a time zone: whole seconds since 1970-01-01T00:00:00
/// and the nanoseconds that follow them. Instants are ordered by seconds
/// first, nanoseconds second.
#[derive(Clone, Copy, Debug, PartialEq, Eq, Structural)]
pub struct Timestamp {
    pub secs: i64,
    pub nanos: u32,
}

impl Timestamp {
    /// `self` lies strictly before `other`.
    pub open spec fn is_before(self, other: Timestamp) -> bool {
        self.secs < other.secs || (self.secs == other.secs && self.nanos < other.nanos)
    }

    /// Decides whether `self` lies strictly before `other`.
    pub fn before(&self, other: &Timestamp) -> (b: bool)
        ensures
            b == self.is_before(*other),
    {
        self.secs < other.secs || (self.secs == other.secs && self.nanos < other.nanos)
    }
}


/// A user as callers see it.
#[derive(Clone, Debug, PartialEq, Eq)]
pub struct User {
    pub id: UserId,
    pub name: String,
    pub email: String,
    pub phone: String,
    pub avatar: String,
}

/// Changes to a user's profile; an absent field stays as it is.
#[derive(Clone, Debug, PartialEq, Eq)]
pub struct UpdateUser {
    pub avatar: Option<String>,
    pub name: Option<String>,
    pub email: Option<String>,
    pub phone: Option<String>,
}

/// The attributes of an event to be created. `user_id` is the owner.
#[derive(Clone, Debug, PartialEq, Eq)]
pub struct NewEvent {
    pub name: String,
    pub description: String,
    pub category: String,
    pub start_time: Timestamp,
    pub end_time: Timestamp,
    pub min_amount: i64,
    pub max_amount: i64,
    pub user_id: UserId,
}

/// Changes to an event; an absent field stays as it is.
#[derive(Clone, Debug, PartialEq, Eq)]
pub struct UpdateEvent {
    pub name: Option<String>,
    pub description: Option<String>,
    pub category: Option<String>,
    pub start_time: Option<Timestamp>,
    pub end_time: Option<Timestamp>,
    pub min_amount: Option<i64>,
    pub max_amount: Option<i64>,
    pub established: Option<bool>,
}

/// A stored event. `max_amount` bounds both a single commitment and the sum
/// of all commitments; `established` is a latch that is only ever set.
#[derive(Clone, Debug, PartialEq, Eq)]
pub struct Event {
    pub id: EventId,
    pub user_id: UserId,
    pub name: String,
    pub description: String,
    pub category: String,
    pub start_time: Timestamp,
    pub end_time: Timestamp,
    pub min_amount: i64,
    pub max_amount: i64,
    pub established: bool,
}

/// One line of a roster: who committed, how to reach them, and how much.
#[derive(Clone, Debug, PartialEq, Eq)]
pub struct EventMember {
    pub name: String,
    pub email: String,
    pub phone: String,
    pub amount: i64,
}

/// The public face of an event's owner.
#[derive(Clone, Debug, PartialEq, Eq)]
pub struct EventOwner {
    pub name: String,
    pub avatar: String,
}

/// What a viewer learns of an event's commitments. Only the owner's variant
/// carries a roster; for everyone else the roster is absent, not empty.
#[derive(Clone, Debug, PartialEq, Eq)]
pub enum Projection {
    Public { total_committed: i128, member_count: usize },
    Owner { total_committed: i128, member_count: usize, roster: Vec<EventMember> },
}

/// The mathematical content of a [`Projection`].
pub enum ProjectionView {
    Public { total_committed: int, member_count: nat },
    Owner { total_committed: int, member_count: nat, roster: Seq<EventMember> },
}

impl View for Projection {
    type V = ProjectionView;

    open spec fn view(&self) -> ProjectionView {
        match *self {
            Projection::Public { total_committed, member_count } => ProjectionView::Public {
                total_committed: total_committed as int,
                member_count: member_count as nat,
            },
            Projection::Owner { total_committed, member_count, roster } => ProjectionView::Owner {
                total_committed: total_committed as int,
                member_count: member_count as nat,
                roster: roster@,
            },
        }
    }
}

impl ProjectionView {
    /// The sum of the commitments.
    pub open spec fn total(self) -> int {
        match self {
            ProjectionView::Public { total_committed, .. } => total_committed,
            ProjectionView::Owner { total_committed, .. } => total_committed,
        }
    }

    /// The number of members.
    pub open spec fn count(self) -> nat {
        match self {
            ProjectionView::Public { member_count, .. } => member_count,
            ProjectionView::Owner { member_count, .. } => member_count,
        }
    }
}

impl Projection {
    /// The sum of the commitments.
    pub fn total_committed(&self) -> (total: i128)
        ensures
            total == self@.total(),
    {
        match self {
            Projection::Public { total_committed, .. } => *total_committed,
            Projection::Owner { total_committed, .. } => *total_committed,
        }
    }

    /// The number of members.
    pub fn member_count(&self) -> (count: usize)
        ensures
            count == self@.count(),
    {
        match self {
            Projection::Public { member_count, .. } => *member_count,
            Projection::Owner { member_count, .. } => *member_count,
        }
    }

    /// The roster, present exactly in the owner's variant.
    pub fn roster(&self) -> (roster: Option<&Vec<EventMember>>)
        ensures
            match roster {
                Some(r) => self@ is Owner && r@ == self@->roster,
                None => self@ is Public,
            },
    {
        match self {
            Projection::Public { .. } => None,
            Projection::Owner { roster, .. } => Some(roster),
        }
    }
}

/// An event together with its owner's public face and the projection of its
/// commitments for one viewer.
#[derive(Clone, Debug, PartialEq, Eq)]
pub struct EventWithMembers {
    pub id: EventId,
    pub user_id: UserId,
    pub owner: EventOwner,
    pub name: String,
    pub description: String,
    pub category: String,
    pub start_time: Timestamp,
    pub end_time: Timestamp,
    pub min_amount: i64,
    pub max_amount: i64,
    pub established: bool,
    pub projection: Projection,
}

/// The mathematical content of an [`EventWithMembers`].
pub struct EventWithMembersView {
    pub event: Event,
    pub owner: EventOwner,
    pub projection: ProjectionView,
}

impl View for EventWithMembers {
    type V = EventWithMembersView;

    open spec fn view(&self) -> EventWithMembersView {
        EventWithMembersView {
            event: self.event(),
            owner: self.owner,
            projection: self.projection@,
        }
    }
}

impl EventWithMembers {
    /// The stored event that this value presents.
    pub open spec fn event(self) -> Event {
        Event {
            id: self.id,
            user_id: self.user_id,
            name: self.name,
            description: self.description,
            category: self.category,
            start_time: self.start_time,
            end_time: self.end_time,
            min_amount: self.min_amount,
            max_amount: self.max_amount,
            established: self.established,
        }
    }

    /// Copies out the stored event that this value presents.
    pub fn stored(&self) -> (event: Event)
        ensures
            event == self.event(),
    {
        Event {
            id: self.id,
            user_id: self.user_id,
            name: self.name.clone(),
            description: self.description.clone(),
            category: self.category.clone(),
            start_time: self.start_time,
            end_time: self.end_time,
            min_amount: self.min_amount,
            max_amount: self.max_amount,
            established: self.established,
        }
    }
}

/// A commitment to be recorded: `user_id` commits `amount` to `event_id`.
#[derive(Clone, Copy, Debug, PartialEq, Eq)]
pub struct NewEventMember {
    pub event_id: EventId,
    pub user_id: UserId,
    pub amount: i64,
}

/// A message to be posted to an event's thread.
#[derive(Clone, Debug, PartialEq, Eq)]
pub struct NewEventMsg {
    pub event_id: EventId,
    pub user_id: UserId,
    pub content: String,
}

/// The author of a message as readers of the thread see them.
#[derive(Clone, Debug, PartialEq, Eq)]
pub struct EventMsgUser {
    pub name: String,
    pub avatar: String,
}

/// A message of an event's thread.
#[derive(Clone, Debug, PartialEq, Eq)]
pub struct EventMsg {
    pub user: EventMsgUser,
    pub content: String,
    pub created_at: Timestamp,
}

/// How an operation of the ledger can fail.
#[derive(Clone, Copy, Debug, PartialEq, Eq, Structural)]
pub enum ErrorKind {
    /// The event does not exist.
    NotFound,
    /// The caller is not the event's owner.
    Forbidden,
    /// The owner of an event cannot join or leave it.
    OwnerConflict,
    /// The caller has no commitment to the event.
    NotAMember,
    /// The commitment would lift the event's total above its cap.
    CapacityExceeded,
    /// The event would start after it ends.
    InvalidSchedule,
    /// The lower bound on a commitment would exceed the upper bound.
    InvalidRange,
    /// `established` can only be set, never cleared.
    InvalidTransition,
    /// The store could not carry out the operation.
    Fault,
}

} // verus!
