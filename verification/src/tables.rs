//! The content of the store as mathematics: four tables of rows, what it
//! means for them to be consistent, and how each change moves them.

use vstd::prelude::*;
use crate::ledger::{
    committed_total, has_key, is_member, keys_distinct, lemma_without_event_rows, member_count,
    member_ids, position, upserted, withdrawn, without_event, Membership,
};
use crate::model::{
    ErrorKind, Event, EventId, EventMember, EventMsg, EventMsgUser, EventOwner,
    EventWithMembersView, NewEvent, NewEventMember, NewEventMsg, ProjectionView, Timestamp,
    UpdateEvent, UpdateUser, User, UserId,
};
use crate::policy::merged;
use crate::projection::{projection_of, roster_total};

verus! {

/// A row of the user table. `guid` is the subject under which the identity
/// provider knows the user and is unique, as `id` is.
#[derive(Clone, Debug, PartialEq, Eq)]
pub struct UserRecord {
    pub id: UserId,
    pub guid: String,
    pub name: String,
    pub email: String,
    pub phone: String,
    pub avatar: String,
}

/// A row of the table of messages: `user_id` posted `content` to the thread
/// of `event_id` at `created_at`.
#[derive(Clone, Debug, PartialEq, Eq)]
pub struct Comment {
    pub event_id: EventId,
    pub user_id: UserId,
    pub content: String,
    pub created_at: Timestamp,
}

/// The content of a store: its four tables, each in the order in which its
/// rows were first written, and the identity that the next new row gets.
pub struct Tables {
    pub users: Seq<UserRecord>,
    pub events: Seq<Event>,
    pub members: Seq<Membership>,
    pub comments: Seq<Comment>,
    pub next_id: u128,
}

/// The message that a row of the table of messages presents, `record` being
/// the row of its author.
pub open spec fn message_of(record: UserRecord, comment: Comment) -> EventMsg {
    EventMsg {
        user: EventMsgUser { name: record.name, avatar: record.avatar },
        content: comment.content,
        created_at: comment.created_at,
    }
}

/// The row that records the message `data`, posted at `created_at`.
pub open spec fn comment_of(data: NewEventMsg, created_at: Timestamp) -> Comment {
    Comment { event_id: data.event_id, user_id: data.user_id, content: data.content, created_at }
}

/// `order` holds the place `i`.
pub open spec fn holds_place(order: Seq<usize>, i: int) -> bool {
    exists|k: int| 0 <= k < order.len() && (#[trigger] order[k]) == i
}

/// The number of messages in the thread of `event_id`.
pub open spec fn thread_length(comments: Seq<Comment>, event_id: EventId) -> nat
    decreases comments.len(),
{
    if comments.len() == 0 {
        0
    } else {
        thread_length(comments.drop_last(), event_id) + if comments.last().event_id == event_id {
            1nat
        } else {
            0nat
        }
    }
}

/// The messages without any message of the thread of `event_id`.
pub open spec fn without_thread(comments: Seq<Comment>, event_id: EventId) -> Seq<Comment>
    decreases comments.len(),
{
    if comments.len() == 0 {
        comments
    } else if comments.last().event_id == event_id {
        without_thread(comments.drop_last(), event_id)
    } else {
        without_thread(comments.drop_last(), event_id).push(comments.last())
    }
}

/// Every message that survives the dropping of a thread was there before
/// and belongs to another thread.
pub proof fn lemma_without_thread(comments: Seq<Comment>, dropped: EventId)
    ensures
        forall|k: int|
            0 <= k < without_thread(comments, dropped).len() ==> comments.contains(
                #[trigger] without_thread(comments, dropped)[k],
            ) && without_thread(comments, dropped)[k].event_id != dropped,
    decreases comments.len(),
{
    let out = without_thread(comments, dropped);
    if comments.len() > 0 {
        let rest = comments.drop_last();
        let kept = without_thread(rest, dropped);
        lemma_without_thread(rest, dropped);
        assert forall|k: int| 0 <= k < out.len() implies comments.contains(#[trigger] out[k])
            && out[k].event_id != dropped by {
            if k < kept.len() {
                assert(out[k] == kept[k]);
                let w = choose|w: int| 0 <= w < rest.len() && rest[w] == kept[k];
                assert(comments[w] == out[k]);
            } else {
                assert(out[k] == comments[comments.len() - 1]);
            }
        }
    }
}

/// The user that a row of the user table presents.
pub open spec fn user_of(record: UserRecord) -> User {
    User {
        id: record.id,
        name: record.name,
        email: record.email,
        phone: record.phone,
        avatar: record.avatar,
    }
}

/// The public face of a user as owner of an event.
pub open spec fn owner_of(record: UserRecord) -> EventOwner {
    EventOwner { name: record.name, avatar: record.avatar }
}

/// The line of a roster for a commitment of `amount` by the user of `record`.
pub open spec fn roster_entry(record: UserRecord, amount: i64) -> EventMember {
    EventMember { name: record.name, email: record.email, phone: record.phone, amount }
}

/// One of `categories` is `c`.
pub open spec fn names(categories: Seq<String>, c: Seq<char>) -> bool {
    exists|k: int| 0 <= k < categories.len() && (#[trigger] categories[k])@ == c
}

/// The schedule of `a` comes before that of `b`: `a` starts earlier, or at
/// the same instant and ends earlier.
pub open spec fn schedule_before(a: Event, b: Event) -> bool {
    a.start_time.is_before(b.start_time) || (a.start_time == b.start_time && a.end_time.is_before(
        b.end_time,
    ))
}

/// The row that records the commitment `data`.
pub open spec fn row_of(data: NewEventMember) -> Membership {
    Membership { event_id: data.event_id, user_id: data.user_id, amount: data.amount }
}

/// The event that `data` describes, stored under `id`. A new event is not
/// established.
pub open spec fn created_event(id: EventId, data: NewEvent) -> Event {
    Event {
        id,
        user_id: data.user_id,
        name: data.name,
        description: data.description,
        category: data.category,
        start_time: data.start_time,
        end_time: data.end_time,
        min_amount: data.min_amount,
        max_amount: data.max_amount,
        established: false,
    }
}

/// `record` with every field that `data` names replaced.
pub open spec fn merged_user(record: UserRecord, data: UpdateUser) -> UserRecord {
    UserRecord {
        id: record.id,
        guid: record.guid,
        name: if let Some(v) = data.name { v } else { record.name },
        email: if let Some(v) = data.email { v } else { record.email },
        phone: if let Some(v) = data.phone { v } else { record.phone },
        avatar: if let Some(v) = data.avatar { v } else { record.avatar },
    }
}

/// `after` and `user` are what looking up the subject `sub` in `before`
/// gives: where a user is known under `sub`, it is that user, and nothing
/// changes; otherwise the user table gains one row, with the next identity,
/// the given name, email and avatar and an empty phone number, and `user`
/// presents that row.
pub open spec fn found_or_created(
    before: Tables,
    after: Tables,
    sub: String,
    username: String,
    user_email: String,
    picture: String,
    user: User,
) -> bool {
    if before.has_guid(sub@) {
        after == before && user == user_of(before.user_by_guid(sub@))
    } else {
        &&& after.users.len() == before.users.len() + 1
        &&& after.users.drop_last() == before.users
        &&& after.events == before.events
        &&& after.members == before.members
        &&& after.comments == before.comments
        &&& after.next_id == before.next_id + 1
        &&& after.has_user(user.id)
        &&& forall|id: UserId| before.has_user(id) ==> after.has_user(id)
        &&& user == user_of(after.users.last())
        &&& user.id == before.next_id
        &&& after.users.last().guid == sub
        &&& user.name == username
        &&& user.email == user_email
        &&& user.phone@ == Seq::<char>::empty()
        &&& user.avatar == picture
    }
}

impl Tables {
    /// The store that holds nothing. Identity 0 is never given to a row.
    pub open spec fn empty() -> Tables {
        Tables {
            users: Seq::empty(),
            events: Seq::empty(),
            members: Seq::empty(),
            comments: Seq::empty(),
            next_id: 1,
        }
    }

    /// A user with identity `id` exists.
    pub open spec fn has_user(self, id: UserId) -> bool {
        exists|i: int| 0 <= i < self.users.len() && (#[trigger] self.users[i]).id == id
    }

    /// The row of the user with identity `id`.
    pub open spec fn user(self, id: UserId) -> UserRecord {
        self.users[choose|i: int| 0 <= i < self.users.len() && (#[trigger] self.users[i]).id == id]
    }

    /// A user with subject `guid` exists.
    pub open spec fn has_guid(self, guid: Seq<char>) -> bool {
        exists|i: int| 0 <= i < self.users.len() && (#[trigger] self.users[i]).guid@ == guid
    }

    /// The row of the user with subject `guid`.
    pub open spec fn user_by_guid(self, guid: Seq<char>) -> UserRecord {
        self.users[choose|i: int|
            0 <= i < self.users.len() && (#[trigger] self.users[i]).guid@ == guid]
    }

    /// An event with identity `id` exists.
    pub open spec fn has_event(self, id: EventId) -> bool {
        exists|i: int| 0 <= i < self.events.len() && (#[trigger] self.events[i]).id == id
    }

    /// The place of the event with identity `id` in the event table.
    pub open spec fn event_index(self, id: EventId) -> int {
        choose|i: int| 0 <= i < self.events.len() && (#[trigger] self.events[i]).id == id
    }

    /// The event with identity `id`.
    pub open spec fn event(self, id: EventId) -> Event {
        self.events[self.event_index(id)]
    }

    /// The sum of the amounts committed to `event_id`.
    pub open spec fn total(self, event_id: EventId) -> int {
        committed_total(self.members, event_id)
    }

    /// The number of commitments to `event_id`.
    pub open spec fn count(self, event_id: EventId) -> nat {
        member_count(self.members, event_id)
    }

    /// `user_id` has a commitment to `event_id`.
    pub open spec fn is_member(self, event_id: EventId, user_id: UserId) -> bool {
        is_member(self.members, event_id, user_id)
    }

    /// The amount that `user_id` has committed to `event_id`.
    pub open spec fn commitment(self, event_id: EventId, user_id: UserId) -> i64 {
        self.members[position(self.members, event_id, user_id)].amount
    }

    /// The roster of `event_id` among the first `n` commitments: one line
    /// for each, in the order of the rows.
    pub open spec fn roster_upto(self, event_id: EventId, n: int) -> Seq<EventMember>
        decreases n,
    {
        if n <= 0 {
            Seq::empty()
        } else if self.members[n - 1].event_id == event_id {
            self.roster_upto(event_id, n - 1).push(
                roster_entry(self.user(self.members[n - 1].user_id), self.members[n - 1].amount),
            )
        } else {
            self.roster_upto(event_id, n - 1)
        }
    }

    /// The roster of `event_id`: one line for each commitment, in the order
    /// of the rows.
    pub open spec fn roster(self, event_id: EventId) -> Seq<EventMember> {
        self.roster_upto(event_id, self.members.len() as int)
    }

    /// The projection of the commitments to `event_id`: the total and the
    /// count in any case, the roster only where `with_roster` asks for it.
    pub open spec fn projection(self, event_id: EventId, with_roster: bool) -> ProjectionView {
        projection_of(self.roster(event_id), with_roster)
    }

    /// `event` as it is shown to a caller, with or without the roster.
    pub open spec fn presented(self, event: Event, with_roster: bool) -> EventWithMembersView {
        EventWithMembersView {
            event,
            owner: owner_of(self.user(event.user_id)),
            projection: self.projection(event.id, with_roster),
        }
    }

    /// The tables after `row` is recorded in the ledger.
    pub open spec fn recorded(self, row: Membership) -> Tables {
        Tables { members: upserted(self.members, row), ..self }
    }

    /// Why `row` cannot be recorded, if it cannot: a row that refers to no
    /// event or to no user is a fault of the store; a row that would lift
    /// its event's total above the event's cap exceeds the capacity.
    pub open spec fn record_error(self, row: Membership) -> Option<ErrorKind> {
        if !self.has_event(row.event_id) || !self.has_user(row.user_id) {
            Some(ErrorKind::Fault)
        } else if self.recorded(row).total(row.event_id) > self.event(row.event_id).max_amount {
            Some(ErrorKind::CapacityExceeded)
        } else {
            None
        }
    }

    /// The tables after the commitment of `user_id` to `event_id` is withdrawn.
    pub open spec fn withdrawn(self, event_id: EventId, user_id: UserId) -> Tables {
        Tables { members: withdrawn(self.members, event_id, user_id), ..self }
    }

    /// The tables after `event` is added under the next identity.
    pub open spec fn with_event(self, data: NewEvent) -> Tables {
        Tables {
            events: self.events.push(created_event(self.next_id, data)),
            next_id: (self.next_id + 1) as u128,
            ..self
        }
    }

    /// The tables after the event `event_id` is rewritten by `data`.
    pub open spec fn with_update(self, event_id: EventId, data: UpdateEvent) -> Tables {
        Tables {
            events: self.events.update(self.event_index(event_id), merged(self.event(event_id), data)),
            ..self
        }
    }

    /// The tables after the event `event_id` is deleted together with every
    /// commitment to it and every message of its thread.
    pub open spec fn without(self, event_id: EventId) -> Tables {
        if self.has_event(event_id) {
            Tables {
                events: self.events.remove(self.event_index(event_id)),
                members: without_event(self.members, event_id),
                comments: without_thread(self.comments, event_id),
                ..self
            }
        } else {
            self
        }
    }

    /// The event at `i` is listed before the event at `j`: it starts
    /// earlier; or at the same instant and ends earlier; or it has the same
    /// schedule and was stored first.
    pub open spec fn listed_before(self, i: int, j: int) -> bool {
        schedule_before(self.events[i], self.events[j]) || (!schedule_before(
            self.events[j],
            self.events[i],
        ) && i < j)
    }

    /// `order` lists the places of all events, each once, in the order in
    /// which the events are listed.
    pub open spec fn is_listing(self, order: Seq<usize>) -> bool {
        &&& order.len() == self.events.len()
        &&& forall|k: int| 0 <= k < order.len() ==> (#[trigger] order[k]) < self.events.len()
        &&& forall|j: int, k: int|
            0 <= j < k < order.len() ==> self.listed_before(
                #[trigger] order[j] as int,
                #[trigger] order[k] as int,
            )
        &&& forall|i: int| 0 <= i < self.events.len() ==> #[trigger] holds_place(order, i)
    }

    /// Those places of `order` whose events `user_id` owns, in the order of
    /// `order`.
    pub open spec fn owned_among(self, order: Seq<usize>, user_id: UserId) -> Seq<int>
        decreases order.len(),
    {
        if order.len() == 0 {
            Seq::empty()
        } else if self.events[order.last() as int].user_id == user_id {
            self.owned_among(order.drop_last(), user_id).push(order.last() as int)
        } else {
            self.owned_among(order.drop_last(), user_id)
        }
    }

    /// The places of the events to which `user_id` has a commitment among
    /// the first `n` commitments, in the order of the commitments.
    pub open spec fn joined_upto(self, user_id: UserId, n: int) -> Seq<int>
        decreases n,
    {
        if n <= 0 {
            Seq::empty()
        } else if self.members[n - 1].user_id == user_id {
            self.joined_upto(user_id, n - 1).push(self.event_index(self.members[n - 1].event_id))
        } else {
            self.joined_upto(user_id, n - 1)
        }
    }

    /// The places of the events that concern `user_id`: first those that the
    /// user owns, as `order` lists them, then those to which the user has a
    /// commitment, in the order of the commitments.
    pub open spec fn concerning(self, order: Seq<usize>, user_id: UserId) -> Seq<int> {
        self.owned_among(order, user_id) + self.joined_upto(user_id, self.members.len() as int)
    }

    /// One of the first `n` events has the category `c`.
    pub open spec fn category_seen(self, c: Seq<char>, n: int) -> bool {
        exists|j: int| 0 <= j < n && (#[trigger] self.events[j]).category@ == c
    }

    /// The categories of the first `n` events, each once, in the order in
    /// which they first occur.
    pub open spec fn categories_upto(self, n: int) -> Seq<String>
        decreases n,
    {
        if n <= 0 {
            Seq::empty()
        } else if self.category_seen(self.events[n - 1].category@, n - 1) {
            self.categories_upto(n - 1)
        } else {
            self.categories_upto(n - 1).push(self.events[n - 1].category)
        }
    }

    /// The categories of all events, each once, in the order in which they
    /// first occur.
    pub open spec fn categories(self) -> Seq<String> {
        self.categories_upto(self.events.len() as int)
    }

    /// `categories_upto(n)` names exactly the categories of the first `n`
    /// events, and names none twice.
    pub proof fn lemma_categories(self, n: int)
        requires
            0 <= n <= self.events.len(),
        ensures
            forall|c: Seq<char>|
                #[trigger] self.category_seen(c, n) <==> names(self.categories_upto(n), c),
            forall|a: int, b: int|
                0 <= a < b < self.categories_upto(n).len() ==> (#[trigger] self.categories_upto(
                    n,
                )[a])@ != (#[trigger] self.categories_upto(n)[b])@,
        decreases n,
    {
        if n > 0 {
            self.lemma_categories(n - 1);
            let rest = self.categories_upto(n - 1);
            let all = self.categories_upto(n);
            let last = self.events[n - 1].category@;
            let repeated = self.category_seen(last, n - 1);
            assert forall|c: Seq<char>| #[trigger] self.category_seen(c, n) <==> names(all, c) by {
                if self.category_seen(c, n) {
                    let j = choose|j: int| 0 <= j < n && (#[trigger] self.events[j]).category@ == c;
                    if j < n - 1 {
                        assert(self.category_seen(c, n - 1));
                    }
                    if c != last || repeated {
                        assert(self.category_seen(c, n - 1));
                        let k = choose|k: int| 0 <= k < rest.len() && (#[trigger] rest[k])@ == c;
                        assert(all[k]@ == c);
                    } else {
                        assert(all[all.len() - 1]@ == c);
                    }
                }
                if names(all, c) {
                    let k = choose|k: int| 0 <= k < all.len() && (#[trigger] all[k])@ == c;
                    if k < rest.len() {
                        assert(rest[k]@ == c);
                        assert(names(rest, c));
                        assert(self.category_seen(c, n - 1));
                        let j = choose|j: int|
                            0 <= j < n - 1 && (#[trigger] self.events[j]).category@ == c;
                        assert(self.events[j].category@ == c);
                    } else {
                        assert(self.events[n - 1].category@ == c);
                    }
                }
            }
            if !repeated {
                assert forall|a: int, b: int| 0 <= a < b < all.len() implies (#[trigger] all[a])@ != (
                #[trigger] all[b])@ by {
                    assert(all[a] == rest[a]);
                    if b < rest.len() {
                        assert(all[b] == rest[b]);
                    } else if rest[a]@ == last {
                        assert(names(rest, last));
                    }
                }
            }
        }
    }

    /// The store can still give out a new identity.
    pub open spec fn has_room(self) -> bool {
        self.next_id < u128::MAX
    }

    /// The tables are consistent: identities are unique and were given out
    /// by this store, no user has two commitments to one event, and every
    /// row refers to rows that exist.
    pub open spec fn wf(self) -> bool {
        &&& self.next_id >= 1
        &&& forall|i: int| 0 <= i < self.users.len() ==> 0 < (#[trigger] self.users[i]).id < self.next_id
        &&& forall|i: int, j: int|
            0 <= i < j < self.users.len() ==> (#[trigger] self.users[i]).id != (
            #[trigger] self.users[j]).id
        &&& forall|i: int, j: int|
            0 <= i < j < self.users.len() ==> (#[trigger] self.users[i]).guid@ != (
            #[trigger] self.users[j]).guid@
        &&& forall|i: int|
            0 <= i < self.events.len() ==> 0 < (#[trigger] self.events[i]).id < self.next_id
        &&& forall|i: int, j: int|
            0 <= i < j < self.events.len() ==> (#[trigger] self.events[i]).id != (
            #[trigger] self.events[j]).id
        &&& forall|i: int|
            0 <= i < self.events.len() ==> self.has_user((#[trigger] self.events[i]).user_id)
        &&& keys_distinct(self.members)
        &&& forall|i: int|
            0 <= i < self.members.len() ==> self.has_event((#[trigger] self.members[i]).event_id)
                && self.has_user(self.members[i].user_id)
        &&& self.comments_refer()
    }

    /// Every message belongs to the thread of an event that exists and was
    /// posted by a user who exists.
    pub open spec fn comments_refer(self) -> bool {
        forall|i: int|
            0 <= i < self.comments.len() ==> self.has_event((#[trigger] self.comments[i]).event_id)
                && self.has_user(self.comments[i].user_id)
    }

    /// Messages keep referring to rows that exist where no message is added
    /// and no event or user is taken away.
    pub proof fn lemma_comments_kept(self, before: Tables)
        requires
            before.comments_refer(),
            self.comments == before.comments,
            forall|id: EventId| before.has_event(id) ==> self.has_event(id),
            forall|id: UserId| before.has_user(id) ==> self.has_user(id),
        ensures
            self.comments_refer(),
    {
        assert forall|i: int| 0 <= i < self.comments.len() implies self.has_event(
            (#[trigger] self.comments[i]).event_id,
        ) && self.has_user(self.comments[i].user_id) by {
            assert(before.has_event(before.comments[i].event_id));
            assert(before.has_user(before.comments[i].user_id));
        }
    }

    /// The message at `i` is listed before the message at `j`: it was
    /// posted earlier, or at the same instant and stored first.
    pub open spec fn posted_before(self, i: int, j: int) -> bool {
        self.comments[i].created_at.is_before(self.comments[j].created_at) || (
        !self.comments[j].created_at.is_before(self.comments[i].created_at) && i < j)
    }

    /// `order` lists the places of all messages of the thread of
    /// `event_id`, each once, from the earliest to the latest.
    pub open spec fn is_thread(self, event_id: EventId, order: Seq<usize>) -> bool {
        &&& order.len() == thread_length(self.comments, event_id)
        &&& forall|k: int|
            0 <= k < order.len() ==> (#[trigger] order[k]) < self.comments.len()
                && self.comments[order[k] as int].event_id == event_id
        &&& forall|j: int, k: int|
            0 <= j < k < order.len() ==> self.posted_before(
                #[trigger] order[j] as int,
                #[trigger] order[k] as int,
            )
        &&& forall|i: int|
            0 <= i < self.comments.len() && self.comments[i].event_id == event_id
                ==> #[trigger] holds_place(order, i)
    }

    /// `msgs` are the messages of the thread of `event_id`, from the
    /// earliest to the latest, each with the name and the avatar of its
    /// author.
    pub open spec fn shows_thread(self, event_id: EventId, msgs: Seq<EventMsg>) -> bool {
        exists|order: Seq<usize>|
            {
                &&& #[trigger] self.is_thread(event_id, order)
                &&& msgs.len() == order.len()
                &&& forall|k: int|
                    0 <= k < msgs.len() ==> (#[trigger] msgs[k]) == message_of(
                        self.user(self.comments[order[k] as int].user_id),
                        self.comments[order[k] as int],
                    )
            }
    }

    /// Why the message `data` cannot be posted, if it cannot: a message
    /// that refers to no event or to no user is a fault of the store.
    pub open spec fn comment_error(self, data: NewEventMsg) -> Option<ErrorKind> {
        if !self.has_event(data.event_id) || !self.has_user(data.user_id) {
            Some(ErrorKind::Fault)
        } else {
            None
        }
    }

    /// The tables after the message `data` is posted at `created_at`.
    pub open spec fn with_comment(self, data: NewEventMsg, created_at: Timestamp) -> Tables {
        Tables { comments: self.comments.push(comment_of(data, created_at)), ..self }
    }

    /// Posting a message to the thread of an event that exists, by a user
    /// who exists, keeps the tables consistent.
    pub proof fn lemma_comment_added(self, before: Tables, data: NewEventMsg, created_at: Timestamp)
        requires
            before.wf(),
            before.has_event(data.event_id),
            before.has_user(data.user_id),
            self == before.with_comment(data, created_at),
        ensures
            self.wf(),
    {
        assert(self.events == before.events && self.users == before.users && self.members
            == before.members);
        assert forall|id: EventId| before.has_event(id) implies self.has_event(id) by {
            let w = before.event_index(id);
            assert(self.events[w].id == id);
        }
        assert forall|id: UserId| before.has_user(id) implies self.has_user(id) by {
            let w = choose|w: int| 0 <= w < before.users.len() && (#[trigger] before.users[w]).id == id;
            assert(self.users[w].id == id);
        }
        assert forall|i: int| 0 <= i < self.comments.len() implies self.has_event(
            (#[trigger] self.comments[i]).event_id,
        ) && self.has_user(self.comments[i].user_id) by {
            if i < before.comments.len() {
                assert(before.has_event(before.comments[i].event_id));
                assert(before.has_user(before.comments[i].user_id));
            }
        }
        assert forall|i: int| 0 <= i < self.members.len() implies self.has_event(
            (#[trigger] self.members[i]).event_id,
        ) && self.has_user(self.members[i].user_id) by {
            assert(before.has_event(before.members[i].event_id));
            assert(before.has_user(before.members[i].user_id));
        }
        assert forall|i: int| 0 <= i < self.events.len() implies self.has_user(
            (#[trigger] self.events[i]).user_id,
        ) by {
            assert(before.has_user(before.events[i].user_id));
        }
    }

    /// Users are never removed: where the user table of `before` is the
    /// beginning of this one and the other tables are the same, every
    /// reference to a user that held in `before` holds here.
    pub proof fn lemma_users_grown(self, before: Tables)
        requires
            before.wf(),
            before.users.len() <= self.users.len(),
            self.users.take(before.users.len() as int) == before.users,
            self.events == before.events,
            self.members == before.members,
            self.comments == before.comments,
        ensures
            forall|id: UserId| before.has_user(id) ==> self.has_user(id),
            forall|i: int|
                0 <= i < self.events.len() ==> self.has_user((#[trigger] self.events[i]).user_id),
            forall|i: int|
                0 <= i < self.members.len() ==> self.has_event(
                    (#[trigger] self.members[i]).event_id,
                ) && self.has_user(self.members[i].user_id),
            self.comments_refer(),
    {
        assert forall|id: UserId| before.has_user(id) implies self.has_user(id) by {
            let w = choose|w: int| 0 <= w < before.users.len() && (#[trigger] before.users[w]).id == id;
            assert(self.users.take(before.users.len() as int)[w] == self.users[w]);
            assert(self.users[w].id == id);
        }
        assert forall|i: int| 0 <= i < self.events.len() implies self.has_user(
            (#[trigger] self.events[i]).user_id,
        ) by {
            assert(before.has_user(before.events[i].user_id));
        }
        assert forall|i: int| 0 <= i < self.members.len() implies self.has_event(
            (#[trigger] self.members[i]).event_id,
        ) && self.has_user(self.members[i].user_id) by {
            assert(before.has_event(before.members[i].event_id));
            assert(before.has_user(before.members[i].user_id));
            let w = choose|w: int|
                0 <= w < before.events.len() && (#[trigger] before.events[w]).id
                    == before.members[i].event_id;
            assert(self.events[w].id == self.members[i].event_id);
        }
        self.lemma_comments_kept(before);
    }

    /// A change that keeps the users and the identities of the events, and
    /// leaves the ledger with distinct keys that refer to existing rows,
    /// keeps the tables consistent.
    pub proof fn lemma_wf_kept(self, before: Tables)
        requires
            before.wf(),
            self.users == before.users,
            self.next_id == before.next_id,
            self.events.len() == before.events.len(),
            forall|i: int|
                0 <= i < self.events.len() ==> (#[trigger] self.events[i]).id == before.events[i].id
                    && self.events[i].user_id == before.events[i].user_id,
            keys_distinct(self.members),
            forall|i: int|
                0 <= i < self.members.len() ==> before.has_event(
                    (#[trigger] self.members[i]).event_id,
                ) && before.has_user(self.members[i].user_id),
            self.comments == before.comments,
        ensures
            self.wf(),
            forall|id: EventId| before.has_event(id) <==> self.has_event(id),
            forall|id: EventId| before.has_event(id) ==> self.event_index(id) == before.event_index(id),
    {
        assert forall|id: EventId| before.has_event(id) implies self.has_event(id)
            && self.event_index(id) == before.event_index(id) by {
            let w = before.event_index(id);
            assert(self.events[w].id == id);
            let v = self.event_index(id);
            assert(before.events[v].id == self.events[v].id);
            if v < w {
                assert(before.events[v].id != before.events[w].id);
            } else if w < v {
                assert(before.events[w].id != before.events[v].id);
            }
        }
        assert forall|id: EventId| self.has_event(id) implies before.has_event(id) by {
            let w = self.event_index(id);
            assert(before.events[w].id == id);
        }
        self.lemma_comments_kept(before);
        assert forall|i: int| 0 <= i < self.events.len() implies 0 < (#[trigger] self.events[i]).id
            < self.next_id by {
            assert(0 < before.events[i].id < before.next_id);
        }
        assert forall|i: int, j: int| 0 <= i < j < self.events.len() implies (
        #[trigger] self.events[i]).id != (#[trigger] self.events[j]).id by {
            assert(before.events[i].id != before.events[j].id);
        }
        assert forall|i: int| 0 <= i < self.events.len() implies self.has_user(
            (#[trigger] self.events[i]).user_id,
        ) by {
            assert(before.has_user(before.events[i].user_id));
        }
    }

    /// A commitment refers to an event that exists, so an event without a
    /// row of its own in the event table has no commitments.
    pub proof fn lemma_unknown_event_is_empty(self, event_id: EventId)
        requires
            forall|i: int|
                0 <= i < self.members.len() ==> (#[trigger] self.members[i]).event_id != event_id,
        ensures
            self.total(event_id) == 0,
            self.count(event_id) == 0,
            self.roster(event_id) == Seq::<EventMember>::empty(),
            member_ids(self.members, event_id) == Seq::<UserId>::empty(),
    {
        self.lemma_unknown_event_upto(event_id, self.members.len() as int);
        assert(self.members.take(self.members.len() as int) =~= self.members);
    }

    proof fn lemma_unknown_event_upto(self, event_id: EventId, n: int)
        requires
            0 <= n <= self.members.len(),
            forall|i: int|
                0 <= i < self.members.len() ==> (#[trigger] self.members[i]).event_id != event_id,
        ensures
            committed_total(self.members.take(n), event_id) == 0,
            member_count(self.members.take(n), event_id) == 0,
            self.roster_upto(event_id, n) == Seq::<EventMember>::empty(),
            member_ids(self.members.take(n), event_id) == Seq::<UserId>::empty(),
        decreases n,
    {
        if n > 0 {
            self.lemma_unknown_event_upto(event_id, n - 1);
            assert(self.members.take(n).drop_last() =~= self.members.take(n - 1));
            assert(self.members.take(n).last() == self.members[n - 1]);
        }
    }

    /// Rewriting users in place, with identities and subjects kept, keeps
    /// the tables consistent.
    pub proof fn lemma_users_rewritten(self, before: Tables)
        requires
            before.wf(),
            self.users.len() == before.users.len(),
            forall|i: int|
                0 <= i < self.users.len() ==> (#[trigger] self.users[i]).id == before.users[i].id
                    && self.users[i].guid == before.users[i].guid,
            self.events == before.events,
            self.members == before.members,
            self.comments == before.comments,
            self.next_id == before.next_id,
        ensures
            self.wf(),
    {
        assert forall|id: UserId| before.has_user(id) implies self.has_user(id) by {
            let w = choose|w: int| 0 <= w < before.users.len() && (#[trigger] before.users[w]).id == id;
            assert(self.users[w].id == id);
        }
        self.lemma_comments_kept(before);
        assert forall|i: int| 0 <= i < self.users.len() implies 0 < (#[trigger] self.users[i]).id
            < self.next_id by {
            assert(0 < before.users[i].id < before.next_id);
        }
        assert forall|i: int, j: int| 0 <= i < j < self.users.len() implies (
        #[trigger] self.users[i]).id != (#[trigger] self.users[j]).id by {
            assert(before.users[i].id != before.users[j].id);
        }
        assert forall|i: int, j: int| 0 <= i < j < self.users.len() implies (
        #[trigger] self.users[i]).guid@ != (#[trigger] self.users[j]).guid@ by {
            assert(before.users[i].guid@ != before.users[j].guid@);
        }
        assert forall|i: int| 0 <= i < self.events.len() implies self.has_user(
            (#[trigger] self.events[i]).user_id,
        ) by {
            assert(before.has_user(before.events[i].user_id));
        }
        assert forall|i: int| 0 <= i < self.members.len() implies self.has_event(
            (#[trigger] self.members[i]).event_id,
        ) && self.has_user(self.members[i].user_id) by {
            assert(before.has_event(before.members[i].event_id));
            assert(before.has_user(before.members[i].user_id));
        }
    }

    /// Adding an event under the next identity keeps the tables consistent,
    /// and the new event has no commitments.
    pub proof fn lemma_event_added(self, before: Tables, data: NewEvent)
        requires
            before.wf(),
            before.has_user(data.user_id),
            before.has_room(),
            self.users == before.users,
            self.members == before.members,
            self.comments == before.comments,
            self.events == before.events.push(created_event(before.next_id, data)),
            self.next_id == before.next_id + 1,
        ensures
            self == before.with_event(data),
            self.wf(),
            self.has_event(before.next_id),
            self.event(before.next_id) == created_event(before.next_id, data),
            self.total(before.next_id) == 0,
            self.count(before.next_id) == 0,
            self.roster(before.next_id) == Seq::<EventMember>::empty(),
            forall|id: EventId| before.has_event(id) ==> self.has_event(id) && self.event(id) == before.event(id),
    {
        let n = before.events.len() as int;
        assert forall|i: int| 0 <= i < self.events.len() implies 0 < (#[trigger] self.events[i]).id
            < self.next_id by {
            if i < n {
                assert(0 < before.events[i].id < before.next_id);
            }
        }
        assert forall|i: int, j: int| 0 <= i < j < self.events.len() implies (
        #[trigger] self.events[i]).id != (#[trigger] self.events[j]).id by {
            if j < n {
                assert(before.events[i].id != before.events[j].id);
            } else {
                assert(0 < before.events[i].id < before.next_id);
            }
        }
        assert forall|i: int| 0 <= i < self.events.len() implies self.has_user(
            (#[trigger] self.events[i]).user_id,
        ) by {
            if i < n {
                assert(before.has_user(before.events[i].user_id));
            }
        }
        assert forall|id: EventId| before.has_event(id) implies self.has_event(id) && self.event(id)
            == before.event(id) by {
            let w = before.event_index(id);
            assert(self.events[w].id == id);
            let v = self.event_index(id);
            if v != w {
                if v < w {
                    assert(self.events[v].id != self.events[w].id);
                } else {
                    assert(self.events[w].id != self.events[v].id);
                }
            }
        }
        assert forall|i: int| 0 <= i < self.members.len() implies self.has_event(
            (#[trigger] self.members[i]).event_id,
        ) && self.has_user(self.members[i].user_id) by {
            assert(before.has_event(before.members[i].event_id));
            assert(before.has_user(before.members[i].user_id));
        }
        assert(self.events[n].id == before.next_id);
        self.lemma_comments_kept(before);
        assert(self.wf());
        self.lemma_event_at(n);
        assert forall|i: int| 0 <= i < self.members.len() implies (
        #[trigger] self.members[i]).event_id != before.next_id by {
            assert(before.has_event(before.members[i].event_id));
            let w = before.event_index(before.members[i].event_id);
            assert(0 < before.events[w].id < before.next_id);
        }
        self.lemma_unknown_event_is_empty(before.next_id);
    }

    /// Deleting an event with its commitments keeps the tables consistent.
    pub proof fn lemma_event_removed(self, before: Tables, event_id: EventId)
        requires
            before.wf(),
            before.has_event(event_id),
            self.users == before.users,
            self.next_id == before.next_id,
            self.events == before.events.remove(before.event_index(event_id)),
            self.members == without_event(before.members, event_id),
            self.comments == without_thread(before.comments, event_id),
        ensures
            self == before.without(event_id),
            self.wf(),
            !self.has_event(event_id),
            forall|id: EventId|
                id != event_id && before.has_event(id) ==> self.has_event(id) && self.event(id)
                    == before.event(id),
            forall|id: EventId| self.has_event(id) ==> before.has_event(id),
    {
        let x = before.event_index(event_id);
        assert forall|i: int| 0 <= i < self.events.len() implies (#[trigger] self.events[i])
            == before.events[if i < x { i } else { i + 1 }] by {}
        assert forall|i: int| 0 <= i < self.events.len() implies 0 < (#[trigger] self.events[i]).id
            < self.next_id && self.has_user(self.events[i].user_id) by {
            let i0 = if i < x { i } else { i + 1 };
            assert(0 < before.events[i0].id < before.next_id);
            assert(before.has_user(before.events[i0].user_id));
        }
        assert forall|i: int, j: int| 0 <= i < j < self.events.len() implies (
        #[trigger] self.events[i]).id != (#[trigger] self.events[j]).id by {
            let i0 = if i < x { i } else { i + 1 };
            let j0 = if j < x { j } else { j + 1 };
            assert(before.events[i0].id != before.events[j0].id);
        }
        assert(!self.has_event(event_id)) by {
            if self.has_event(event_id) {
                let v = self.event_index(event_id);
                let v0 = if v < x { v } else { v + 1 };
                assert(self.events[v] == before.events[v0]);
                if v0 < x {
                    assert(before.events[v0].id != before.events[x].id);
                } else {
                    assert(before.events[x].id != before.events[v0].id);
                }
            }
        }
        assert forall|id: EventId| id != event_id && before.has_event(id) implies self.has_event(id)
            by {
            let w = before.event_index(id);
            let w1 = if w < x { w } else { w - 1 };
            assert(self.events[w1] == before.events[w]);
        }
        assert forall|id: EventId| self.has_event(id) implies before.has_event(id) by {
            let v = self.event_index(id);
            let v0 = if v < x { v } else { v + 1 };
            assert(self.events[v] == before.events[v0]);
        }
        lemma_without_event_rows(before.members, event_id);
        assert forall|i: int| 0 <= i < self.members.len() implies self.has_event(
            (#[trigger] self.members[i]).event_id,
        ) && self.has_user(self.members[i].user_id) by {
            assert(before.members.contains(self.members[i]));
            let w = choose|w: int| 0 <= w < before.members.len() && before.members[w] == self.members[i];
            assert(before.has_event(before.members[w].event_id));
            assert(before.has_user(before.members[w].user_id));
        }
        lemma_without_thread(before.comments, event_id);
        assert forall|i: int| 0 <= i < self.comments.len() implies self.has_event(
            (#[trigger] self.comments[i]).event_id,
        ) && self.has_user(self.comments[i].user_id) by {
            assert(before.comments.contains(self.comments[i]));
            let w = choose|w: int|
                0 <= w < before.comments.len() && before.comments[w] == self.comments[i];
            assert(before.has_event(before.comments[w].event_id));
            assert(before.has_user(before.comments[w].user_id));
        }
        assert(self.wf());
        assert forall|id: EventId| id != event_id && before.has_event(id) implies self.event(id)
            == before.event(id) by {
            let w = before.event_index(id);
            let w1 = if w < x { w } else { w - 1 };
            assert(self.events[w1] == before.events[w]);
            self.lemma_event_at(w1);
        }
    }

    /// Recording a row for an event and a user that exist keeps the tables
    /// consistent.
    pub proof fn lemma_recorded(self, before: Tables, row: Membership)
        requires
            before.wf(),
            before.has_event(row.event_id),
            before.has_user(row.user_id),
            self == before.recorded(row),
        ensures
            self.wf(),
    {
        if is_member(before.members, row.event_id, row.user_id) {
            let p = position(before.members, row.event_id, row.user_id);
            assert forall|a: int, b: int| 0 <= a < b < self.members.len() implies !has_key(
                #[trigger] self.members[a],
                self.members[b].event_id,
                #[trigger] self.members[b].user_id,
            ) by {
                assert(!has_key(before.members[a], before.members[b].event_id, before.members[b].user_id));
            }
            assert forall|k: int| 0 <= k < self.members.len() implies before.has_event(
                (#[trigger] self.members[k]).event_id,
            ) && before.has_user(self.members[k].user_id) by {
                assert(before.has_event(before.members[k].event_id));
                assert(before.has_user(before.members[k].user_id));
            }
        } else {
            assert forall|a: int, b: int| 0 <= a < b < self.members.len() implies !has_key(
                #[trigger] self.members[a],
                self.members[b].event_id,
                #[trigger] self.members[b].user_id,
            ) by {
                if b < before.members.len() {
                    assert(!has_key(
                        before.members[a],
                        before.members[b].event_id,
                        before.members[b].user_id,
                    ));
                } else {
                    assert(!has_key(before.members[a], row.event_id, row.user_id));
                }
            }
            assert forall|k: int| 0 <= k < self.members.len() implies before.has_event(
                (#[trigger] self.members[k]).event_id,
            ) && before.has_user(self.members[k].user_id) by {
                if k < before.members.len() {
                    assert(before.has_event(before.members[k].event_id));
                    assert(before.has_user(before.members[k].user_id));
                }
            }
        }
        self.lemma_wf_kept(before);
    }

    /// An event's roster has one line for each of its commitments, and the
    /// amounts of the lines add up to the event's total.
    pub proof fn lemma_roster(self, event_id: EventId)
        ensures
            self.roster(event_id).len() == self.count(event_id),
            roster_total(self.roster(event_id)) == self.total(event_id),
    {
        self.lemma_roster_upto(event_id, self.members.len() as int);
        assert(self.members.take(self.members.len() as int) =~= self.members);
    }

    proof fn lemma_roster_upto(self, event_id: EventId, n: int)
        requires
            0 <= n <= self.members.len(),
        ensures
            self.roster_upto(event_id, n).len() == member_count(self.members.take(n), event_id),
            roster_total(self.roster_upto(event_id, n)) == committed_total(
                self.members.take(n),
                event_id,
            ),
        decreases n,
    {
        if n > 0 {
            self.lemma_roster_upto(event_id, n - 1);
            assert(self.members.take(n).drop_last() =~= self.members.take(n - 1));
            assert(self.members.take(n).last() == self.members[n - 1]);
            if self.members[n - 1].event_id == event_id {
                assert(self.roster_upto(event_id, n).drop_last() =~= self.roster_upto(event_id, n - 1));
            }
        }
    }

    /// In consistent tables every user with a commitment exists.
    pub proof fn lemma_members_exist(self, event_id: EventId, user_id: UserId)
        requires
            self.wf(),
        ensures
            self.is_member(event_id, user_id) ==> self.has_user(user_id),
    {
        if self.is_member(event_id, user_id) {
            let p = position(self.members, event_id, user_id);
            assert(self.has_user(self.members[p].user_id));
        }
    }

    /// In consistent tables the owner of every event exists.
    pub proof fn lemma_owner_exists(self, event_id: EventId)
        requires
            self.wf(),
        ensures
            self.has_event(event_id) ==> self.has_user(self.event(event_id).user_id),
    {
        if self.has_event(event_id) {
            let w = self.event_index(event_id);
            assert(self.has_user(self.events[w].user_id));
        }
    }

    /// In consistent tables an identity names the user at one place only.
    pub proof fn lemma_user_at(self, i: int)
        requires
            self.wf(),
            0 <= i < self.users.len(),
        ensures
            self.has_user(self.users[i].id),
            self.user(self.users[i].id) == self.users[i],
            self.has_guid(self.users[i].guid@),
            self.user_by_guid(self.users[i].guid@) == self.users[i],
    {
        let id = self.users[i].id;
        let p = choose|p: int| 0 <= p < self.users.len() && (#[trigger] self.users[p]).id == id;
        assert(p == i) by {
            if p < i {
                assert(self.users[p].id != self.users[i].id);
            } else if i < p {
                assert(self.users[i].id != self.users[p].id);
            }
        }
        let guid = self.users[i].guid@;
        let q = choose|q: int| 0 <= q < self.users.len() && (#[trigger] self.users[q]).guid@ == guid;
        assert(q == i) by {
            if q < i {
                assert(self.users[q].guid@ != self.users[i].guid@);
            } else if i < q {
                assert(self.users[i].guid@ != self.users[q].guid@);
            }
        }
    }

    /// In consistent tables an identity names the event at one place only.
    pub proof fn lemma_event_at(self, i: int)
        requires
            self.wf(),
            0 <= i < self.events.len(),
        ensures
            self.has_event(self.events[i].id),
            self.event_index(self.events[i].id) == i,
            self.event(self.events[i].id) == self.events[i],
    {
        let id = self.events[i].id;
        let p = self.event_index(id);
        assert(p == i) by {
            if p < i {
                assert(self.events[p].id != self.events[i].id);
            } else if i < p {
                assert(self.events[i].id != self.events[p].id);
            }
        }
    }
}

} // verus!
