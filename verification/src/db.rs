//! The store: the tables of users, events, commitments and messages, held
//! in memory, and the operations on them. Every operation reads or replaces whole rows;
//! none of them judges whether a change is allowed.

use vstd::prelude::*;
use crate::ledger::{
    amounts_of, capacity_check, has_key, lemma_position, lemma_total_is_sum, member_ids,
    without_event, Membership,
};
use crate::model::{
    ErrorKind, Event, EventId, EventMember, EventMsg, EventMsgUser, EventOwner, EventWithMembers,
    NewEvent, NewEventMember, NewEventMsg, ProjectionView, Timestamp, UpdateEvent, UpdateUser,
    User, UserId,
};
use crate::policy::{apply_update, merged};
use crate::projection::{build_projection, event_with};
use crate::tables::{
    created_event, found_or_created, holds_place, merged_user, message_of, names, row_of,
    schedule_before, thread_length, user_of, without_thread, Comment, Tables, UserRecord,
};

verus! {

/// The tables of users, events, commitments and messages.
pub struct Store {
    users: Vec<UserRecord>,
    events: Vec<Event>,
    members: Vec<Membership>,
    comments: Vec<Comment>,
    next_id: u128,
}

impl View for Store {
    type V = Tables;

    closed spec fn view(&self) -> Tables {
        Tables {
            users: self.users@,
            events: self.events@,
            members: self.members@,
            comments: self.comments@,
            next_id: self.next_id,
        }
    }
}

impl Store {
    /// A store that holds nothing.
    pub fn new() -> (store: Store)
        ensures
            store@ == Tables::empty(),
            store@.wf(),
    {
        Store {
            users: Vec::new(),
            events: Vec::new(),
            members: Vec::new(),
            comments: Vec::new(),
            next_id: 1,
        }
    }

    /// The stored event with identity `event_id`, if there is one.
    pub fn event(&self, event_id: EventId) -> (r: Option<&Event>)
        requires
            self@.wf(),
        ensures
            match r {
                Some(event) => self@.has_event(event_id) && *event == self@.event(event_id),
                None => !self@.has_event(event_id),
            },
    {
        match self.find_event(event_id) {
            Some(i) => {
                proof {
                    self@.lemma_event_at(i as int);
                }
                Some(&self.events[i])
            },
            None => None,
        }
    }

    /// Tells whether a user with identity `user_id` exists.
    pub fn has_user(&self, user_id: UserId) -> (b: bool)
        ensures
            b == self@.has_user(user_id),
    {
        self.find_user(user_id).is_some()
    }

    /// Tells whether a user is known under the subject `guid`.
    pub fn has_guid(&self, guid: &String) -> (b: bool)
        ensures
            b == self@.has_guid(guid@),
    {
        self.find_guid(guid).is_some()
    }

    /// Tells whether the store can still give out a new identity.
    pub fn has_room(&self) -> (b: bool)
        ensures
            b == self@.has_room(),
    {
        self.next_id < u128::MAX
    }

    /// The place of the user with identity `id`, if there is one.
    fn find_user(&self, id: UserId) -> (r: Option<usize>)
        ensures
            match r {
                Some(i) => i < self@.users.len() && self@.users[i as int].id == id,
                None => !self@.has_user(id),
            },
    {
        let mut i: usize = 0;
        while i < self.users.len()
            invariant
                0 <= i <= self.users.len(),
                forall|j: int| 0 <= j < i ==> (#[trigger] self.users@[j]).id != id,
            decreases self.users.len() - i,
        {
            if self.users[i].id == id {
                return Some(i);
            }
            i = i + 1;
        }
        None
    }

    /// The place of the user with subject `guid`, if there is one.
    fn find_guid(&self, guid: &String) -> (r: Option<usize>)
        ensures
            match r {
                Some(i) => i < self@.users.len() && self@.users[i as int].guid@ == guid@,
                None => !self@.has_guid(guid@),
            },
    {
        let mut i: usize = 0;
        while i < self.users.len()
            invariant
                0 <= i <= self.users.len(),
                forall|j: int| 0 <= j < i ==> (#[trigger] self.users@[j]).guid@ != guid@,
            decreases self.users.len() - i,
        {
            if self.users[i].guid == *guid {
                return Some(i);
            }
            i = i + 1;
        }
        None
    }

    /// The place of the event with identity `id`, if there is one.
    fn find_event(&self, id: EventId) -> (r: Option<usize>)
        ensures
            match r {
                Some(i) => i < self@.events.len() && self@.events[i as int].id == id,
                None => !self@.has_event(id),
            },
    {
        let mut i: usize = 0;
        while i < self.events.len()
            invariant
                0 <= i <= self.events.len(),
                forall|j: int| 0 <= j < i ==> (#[trigger] self.events@[j]).id != id,
            decreases self.events.len() - i,
        {
            if self.events[i].id == id {
                return Some(i);
            }
            i = i + 1;
        }
        None
    }

    /// The place of the user with identity `id`, who exists.
    fn user_place(&self, id: UserId) -> (i: usize)
        requires
            self@.has_user(id),
        ensures
            i < self@.users.len(),
            self@.users[i as int].id == id,
    {
        let mut i: usize = 0;
        while self.users[i].id != id
            invariant
                i < self.users.len(),
                exists|j: int| i <= j < self.users.len() && (#[trigger] self.users@[j]).id == id,
            decreases self.users.len() - i,
        {
            i = i + 1;
        }
        i
    }

    /// The place of the event with identity `id`, which exists.
    fn event_place(&self, id: EventId) -> (i: usize)
        requires
            self@.has_event(id),
        ensures
            i < self@.events.len(),
            self@.events[i as int].id == id,
    {
        let mut i: usize = 0;
        while self.events[i].id != id
            invariant
                i < self.events.len(),
                exists|j: int| i <= j < self.events.len() && (#[trigger] self.events@[j]).id == id,
            decreases self.events.len() - i,
        {
            i = i + 1;
        }
        i
    }

    /// The place of the commitment of `user_id` to `event_id`, if there is one.
    fn find_member(&self, event_id: EventId, user_id: UserId) -> (r: Option<usize>)
        ensures
            match r {
                Some(i) => i < self@.members.len() && has_key(
                    self@.members[i as int],
                    event_id,
                    user_id,
                ),
                None => !self@.is_member(event_id, user_id),
            },
    {
        let mut i: usize = 0;
        while i < self.members.len()
            invariant
                0 <= i <= self.members.len(),
                forall|j: int| 0 <= j < i ==> !has_key(#[trigger] self.members@[j], event_id, user_id),
            decreases self.members.len() - i,
        {
            if self.members[i].event_id == event_id && self.members[i].user_id == user_id {
                return Some(i);
            }
            i = i + 1;
        }
        None
    }
}

impl Store {
    /// The user that the row at `i` presents.
    fn user_at(&self, i: usize) -> (user: User)
        requires
            i < self@.users.len(),
        ensures
            user == user_of(self@.users[i as int]),
    {
        let record = &self.users[i];
        User {
            id: record.id,
            name: record.name.clone(),
            email: record.email.clone(),
            phone: record.phone.clone(),
            avatar: record.avatar.clone(),
        }
    }

    /// The roster of `event_id`.
    fn roster(&self, event_id: EventId) -> (roster: Vec<EventMember>)
        requires
            self@.wf(),
        ensures
            roster@ == self@.roster(event_id),
    {
        let mut roster: Vec<EventMember> = Vec::new();
        let mut i: usize = 0;
        while i < self.members.len()
            invariant
                self@.wf(),
                0 <= i <= self.members.len(),
                roster@ == self@.roster_upto(event_id, i as int),
            decreases self.members.len() - i,
        {
            let row = self.members[i];
            if row.event_id == event_id {
                let j = self.user_place(row.user_id);
                proof {
                    self@.lemma_user_at(j as int);
                }
                let record = &self.users[j];
                roster.push(
                    EventMember {
                        name: record.name.clone(),
                        email: record.email.clone(),
                        phone: record.phone.clone(),
                        amount: row.amount,
                    },
                );
            }
            i = i + 1;
        }
        roster
    }

    /// The amounts committed to `event_id`.
    fn amounts(&self, event_id: EventId) -> (amounts: Vec<i64>)
        ensures
            amounts@ == amounts_of(self@.members, event_id),
    {
        let mut amounts: Vec<i64> = Vec::new();
        let mut i: usize = 0;
        while i < self.members.len()
            invariant
                0 <= i <= self.members.len(),
                amounts@ == amounts_of(self.members@.take(i as int), event_id),
            decreases self.members.len() - i,
        {
            proof {
                assert(self.members@.take(i + 1).drop_last() =~= self.members@.take(i as int));
            }
            if self.members[i].event_id == event_id {
                amounts.push(self.members[i].amount);
            }
            i = i + 1;
        }
        proof {
            assert(self.members@.take(self.members.len() as int) =~= self.members@);
        }
        amounts
    }

    /// The event at `i` as it is shown to a caller.
    fn present(&self, i: usize, with_roster: bool) -> (r: EventWithMembers)
        requires
            self@.wf(),
            i < self@.events.len(),
        ensures
            r@ == self@.presented(self@.events[i as int], with_roster),
    {
        let stored = &self.events[i];
        let event = Event {
            id: stored.id,
            user_id: stored.user_id,
            name: stored.name.clone(),
            description: stored.description.clone(),
            category: stored.category.clone(),
            start_time: stored.start_time,
            end_time: stored.end_time,
            min_amount: stored.min_amount,
            max_amount: stored.max_amount,
            established: stored.established,
        };
        let j = self.user_place(stored.user_id);
        proof {
            self@.lemma_user_at(j as int);
        }
        let owner = EventOwner {
            name: self.users[j].name.clone(),
            avatar: self.users[j].avatar.clone(),
        };
        event_with(event, owner, build_projection(self.roster(stored.id), with_roster))
    }
}

/// Returns the user known under the subject `sub`. If there is none yet, one
/// is created with the next identity, the given name, email and avatar, and
/// an empty phone number.
pub fn get_or_create_user(
    store: &mut Store,
    sub: String,
    username: String,
    user_email: String,
    picture: String,
) -> (user: User)
    requires
        old(store)@.wf(),
        old(store)@.has_guid(sub@) || old(store)@.has_room(),
    ensures
        final(store)@.wf(),
        found_or_created(old(store)@, final(store)@, sub, username, user_email, picture, user),
{
    match store.find_guid(&sub) {
        Some(i) => {
            proof {
                store@.lemma_user_at(i as int);
            }
            store.user_at(i)
        },
        None => {
            let id = store.next_id;
            let record = UserRecord {
                id,
                guid: sub,
                name: username,
                email: user_email,
                phone: String::new(),
                avatar: picture,
            };
            let ghost before = store@;
            store.users.push(record);
            store.next_id = id + 1;
            proof {
                let after = store@;
                assert(after.users.drop_last() =~= before.users);
                assert(after.users.take(before.users.len() as int) =~= before.users);
                after.lemma_users_grown(before);
                assert forall|a: int, b: int| 0 <= a < b < after.users.len() implies (
                #[trigger] after.users[a]).guid@ != (#[trigger] after.users[b]).guid@ by {
                    if b == after.users.len() - 1 {
                        assert(before.users[a].guid@ != sub@);
                    } else {
                        assert(before.users[a].guid@ != before.users[b].guid@);
                    }
                }
                assert forall|a: int, b: int| 0 <= a < b < after.users.len() implies (
                #[trigger] after.users[a]).id != (#[trigger] after.users[b]).id by {
                    if b == after.users.len() - 1 {
                        assert(before.users[a].id < before.next_id);
                    } else {
                        assert(before.users[a].id != before.users[b].id);
                    }
                }
                assert forall|k: int| 0 <= k < after.users.len() implies 0 < (
                #[trigger] after.users[k]).id < after.next_id by {
                    if k < before.users.len() {
                        assert(0 < before.users[k].id < before.next_id);
                    }
                }
                assert forall|k: int| 0 <= k < after.events.len() implies 0 < (
                #[trigger] after.events[k]).id < after.next_id by {
                    assert(0 < before.events[k].id < before.next_id);
                }
            }
            proof {
                store@.lemma_user_at(store@.users.len() - 1);
            }
            store.user_at(store.users.len() - 1)
        },
    }
}

/// Returns the user with identity `user_id`.
pub fn get_user_by_id(store: &Store, user_id: UserId) -> (user: User)
    requires
        store@.wf(),
        store@.has_user(user_id),
    ensures
        user == user_of(store@.user(user_id)),
{
    let i = store.user_place(user_id);
    proof {
        store@.lemma_user_at(i as int);
    }
    store.user_at(i)
}

/// Rewrites the profile of the user `user_id`: every field that `user_data`
/// names is replaced.
pub fn update_user(store: &mut Store, user_id: UserId, user_data: UpdateUser) -> (user: User)
    requires
        old(store)@.wf(),
        old(store)@.has_user(user_id),
    ensures
        final(store)@.wf(),
        final(store)@.users.len() == old(store)@.users.len(),
        forall|i: int|
            0 <= i < old(store)@.users.len() ==> (#[trigger] final(store)@.users[i]) == if old(store)@.users[i].id == user_id {
                merged_user(old(store)@.users[i], user_data)
            } else {
                old(store)@.users[i]
            },
        final(store)@.events == old(store)@.events,
        final(store)@.members == old(store)@.members,
        final(store)@.comments == old(store)@.comments,
        final(store)@.next_id == old(store)@.next_id,
        user == user_of(merged_user(old(store)@.user(user_id), user_data)),
{
    let i = store.user_place(user_id);
    let ghost before = store@;
    proof {
        before.lemma_user_at(i as int);
    }
    let current = store.users.remove(i);
    let record = UserRecord {
        id: current.id,
        guid: current.guid,
        name: match user_data.name { Some(v) => v, None => current.name },
        email: match user_data.email { Some(v) => v, None => current.email },
        phone: match user_data.phone { Some(v) => v, None => current.phone },
        avatar: match user_data.avatar { Some(v) => v, None => current.avatar },
    };
    store.users.insert(i, record);
    proof {
        let after = store@;
        assert(after.users =~= before.users.update(i as int, record));
        assert forall|k: int| 0 <= k < before.users.len() implies (#[trigger] after.users[k]) == if before.users[k].id
            == user_id {
            merged_user(before.users[k], user_data)
        } else {
            before.users[k]
        } by {
            if k != i {
                if k < i {
                    assert(before.users[k].id != before.users[i as int].id);
                } else {
                    assert(before.users[i as int].id != before.users[k].id);
                }
            }
        }
        after.lemma_users_rewritten(before);
        after.lemma_user_at(i as int);
    }
    store.user_at(i)
}

/// Stores a new event under the next identity and shows it with its roster,
/// which is empty.
pub fn create_event(store: &mut Store, event_data: NewEvent) -> (event: EventWithMembers)
    requires
        old(store)@.wf(),
        old(store)@.has_user(event_data.user_id),
        old(store)@.has_room(),
    ensures
        final(store)@.wf(),
        final(store)@ == old(store)@.with_event(event_data),
        final(store)@.has_event(old(store)@.next_id),
        final(store)@.event(old(store)@.next_id) == created_event(old(store)@.next_id, event_data),
        event@ == final(store)@.presented(created_event(old(store)@.next_id, event_data), true),
        event@.projection == (ProjectionView::Owner {
            total_committed: 0,
            member_count: 0,
            roster: Seq::empty(),
        }),
{
    let ghost before = store@;
    let id = store.next_id;
    store.events.push(
        Event {
            id,
            user_id: event_data.user_id,
            name: event_data.name,
            description: event_data.description,
            category: event_data.category,
            start_time: event_data.start_time,
            end_time: event_data.end_time,
            min_amount: event_data.min_amount,
            max_amount: event_data.max_amount,
            established: false,
        },
    );
    store.next_id = id + 1;
    proof {
        let after = store@;
        after.lemma_event_added(before, event_data);
        after.lemma_roster(id);
    }
    store.present(store.events.len() - 1, true)
}

/// Looks up the event `event_id` and shows it to `user_id`: with the roster
/// if `user_id` owns the event, without it otherwise.
pub fn get_event_by_id(store: &Store, event_id: EventId, user_id: UserId) -> (r: Option<EventWithMembers>)
    requires
        store@.wf(),
    ensures
        match r {
            Some(event) => store@.has_event(event_id) && event@ == store@.presented(
                store@.event(event_id),
                user_id == store@.event(event_id).user_id,
            ),
            None => !store@.has_event(event_id),
        },
{
    match store.find_event(event_id) {
        Some(i) => {
            proof {
                store@.lemma_event_at(i as int);
            }
            let with_roster = store.events[i].user_id == user_id;
            Some(store.present(i, with_roster))
        },
        None => None,
    }
}

/// Lists the users committed to the event `event_id`, in the order of their
/// commitments.
pub fn get_event_members(store: &Store, event_id: EventId) -> (ids: Vec<UserId>)
    ensures
        ids@ == member_ids(store@.members, event_id),
{
    let mut ids: Vec<UserId> = Vec::new();
    let mut i: usize = 0;
    while i < store.members.len()
        invariant
            0 <= i <= store.members.len(),
            ids@ == member_ids(store.members@.take(i as int), event_id),
        decreases store.members.len() - i,
    {
        proof {
            assert(store.members@.take(i + 1).drop_last() =~= store.members@.take(i as int));
        }
        if store.members[i].event_id == event_id {
            ids.push(store.members[i].user_id);
        }
        i = i + 1;
    }
    proof {
        assert(store.members@.take(store.members.len() as int) =~= store.members@);
    }
    ids
}

/// Rewrites the event `event_id`: every field that `event_data` names is
/// replaced. Shows the event as it then is, with its roster.
pub fn update_event(store: &mut Store, event_id: EventId, event_data: UpdateEvent) -> (event: EventWithMembers)
    requires
        old(store)@.wf(),
        old(store)@.has_event(event_id),
    ensures
        final(store)@.wf(),
        final(store)@ == old(store)@.with_update(event_id, event_data),
        event@ == final(store)@.presented(merged(old(store)@.event(event_id), event_data), true),
{
    let i = store.event_place(event_id);
    let ghost before = store@;
    proof {
        before.lemma_event_at(i as int);
    }
    let current = store.events.remove(i);
    store.events.insert(i, apply_update(current, event_data));
    proof {
        let after = store@;
        assert(after.events =~= before.events.update(
            i as int,
            merged(before.events[i as int], event_data),
        ));
        assert forall|k: int| 0 <= k < after.members.len() implies before.has_event(
            (#[trigger] after.members[k]).event_id,
        ) && before.has_user(after.members[k].user_id) by {
            assert(before.has_event(before.members[k].event_id));
        }
        after.lemma_wf_kept(before);
    }
    store.present(i, true)
}

/// Deletes the event `event_id` together with every commitment to it and
/// every message of its thread. Tells whether there was such an event.
pub fn delete_event(store: &mut Store, event_id: EventId) -> (deleted: bool)
    requires
        old(store)@.wf(),
    ensures
        final(store)@.wf(),
        deleted == old(store)@.has_event(event_id),
        final(store)@ == old(store)@.without(event_id),
{
    match store.find_event(event_id) {
        Some(i) => {
            let ghost before = store@;
            proof {
                before.lemma_event_at(i as int);
            }
            store.events.remove(i);
            let mut kept: Vec<Membership> = Vec::new();
            let mut k: usize = 0;
            while k < store.members.len()
                invariant
                    0 <= k <= store.members.len(),
                    store.members@ == before.members,
                    kept@ == without_event(store.members@.take(k as int), event_id),
                decreases store.members.len() - k,
            {
                proof {
                    assert(store.members@.take(k + 1).drop_last() =~= store.members@.take(k as int));
                }
                if store.members[k].event_id != event_id {
                    kept.push(store.members[k]);
                }
                k = k + 1;
            }
            proof {
                assert(store.members@.take(store.members.len() as int) =~= store.members@);
            }
            store.members = kept;
            let mut left: Vec<Comment> = Vec::new();
            let mut c: usize = 0;
            while c < store.comments.len()
                invariant
                    0 <= c <= store.comments.len(),
                    store.comments@ == before.comments,
                    left@ == without_thread(store.comments@.take(c as int), event_id),
                decreases store.comments.len() - c,
            {
                proof {
                    assert(store.comments@.take(c + 1).drop_last() =~= store.comments@.take(c as int));
                }
                if store.comments[c].event_id != event_id {
                    let comment = &store.comments[c];
                    left.push(
                        Comment {
                            event_id: comment.event_id,
                            user_id: comment.user_id,
                            content: comment.content.clone(),
                            created_at: comment.created_at,
                        },
                    );
                }
                c = c + 1;
            }
            proof {
                assert(store.comments@.take(store.comments.len() as int) =~= store.comments@);
            }
            store.comments = left;
            proof {
                let after = store@;
                after.lemma_event_removed(before, event_id);
            }
            true
        },
        None => false,
    }
}

/// Records the commitment `event_member_data` as one unit: the row is
/// written first, replacing the amount of an earlier commitment of the same
/// user to the same event; then the event's total is taken anew and held
/// against the event's cap; if it passes the cap, the write is undone and the
/// call fails with `CapacityExceeded`. A row that refers to no event or to
/// no user fails with `Fault` and writes nothing.
pub fn create_event_member(store: &mut Store, event_member_data: NewEventMember) -> (r: Result<(), ErrorKind>)
    requires
        old(store)@.wf(),
    ensures
        final(store)@.wf(),
        match r {
            Ok(_) => old(store)@.record_error(row_of(event_member_data)) is None && final(store)@
                == old(store)@.recorded(row_of(event_member_data)),
            Err(kind) => old(store)@.record_error(row_of(event_member_data)) == Some(kind)
                && final(store)@ == old(store)@,
        },
{
    let row = Membership {
        event_id: event_member_data.event_id,
        user_id: event_member_data.user_id,
        amount: event_member_data.amount,
    };
    let max_amount = match store.find_event(row.event_id) {
        Some(e) => {
            proof {
                store@.lemma_event_at(e as int);
            }
            store.events[e].max_amount
        },
        None => {
            return Err(ErrorKind::Fault);
        },
    };
    if store.find_user(row.user_id).is_none() {
        return Err(ErrorKind::Fault);
    }
    let ghost before = store@;
    let place = store.find_member(row.event_id, row.user_id);
    let mut previous = row;
    match place {
        Some(i) => {
            proof {
                lemma_position(before.members, i as int);
            }
            previous = store.members[i];
            store.members[i] = row;
        },
        None => {
            store.members.push(row);
        },
    }
    proof {
        assert(store@ == before.recorded(row));
        store@.lemma_recorded(before, row);
    }
    proof {
        lemma_total_is_sum(store@.members, row.event_id);
    }
    let verdict = capacity_check(&store.amounts(row.event_id), max_amount);
    if verdict.is_err() {
        match place {
            Some(i) => {
                store.members[i] = previous;
                proof {
                    assert(store@.members =~= before.members);
                }
            },
            None => {
                store.members.pop();
                proof {
                    assert(store@.members =~= before.members);
                }
            },
        }
    }
    verdict
}

/// Withdraws the commitment of `user_id` to `event_id`. Tells whether there
/// was one.
pub fn delete_event_member(store: &mut Store, event_id: EventId, user_id: UserId) -> (removed: bool)
    requires
        old(store)@.wf(),
    ensures
        final(store)@.wf(),
        removed == old(store)@.is_member(event_id, user_id),
        final(store)@ == old(store)@.withdrawn(event_id, user_id),
{
    match store.find_member(event_id, user_id) {
        Some(i) => {
            let ghost before = store@;
            proof {
                lemma_position(before.members, i as int);
            }
            store.members.remove(i);
            proof {
                let after = store@;
                assert(after == before.withdrawn(event_id, user_id));
                assert forall|a: int, b: int| 0 <= a < b < after.members.len() implies !has_key(
                    #[trigger] after.members[a],
                    after.members[b].event_id,
                    #[trigger] after.members[b].user_id,
                ) by {
                    let a0 = if a < i { a } else { a + 1 };
                    let b0 = if b < i { b } else { b + 1 };
                    assert(after.members[a] == before.members[a0]);
                    assert(after.members[b] == before.members[b0]);
                }
                assert forall|k: int| 0 <= k < after.members.len() implies before.has_event(
                    (#[trigger] after.members[k]).event_id,
                ) && before.has_user(after.members[k].user_id) by {
                    let k0 = if k < i { k } else { k + 1 };
                    assert(after.members[k] == before.members[k0]);
                    assert(before.has_event(before.members[k0].event_id));
                }
                after.lemma_wf_kept(before);
            }
            true
        },
        None => false,
    }
}

/// Decides whether the schedule of `a` comes before that of `b`.
fn schedule_precedes(a: &Event, b: &Event) -> (r: bool)
    ensures
        r == schedule_before(*a, *b),
{
    a.start_time.before(&b.start_time) || (a.start_time == b.start_time && a.end_time.before(
        &b.end_time,
    ))
}

impl Store {
    /// The places of all events in the order in which they are listed.
    fn listing(&self) -> (order: Vec<usize>)
        ensures
            self@.is_listing(order@),
    {
        let mut order: Vec<usize> = Vec::new();
        let mut i: usize = 0;
        while i < self.events.len()
            invariant
                0 <= i <= self.events.len(),
                order@.len() == i,
                forall|k: int| 0 <= k < order@.len() ==> (#[trigger] order@[k]) < i,
                forall|j: int, k: int|
                    0 <= j < k < order@.len() ==> self@.listed_before(
                        #[trigger] order@[j] as int,
                        #[trigger] order@[k] as int,
                    ),
                forall|m: int| 0 <= m < i ==> #[trigger] holds_place(order@, m),
            decreases self.events.len() - i,
        {
            let mut p: usize = 0;
            while p < order.len() && !schedule_precedes(&self.events[i], &self.events[order[p]])
                invariant
                    0 <= p <= order@.len(),
                    i < self.events.len(),
                    forall|k: int| 0 <= k < order@.len() ==> (#[trigger] order@[k]) < i,
                    forall|j: int|
                        0 <= j < p ==> !schedule_before(
                            self@.events[i as int],
                            self@.events[(#[trigger] order@[j]) as int],
                        ),
                decreases order@.len() - p,
            {
                p = p + 1;
            }
            let ghost before = order@;
            order.insert(p, i);
            proof {
                let after = order@;
                assert forall|j: int, k: int| 0 <= j < k < after.len() implies self@.listed_before(
                    #[trigger] after[j] as int,
                    #[trigger] after[k] as int,
                ) by {
                    if k < p {
                        assert(after[j] == before[j] && after[k] == before[k]);
                    } else if k == p {
                        assert(after[j] == before[j]);
                    } else if j < p {
                        assert(after[j] == before[j] && after[k] == before[k - 1]);
                    } else if j == p {
                        assert(after[k] == before[k - 1]);
                        if k - 1 > p {
                            assert(self@.listed_before(before[p as int] as int, before[k - 1] as int));
                        }
                    } else {
                        assert(after[j] == before[j - 1] && after[k] == before[k - 1]);
                    }
                }
                assert forall|m: int| 0 <= m < i + 1 implies #[trigger] holds_place(
                    after,
                    m,
                ) by {
                    if m < i {
                        assert(holds_place(before, m));
                        let w = choose|w: int| 0 <= w < before.len() && (#[trigger] before[w]) == m;
                        if w < p {
                            assert(after[w] == m);
                        } else {
                            assert(after[w + 1] == m);
                        }
                    } else {
                        assert(after[p as int] == m);
                    }
                }
                assert forall|k: int| 0 <= k < after.len() implies (#[trigger] after[k]) < i + 1 by {
                    if k < p {
                        assert(after[k] == before[k]);
                    } else if k > p {
                        assert(after[k] == before[k - 1]);
                    }
                }
            }
            i = i + 1;
        }
        order
    }
}

/// Lists all events without their rosters: by start, then by end, then in
/// the order in which they were stored.
pub fn get_events(store: &Store) -> (events: Vec<EventWithMembers>)
    requires
        store@.wf(),
    ensures
        exists|order: Seq<usize>|
            {
                &&& #[trigger] store@.is_listing(order)
                &&& events@.len() == order.len()
                &&& forall|k: int|
                    0 <= k < events@.len() ==> (#[trigger] events@[k])@ == store@.presented(
                        store@.events[order[k] as int],
                        false,
                    )
            },
{
    let order = store.listing();
    let mut events: Vec<EventWithMembers> = Vec::new();
    let mut k: usize = 0;
    while k < order.len()
        invariant
            store@.wf(),
            store@.is_listing(order@),
            0 <= k <= order@.len(),
            events@.len() == k,
            forall|j: int|
                0 <= j < k ==> (#[trigger] events@[j])@ == store@.presented(
                    store@.events[order@[j] as int],
                    false,
                ),
        decreases order@.len() - k,
    {
        events.push(store.present(order[k], false));
        k = k + 1;
    }
    events
}

/// Lists the events that concern `user_id`: first the events that the user
/// owns, by start, then by end, then in the order in which they were stored;
/// after them the events to which the user has a commitment, in the order of
/// the commitments. An event is shown with its roster if the user owns it.
pub fn get_events_by_user_id(store: &Store, user_id: UserId) -> (events: Vec<EventWithMembers>)
    requires
        store@.wf(),
    ensures
        exists|order: Seq<usize>|
            {
                &&& #[trigger] store@.is_listing(order)
                &&& events@.len() == store@.concerning(order, user_id).len()
                &&& forall|k: int|
                    0 <= k < events@.len() ==> (#[trigger] events@[k])@ == store@.presented(
                        store@.events[store@.concerning(order, user_id)[k]],
                        store@.events[store@.concerning(order, user_id)[k]].user_id == user_id,
                    )
            },
{
    let order = store.listing();
    let mut events: Vec<EventWithMembers> = Vec::new();
    let ghost mut places: Seq<int> = Seq::empty();
    let mut k: usize = 0;
    while k < order.len()
        invariant
            store@.wf(),
            store@.is_listing(order@),
            0 <= k <= order@.len(),
            places == store@.owned_among(order@.take(k as int), user_id),
            events@.len() == places.len(),
            forall|j: int| 0 <= j < places.len() ==> 0 <= #[trigger] places[j] < store@.events.len(),
            forall|j: int|
                0 <= j < events@.len() ==> (#[trigger] events@[j])@ == store@.presented(
                    store@.events[places[j]],
                    store@.events[places[j]].user_id == user_id,
                ),
        decreases order@.len() - k,
    {
        proof {
            assert(order@.take(k + 1).drop_last() =~= order@.take(k as int));
        }
        if store.events[order[k]].user_id == user_id {
            events.push(store.present(order[k], true));
            proof {
                places = places.push(order@[k as int] as int);
            }
        }
        k = k + 1;
    }
    proof {
        assert(order@.take(order@.len() as int) =~= order@);
    }
    let ghost owned = places;
    let mut m: usize = 0;
    while m < store.members.len()
        invariant
            store@.wf(),
            0 <= m <= store.members.len(),
            places == owned + store@.joined_upto(user_id, m as int),
            events@.len() == places.len(),
            forall|j: int| 0 <= j < places.len() ==> 0 <= #[trigger] places[j] < store@.events.len(),
            forall|j: int|
                0 <= j < events@.len() ==> (#[trigger] events@[j])@ == store@.presented(
                    store@.events[places[j]],
                    store@.events[places[j]].user_id == user_id,
                ),
        decreases store.members.len() - m,
    {
        if store.members[m].user_id == user_id {
            let i = store.event_place(store.members[m].event_id);
            proof {
                store@.lemma_event_at(i as int);
            }
            let with_roster = store.events[i].user_id == user_id;
            events.push(store.present(i, with_roster));
            proof {
                places = places.push(i as int);
            }
        }
        m = m + 1;
        proof {
            assert(places =~= owned + store@.joined_upto(user_id, m as int));
        }
    }
    proof {
        assert(store@.is_listing(order@));
    }
    events
}

/// Lists the categories of all events, each once, in the order in which
/// they first occur.
pub fn get_categories(store: &Store) -> (categories: Vec<String>)
    ensures
        categories@ == store@.categories(),
{
    let mut categories: Vec<String> = Vec::new();
    let mut i: usize = 0;
    while i < store.events.len()
        invariant
            0 <= i <= store.events.len(),
            categories@ == store@.categories_upto(i as int),
        decreases store.events.len() - i,
    {
        let mut known = false;
        let mut k: usize = 0;
        while k < categories.len()
            invariant
                0 <= k <= categories.len(),
                i < store.events.len(),
                known == names(categories@.take(k as int), store@.events[i as int].category@),
            decreases categories.len() - k,
        {
            proof {
                let c = store@.events[i as int].category@;
                let shorter = categories@.take(k as int);
                let longer = categories@.take(k + 1);
                if names(shorter, c) {
                    let w = choose|w: int| 0 <= w < shorter.len() && (#[trigger] shorter[w])@ == c;
                    assert(longer[w]@ == c);
                }
                if names(longer, c) && categories@[k as int]@ != c {
                    let w = choose|w: int| 0 <= w < longer.len() && (#[trigger] longer[w])@ == c;
                    assert(shorter[w]@ == c);
                }
                if categories@[k as int]@ == c {
                    assert(longer[k as int]@ == c);
                }
            }
            if categories[k] == store.events[i].category {
                known = true;
            }
            k = k + 1;
        }
        proof {
            assert(categories@.take(categories@.len() as int) =~= categories@);
            store@.lemma_categories(i as int);
        }
        if !known {
            categories.push(store.events[i].category.clone());
        }
        i = i + 1;
    }
    categories
}

impl Store {
    /// The places of the messages of the thread of `event_id`, from the
    /// earliest to the latest.
    fn thread(&self, event_id: EventId) -> (order: Vec<usize>)
        ensures
            self@.is_thread(event_id, order@),
    {
        let mut order: Vec<usize> = Vec::new();
        let mut i: usize = 0;
        while i < self.comments.len()
            invariant
                0 <= i <= self.comments.len(),
                forall|k: int|
                    0 <= k < order@.len() ==> (#[trigger] order@[k]) < i
                        && self@.comments[order@[k] as int].event_id == event_id,
                forall|j: int, k: int|
                    0 <= j < k < order@.len() ==> self@.posted_before(
                        #[trigger] order@[j] as int,
                        #[trigger] order@[k] as int,
                    ),
                forall|m: int|
                    0 <= m < i && self@.comments[m].event_id == event_id
                        ==> #[trigger] holds_place(order@, m),
                order@.len() == thread_length(self@.comments.take(i as int), event_id),
            decreases self.comments.len() - i,
        {
            proof {
                assert(self@.comments.take(i + 1).drop_last() =~= self@.comments.take(i as int));
            }
            if self.comments[i].event_id == event_id {
                let mut p: usize = 0;
                while p < order.len() && !self.comments[i].created_at.before(
                    &self.comments[order[p]].created_at,
                )
                    invariant
                        0 <= p <= order@.len(),
                        i < self.comments.len(),
                        forall|k: int| 0 <= k < order@.len() ==> (#[trigger] order@[k]) < i,
                        forall|j: int|
                            0 <= j < p ==> !self@.comments[i as int].created_at.is_before(
                                self@.comments[(#[trigger] order@[j]) as int].created_at,
                            ),
                    decreases order@.len() - p,
                {
                    p = p + 1;
                }
                let ghost before = order@;
                order.insert(p, i);
                proof {
                    let after = order@;
                    assert forall|j: int, k: int| 0 <= j < k < after.len() implies self@.posted_before(
                        #[trigger] after[j] as int,
                        #[trigger] after[k] as int,
                    ) by {
                        if k < p {
                            assert(after[j] == before[j] && after[k] == before[k]);
                        } else if k == p {
                            assert(after[j] == before[j]);
                        } else if j < p {
                            assert(after[j] == before[j] && after[k] == before[k - 1]);
                        } else if j == p {
                            assert(after[k] == before[k - 1]);
                            if k - 1 > p {
                                assert(self@.posted_before(
                                    before[p as int] as int,
                                    before[k - 1] as int,
                                ));
                            }
                        } else {
                            assert(after[j] == before[j - 1] && after[k] == before[k - 1]);
                        }
                    }
                    assert forall|m: int|
                        0 <= m < i + 1 && self@.comments[m].event_id
                            == event_id implies #[trigger] holds_place(after, m) by {
                        if m < i {
                            assert(holds_place(before, m));
                            let w = choose|w: int|
                                0 <= w < before.len() && (#[trigger] before[w]) == m;
                            if w < p {
                                assert(after[w] == m);
                            } else {
                                assert(after[w + 1] == m);
                            }
                        } else {
                            assert(after[p as int] == m);
                        }
                    }
                    assert forall|k: int| 0 <= k < after.len() implies (#[trigger] after[k]) < i + 1
                        && self@.comments[after[k] as int].event_id == event_id by {
                        if k < p {
                            assert(after[k] == before[k]);
                        } else if k > p {
                            assert(after[k] == before[k - 1]);
                        }
                    }
                }
            }
            i = i + 1;
        }
        proof {
            assert(self@.comments.take(self.comments.len() as int) =~= self@.comments);
        }
        order
    }
}

/// Lists the messages of the thread of `event_id`, from the earliest to the
/// latest; messages posted at the same instant stay in the order in which
/// they were stored. Each message carries the name and the avatar of its
/// author.
pub fn get_event_msg_by_event_id(store: &Store, event_id: EventId) -> (msgs: Vec<EventMsg>)
    requires
        store@.wf(),
    ensures
        store@.shows_thread(event_id, msgs@),
{
    let order = store.thread(event_id);
    let mut msgs: Vec<EventMsg> = Vec::new();
    let mut k: usize = 0;
    while k < order.len()
        invariant
            store@.wf(),
            store@.is_thread(event_id, order@),
            0 <= k <= order@.len(),
            msgs@.len() == k,
            forall|j: int|
                0 <= j < k ==> (#[trigger] msgs@[j]) == message_of(
                    store@.user(store@.comments[order@[j] as int].user_id),
                    store@.comments[order@[j] as int],
                ),
        decreases order@.len() - k,
    {
        let comment = &store.comments[order[k]];
        proof {
            assert(store@.has_user(store@.comments[order@[k as int] as int].user_id));
        }
        let u = store.user_place(comment.user_id);
        proof {
            store@.lemma_user_at(u as int);
        }
        msgs.push(
            EventMsg {
                user: EventMsgUser {
                    name: store.users[u].name.clone(),
                    avatar: store.users[u].avatar.clone(),
                },
                content: comment.content.clone(),
                created_at: comment.created_at,
            },
        );
        k = k + 1;
    }
    msgs
}

/// Posts the message `event_msg_data` at the instant `created_at` and lists
/// the thread as it then is. A message that refers to no event or to no user
/// fails with `Fault` and writes nothing.
pub fn create_event_msg(store: &mut Store, event_msg_data: NewEventMsg, created_at: Timestamp) -> (r: Result<Vec<EventMsg>, ErrorKind>)
    requires
        old(store)@.wf(),
    ensures
        final(store)@.wf(),
        match r {
            Ok(msgs) => old(store)@.comment_error(event_msg_data) is None && final(store)@ == old(store)@.with_comment(event_msg_data, created_at) && final(store)@.shows_thread(
                event_msg_data.event_id,
                msgs@,
            ),
            Err(kind) => old(store)@.comment_error(event_msg_data) == Some(kind) && final(store)@
                == old(store)@,
        },
{
    if store.find_event(event_msg_data.event_id).is_none() || store.find_user(
        event_msg_data.user_id,
    ).is_none() {
        return Err(ErrorKind::Fault);
    }
    let ghost before = store@;
    let event_id = event_msg_data.event_id;
    store.comments.push(
        Comment {
            event_id: event_msg_data.event_id,
            user_id: event_msg_data.user_id,
            content: event_msg_data.content,
            created_at,
        },
    );
    proof {
        assert(store@ == before.with_comment(event_msg_data, created_at));
        store@.lemma_comment_added(before, event_msg_data, created_at);
    }
    Ok(get_event_msg_by_event_id(store, event_id))
}

} // verus!
