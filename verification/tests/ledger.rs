use event_ledger::db::{
    create_event_member, delete_event_member, get_event_members, get_or_create_user, Store,
};
use event_ledger::ledger::{capacity_check, total_amount};
use event_ledger::model::{
    ErrorKind, EventMember, NewEvent, NewEventMember, Projection, Timestamp, UpdateEvent, UserId,
};
use event_ledger::service::{
    amend_event, create_event, delete_event, get_event_projection, join, leave,
    list_member_identities,
};

fn at(secs: i64) -> Timestamp {
    Timestamp { secs, nanos: 0 }
}

fn user(store: &mut Store, tag: &str) -> UserId {
    get_or_create_user(
        store,
        format!("guid-{}", tag),
        format!("name-{}", tag),
        format!("{}@example.org", tag),
        format!("avatar-{}", tag),
    )
    .id
}

fn attrs(max_amount: i64) -> NewEvent {
    NewEvent {
        name: "outing".to_string(),
        description: "a day out".to_string(),
        category: "leisure".to_string(),
        start_time: at(100),
        end_time: at(200),
        min_amount: 1,
        max_amount,
        user_id: 0,
    }
}

fn no_change() -> UpdateEvent {
    UpdateEvent {
        name: None,
        description: None,
        category: None,
        start_time: None,
        end_time: None,
        min_amount: None,
        max_amount: None,
        established: None,
    }
}

fn totals(store: &Store, event: u128) -> (i128, usize) {
    let shown = get_event_projection(store, event, 0).unwrap();
    (shown.projection.total_committed(), shown.projection.member_count())
}

#[test]
fn join_twice_keeps_one_row() {
    let mut store = Store::new();
    let owner = user(&mut store, "owner");
    let u = user(&mut store, "u");
    let e = create_event(&mut store, owner, attrs(10)).unwrap().id;
    assert_eq!(join(&mut store, e, u, 5), Ok(()));
    assert_eq!(join(&mut store, e, u, 5), Ok(()));
    let shown = get_event_projection(&store, e, owner).unwrap();
    match shown.projection {
        Projection::Owner { total_committed, member_count, roster } => {
            assert_eq!(total_committed, 5);
            assert_eq!(member_count, 1);
            assert_eq!(roster.len(), 1);
            assert_eq!(roster[0].amount, 5);
            assert_eq!(roster[0].name, "name-u");
        }
        Projection::Public { .. } => panic!("the owner sees the roster"),
    }
    assert_eq!(list_member_identities(&store, e), vec![u]);
}

#[test]
fn competing_joins_admit_one() {
    let mut store = Store::new();
    let owner = user(&mut store, "owner");
    let u1 = user(&mut store, "u1");
    let u2 = user(&mut store, "u2");
    let e = create_event(&mut store, owner, attrs(10)).unwrap().id;
    assert_eq!(join(&mut store, e, u1, 6), Ok(()));
    assert_eq!(join(&mut store, e, u2, 6), Err(ErrorKind::CapacityExceeded));
    let shown = get_event_projection(&store, e, u2).unwrap();
    assert_eq!(shown.projection, Projection::Public { total_committed: 6, member_count: 1 });
    assert_eq!(list_member_identities(&store, e), vec![u1]);
    assert_eq!(leave(&mut store, e, u2), Err(ErrorKind::NotAMember));
}

#[test]
fn competing_joins_in_the_other_order() {
    let mut store = Store::new();
    let owner = user(&mut store, "owner");
    let u1 = user(&mut store, "u1");
    let u2 = user(&mut store, "u2");
    let e = create_event(&mut store, owner, attrs(10)).unwrap().id;
    assert_eq!(join(&mut store, e, u2, 6), Ok(()));
    assert_eq!(join(&mut store, e, u1, 6), Err(ErrorKind::CapacityExceeded));
    assert_eq!(totals(&store, e), (6, 1));
    assert_eq!(list_member_identities(&store, e), vec![u2]);
}

#[test]
fn total_never_passes_the_cap() {
    let mut store = Store::new();
    let owner = user(&mut store, "owner");
    let users: Vec<UserId> = vec![
        user(&mut store, "a"),
        user(&mut store, "b"),
        user(&mut store, "c"),
        user(&mut store, "d"),
    ];
    let e = create_event(&mut store, owner, attrs(10)).unwrap().id;
    let asks: Vec<(usize, i64)> =
        vec![(0, 4), (1, 4), (2, 4), (0, 7), (3, 2), (1, 1), (0, 7), (2, 11), (3, 3), (0, 0)];
    let outcomes: Vec<bool> =
        vec![true, true, false, false, true, true, true, false, false, true];
    let sums: Vec<i128> = vec![4, 8, 8, 8, 10, 7, 10, 10, 10, 3];
    for k in 0..asks.len() {
        let (who, amount) = asks[k];
        let r = join(&mut store, e, users[who], amount);
        assert_eq!(r.is_ok(), outcomes[k]);
        if !outcomes[k] {
            assert_eq!(r, Err(ErrorKind::CapacityExceeded));
        }
        let (total, _) = totals(&store, e);
        assert_eq!(total, sums[k]);
        assert!(total <= 10);
    }
}

#[test]
fn join_replaces_the_amount() {
    let mut store = Store::new();
    let owner = user(&mut store, "owner");
    let u = user(&mut store, "u");
    let e = create_event(&mut store, owner, attrs(10)).unwrap().id;
    assert_eq!(join(&mut store, e, u, 6), Ok(()));
    assert_eq!(join(&mut store, e, u, 3), Ok(()));
    assert_eq!(totals(&store, e), (3, 1));
    assert_eq!(join(&mut store, e, u, 10), Ok(()));
    assert_eq!(totals(&store, e), (10, 1));
}

#[test]
fn refused_join_keeps_the_earlier_commitment() {
    let mut store = Store::new();
    let owner = user(&mut store, "owner");
    let u1 = user(&mut store, "u1");
    let u2 = user(&mut store, "u2");
    let e = create_event(&mut store, owner, attrs(10)).unwrap().id;
    assert_eq!(join(&mut store, e, u1, 4), Ok(()));
    assert_eq!(join(&mut store, e, u2, 5), Ok(()));
    assert_eq!(join(&mut store, e, u1, 6), Err(ErrorKind::CapacityExceeded));
    let shown = get_event_projection(&store, e, owner).unwrap();
    assert_eq!(
        shown.projection,
        Projection::Owner {
            total_committed: 9,
            member_count: 2,
            roster: vec![
                EventMember {
                    name: "name-u1".to_string(),
                    email: "u1@example.org".to_string(),
                    phone: String::new(),
                    amount: 4,
                },
                EventMember {
                    name: "name-u2".to_string(),
                    email: "u2@example.org".to_string(),
                    phone: String::new(),
                    amount: 5,
                },
            ],
        }
    );
}

#[test]
fn the_cap_itself_is_allowed() {
    let mut store = Store::new();
    let owner = user(&mut store, "owner");
    let u1 = user(&mut store, "u1");
    let u2 = user(&mut store, "u2");
    let e = create_event(&mut store, owner, attrs(10)).unwrap().id;
    assert_eq!(join(&mut store, e, u1, 11), Err(ErrorKind::CapacityExceeded));
    assert_eq!(totals(&store, e), (0, 0));
    assert_eq!(join(&mut store, e, u1, 10), Ok(()));
    assert_eq!(join(&mut store, e, u2, 1), Err(ErrorKind::CapacityExceeded));
    assert_eq!(join(&mut store, e, u2, 0), Ok(()));
    assert_eq!(totals(&store, e), (10, 2));
}

#[test]
fn joins_to_one_event_leave_others_alone() {
    let mut store = Store::new();
    let owner = user(&mut store, "owner");
    let u = user(&mut store, "u");
    let e1 = create_event(&mut store, owner, attrs(10)).unwrap().id;
    let e2 = create_event(&mut store, owner, attrs(3)).unwrap().id;
    assert_eq!(join(&mut store, e1, u, 8), Ok(()));
    assert_eq!(join(&mut store, e2, u, 8), Err(ErrorKind::CapacityExceeded));
    assert_eq!(join(&mut store, e2, u, 3), Ok(()));
    assert_eq!(totals(&store, e1), (8, 1));
    assert_eq!(totals(&store, e2), (3, 1));
}

#[test]
fn owner_cannot_join_or_leave() {
    let mut store = Store::new();
    let owner = user(&mut store, "owner");
    let e = create_event(&mut store, owner, attrs(10)).unwrap().id;
    assert_eq!(join(&mut store, e, owner, 1), Err(ErrorKind::OwnerConflict));
    assert_eq!(join(&mut store, e, owner, 0), Err(ErrorKind::OwnerConflict));
    assert_eq!(join(&mut store, e, owner, 1000), Err(ErrorKind::OwnerConflict));
    assert_eq!(join(&mut store, e, owner, -5), Err(ErrorKind::OwnerConflict));
    assert_eq!(leave(&mut store, e, owner), Err(ErrorKind::OwnerConflict));
    assert_eq!(totals(&store, e), (0, 0));
}

#[test]
fn join_and_leave_need_the_event() {
    let mut store = Store::new();
    let u = user(&mut store, "u");
    assert_eq!(join(&mut store, 42, u, 1), Err(ErrorKind::NotFound));
    assert_eq!(leave(&mut store, 42, u), Err(ErrorKind::NotFound));
    assert_eq!(get_event_projection(&store, 42, u), Err(ErrorKind::NotFound));
}

#[test]
fn join_needs_the_user() {
    let mut store = Store::new();
    let owner = user(&mut store, "owner");
    let e = create_event(&mut store, owner, attrs(10)).unwrap().id;
    assert_eq!(join(&mut store, e, 4711, 1), Err(ErrorKind::Fault));
    assert_eq!(totals(&store, e), (0, 0));
}

#[test]
fn leave_withdraws_the_commitment() {
    let mut store = Store::new();
    let owner = user(&mut store, "owner");
    let u1 = user(&mut store, "u1");
    let u2 = user(&mut store, "u2");
    let e = create_event(&mut store, owner, attrs(10)).unwrap().id;
    assert_eq!(join(&mut store, e, u1, 4), Ok(()));
    assert_eq!(join(&mut store, e, u2, 5), Ok(()));
    assert_eq!(leave(&mut store, e, u1), Ok(()));
    assert_eq!(totals(&store, e), (5, 1));
    assert_eq!(list_member_identities(&store, e), vec![u2]);
    assert_eq!(leave(&mut store, e, u1), Err(ErrorKind::NotAMember));
    assert_eq!(join(&mut store, e, u1, 5), Ok(()));
    assert_eq!(list_member_identities(&store, e), vec![u2, u1]);
}

#[test]
fn roster_is_for_the_owner_alone() {
    let mut store = Store::new();
    let owner = user(&mut store, "owner");
    let u1 = user(&mut store, "u1");
    let u2 = user(&mut store, "u2");
    let e = create_event(&mut store, owner, attrs(10)).unwrap().id;
    assert_eq!(join(&mut store, e, u1, 4), Ok(()));
    assert_eq!(join(&mut store, e, u2, 5), Ok(()));
    let for_owner = get_event_projection(&store, e, owner).unwrap();
    let roster = for_owner.projection.roster().expect("the owner sees the roster");
    assert_eq!(roster.len(), 2);
    assert_eq!(roster[0].name, "name-u1");
    assert_eq!(roster[0].email, "u1@example.org");
    assert_eq!(roster[0].amount, 4);
    assert_eq!(roster[1].name, "name-u2");
    assert_eq!(roster[1].amount, 5);
    assert_eq!(for_owner.owner.name, "name-owner");
    assert_eq!(for_owner.owner.avatar, "avatar-owner");
    for viewer in [u1, u2, 0, 999] {
        let shown = get_event_projection(&store, e, viewer).unwrap();
        assert_eq!(shown.projection, Projection::Public { total_committed: 9, member_count: 2 });
        assert!(shown.projection.roster().is_none());
        assert_eq!(shown.name, for_owner.name);
        assert_eq!(shown.owner, for_owner.owner);
    }
    assert_eq!(for_owner.projection.total_committed(), 9);
    assert_eq!(for_owner.projection.member_count(), 2);
}

#[test]
fn an_event_without_members_has_an_empty_roster_for_its_owner() {
    let mut store = Store::new();
    let owner = user(&mut store, "owner");
    let created = create_event(&mut store, owner, attrs(10)).unwrap();
    assert_eq!(
        created.projection,
        Projection::Owner { total_committed: 0, member_count: 0, roster: vec![] }
    );
    assert!(!created.established);
    assert_eq!(created.user_id, owner);
    let e = created.id;
    let shown = get_event_projection(&store, e, 0).unwrap();
    assert_eq!(shown.projection, Projection::Public { total_committed: 0, member_count: 0 });
}

#[test]
fn create_event_checks_schedule_then_range() {
    let mut store = Store::new();
    let owner = user(&mut store, "owner");
    let mut late = attrs(10);
    late.start_time = at(201);
    assert_eq!(create_event(&mut store, owner, late), Err(ErrorKind::InvalidSchedule));
    let mut narrow = attrs(10);
    narrow.min_amount = 11;
    assert_eq!(create_event(&mut store, owner, narrow), Err(ErrorKind::InvalidRange));
    let mut both = attrs(10);
    both.start_time = at(201);
    both.min_amount = 11;
    assert_eq!(create_event(&mut store, owner, both), Err(ErrorKind::InvalidSchedule));
    let mut instant = attrs(7);
    instant.start_time = at(200);
    instant.min_amount = 7;
    let made = create_event(&mut store, owner, instant).unwrap();
    assert_eq!(made.start_time, made.end_time);
    assert_eq!(made.min_amount, made.max_amount);
    let mut by_nanos = attrs(10);
    by_nanos.start_time = Timestamp { secs: 200, nanos: 1 };
    assert_eq!(create_event(&mut store, owner, by_nanos), Err(ErrorKind::InvalidSchedule));
}

#[test]
fn create_event_needs_the_owner() {
    let mut store = Store::new();
    assert_eq!(create_event(&mut store, 5, attrs(10)), Err(ErrorKind::Fault));
}

#[test]
fn create_event_takes_the_owner_from_the_caller() {
    let mut store = Store::new();
    let owner = user(&mut store, "owner");
    let other = user(&mut store, "other");
    let mut data = attrs(10);
    data.user_id = other;
    let made = create_event(&mut store, owner, data).unwrap();
    assert_eq!(made.user_id, owner);
    assert_eq!(made.name, "outing");
    assert_eq!(made.description, "a day out");
    assert_eq!(made.category, "leisure");
    assert_eq!(made.start_time, at(100));
    assert_eq!(made.end_time, at(200));
    assert_eq!(made.min_amount, 1);
    assert_eq!(made.max_amount, 10);
}

#[test]
fn established_cannot_be_cleared() {
    let mut store = Store::new();
    let owner = user(&mut store, "owner");
    let e = create_event(&mut store, owner, attrs(10)).unwrap().id;
    let clear = UpdateEvent { established: Some(false), ..no_change() };
    assert_eq!(
        amend_event(&mut store, e, owner, clear.clone(), at(150)),
        Err(ErrorKind::InvalidTransition)
    );
    let set = UpdateEvent { established: Some(true), ..no_change() };
    let shown = amend_event(&mut store, e, owner, set.clone(), at(150)).unwrap();
    assert!(shown.established);
    assert_eq!(
        amend_event(&mut store, e, owner, clear.clone(), at(150)),
        Err(ErrorKind::InvalidTransition)
    );
    assert_eq!(
        amend_event(&mut store, e, owner, clear, at(250)),
        Err(ErrorKind::InvalidTransition)
    );
    let clear_and_more =
        UpdateEvent { established: Some(false), name: Some("x".to_string()), ..no_change() };
    assert_eq!(
        amend_event(&mut store, e, owner, clear_and_more, at(150)),
        Err(ErrorKind::InvalidTransition)
    );
    let again = amend_event(&mut store, e, owner, set, at(150)).unwrap();
    assert!(again.established);
    let shown = get_event_projection(&store, e, owner).unwrap();
    assert!(shown.established);
    assert_eq!(shown.name, "outing");
}

#[test]
fn after_the_deadline_only_established_changes() {
    let mut store = Store::new();
    let owner = user(&mut store, "owner");
    let e = create_event(&mut store, owner, attrs(10)).unwrap().id;
    let patch = UpdateEvent {
        name: Some("x".to_string()),
        description: Some("y".to_string()),
        category: Some("z".to_string()),
        start_time: Some(at(1)),
        end_time: Some(at(2)),
        min_amount: Some(3),
        max_amount: Some(4),
        established: Some(true),
    };
    let shown = amend_event(&mut store, e, owner, patch, at(201)).unwrap();
    assert!(shown.established);
    assert_eq!(shown.name, "outing");
    assert_eq!(shown.description, "a day out");
    assert_eq!(shown.category, "leisure");
    assert_eq!(shown.start_time, at(100));
    assert_eq!(shown.end_time, at(200));
    assert_eq!(shown.min_amount, 1);
    assert_eq!(shown.max_amount, 10);
    let stored = get_event_projection(&store, e, owner).unwrap();
    assert_eq!(stored, shown);
}

#[test]
fn after_the_deadline_a_patch_without_established_is_no_error() {
    let mut store = Store::new();
    let owner = user(&mut store, "owner");
    let e = create_event(&mut store, owner, attrs(10)).unwrap().id;
    let before = get_event_projection(&store, e, owner).unwrap();
    let patch = UpdateEvent {
        name: Some("x".to_string()),
        start_time: Some(at(900)),
        min_amount: Some(900),
        ..no_change()
    };
    let shown = amend_event(&mut store, e, owner, patch, at(201)).unwrap();
    assert_eq!(shown, before);
    assert_eq!(get_event_projection(&store, e, owner).unwrap(), before);
}

#[test]
fn at_the_deadline_the_event_is_still_open() {
    let mut store = Store::new();
    let owner = user(&mut store, "owner");
    let e = create_event(&mut store, owner, attrs(10)).unwrap().id;
    let patch = UpdateEvent { name: Some("x".to_string()), ..no_change() };
    let shown = amend_event(&mut store, e, owner, patch, at(200)).unwrap();
    assert_eq!(shown.name, "x");
    let patch = UpdateEvent { name: Some("y".to_string()), ..no_change() };
    let late = Timestamp { secs: 200, nanos: 1 };
    let shown = amend_event(&mut store, e, owner, patch, late).unwrap();
    assert_eq!(shown.name, "x");
}

#[test]
fn amendments_are_checked_against_the_merged_event() {
    let mut store = Store::new();
    let owner = user(&mut store, "owner");
    let e = create_event(&mut store, owner, attrs(10)).unwrap().id;
    let start_late = UpdateEvent { start_time: Some(at(201)), ..no_change() };
    assert_eq!(
        amend_event(&mut store, e, owner, start_late, at(150)),
        Err(ErrorKind::InvalidSchedule)
    );
    let end_early = UpdateEvent { end_time: Some(at(99)), ..no_change() };
    assert_eq!(
        amend_event(&mut store, e, owner, end_early, at(50)),
        Err(ErrorKind::InvalidSchedule)
    );
    let min_high = UpdateEvent { min_amount: Some(11), ..no_change() };
    assert_eq!(amend_event(&mut store, e, owner, min_high, at(150)), Err(ErrorKind::InvalidRange));
    let max_low = UpdateEvent { max_amount: Some(0), ..no_change() };
    assert_eq!(amend_event(&mut store, e, owner, max_low, at(150)), Err(ErrorKind::InvalidRange));
    let both_wrong =
        UpdateEvent { start_time: Some(at(201)), min_amount: Some(11), ..no_change() };
    assert_eq!(
        amend_event(&mut store, e, owner, both_wrong, at(150)),
        Err(ErrorKind::InvalidSchedule)
    );
    let moved = UpdateEvent {
        start_time: Some(at(300)),
        end_time: Some(at(400)),
        min_amount: Some(20),
        max_amount: Some(30),
        ..no_change()
    };
    let shown = amend_event(&mut store, e, owner, moved, at(150)).unwrap();
    assert_eq!(shown.start_time, at(300));
    assert_eq!(shown.end_time, at(400));
    assert_eq!(shown.min_amount, 20);
    assert_eq!(shown.max_amount, 30);
    assert_eq!(shown.name, "outing");
    assert!(!shown.established);
}

#[test]
fn amendments_are_for_the_owner_of_an_existing_event() {
    let mut store = Store::new();
    let owner = user(&mut store, "owner");
    let other = user(&mut store, "other");
    let e = create_event(&mut store, owner, attrs(10)).unwrap().id;
    let patch = UpdateEvent { name: Some("x".to_string()), ..no_change() };
    assert_eq!(
        amend_event(&mut store, e, other, patch.clone(), at(150)),
        Err(ErrorKind::Forbidden)
    );
    assert_eq!(
        amend_event(&mut store, e + 100, owner, patch, at(150)),
        Err(ErrorKind::NotFound)
    );
    let clear = UpdateEvent { established: Some(false), ..no_change() };
    assert_eq!(
        amend_event(&mut store, e, other, clear.clone(), at(150)),
        Err(ErrorKind::Forbidden)
    );
    assert_eq!(amend_event(&mut store, e + 100, owner, clear, at(150)), Err(ErrorKind::NotFound));
    assert_eq!(get_event_projection(&store, e, owner).unwrap().name, "outing");
}

#[test]
fn an_empty_amendment_shows_the_event_as_it_is() {
    let mut store = Store::new();
    let owner = user(&mut store, "owner");
    let u = user(&mut store, "u");
    let e = create_event(&mut store, owner, attrs(10)).unwrap().id;
    assert_eq!(join(&mut store, e, u, 2), Ok(()));
    let before = get_event_projection(&store, e, owner).unwrap();
    let shown = amend_event(&mut store, e, owner, no_change(), at(150)).unwrap();
    assert_eq!(shown, before);
    assert_eq!(shown.projection.roster().map(|r| r.len()), Some(1));
}

#[test]
fn lowering_the_cap_is_not_held_against_the_total() {
    let mut store = Store::new();
    let owner = user(&mut store, "owner");
    let u1 = user(&mut store, "u1");
    let u2 = user(&mut store, "u2");
    let e = create_event(&mut store, owner, attrs(10)).unwrap().id;
    assert_eq!(join(&mut store, e, u1, 8), Ok(()));
    let lower = UpdateEvent { max_amount: Some(5), ..no_change() };
    let shown = amend_event(&mut store, e, owner, lower, at(150)).unwrap();
    assert_eq!(shown.max_amount, 5);
    assert_eq!(shown.projection.total_committed(), 8);
    assert_eq!(join(&mut store, e, u2, 1), Err(ErrorKind::CapacityExceeded));
    assert_eq!(join(&mut store, e, u1, 5), Ok(()));
    assert_eq!(totals(&store, e), (5, 1));
}

#[test]
fn delete_takes_the_commitments_along() {
    let mut store = Store::new();
    let owner = user(&mut store, "owner");
    let other = user(&mut store, "other");
    let u = user(&mut store, "u");
    let e1 = create_event(&mut store, owner, attrs(10)).unwrap().id;
    let e2 = create_event(&mut store, owner, attrs(10)).unwrap().id;
    assert_eq!(join(&mut store, e1, u, 4), Ok(()));
    assert_eq!(join(&mut store, e2, u, 6), Ok(()));
    assert_eq!(join(&mut store, e1, other, 1), Ok(()));
    assert_eq!(delete_event(&mut store, e1, other), Err(ErrorKind::Forbidden));
    assert_eq!(delete_event(&mut store, 77, owner), Err(ErrorKind::NotFound));
    assert_eq!(totals(&store, e1), (5, 2));
    assert_eq!(delete_event(&mut store, e1, owner), Ok(()));
    assert_eq!(get_event_projection(&store, e1, owner), Err(ErrorKind::NotFound));
    assert_eq!(join(&mut store, e1, u, 1), Err(ErrorKind::NotFound));
    assert_eq!(list_member_identities(&store, e1), Vec::<UserId>::new());
    assert_eq!(totals(&store, e2), (6, 1));
    assert_eq!(delete_event(&mut store, e1, owner), Err(ErrorKind::NotFound));
    let e3 = create_event(&mut store, owner, attrs(10)).unwrap().id;
    assert!(e3 != e1 && e3 != e2);
    assert_eq!(totals(&store, e3), (0, 0));
}

#[test]
fn amounts_are_summed_exactly() {
    assert_eq!(total_amount(&vec![]), 0);
    assert_eq!(total_amount(&vec![1, 2, 3]), 6);
    assert_eq!(total_amount(&vec![5, -7, 1]), -1);
    assert_eq!(total_amount(&vec![i64::MAX, i64::MAX]), 2 * (i64::MAX as i128));
    assert_eq!(total_amount(&vec![i64::MIN, i64::MIN, -1]), 2 * (i64::MIN as i128) - 1);
    assert_eq!(capacity_check(&vec![], 0), Ok(()));
    assert_eq!(capacity_check(&vec![], -1), Err(ErrorKind::CapacityExceeded));
    assert_eq!(capacity_check(&vec![4, 6], 10), Ok(()));
    assert_eq!(capacity_check(&vec![4, 7], 10), Err(ErrorKind::CapacityExceeded));
    assert_eq!(capacity_check(&vec![i64::MAX, 1], i64::MAX), Err(ErrorKind::CapacityExceeded));
    assert_eq!(capacity_check(&vec![i64::MAX, 1, -1], i64::MAX), Ok(()));
}

#[test]
fn a_total_beyond_64_bits_is_still_held_against_the_cap() {
    let mut store = Store::new();
    let owner = user(&mut store, "owner");
    let u1 = user(&mut store, "u1");
    let u2 = user(&mut store, "u2");
    let e = create_event(&mut store, owner, attrs(i64::MAX)).unwrap().id;
    assert_eq!(join(&mut store, e, u1, i64::MAX), Ok(()));
    assert_eq!(join(&mut store, e, u2, i64::MAX), Err(ErrorKind::CapacityExceeded));
    assert_eq!(totals(&store, e), (i64::MAX as i128, 1));
    assert_eq!(join(&mut store, e, u1, i64::MIN), Ok(()));
    assert_eq!(join(&mut store, e, u2, i64::MIN), Ok(()));
    assert_eq!(totals(&store, e), (2 * (i64::MIN as i128), 2));
}

#[test]
fn the_store_records_rows_as_one_unit() {
    let mut store = Store::new();
    let owner = user(&mut store, "owner");
    let u = user(&mut store, "u");
    let e = create_event(&mut store, owner, attrs(10)).unwrap().id;
    let row = |amount: i64| NewEventMember { event_id: e, user_id: u, amount };
    assert_eq!(create_event_member(&mut store, row(11)), Err(ErrorKind::CapacityExceeded));
    assert_eq!(get_event_members(&store, e), Vec::<UserId>::new());
    assert_eq!(create_event_member(&mut store, row(10)), Ok(()));
    assert_eq!(create_event_member(&mut store, row(11)), Err(ErrorKind::CapacityExceeded));
    assert_eq!(totals(&store, e), (10, 1));
    assert_eq!(
        create_event_member(&mut store, NewEventMember { event_id: 99, user_id: u, amount: 1 }),
        Err(ErrorKind::Fault)
    );
    assert_eq!(
        create_event_member(&mut store, NewEventMember { event_id: e, user_id: 99, amount: 1 }),
        Err(ErrorKind::Fault)
    );
    assert!(delete_event_member(&mut store, e, u));
    assert!(!delete_event_member(&mut store, e, u));
    assert!(!delete_event_member(&mut store, 99, u));
    assert_eq!(totals(&store, e), (0, 0));
}
