use chrono::{NaiveDate, NaiveDateTime, NaiveTime};
use event_ledger::api::TokenClaims;
use event_ledger::db::{
    create_event, delete_event, get_categories, get_event_by_id, get_events,
    get_events_by_user_id, get_or_create_user, get_user_by_id, update_user, Store,
};
use event_ledger::model::{
    NewEvent, NewEventMember, Projection, Timestamp, UpdateEvent, UpdateUser, UserId,
};
use event_ledger::service::sign_in;
use uuid::Uuid;

fn instant(moment: NaiveDateTime) -> Timestamp {
    let utc = moment.and_utc();
    Timestamp { secs: utc.timestamp(), nanos: utc.timestamp_subsec_nanos() }
}

fn at(secs: i64) -> Timestamp {
    Timestamp { secs, nanos: 0 }
}

fn event(owner: UserId, name: &str, category: &str, start: i64, end: i64) -> NewEvent {
    NewEvent {
        name: name.to_string(),
        description: name.to_string(),
        category: category.to_string(),
        start_time: at(start),
        end_time: at(end),
        min_amount: 1,
        max_amount: 10,
        user_id: owner,
    }
}

#[test]
fn test_get_or_create_user() {
    let mut conn = Store::new();
    let user = get_or_create_user(
        &mut conn,
        "test_get_or_create_user".to_string(),
        "test_user".to_string(),
        "a".to_string(),
        "a".to_string(),
    );
    assert_eq!(user.name, "test_user");
}

#[test]
fn test_get_user_by_id() {
    let mut conn = Store::new();
    let user = get_or_create_user(
        &mut conn,
        "test_get_user_by_id".to_string(),
        "test_user".to_string(),
        "a".to_string(),
        "a".to_string(),
    );

    let user2 = get_user_by_id(&conn, user.id);
    assert_eq!(user2.name, "test_user");
    assert_eq!(user2.id, user.id);
}

#[test]
fn test_update_user() {
    let mut conn = Store::new();
    let user = get_or_create_user(
        &mut conn,
        "test_update_user".to_string(),
        "test_user".to_string(),
        "a".to_string(),
        "a".to_string(),
    );
    let user_data: UpdateUser =
        UpdateUser { name: Some("test_user2".to_string()), email: None, phone: None, avatar: None };

    update_user(&mut conn, user.id, user_data);

    let user2 = get_user_by_id(&conn, user.id);
    assert_eq!(user2.name, "test_user2");
    assert_eq!(user2.id, user.id);
}

#[test]
fn test_create_event() {
    let mut conn = Store::new();
    let user = get_or_create_user(
        &mut conn,
        "test_create_event".to_string(),
        "test_user".to_string(),
        "a".to_string(),
        "a".to_string(),
    );
    let d = NaiveDate::from_ymd_opt(2015, 6, 3).unwrap();
    let t = NaiveTime::from_hms_milli_opt(12, 34, 56, 789).unwrap();
    let event_data = NewEvent {
        name: "test_event".to_string(),
        description: "test_event".to_string(),
        category: "test_event".to_string(),
        start_time: instant(NaiveDateTime::new(d, t)),
        end_time: instant(NaiveDateTime::new(d, t)),
        user_id: user.id,
        max_amount: 10,
        min_amount: 1,
    };

    let data = create_event(&mut conn, event_data);
    delete_event(&mut conn, data.id);

    assert_eq!(data.name, "test_event");
    assert_eq!(data.description, "test_event");
}

#[test]
fn test_get_events() {
    let mut conn = Store::new();
    let user = get_or_create_user(
        &mut conn,
        "test_get_events".to_string(),
        "test_user".to_string(),
        "a".to_string(),
        "a".to_string(),
    );
    let d = NaiveDate::from_ymd_opt(2015, 6, 3).unwrap();
    let t = NaiveTime::from_hms_milli_opt(12, 34, 56, 789).unwrap();
    let event_data = NewEvent {
        name: "test_event".to_string(),
        description: "test_event".to_string(),
        category: "test_event".to_string(),
        start_time: instant(NaiveDateTime::new(d, t)),
        end_time: instant(NaiveDateTime::new(d, t)),
        user_id: user.id,
        max_amount: 10,
        min_amount: 1,
    };

    let data = create_event(&mut conn, event_data);
    let events = get_events(&conn);
    delete_event(&mut conn, data.id);

    assert!(events.len() > 0);
}

#[test]
fn test_get_event_by_id() {
    let mut conn = Store::new();
    let user = get_or_create_user(
        &mut conn,
        "test_create_event".to_string(),
        "test_user".to_string(),
        "a".to_string(),
        "a".to_string(),
    );
    let d = NaiveDate::from_ymd_opt(2015, 6, 3).unwrap();
    let t = NaiveTime::from_hms_milli_opt(12, 34, 56, 789).unwrap();
    let event_data = NewEvent {
        name: "test_event".to_string(),
        description: "test_event".to_string(),
        category: "test_event".to_string(),
        start_time: instant(NaiveDateTime::new(d, t)),
        end_time: instant(NaiveDateTime::new(d, t)),
        user_id: user.id,
        max_amount: 10,
        min_amount: 1,
    };

    let data = create_event(&mut conn, event_data);
    let event = get_event_by_id(&conn, data.id, Uuid::nil().as_u128());
    assert!(event.is_some());
    let event = event.unwrap();
    delete_event(&mut conn, data.id);

    assert_eq!(event.name, data.name);
    assert_eq!(event.description, data.description);
}

#[test]
fn test_delete_event() {
    let mut conn = Store::new();
    let user = get_or_create_user(
        &mut conn,
        "test_delete_event".to_string(),
        "test_user".to_string(),
        "a".to_string(),
        "a".to_string(),
    );
    let d = NaiveDate::from_ymd_opt(2015, 6, 3).unwrap();
    let t = NaiveTime::from_hms_milli_opt(12, 34, 56, 789).unwrap();
    let event_data = NewEvent {
        name: "test_event".to_string(),
        description: "test_event".to_string(),
        category: "test_event".to_string(),
        start_time: instant(NaiveDateTime::new(d, t)),
        end_time: instant(NaiveDateTime::new(d, t)),
        user_id: user.id,
        max_amount: 10,
        min_amount: 1,
    };

    let data = create_event(&mut conn, event_data);
    delete_event(&mut conn, data.id);

    let event = get_event_by_id(&conn, data.id, Uuid::nil().as_u128());
    assert!(event.is_none());
}

#[test]
fn a_subject_names_one_user() {
    let mut store = Store::new();
    let first = get_or_create_user(
        &mut store,
        "subject".to_string(),
        "first name".to_string(),
        "first@example.org".to_string(),
        "first.png".to_string(),
    );
    assert_eq!(first.phone, "");
    assert_eq!(first.email, "first@example.org");
    assert_eq!(first.avatar, "first.png");
    let again = get_or_create_user(
        &mut store,
        "subject".to_string(),
        "second name".to_string(),
        "second@example.org".to_string(),
        "second.png".to_string(),
    );
    assert_eq!(again, first);
    let other = get_or_create_user(
        &mut store,
        "other subject".to_string(),
        "first name".to_string(),
        "first@example.org".to_string(),
        "first.png".to_string(),
    );
    assert!(other.id != first.id);
    assert!(first.id != 0 && other.id != 0);
    assert!(store.has_user(first.id));
    assert!(store.has_user(other.id));
    assert!(!store.has_user(0));
    assert!(store.has_room());
}

#[test]
fn update_user_replaces_named_fields_only() {
    let mut store = Store::new();
    let a = get_or_create_user(
        &mut store,
        "a".to_string(),
        "name a".to_string(),
        "a@example.org".to_string(),
        "a.png".to_string(),
    );
    let b = get_or_create_user(
        &mut store,
        "b".to_string(),
        "name b".to_string(),
        "b@example.org".to_string(),
        "b.png".to_string(),
    );
    let changed = update_user(
        &mut store,
        b.id,
        UpdateUser {
            avatar: None,
            name: None,
            email: Some("new@example.org".to_string()),
            phone: Some("555".to_string()),
        },
    );
    assert_eq!(changed.id, b.id);
    assert_eq!(changed.name, "name b");
    assert_eq!(changed.email, "new@example.org");
    assert_eq!(changed.phone, "555");
    assert_eq!(changed.avatar, "b.png");
    assert_eq!(get_user_by_id(&store, a.id), a);
    assert_eq!(get_user_by_id(&store, b.id), changed);
    let same = get_or_create_user(
        &mut store,
        "b".to_string(),
        "x".to_string(),
        "x".to_string(),
        "x".to_string(),
    );
    assert_eq!(same, changed);
    let unchanged = update_user(
        &mut store,
        a.id,
        UpdateUser { avatar: None, name: None, email: None, phone: None },
    );
    assert_eq!(unchanged, a);
}

#[test]
fn events_are_listed_by_start_then_end_then_age() {
    let mut store = Store::new();
    let owner = get_or_create_user(
        &mut store,
        "o".to_string(),
        "o".to_string(),
        "o".to_string(),
        "o".to_string(),
    )
    .id;
    let member = get_or_create_user(
        &mut store,
        "m".to_string(),
        "m".to_string(),
        "m".to_string(),
        "m".to_string(),
    )
    .id;
    let e1 = create_event(&mut store, event(owner, "late", "c", 50, 60)).id;
    let e2 = create_event(&mut store, event(owner, "early long", "c", 10, 90)).id;
    let e3 = create_event(&mut store, event(owner, "early short", "c", 10, 20)).id;
    let e4 = create_event(&mut store, event(owner, "late twin", "c", 50, 60)).id;
    let e5 = create_event(&mut store, event(owner, "first", "c", 1, 2)).id;
    event_ledger::db::create_event_member(
        &mut store,
        NewEventMember { event_id: e3, user_id: member, amount: 2 },
    )
    .unwrap();
    let listed = get_events(&store);
    let ids: Vec<u128> = listed.iter().map(|e| e.id).collect();
    assert_eq!(ids, vec![e5, e3, e2, e1, e4]);
    for shown in &listed {
        assert!(shown.projection.roster().is_none());
    }
    assert_eq!(listed[1].projection, Projection::Public { total_committed: 2, member_count: 1 });
    assert_eq!(listed[0].projection, Projection::Public { total_committed: 0, member_count: 0 });
    assert_eq!(get_events(&Store::new()).len(), 0);
}

#[test]
fn nanoseconds_break_ties_between_schedules() {
    let mut store = Store::new();
    let owner = get_or_create_user(
        &mut store,
        "o".to_string(),
        "o".to_string(),
        "o".to_string(),
        "o".to_string(),
    )
    .id;
    let mut a = event(owner, "a", "c", 10, 20);
    a.start_time = Timestamp { secs: 10, nanos: 5 };
    let mut b = event(owner, "b", "c", 10, 20);
    b.start_time = Timestamp { secs: 10, nanos: 4 };
    let mut c = event(owner, "c", "c", 10, 20);
    c.start_time = Timestamp { secs: 10, nanos: 4 };
    c.end_time = Timestamp { secs: 19, nanos: 999_999_999 };
    let ea = create_event(&mut store, a).id;
    let eb = create_event(&mut store, b).id;
    let ec = create_event(&mut store, c).id;
    let ids: Vec<u128> = get_events(&store).iter().map(|e| e.id).collect();
    assert_eq!(ids, vec![ec, eb, ea]);
}

#[test]
fn a_users_events_are_those_owned_then_those_joined() {
    let mut store = Store::new();
    let mut ids: Vec<UserId> = Vec::new();
    for tag in ["a", "b"] {
        ids.push(
            get_or_create_user(
                &mut store,
                tag.to_string(),
                tag.to_string(),
                tag.to_string(),
                tag.to_string(),
            )
            .id,
        );
    }
    let (a, b) = (ids[0], ids[1]);
    let a_late = create_event(&mut store, event(a, "a late", "c", 50, 60)).id;
    let b_one = create_event(&mut store, event(b, "b one", "c", 5, 6)).id;
    let a_early = create_event(&mut store, event(a, "a early", "c", 10, 20)).id;
    let b_two = create_event(&mut store, event(b, "b two", "c", 1, 2)).id;
    for (event_id, user_id, amount) in [(b_one, a, 3), (a_late, b, 4), (b_two, a, 5)] {
        event_ledger::db::create_event_member(
            &mut store,
            NewEventMember { event_id, user_id, amount },
        )
        .unwrap();
    }
    let for_a = get_events_by_user_id(&store, a);
    let listed: Vec<u128> = for_a.iter().map(|e| e.id).collect();
    assert_eq!(listed, vec![a_early, a_late, b_one, b_two]);
    assert_eq!(for_a[0].projection.roster().map(|r| r.len()), Some(0));
    let roster = for_a[1].projection.roster().expect("a owns this event");
    assert_eq!(roster.len(), 1);
    assert_eq!(roster[0].name, "b");
    assert_eq!(roster[0].amount, 4);
    assert_eq!(for_a[2].projection, Projection::Public { total_committed: 3, member_count: 1 });
    assert_eq!(for_a[3].projection, Projection::Public { total_committed: 5, member_count: 1 });
    let for_b = get_events_by_user_id(&store, b);
    let listed: Vec<u128> = for_b.iter().map(|e| e.id).collect();
    assert_eq!(listed, vec![b_two, b_one, a_late]);
    assert_eq!(get_events_by_user_id(&store, 12345).len(), 0);
}

#[test]
fn categories_are_listed_once() {
    let mut store = Store::new();
    assert_eq!(get_categories(&store), Vec::<String>::new());
    let owner = get_or_create_user(
        &mut store,
        "o".to_string(),
        "o".to_string(),
        "o".to_string(),
        "o".to_string(),
    )
    .id;
    for (name, category) in
        [("1", "sport"), ("2", "food"), ("3", "sport"), ("4", ""), ("5", "food"), ("6", "Sport")]
    {
        create_event(&mut store, event(owner, name, category, 1, 2));
    }
    assert_eq!(get_categories(&store), vec!["sport", "food", "", "Sport"]);
}

#[test]
fn update_event_replaces_named_fields_only() {
    let mut store = Store::new();
    let owner = get_or_create_user(
        &mut store,
        "o".to_string(),
        "o".to_string(),
        "o".to_string(),
        "o".to_string(),
    )
    .id;
    let first = create_event(&mut store, event(owner, "first", "c", 1, 2)).id;
    let second = create_event(&mut store, event(owner, "second", "c", 3, 4)).id;
    let shown = event_ledger::db::update_event(
        &mut store,
        second,
        UpdateEvent {
            name: Some("renamed".to_string()),
            description: None,
            category: Some("d".to_string()),
            start_time: None,
            end_time: Some(at(40)),
            min_amount: None,
            max_amount: Some(99),
            established: Some(true),
        },
    );
    assert_eq!(shown.id, second);
    assert_eq!(shown.name, "renamed");
    assert_eq!(shown.description, "second");
    assert_eq!(shown.category, "d");
    assert_eq!(shown.start_time, at(3));
    assert_eq!(shown.end_time, at(40));
    assert_eq!(shown.min_amount, 1);
    assert_eq!(shown.max_amount, 99);
    assert!(shown.established);
    assert_eq!(shown.projection.roster().map(|r| r.len()), Some(0));
    let untouched = get_event_by_id(&store, first, owner).unwrap();
    assert_eq!(untouched.name, "first");
    assert!(!untouched.established);
    assert_eq!(get_event_by_id(&store, second, owner).unwrap(), shown);
    assert!(store.event(second).is_some());
    assert!(store.event(second + 1).is_none());
}

#[test]
fn signing_in_finds_or_creates_the_user_of_the_token() {
    let claims = |name: &str| TokenClaims {
        sub: "subject".to_string(),
        email: format!("{}@example.org", name),
        name: name.to_string(),
        picture: format!("{}.png", name),
    };
    let mut store = Store::new();
    assert!(!store.has_guid(&"subject".to_string()));
    let first = sign_in(&mut store, claims("first")).unwrap();
    assert_eq!(first.name, "first");
    assert_eq!(first.email, "first@example.org");
    assert_eq!(first.avatar, "first.png");
    assert_eq!(first.phone, "");
    assert!(store.has_guid(&"subject".to_string()));
    assert!(!store.has_guid(&"first".to_string()));
    let again = sign_in(&mut store, claims("second")).unwrap();
    assert_eq!(again, first);
    assert_eq!(get_user_by_id(&store, first.id), first);
}
