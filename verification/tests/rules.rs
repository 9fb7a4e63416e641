use event_ledger::model::{ErrorKind, Event, NewEvent, Timestamp, UpdateEvent};
use event_ledger::policy::{
    amend, amount_check, apply_update, has_changes, restrict_patch, time_check,
    validate_new_event,
};

fn at(secs: i64) -> Timestamp {
    Timestamp { secs, nanos: 0 }
}

fn stored() -> Event {
    Event {
        id: 7,
        user_id: 1,
        name: "outing".to_string(),
        description: "a day out".to_string(),
        category: "leisure".to_string(),
        start_time: at(100),
        end_time: at(200),
        min_amount: 1,
        max_amount: 10,
        established: false,
    }
}

fn no_change() -> UpdateEvent {
    UpdateEvent {
        name: None,
        description: None,
        category: None,
        start_time: None,
        end_time: None,
        min_amount: None,
        max_amount: None,
        established: None,
    }
}

#[test]
fn instants_are_ordered_by_seconds_then_nanoseconds() {
    let t = |secs: i64, nanos: u32| Timestamp { secs, nanos };
    assert!(t(1, 0).before(&t(2, 0)));
    assert!(!t(2, 0).before(&t(1, 0)));
    assert!(!t(1, 5).before(&t(1, 5)));
    assert!(t(1, 4).before(&t(1, 5)));
    assert!(!t(1, 5).before(&t(1, 4)));
    assert!(t(1, 999_999_999).before(&t(2, 0)));
    assert!(t(-1, 0).before(&t(0, 0)));
    assert!(t(i64::MIN, 0).before(&t(i64::MAX, 0)));
    assert!(t(5, 1_999_999_999).before(&t(6, 0)));
}

#[test]
fn checks_accept_equal_bounds() {
    assert!(time_check(at(1), at(2)));
    assert!(time_check(at(2), at(2)));
    assert!(!time_check(at(3), at(2)));
    assert!(!time_check(Timestamp { secs: 2, nanos: 1 }, at(2)));
    assert!(amount_check(1, 2));
    assert!(amount_check(2, 2));
    assert!(!amount_check(3, 2));
    assert!(amount_check(i64::MIN, i64::MAX));
    assert!(!amount_check(i64::MAX, i64::MIN));
    assert!(amount_check(-5, -5));
}

#[test]
fn new_events_are_validated() {
    let data = |start: i64, end: i64, min_amount: i64, max_amount: i64| NewEvent {
        name: "n".to_string(),
        description: "d".to_string(),
        category: "c".to_string(),
        start_time: at(start),
        end_time: at(end),
        min_amount,
        max_amount,
        user_id: 1,
    };
    assert_eq!(validate_new_event(&data(1, 2, 3, 4)), Ok(()));
    assert_eq!(validate_new_event(&data(2, 2, 4, 4)), Ok(()));
    assert_eq!(validate_new_event(&data(3, 2, 3, 4)), Err(ErrorKind::InvalidSchedule));
    assert_eq!(validate_new_event(&data(1, 2, 5, 4)), Err(ErrorKind::InvalidRange));
    assert_eq!(validate_new_event(&data(3, 2, 5, 4)), Err(ErrorKind::InvalidSchedule));
}

#[test]
fn a_patch_is_cut_down_after_the_end() {
    let full = UpdateEvent {
        name: Some("x".to_string()),
        description: Some("y".to_string()),
        category: Some("z".to_string()),
        start_time: Some(at(1)),
        end_time: Some(at(2)),
        min_amount: Some(3),
        max_amount: Some(4),
        established: Some(true),
    };
    assert_eq!(restrict_patch(at(200), full.clone(), at(199)), full);
    assert_eq!(restrict_patch(at(200), full.clone(), at(200)), full);
    assert_eq!(
        restrict_patch(at(200), full.clone(), at(201)),
        UpdateEvent { established: Some(true), ..no_change() }
    );
    let unnamed = UpdateEvent { established: None, ..full };
    assert_eq!(restrict_patch(at(200), unnamed, at(201)), no_change());
    assert!(!has_changes(&no_change()));
    assert!(has_changes(&UpdateEvent { established: Some(true), ..no_change() }));
    assert!(has_changes(&UpdateEvent { name: Some(String::new()), ..no_change() }));
    assert!(has_changes(&UpdateEvent { description: Some(String::new()), ..no_change() }));
    assert!(has_changes(&UpdateEvent { category: Some(String::new()), ..no_change() }));
    assert!(has_changes(&UpdateEvent { start_time: Some(at(0)), ..no_change() }));
    assert!(has_changes(&UpdateEvent { end_time: Some(at(0)), ..no_change() }));
    assert!(has_changes(&UpdateEvent { min_amount: Some(0), ..no_change() }));
    assert!(has_changes(&UpdateEvent { max_amount: Some(0), ..no_change() }));
}

#[test]
fn an_update_replaces_what_it_names() {
    assert_eq!(apply_update(stored(), no_change()), stored());
    let changed = apply_update(
        stored(),
        UpdateEvent {
            name: Some("x".to_string()),
            end_time: Some(at(300)),
            max_amount: Some(20),
            established: Some(true),
            ..no_change()
        },
    );
    assert_eq!(
        changed,
        Event {
            name: "x".to_string(),
            end_time: at(300),
            max_amount: 20,
            established: true,
            ..stored()
        }
    );
    let rest = apply_update(
        stored(),
        UpdateEvent {
            description: Some("y".to_string()),
            category: Some("z".to_string()),
            start_time: Some(at(50)),
            min_amount: Some(-3),
            ..no_change()
        },
    );
    assert_eq!(
        rest,
        Event {
            description: "y".to_string(),
            category: "z".to_string(),
            start_time: at(50),
            min_amount: -3,
            ..stored()
        }
    );
}

#[test]
fn amendments_follow_the_policy() {
    let event = stored();
    let clear = UpdateEvent { established: Some(false), ..no_change() };
    assert_eq!(amend(&event, clear.clone(), at(150)), Err(ErrorKind::InvalidTransition));
    assert_eq!(amend(&event, clear, at(250)), Err(ErrorKind::InvalidTransition));
    let mut established = stored();
    established.established = true;
    let clear = UpdateEvent { established: Some(false), ..no_change() };
    assert_eq!(amend(&established, clear, at(150)), Err(ErrorKind::InvalidTransition));
    let set = UpdateEvent { established: Some(true), ..no_change() };
    assert_eq!(amend(&established, set.clone(), at(150)), Ok(set.clone()));
    assert_eq!(amend(&event, set.clone(), at(250)), Ok(set));
    let start_late = UpdateEvent { start_time: Some(at(201)), ..no_change() };
    assert_eq!(amend(&event, start_late.clone(), at(150)), Err(ErrorKind::InvalidSchedule));
    assert_eq!(amend(&event, start_late, at(250)), Ok(no_change()));
    let min_high = UpdateEvent { min_amount: Some(11), ..no_change() };
    assert_eq!(amend(&event, min_high, at(150)), Err(ErrorKind::InvalidRange));
    let fits =
        UpdateEvent { start_time: Some(at(201)), end_time: Some(at(202)), ..no_change() };
    assert_eq!(amend(&event, fits.clone(), at(150)), Ok(fits));
    assert_eq!(amend(&event, no_change(), at(150)), Ok(no_change()));
}
