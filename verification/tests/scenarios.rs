use phasm::actions::{Action, ActionsContainer, TrackedAction};
use phasm::booking::{
    BookingAction, BookingError, BookingInput, BookingSystem, PaymentReq, PaymentResult,
    UntrackedAction,
};
use phasm::types::{AptType, Day, ReqStatus, Slot, Time, TimeRange};
use phasm::{Input, StateMachine};

fn request_exact(
    system: &mut BookingSystem,
    actions: &mut Vec<BookingAction>,
    user_id: u64,
    day: Day,
    time: Time,
    apt_type: AptType,
) -> Result<(), BookingError> {
    BookingSystem::stf(
        system,
        Input::Normal(BookingInput::RequestSlot {
            user_id,
            name: format!("User{}", user_id),
            email: format!("user{}@example.com", user_id),
            day,
            time,
            apt_type,
        }),
        actions,
    )
}

#[test]
fn test_exact_slot_scenario() {
    // Empty calendar except Monday 09:00-12:00; request the exact slot
    // Monday 09:00 for a 30-minute checkup.
    let mut system = BookingSystem::new();
    system.add_schedule(Day::Monday, TimeRange::new(Time::new(9, 0), Time::new(12, 0)));
    let mut actions = Vec::new();

    request_exact(&mut system, &mut actions, 7, Day::Monday, Time::new(9, 0), AptType::Checkup)
        .expect("request should be accepted");

    assert_eq!(system.pending.len(), 1);
    let (req_id, pending) = &system.pending[0];
    assert_eq!(pending.status, ReqStatus::AwaitingPreauth);
    assert_eq!(actions.len(), 1, "one tracked action should be emitted");
    match &actions[0] {
        Action::TrackedAction(ta) => {
            assert_eq!(ta.action_id, *req_id);
            assert_eq!(
                ta.action,
                PaymentReq::Preauth {
                    user_id: 7,
                    amount_cents: AptType::Checkup.price_cents(),
                    req_id: *req_id,
                },
                "the preauth must carry the service price"
            );
        }
        Action::Untracked(_) => panic!("expected a tracked action"),
    }

    let req_id = *req_id;
    actions.clear();
    BookingSystem::stf(
        &mut system,
        Input::TrackedActionCompleted {
            id: req_id,
            res: PaymentResult::Success { amount_cents: AptType::Checkup.price_cents() },
        },
        &mut actions,
    )
    .expect("confirmation should succeed");

    assert_eq!(system.pending[0].1.status, ReqStatus::SlotConfirmed);
    assert_eq!(system.bookings.len(), 1);
    assert_eq!(system.bookings[0].0, Slot { day: Day::Monday, time: Time::new(9, 0) });
    assert_eq!(system.bookings[0].1.amount_paid_cents, AptType::Checkup.price_cents());
    assert!(system.check_invariants().is_ok());
}

#[test]
fn test_lost_race_scenario() {
    // Two requests for the same exact slot both reach AwaitingPreauth; the
    // first confirmation wins, the second loses the race: it ends in
    // SlotTaken, a compensating release is emitted, the call returns Ok,
    // and the bookings count stays 1.
    let mut system = BookingSystem::with_default_schedule();
    let mut actions = Vec::new();

    request_exact(&mut system, &mut actions, 1, Day::Monday, Time::new(9, 0), AptType::Checkup)
        .expect("first request should be accepted");
    let first = system.next_id - 1;
    actions.clear();

    request_exact(&mut system, &mut actions, 2, Day::Monday, Time::new(9, 0), AptType::Checkup)
        .expect("second request should be accepted while the slot is unconfirmed");
    let second = system.next_id - 1;
    assert_eq!(system.pending.len(), 2);
    assert_eq!(system.pending[0].1.status, ReqStatus::AwaitingPreauth);
    assert_eq!(system.pending[1].1.status, ReqStatus::AwaitingPreauth);
    actions.clear();

    BookingSystem::stf(
        &mut system,
        Input::TrackedActionCompleted {
            id: first,
            res: PaymentResult::Success { amount_cents: 7500 },
        },
        &mut actions,
    )
    .expect("first confirmation should succeed");
    assert_eq!(system.bookings.len(), 1);
    actions.clear();

    let result = BookingSystem::stf(
        &mut system,
        Input::TrackedActionCompleted {
            id: second,
            res: PaymentResult::Success { amount_cents: 7500 },
        },
        &mut actions,
    );
    assert!(result.is_ok(), "losing the race is a legitimate outcome, not an error");
    assert_eq!(system.pending[1].1.status, ReqStatus::SlotTaken);
    assert_eq!(system.bookings.len(), 1, "bookings count stays 1");
    assert_eq!(actions.len(), 1, "one compensating action is emitted");
    match &actions[0] {
        Action::TrackedAction(ta) => {
            assert_eq!(ta.action_id, second);
            assert_eq!(ta.action, PaymentReq::Release { req_id: second });
        }
        Action::Untracked(_) => panic!("expected a tracked release"),
    }
    assert!(system.check_invariants().is_ok());
}

#[test]
fn test_auto_search_intersection_scenario() {
    // Preferred days [Tuesday, Thursday], preferred window 10:00-13:00, a
    // 60-minute service, and a calendar with only Tuesday 09:00-12:00:
    // first fit within the intersection is Tuesday 10:00.
    let mut system = BookingSystem::new();
    system.add_schedule(Day::Tuesday, TimeRange::new(Time::new(9, 0), Time::new(12, 0)));
    let mut actions = Vec::new();

    BookingSystem::stf(
        &mut system,
        Input::Normal(BookingInput::RequestAuto {
            user_id: 5,
            name: "Eve".into(),
            email: "eve@example.com".into(),
            days: vec![Day::Tuesday, Day::Thursday],
            times: vec![TimeRange::new(Time::new(10, 0), Time::new(13, 0))],
            apt_type: AptType::RootCanal,
        }),
        &mut actions,
    )
    .expect("auto-search should find a slot");

    assert_eq!(system.pending.len(), 1);
    assert_eq!(
        system.pending[0].1.slot,
        Some(Slot { day: Day::Tuesday, time: Time::new(10, 0) }),
        "first fit within the intersection of schedule and preference"
    );
}

#[test]
fn test_restore_regenerates_awaiting() {
    // Restore emits exactly one status query per request still awaiting
    // its authorization, referencing the request's identity.
    let mut system = BookingSystem::with_default_schedule();
    let mut actions = Vec::new();

    request_exact(&mut system, &mut actions, 1, Day::Monday, Time::new(9, 0), AptType::Checkup)
        .expect("first request should be accepted");
    let first = system.next_id - 1;
    actions.clear();
    request_exact(&mut system, &mut actions, 2, Day::Monday, Time::new(10, 0), AptType::Checkup)
        .expect("second request should be accepted");
    let second = system.next_id - 1;
    actions.clear();

    // Resolve the first request; the second stays outstanding.
    BookingSystem::stf(
        &mut system,
        Input::TrackedActionCompleted {
            id: first,
            res: PaymentResult::Success { amount_cents: 7500 },
        },
        &mut actions,
    )
    .expect("confirmation should succeed");

    let mut restored = vec![Action::Untracked(UntrackedAction::Log {
        event: "stale".into(),
    })];
    BookingSystem::restore(&system, &mut restored).expect("restore should succeed");

    assert_eq!(restored.len(), 1, "exactly one outstanding request");
    match &restored[0] {
        Action::TrackedAction(ta) => {
            assert_eq!(ta.action_id, second);
            assert_eq!(ta.action, PaymentReq::CheckStatus { req_id: second });
        }
        Action::Untracked(_) => panic!("expected a tracked status query"),
    }
}

#[test]
fn test_restore_idempotent() {
    let mut system = BookingSystem::with_default_schedule();
    let mut actions = Vec::new();
    request_exact(&mut system, &mut actions, 1, Day::Monday, Time::new(9, 0), AptType::Checkup)
        .expect("request should be accepted");
    request_exact(&mut system, &mut actions, 2, Day::Tuesday, Time::new(9, 0), AptType::Cleaning)
        .expect("request should be accepted");

    let mut first_run = Vec::new();
    let mut second_run = Vec::new();
    BookingSystem::restore(&system, &mut first_run).expect("restore should succeed");
    BookingSystem::restore(&system, &mut second_run).expect("restore should succeed");
    assert_eq!(first_run, second_run, "two restorations yield identical action sets");
    assert_eq!(first_run.len(), 2);
}

#[test]
fn test_error_slot_not_available() {
    let mut system = BookingSystem::with_default_schedule();
    let mut actions = Vec::new();
    // Saturday has no configured windows.
    let result =
        request_exact(&mut system, &mut actions, 1, Day::Saturday, Time::new(9, 0), AptType::Checkup);
    assert_eq!(result, Err(BookingError::SlotNotAvailable));
    assert_eq!(system.pending.len(), 0, "state unchanged on error");
    assert_eq!(system.next_id, 1, "no identity is consumed on error");
}

#[test]
fn test_error_no_slot_found() {
    let mut system = BookingSystem::with_default_schedule();
    let mut actions = Vec::new();
    let result = BookingSystem::stf(
        &mut system,
        Input::Normal(BookingInput::RequestAuto {
            user_id: 1,
            name: "Alice".into(),
            email: "alice@example.com".into(),
            days: vec![Day::Sunday],
            times: vec![TimeRange::new(Time::new(9, 0), Time::new(12, 0))],
            apt_type: AptType::Checkup,
        }),
        &mut actions,
    );
    assert_eq!(result, Err(BookingError::NoSlotFound));
    assert_eq!(system.pending.len(), 0, "state unchanged on error");
}

#[test]
fn test_error_unknown_identity() {
    let mut system = BookingSystem::with_default_schedule();
    let mut actions = Vec::new();
    let result = BookingSystem::stf(
        &mut system,
        Input::TrackedActionCompleted {
            id: 42,
            res: PaymentResult::Success { amount_cents: 7500 },
        },
        &mut actions,
    );
    assert_eq!(result, Err(BookingError::InvalidRequest));

    let result = BookingSystem::stf(
        &mut system,
        Input::TrackedActionCompleted { id: 42, res: PaymentResult::Pending },
        &mut actions,
    );
    assert_eq!(result, Err(BookingError::InvalidRequest));
}

#[test]
fn test_failed_preauth_reaches_no_slot() {
    let mut system = BookingSystem::with_default_schedule();
    let mut actions = Vec::new();
    request_exact(&mut system, &mut actions, 1, Day::Monday, Time::new(9, 0), AptType::Checkup)
        .expect("request should be accepted");
    let req_id = system.next_id - 1;
    actions.clear();

    BookingSystem::stf(
        &mut system,
        Input::TrackedActionCompleted {
            id: req_id,
            res: PaymentResult::Failed { reason: "card declined".into() },
        },
        &mut actions,
    )
    .expect("a failed authorization resolves the request without error");

    assert_eq!(system.pending[0].1.status, ReqStatus::NoSlot);
    assert_eq!(system.bookings.len(), 0, "no booking is created");
}

#[test]
fn test_still_pending_leaves_state_untouched() {
    let mut system = BookingSystem::with_default_schedule();
    let mut actions = Vec::new();
    request_exact(&mut system, &mut actions, 1, Day::Monday, Time::new(9, 0), AptType::Checkup)
        .expect("request should be accepted");
    let req_id = system.next_id - 1;
    actions.clear();

    BookingSystem::stf(
        &mut system,
        Input::TrackedActionCompleted { id: req_id, res: PaymentResult::Pending },
        &mut actions,
    )
    .expect("a still-pending report is not an error");

    assert_eq!(system.pending[0].1.status, ReqStatus::AwaitingPreauth);
    assert_eq!(actions.len(), 0, "nothing is emitted");
}

#[test]
fn test_actions_container_vec() {
    let mut container: Vec<BookingAction> =
        <Vec<BookingAction> as ActionsContainer<UntrackedAction, _>>::new().expect("new");
    let a1 = Action::Untracked(UntrackedAction::Log { event: "first".into() });
    let a2 = Action::TrackedAction(TrackedAction::new(9, PaymentReq::Release { req_id: 9 }));
    let a3 = Action::Untracked(UntrackedAction::Notify { user_id: 1, msg: "hi".into() });
    container.add(a1).expect("add");
    container.add(a2).expect("add");
    container.add(a3).expect("add");
    assert_eq!(container.len(), 3, "order and count are preserved");
    assert!(matches!(&container[0], Action::Untracked(UntrackedAction::Log { .. })));
    assert!(matches!(&container[1], Action::TrackedAction(_)));
    assert!(matches!(&container[2], Action::Untracked(UntrackedAction::Notify { .. })));
    ActionsContainer::clear(&mut container).expect("clear");
    assert!(container.is_empty());

    let sized: Vec<BookingAction> =
        <Vec<BookingAction> as ActionsContainer<UntrackedAction, _>>::with_capacity(8)
            .expect("with_capacity");
    assert!(sized.is_empty());
}

#[test]
fn test_auto_search_earliest_time_over_unsorted_windows() {
    // With Monday 09:00-17:00 configured and the preferred windows given
    // out of order, the search still returns the earliest qualifying time
    // of the day: 09:00, not 14:00.
    let mut system = BookingSystem::new();
    system.add_schedule(Day::Monday, TimeRange::new(Time::new(9, 0), Time::new(17, 0)));
    let mut actions = Vec::new();

    BookingSystem::stf(
        &mut system,
        Input::Normal(BookingInput::RequestAuto {
            user_id: 9,
            name: "Pat".into(),
            email: "pat@example.com".into(),
            days: vec![Day::Monday],
            times: vec![
                TimeRange::new(Time::new(14, 0), Time::new(16, 0)),
                TimeRange::new(Time::new(9, 0), Time::new(10, 0)),
            ],
            apt_type: AptType::Checkup,
        }),
        &mut actions,
    )
    .expect("auto-search should find a slot");

    assert_eq!(
        system.pending[0].1.slot,
        Some(Slot { day: Day::Monday, time: Time::new(9, 0) }),
        "the earliest qualifying time wins, not the first window given"
    );
}

#[test]
fn test_is_well_formed() {
    let system = BookingSystem::with_default_schedule();
    assert!(system.is_well_formed());
    assert!(BookingSystem::new().is_well_formed());

    // duplicate calendar day
    let mut corrupt = BookingSystem::new();
    corrupt.schedule.push((Day::Monday, vec![TimeRange::new(Time::new(9, 0), Time::new(12, 0))]));
    corrupt.schedule.push((Day::Monday, vec![TimeRange::new(Time::new(14, 0), Time::new(17, 0))]));
    assert!(!corrupt.is_well_formed());

    // pending identity at or above the counter
    let mut corrupt = BookingSystem::with_default_schedule();
    let mut actions = Vec::new();
    request_exact(&mut corrupt, &mut actions, 1, Day::Monday, Time::new(9, 0), AptType::Checkup)
        .expect("request should be accepted");
    assert!(corrupt.is_well_formed());
    corrupt.next_id = 1;
    assert!(!corrupt.is_well_formed());

    // malformed availability window
    let mut corrupt = BookingSystem::new();
    corrupt.schedule.push((Day::Friday, vec![TimeRange(Time(25, 0), Time(26, 0))]));
    assert!(!corrupt.is_well_formed());
}
