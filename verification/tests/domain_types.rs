use phasm::types::{AptType, Day, Time, TimeRange};

#[test]
fn test_day_names_and_order() {
    assert_eq!(Day::Monday.name(), "Mon");
    assert_eq!(Day::Tuesday.name(), "Tue");
    assert_eq!(Day::Wednesday.name(), "Wed");
    assert_eq!(Day::Thursday.name(), "Thu");
    assert_eq!(Day::Friday.name(), "Fri");
    assert_eq!(Day::Saturday.name(), "Sat");
    assert_eq!(Day::Sunday.name(), "Sun");

    let all = Day::all();
    assert_eq!(all.len(), 7);
    assert_eq!(all[0], Day::Monday);
    assert_eq!(all[6], Day::Sunday);
}

#[test]
fn test_time_conversions() {
    let t = Time::new(9, 30);
    assert_eq!(t.to_mins(), 9 * 60 + 30);
    assert_eq!(Time::from_mins(570), Time(9, 30));
    assert_eq!(Time::from_mins(0), Time(0, 0));
    assert_eq!(Time::from_mins(1439), Time(23, 59));
    assert_eq!(t.add(45), Time(10, 15));
    assert_eq!(Time::new(23, 0).add(59), Time(23, 59));
}

#[test]
fn test_time_range_contains_and_fit() {
    let r = TimeRange::new(Time::new(9, 0), Time::new(12, 0));
    assert!(r.contains(Time::new(9, 0)));
    assert!(r.contains(Time::new(11, 59)));
    assert!(!r.contains(Time::new(12, 0)));
    assert!(!r.contains(Time::new(8, 59)));

    assert!(r.can_fit(Time::new(11, 0), 60));
    assert!(!r.can_fit(Time::new(11, 1), 60));
    assert!(!r.can_fit(Time::new(12, 0), 0));
    assert!(r.can_fit(Time::new(9, 0), 180));
}

#[test]
fn test_apt_type_tables() {
    assert_eq!(AptType::Cleaning.dur(), 15);
    assert_eq!(AptType::Checkup.dur(), 30);
    assert_eq!(AptType::Filling.dur(), 45);
    assert_eq!(AptType::RootCanal.dur(), 60);

    assert_eq!(AptType::Cleaning.price_cents(), 5000);
    assert_eq!(AptType::Checkup.price_cents(), 7500);
    assert_eq!(AptType::Filling.price_cents(), 15000);
    assert_eq!(AptType::RootCanal.price_cents(), 20000);

    assert_eq!(AptType::Cleaning.name(), "Cleaning");
    assert_eq!(AptType::Checkup.name(), "Checkup");
    assert_eq!(AptType::Filling.name(), "Filling");
    assert_eq!(AptType::RootCanal.name(), "Root Canal");

    let all = AptType::all();
    assert_eq!(all.len(), 4);
    assert_eq!(all[0], AptType::Cleaning);
    assert_eq!(all[3], AptType::RootCanal);
}

#[test]
fn test_empty_calendar_rejects_everything() {
    let system = phasm::booking::BookingSystem::new();
    assert!(!system.is_available(
        phasm::types::Slot { day: Day::Monday, time: Time::new(9, 0) },
        30
    ));
    assert!(system
        .find_slot(&[Day::Monday, Day::Sunday], &[TimeRange::new(Time::new(0, 0), Time::new(23, 59))], 15)
        .is_none());
    assert!(system.check_invariants().is_ok());
}
