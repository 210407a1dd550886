//! Domain types for the resource-scheduling reference state machine:
//! days, clock times, time ranges, appointment kinds, slots, bookings and
//! pending requests.  All monetary amounts are integer cents; all time
//! arithmetic is done on whole minutes.

use vstd::prelude::*;

verus! {

/// A day of the week; the key of the resource calendar.
#[derive(Debug, Clone, Copy, PartialEq, Eq, Hash, PartialOrd, Ord, Structural)]
pub enum Day {
    Monday,
    Tuesday,
    Wednesday,
    Thursday,
    Friday,
    Saturday,
    Sunday,
}

impl Day {
    /// Short display name of the day.
    pub fn name(&self) -> (r: &str)
        ensures
            r@ == self.name_spec(),
    {
        match self {
            Day::Monday => "Mon",
            Day::Tuesday => "Tue",
            Day::Wednesday => "Wed",
            Day::Thursday => "Thu",
            Day::Friday => "Fri",
            Day::Saturday => "Sat",
            Day::Sunday => "Sun",
        }
    }

    pub open spec fn name_spec(self) -> Seq<char> {
        match self {
            Day::Monday => "Mon"@,
            Day::Tuesday => "Tue"@,
            Day::Wednesday => "Wed"@,
            Day::Thursday => "Thu"@,
            Day::Friday => "Fri"@,
            Day::Saturday => "Sat"@,
            Day::Sunday => "Sun"@,
        }
    }

    /// Every day of the week, Monday first.
    pub fn all() -> (r: Vec<Day>)
        ensures
            r@ =~= seq![
                Day::Monday,
                Day::Tuesday,
                Day::Wednesday,
                Day::Thursday,
                Day::Friday,
                Day::Saturday,
                Day::Sunday,
            ],
    {
        vec![
            Day::Monday,
            Day::Tuesday,
            Day::Wednesday,
            Day::Thursday,
            Day::Friday,
            Day::Saturday,
            Day::Sunday,
        ]
    }
}

/// A clock time: hour and minute.
#[derive(Debug, Clone, Copy, PartialEq, Eq, PartialOrd, Ord, Hash, Structural)]
pub struct Time(pub u8, pub u8);

impl Time {
    /// A well-formed time lies on a 24-hour clock.
    pub open spec fn wf(self) -> bool {
        self.0 < 24 && self.1 < 60
    }

    /// The time as minutes since midnight.
    pub open spec fn spec_mins(self) -> int {
        self.0 * 60 + self.1
    }

    pub fn new(hour: u8, minute: u8) -> (r: Time)
        requires
            hour < 24,
            minute < 60,
        ensures
            r == Time(hour, minute),
            r.wf(),
    {
        Time(hour, minute)
    }

    /// Whether the time lies on a 24-hour clock.
    pub fn is_wf(&self) -> (r: bool)
        ensures
            r == self.wf(),
    {
        self.0 < 24 && self.1 < 60
    }

    /// Minutes since midnight.
    pub fn to_mins(&self) -> (r: u16)
        ensures
            r == self.spec_mins(),
    {
        self.0 as u16 * 60 + self.1 as u16
    }

    /// The time `m` minutes after midnight, as a spec value.
    pub open spec fn spec_from_mins(m: int) -> Time {
        Time((m / 60) as u8, (m % 60) as u8)
    }

    /// The time `m` minutes after midnight.
    pub fn from_mins(m: u16) -> (r: Time)
        requires
            m < 1440,
        ensures
            r == Time::spec_from_mins(m as int),
            r.wf(),
            r.spec_mins() == m,
    {
        Time((m / 60) as u8, (m % 60) as u8)
    }

    /// The time `mins` minutes after `self`.
    pub fn add(&self, mins: u16) -> (r: Time)
        requires
            self.spec_mins() + mins < 1440,
        ensures
            r.wf(),
            r.spec_mins() == self.spec_mins() + mins,
    {
        Time::from_mins(self.to_mins() + mins)
    }
}

/// A half-open interval of times within one day: `[start, end)`.
#[derive(Debug, Clone, Copy, PartialEq, Eq, Structural)]
pub struct TimeRange(pub Time, pub Time);

impl TimeRange {
    pub open spec fn wf(self) -> bool {
        self.0.wf() && self.1.wf() && self.0.spec_mins() < self.1.spec_mins()
    }

    pub fn new(start: Time, end: Time) -> (r: TimeRange)
        requires
            start.spec_mins() < end.spec_mins(),
        ensures
            r == TimeRange(start, end),
    {
        TimeRange(start, end)
    }

    /// Whether both endpoints lie on a 24-hour clock and the range is not
    /// empty.
    pub fn is_wf(&self) -> (r: bool)
        ensures
            r == self.wf(),
    {
        self.0.is_wf() && self.1.is_wf() && self.0.to_mins() < self.1.to_mins()
    }

    /// Whether `t` lies within the range.
    pub open spec fn spec_contains(self, t: Time) -> bool {
        self.0.spec_mins() <= t.spec_mins() < self.1.spec_mins()
    }

    pub fn contains(&self, t: Time) -> (r: bool)
        ensures
            r == self.spec_contains(t),
    {
        let tm = t.to_mins();
        self.0.to_mins() <= tm && tm < self.1.to_mins()
    }

    /// Whether an interval of `dur` minutes starting at `start` lies wholly
    /// within the range.
    pub open spec fn spec_can_fit(self, start: Time, dur: u16) -> bool {
        self.spec_contains(start) && start.spec_mins() + dur <= self.1.spec_mins()
    }

    pub fn can_fit(&self, start: Time, dur: u16) -> (r: bool)
        ensures
            r == self.spec_can_fit(start, dur),
    {
        self.contains(start) && start.to_mins() as u32 + dur as u32 <= self.1.to_mins() as u32
    }
}

/// The kind of an appointment; determines its duration and price.
#[derive(Debug, Clone, Copy, PartialEq, Eq, Structural)]
pub enum AptType {
    Cleaning,
    Checkup,
    Filling,
    RootCanal,
}

impl AptType {
    pub open spec fn spec_dur(self) -> u16 {
        match self {
            AptType::Cleaning => 15,
            AptType::Checkup => 30,
            AptType::Filling => 45,
            AptType::RootCanal => 60,
        }
    }

    /// Duration of the appointment in minutes.
    pub fn dur(&self) -> (r: u16)
        ensures
            r == self.spec_dur(),
    {
        match self {
            AptType::Cleaning => 15,
            AptType::Checkup => 30,
            AptType::Filling => 45,
            AptType::RootCanal => 60,
        }
    }

    pub open spec fn spec_price_cents(self) -> u32 {
        match self {
            AptType::Cleaning => 5000,
            AptType::Checkup => 7500,
            AptType::Filling => 15000,
            AptType::RootCanal => 20000,
        }
    }

    /// Price of the appointment in cents.
    pub fn price_cents(&self) -> (r: u32)
        ensures
            r == self.spec_price_cents(),
    {
        match self {
            AptType::Cleaning => 5000,
            AptType::Checkup => 7500,
            AptType::Filling => 15000,
            AptType::RootCanal => 20000,
        }
    }

    /// Display name of the appointment kind.
    pub fn name(&self) -> (r: &str)
        ensures
            r@ == self.name_spec(),
    {
        match self {
            AptType::Cleaning => "Cleaning",
            AptType::Checkup => "Checkup",
            AptType::Filling => "Filling",
            AptType::RootCanal => "Root Canal",
        }
    }

    pub open spec fn name_spec(self) -> Seq<char> {
        match self {
            AptType::Cleaning => "Cleaning"@,
            AptType::Checkup => "Checkup"@,
            AptType::Filling => "Filling"@,
            AptType::RootCanal => "Root Canal"@,
        }
    }

    /// Every appointment kind.
    pub fn all() -> (r: Vec<AptType>)
        ensures
            r@ =~= seq![AptType::Cleaning, AptType::Checkup, AptType::Filling, AptType::RootCanal],
    {
        vec![AptType::Cleaning, AptType::Checkup, AptType::Filling, AptType::RootCanal]
    }
}

/// A bookable slot: a day and a starting time.
#[derive(Debug, Clone, Copy, PartialEq, Eq, Hash, Structural)]
pub struct Slot {
    pub day: Day,
    pub time: Time,
}

/// A booking whose external payment authorization has been confirmed.
#[derive(Debug, Clone)]
pub struct ConfirmedBooking {
    pub user_id: u64,
    pub name: String,
    pub email: String,
    pub apt_type: AptType,
    pub amount_paid_cents: u32,
}

/// Lifecycle status of a pending booking request.
#[derive(Debug, Clone, Copy, PartialEq, Eq, Structural)]
pub enum ReqStatus {
    AwaitingPreauth,
    PreauthSuccess,
    SlotConfirmed,
    SlotTaken,
    NoSlot,
}

/// A booking request recorded in the state before its payment authorization
/// is emitted; kept as an audit trail after it reaches a terminal status.
#[derive(Debug, Clone)]
pub struct PendingReq {
    pub user_id: u64,
    pub name: String,
    pub email: String,
    pub slot: Option<Slot>,
    pub apt_type: AptType,
    pub status: ReqStatus,
}

} // verus!
