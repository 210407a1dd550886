//! The reference state machine built on the framework: time-slotted resource
//! booking with conflict detection, preference-based slot search, and
//! re-validation of availability when an external payment authorization
//! completes (the race check).
//!
//! The state is modelled by [`BookingModel`], a ghost image of
//! [`BookingSystem`]; every transition is specified as a pure function of
//! the model and proved against it.

use crate::actions::{Action, ActionsContainer, TrackedAction, TrackedActionTypes};
use crate::types::{AptType, ConfirmedBooking, Day, PendingReq, ReqStatus, Slot, Time, TimeRange};
use crate::{Input, StateMachine};
use vstd::prelude::*;
use vstd::math::{max, min};
use vstd::seq_lib::*;
use vstd::string::*;

verus! {

/// Identity of a pending request and of the tracked action it emitted.
/// Minted from the counter stored in the state, never from time or
/// randomness.
pub type ReqId = u64;

/// Domain input: a request for an exact slot, or a request that lets the
/// machine search for the first fitting slot under the caller's preferences.
#[derive(Debug)]
pub enum BookingInput {
    RequestSlot {
        user_id: u64,
        name: String,
        email: String,
        day: Day,
        time: Time,
        apt_type: AptType,
    },
    RequestAuto {
        user_id: u64,
        name: String,
        email: String,
        days: Vec<Day>,
        times: Vec<TimeRange>,
        apt_type: AptType,
    },
}

/// Errors of the booking transition function.
#[derive(Debug, Clone, Copy, PartialEq, Eq, Structural)]
pub enum BookingError {
    /// The requested exact slot is not available (validation error).
    SlotNotAvailable,
    /// No slot matched the caller's preferences (validation error).
    NoSlotFound,
    /// The request is malformed: an unknown tracked-action identity, a
    /// pending record without a slot, or an exhausted identity space
    /// (protocol error).
    InvalidRequest,
    /// Queueing a side effect failed (protocol error).
    ActionQueueFailed,
}

/// Payment requests carried by tracked actions.
#[derive(Debug, PartialEq, Eq)]
pub enum PaymentReq {
    /// Authorize a payment of `amount_cents` before the booking is confirmed.
    Preauth { user_id: u64, amount_cents: u32, req_id: ReqId },
    /// Release an authorization whose booking lost the race.
    Release { req_id: ReqId },
    /// Query the status of an authorization after a restart.
    CheckStatus { req_id: ReqId },
}

/// Results of payment requests, delivered back as inputs.
#[derive(Debug)]
pub enum PaymentResult {
    Success { amount_cents: u32 },
    Failed { reason: String },
    Released,
    Pending,
}

/// The tracked-action grouping of the booking machine.
#[derive(Debug, PartialEq, Eq)]
pub struct BookingTracked;

impl TrackedActionTypes for BookingTracked {
    type Id = ReqId;

    type Action = PaymentReq;

    type Result = PaymentResult;
}

/// Untracked, fire-and-forget actions of the booking machine.
#[derive(Debug, PartialEq, Eq)]
pub enum UntrackedAction {
    Notify { user_id: u64, msg: String },
    Log { event: String },
}

/// The action type emitted by the booking machine.
pub type BookingAction = Action<UntrackedAction, BookingTracked>;

/// The booking machine's state: the configured calendar, the confirmed
/// bookings, the pending requests (kept as an audit trail even after they
/// reach a terminal status), and the identity counter.
pub struct BookingSystem {
    pub schedule: Vec<(Day, Vec<TimeRange>)>,
    pub bookings: Vec<(Slot, ConfirmedBooking)>,
    pub pending: Vec<(ReqId, PendingReq)>,
    pub next_id: ReqId,
}

/// The mathematical image of a [`BookingSystem`]: the same data with every
/// list abstracted to a sequence.
#[verifier::ext_equal]
pub ghost struct BookingModel {
    pub schedule: Seq<(Day, Vec<TimeRange>)>,
    pub bookings: Seq<(Slot, ConfirmedBooking)>,
    pub pending: Seq<(ReqId, PendingReq)>,
    pub next_id: ReqId,
}

impl View for BookingSystem {
    type V = BookingModel;

    open spec fn view(&self) -> BookingModel {
        BookingModel {
            schedule: self.schedule@,
            bookings: self.bookings@,
            pending: self.pending@,
            next_id: self.next_id,
        }
    }
}

/// The tracked action that authorizes the payment for a new request.
pub open spec fn preauth_action(id: ReqId, user_id: u64, apt_type: AptType) -> BookingAction {
    Action::TrackedAction(
        TrackedAction {
            action_id: id,
            action: PaymentReq::Preauth {
                user_id,
                amount_cents: apt_type.spec_price_cents(),
                req_id: id,
            },
        },
    )
}

/// The compensating tracked action that releases a lost authorization.
pub open spec fn release_action(id: ReqId) -> BookingAction {
    Action::TrackedAction(
        TrackedAction { action_id: id, action: PaymentReq::Release { req_id: id } },
    )
}

/// The tracked action that re-queries an outstanding authorization after a
/// restart.
pub open spec fn check_action(id: ReqId) -> BookingAction {
    Action::TrackedAction(
        TrackedAction { action_id: id, action: PaymentReq::CheckStatus { req_id: id } },
    )
}

impl BookingModel {
    // ------------------------------------------------------------------
    // Calendar
    // ------------------------------------------------------------------

    /// Whether the calendar has an entry for `day`.
    pub open spec fn sched_has_day(self, day: Day) -> bool {
        exists|i: int| 0 <= i < self.schedule.len() && (#[trigger] self.schedule[i]).0 == day
    }

    /// The index of the calendar entry for `day` (meaningful when
    /// `sched_has_day(day)` holds and entries are unique).
    pub open spec fn sched_index(self, day: Day) -> int {
        choose|i: int| 0 <= i < self.schedule.len() && (#[trigger] self.schedule[i]).0 == day
    }

    /// The availability windows configured for `day`.
    pub open spec fn sched_ranges(self, day: Day) -> Seq<TimeRange> {
        self.schedule[self.sched_index(day)].1@
    }

    /// Whether an interval of `dur` minutes starting at `slot` lies wholly
    /// within some availability window configured for its day.
    pub open spec fn day_can_fit(self, slot: Slot, dur: u16) -> bool {
        &&& self.sched_has_day(slot.day)
        &&& exists|j: int|
            0 <= j < self.sched_ranges(slot.day).len() && (#[trigger] self.sched_ranges(
                slot.day,
            )[j]).spec_can_fit(slot.time, dur)
    }

    // ------------------------------------------------------------------
    // Bookings
    // ------------------------------------------------------------------

    /// Whether a confirmed booking overlaps an interval of `dur` minutes
    /// starting at `slot`.
    pub open spec fn entry_conflicts(entry: (Slot, ConfirmedBooking), slot: Slot, dur: u16) -> bool {
        &&& entry.0.day == slot.day
        &&& slot.time.spec_mins() < entry.0.time.spec_mins() + entry.1.apt_type.spec_dur()
        &&& entry.0.time.spec_mins() < slot.time.spec_mins() + dur
    }

    /// Whether no confirmed booking overlaps the candidate interval.
    pub open spec fn no_conflict(self, slot: Slot, dur: u16) -> bool {
        forall|k: int|
            0 <= k < self.bookings.len() ==> !Self::entry_conflicts(
                #[trigger] self.bookings[k],
                slot,
                dur,
            )
    }

    /// A slot is available for a duration when it fits the calendar and
    /// conflicts with no confirmed booking.
    pub open spec fn available(self, slot: Slot, dur: u16) -> bool {
        self.day_can_fit(slot, dur) && self.no_conflict(slot, dur)
    }

    /// Whether a confirmed booking exists at exactly `slot`.
    pub open spec fn has_booking(self, slot: Slot) -> bool {
        exists|i: int| 0 <= i < self.bookings.len() && (#[trigger] self.bookings[i]).0 == slot
    }

    /// The index of the booking at `slot`.
    pub open spec fn booking_index(self, slot: Slot) -> int {
        choose|i: int| 0 <= i < self.bookings.len() && (#[trigger] self.bookings[i]).0 == slot
    }

    // ------------------------------------------------------------------
    // Pending requests
    // ------------------------------------------------------------------

    /// Whether a pending request with identity `id` exists.
    pub open spec fn has_pending(self, id: ReqId) -> bool {
        exists|i: int| 0 <= i < self.pending.len() && (#[trigger] self.pending[i]).0 == id
    }

    /// The index of the pending request with identity `id`.
    pub open spec fn pending_index(self, id: ReqId) -> int {
        choose|i: int| 0 <= i < self.pending.len() && (#[trigger] self.pending[i]).0 == id
    }

    // ------------------------------------------------------------------
    // Well-formedness and invariants
    // ------------------------------------------------------------------

    /// Calendar days, booking slots and pending identities are unique keys.
    pub open spec fn keys_unique(self) -> bool {
        &&& forall|i: int, j: int|
            0 <= i < j < self.schedule.len() ==> (#[trigger] self.schedule[i]).0 != (
            #[trigger] self.schedule[j]).0
        &&& forall|i: int, j: int|
            0 <= i < j < self.bookings.len() ==> (#[trigger] self.bookings[i]).0 != (
            #[trigger] self.bookings[j]).0
        &&& forall|i: int, j: int|
            0 <= i < j < self.pending.len() ==> (#[trigger] self.pending[i]).0 != (
            #[trigger] self.pending[j]).0
    }

    /// Every pending identity was minted below the counter, so the next
    /// minted identity is fresh.
    pub open spec fn ids_bounded(self) -> bool {
        forall|i: int| 0 <= i < self.pending.len() ==> (#[trigger] self.pending[i]).0 < self.next_id
    }

    /// Every configured availability window is a well-formed time range.
    pub open spec fn sched_ranges_wf(self) -> bool {
        forall|i: int, j: int|
            0 <= i < self.schedule.len() && 0 <= j < self.schedule[i].1@.len()
                ==> (#[trigger] self.schedule[i].1@[j]).wf()
    }

    /// Structural well-formedness of the state.
    pub open spec fn wf(self) -> bool {
        self.keys_unique() && self.ids_bounded() && self.sched_ranges_wf()
    }

    /// No two distinct confirmed bookings on the same day overlap.
    pub open spec fn bookings_disjoint(self) -> bool {
        forall|i: int, j: int|
            0 <= i < self.bookings.len() && 0 <= j < self.bookings.len() && i != j && (
            #[trigger] self.bookings[i]).0.day == (#[trigger] self.bookings[j]).0.day ==> {
                let si = self.bookings[i].0.time.spec_mins();
                let ei = si + self.bookings[i].1.apt_type.spec_dur();
                let sj = self.bookings[j].0.time.spec_mins();
                let ej = sj + self.bookings[j].1.apt_type.spec_dur();
                ei <= sj || ej <= si
            }
    }

    /// Every confirmed booking's interval lies within a configured
    /// availability window for its day.
    pub open spec fn bookings_contained(self) -> bool {
        forall|k: int|
            0 <= k < self.bookings.len() ==> self.day_can_fit(
                (#[trigger] self.bookings[k]).0,
                self.bookings[k].1.apt_type.spec_dur(),
            )
    }

    /// Every pending request in the confirmed status has a slot, and a
    /// confirmed booking exists at that slot.
    pub open spec fn confirmed_consistent(self) -> bool {
        forall|k: int|
            0 <= k < self.pending.len() && (#[trigger] self.pending[k]).1.status
                is SlotConfirmed ==> self.pending[k].1.slot is Some && self.has_booking(
                self.pending[k].1.slot.unwrap(),
            )
    }

    /// The invariant of every reachable booking state.
    pub open spec fn inv(self) -> bool {
        &&& self.wf()
        &&& self.bookings_disjoint()
        &&& self.bookings_contained()
        &&& self.confirmed_consistent()
    }

    // ------------------------------------------------------------------
    // First-fit slot search
    // ------------------------------------------------------------------

    /// Whether start time `t` is drawn from the overlap of calendar window
    /// `sched` with preferred window `pref`: aligned to 15-minute steps
    /// from the overlap's start, with the whole interval of `dur` minutes
    /// inside the overlap.
    pub open spec fn pair_candidate(sched: TimeRange, pref: TimeRange, dur: u16, t: int) -> bool {
        let lo = max(sched.0.spec_mins(), pref.0.spec_mins());
        let hi = min(sched.1.spec_mins(), pref.1.spec_mins());
        lo <= t && t + dur <= hi && (t - lo) % 15 == 0
    }

    /// Whether `t` is a candidate start time for `day`: drawn from the
    /// overlap of some calendar window of the day with some preferred
    /// window.
    pub open spec fn qualifies(self, day: Day, prefs: Seq<TimeRange>, dur: u16, t: int) -> bool {
        exists|j: int, k: int|
            0 <= j < self.sched_ranges(day).len() && 0 <= k < prefs.len()
                && Self::pair_candidate(
                #[trigger] self.sched_ranges(day)[j],
                #[trigger] prefs[k],
                dur,
                t,
            )
    }

    /// Whether `t` is a candidate start time for `day` whose slot is also
    /// available.
    pub open spec fn candidate_available(self, day: Day, prefs: Seq<TimeRange>, dur: u16, t: int) -> bool {
        self.qualifies(day, prefs, dur, t) && self.available(
            Slot { day, time: Time::spec_from_mins(t) },
            dur,
        )
    }

    /// The earliest candidate start time of `day` at or after `t` whose
    /// slot is available.  Times ascend minute by minute over the whole
    /// day, so the earliest qualifying time wins no matter in what order
    /// the windows were given.
    pub open spec fn day_first_fit(self, day: Day, prefs: Seq<TimeRange>, dur: u16, t: int) -> Option<
        int,
    >
        decreases 1440 - t,
    {
        if 0 <= t < 1440 {
            if self.candidate_available(day, prefs, dur, t) {
                Some(t)
            } else {
                self.day_first_fit(day, prefs, dur, t + 1)
            }
        } else {
            None
        }
    }

    /// First-fit over the caller's preferred days, from index `di` on: the
    /// first day with any available candidate, at that day's earliest
    /// candidate time.
    pub open spec fn find_from(self, days: Seq<Day>, prefs: Seq<TimeRange>, dur: u16, di: int) -> Option<
        Slot,
    >
        decreases days.len() - di,
    {
        if 0 <= di < days.len() {
            let found = if self.sched_has_day(days[di]) {
                match self.day_first_fit(days[di], prefs, dur, 0) {
                    Option::Some(t) => Option::Some(
                        Slot { day: days[di], time: Time::spec_from_mins(t) },
                    ),
                    Option::None => Option::None,
                }
            } else {
                Option::None
            };
            if found is Some {
                found
            } else {
                self.find_from(days, prefs, dur, di + 1)
            }
        } else {
            None
        }
    }

    /// The first available slot under the caller's preferences: the
    /// earliest day in the caller-supplied order, and on it the earliest
    /// start time in ascending order — quantized to 15-minute steps within
    /// each overlap of a calendar window with a preferred window — whose
    /// interval lies within both windows and conflicts with no confirmed
    /// booking; `None` when the search is exhausted.
    pub open spec fn find_slot_spec(self, days: Seq<Day>, prefs: Seq<TimeRange>, dur: u16) -> Option<
        Slot,
    > {
        self.find_from(days, prefs, dur, 0)
    }

    // ------------------------------------------------------------------
    // The transition function, as a pure function of the model
    // ------------------------------------------------------------------

    /// Accepts a validated request for `slot`: records the pending request
    /// under a fresh identity *before* the tracked authorization action is
    /// emitted, and increments the identity counter.  Fails only when the
    /// identity space is exhausted.
    pub open spec fn mint_spec(
        self,
        user_id: u64,
        name: String,
        email: String,
        slot: Slot,
        apt_type: AptType,
    ) -> (BookingModel, Seq<BookingAction>, Result<(), BookingError>) {
        if self.next_id == u64::MAX {
            (self, Seq::<BookingAction>::empty(), Err(BookingError::InvalidRequest))
        } else {
            let id = self.next_id;
            let rec = PendingReq {
                user_id,
                name,
                email,
                slot: Some(slot),
                apt_type,
                status: ReqStatus::AwaitingPreauth,
            };
            let post = BookingModel {
                pending: self.pending.push((id, rec)),
                next_id: (self.next_id + 1) as u64,
                ..self
            };
            (post, seq![preauth_action(id, user_id, apt_type)], Ok(()))
        }
    }

    /// A request for an exact slot: rejected when the slot is not
    /// available, otherwise accepted.
    pub open spec fn slot_request_spec(
        self,
        user_id: u64,
        name: String,
        email: String,
        slot: Slot,
        apt_type: AptType,
    ) -> (BookingModel, Seq<BookingAction>, Result<(), BookingError>) {
        if !self.available(slot, apt_type.spec_dur()) {
            (self, Seq::<BookingAction>::empty(), Err(BookingError::SlotNotAvailable))
        } else {
            self.mint_spec(user_id, name, email, slot, apt_type)
        }
    }

    /// An auto-search request: rejected when no slot matches the caller's
    /// preferences, otherwise the first fit is accepted.
    pub open spec fn auto_request_spec(
        self,
        user_id: u64,
        name: String,
        email: String,
        days: Seq<Day>,
        times: Seq<TimeRange>,
        apt_type: AptType,
    ) -> (BookingModel, Seq<BookingAction>, Result<(), BookingError>) {
        match self.find_slot_spec(days, times, apt_type.spec_dur()) {
            Option::None => (self, Seq::<BookingAction>::empty(), Err(BookingError::NoSlotFound)),
            Option::Some(slot) => self.mint_spec(user_id, name, email, slot, apt_type),
        }
    }

    /// A successful authorization: availability is re-validated (the race
    /// check).  If the slot is still free the booking is inserted and the
    /// request confirmed; if the race was lost the request is marked
    /// `SlotTaken` and a compensating release is emitted — a legitimate
    /// outcome, not an error.
    pub open spec fn success_spec(self, id: ReqId, amount_cents: u32) -> (
        BookingModel,
        Seq<BookingAction>,
        Result<(), BookingError>,
    ) {
        if !self.has_pending(id) {
            (self, Seq::<BookingAction>::empty(), Err(BookingError::InvalidRequest))
        } else {
            let idx = self.pending_index(id);
            let p = self.pending[idx].1;
            match p.slot {
                Option::None => (
                    self,
                    Seq::<BookingAction>::empty(),
                    Err(BookingError::InvalidRequest),
                ),
                Option::Some(slot) => {
                    if !self.available(slot, p.apt_type.spec_dur()) {
                        let post = BookingModel {
                            pending: self.pending.update(
                                idx,
                                (id, PendingReq { status: ReqStatus::SlotTaken, ..p }),
                            ),
                            ..self
                        };
                        (post, seq![release_action(id)], Ok(()))
                    } else {
                        let post = BookingModel {
                            pending: self.pending.update(
                                idx,
                                (id, PendingReq { status: ReqStatus::SlotConfirmed, ..p }),
                            ),
                            bookings: self.bookings.push(
                                (
                                    slot,
                                    ConfirmedBooking {
                                        user_id: p.user_id,
                                        name: p.name,
                                        email: p.email,
                                        apt_type: p.apt_type,
                                        amount_paid_cents: amount_cents,
                                    },
                                ),
                            ),
                            ..self
                        };
                        (post, Seq::<BookingAction>::empty(), Ok(()))
                    }
                },
            }
        }
    }

    /// A failed authorization: the request reaches the terminal `NoSlot`
    /// status; no booking is created.
    pub open spec fn failed_spec(self, id: ReqId) -> (
        BookingModel,
        Seq<BookingAction>,
        Result<(), BookingError>,
    ) {
        if !self.has_pending(id) {
            (self, Seq::<BookingAction>::empty(), Err(BookingError::InvalidRequest))
        } else {
            let idx = self.pending_index(id);
            let p = self.pending[idx].1;
            let post = BookingModel {
                pending: self.pending.update(idx, (id, PendingReq { status: ReqStatus::NoSlot, ..p })),
                ..self
            };
            (post, Seq::<BookingAction>::empty(), Ok(()))
        }
    }

    /// Resolution of a completed tracked action.  An unknown identity is an
    /// error; a still-pending or released report leaves the state
    /// untouched.
    pub open spec fn completion_spec(self, id: ReqId, res: PaymentResult) -> (
        BookingModel,
        Seq<BookingAction>,
        Result<(), BookingError>,
    ) {
        match res {
            PaymentResult::Success { amount_cents } => self.success_spec(id, amount_cents),
            PaymentResult::Failed { .. } => self.failed_spec(id),
            _ => if self.has_pending(id) {
                (self, Seq::<BookingAction>::empty(), Ok(()))
            } else {
                (self, Seq::<BookingAction>::empty(), Err(BookingError::InvalidRequest))
            },
        }
    }

    /// The whole transition: the new state, the emitted actions in order,
    /// and the result, as a pure function of the old state and the input.
    pub open spec fn transition_spec(self, input: Input<BookingTracked, BookingInput>) -> (
        BookingModel,
        Seq<BookingAction>,
        Result<(), BookingError>,
    ) {
        match input {
            Input::Normal(req) => match req {
                BookingInput::RequestSlot { user_id, name, email, day, time, apt_type } => self
                    .slot_request_spec(user_id, name, email, Slot { day, time }, apt_type),
                BookingInput::RequestAuto { user_id, name, email, days, times, apt_type } => self
                    .auto_request_spec(user_id, name, email, days@, times@, apt_type),
            },
            Input::TrackedActionCompleted { id, res } => self.completion_spec(id, res),
        }
    }

    /// The actions that restoration regenerates: one status query per
    /// pending request whose authorization is still outstanding, in the
    /// order the requests were recorded.
    pub open spec fn restore_actions(pending: Seq<(ReqId, PendingReq)>) -> Seq<BookingAction>
        decreases pending.len(),
    {
        if pending.len() == 0 {
            Seq::<BookingAction>::empty()
        } else {
            let init = Self::restore_actions(pending.drop_last());
            if pending.last().1.status is AwaitingPreauth {
                init.push(check_action(pending.last().0))
            } else {
                init
            }
        }
    }
}

/// In a sequence of key-value pairs with pairwise distinct keys, two entries
/// with the same key stand at the same index.
proof fn lemma_unique_key<K, V>(s: Seq<(K, V)>, i: int, j: int)
    requires
        forall|a: int, b: int| 0 <= a < b < s.len() ==> (#[trigger] s[a]).0 != (#[trigger] s[b]).0,
        0 <= i < s.len(),
        0 <= j < s.len(),
        s[i].0 == s[j].0,
    ensures
        i == j,
{
    if i < j {
        assert(s[i].0 != s[j].0);
    } else if j < i {
        assert(s[j].0 != s[i].0);
    }
}

impl BookingSystem {
    /// An empty system: no calendar, no bookings, no pending requests; the
    /// identity counter starts at 1.
    pub fn new() -> (r: BookingSystem)
        ensures
            r@ =~= (BookingModel {
                schedule: Seq::empty(),
                bookings: Seq::empty(),
                pending: Seq::empty(),
                next_id: 1,
            }),
            r@.inv(),
    {
        BookingSystem { schedule: Vec::new(), bookings: Vec::new(), pending: Vec::new(), next_id: 1 }
    }

    /// The index of the calendar entry for `day`, if one exists.
    fn sched_lookup(&self, day: Day) -> (r: Option<usize>)
        ensures
            r matches Some(i) ==> i < self@.schedule.len() && self@.schedule[i as int].0 == day
                && (self@.wf() ==> i == self@.sched_index(day)),
            r is None ==> !self@.sched_has_day(day),
    {
        let mut i: usize = 0;
        while i < self.schedule.len()
            invariant
                i <= self@.schedule.len(),
                forall|k: int| 0 <= k < i ==> (#[trigger] self@.schedule[k]).0 != day,
            decreases self@.schedule.len() - i,
        {
            if self.schedule[i].0 == day {
                proof {
                    if self@.wf() {
                        assert(self@.sched_has_day(day));
                        let j = self@.sched_index(day);
                        lemma_unique_key(self@.schedule, i as int, j);
                    }
                }
                return Some(i);
            }
            i += 1;
        }
        None
    }

    /// Adds an availability window for `day` to the calendar.
    pub fn add_schedule(&mut self, day: Day, range: TimeRange)
        requires
            old(self)@.wf(),
            range.wf(),
        ensures
            final(self)@.wf(),
            final(self)@.bookings == old(self)@.bookings,
            final(self)@.pending == old(self)@.pending,
            final(self).next_id == old(self).next_id,
            final(self)@.sched_has_day(day),
            old(self)@.sched_has_day(day) ==> final(self)@.sched_ranges(day) == old(
                self,
            )@.sched_ranges(day).push(range),
            !old(self)@.sched_has_day(day) ==> final(self)@.sched_ranges(day) == seq![range],
            forall|d: Day|
                d != day ==> #[trigger] final(self)@.sched_has_day(d) == old(
                    self,
                )@.sched_has_day(d),
            forall|d: Day|
                d != day && old(self)@.sched_has_day(d) ==> #[trigger] final(self)@.sched_ranges(d)
                    == old(self)@.sched_ranges(d),
            old(self)@.inv() ==> final(self)@.inv(),
    {
        let ghost pre = self@;
        match self.sched_lookup(day) {
            Some(i) => {
                self.schedule[i].1.push(range);
                proof {
                    lemma_add_schedule_existing(pre, self@, day, range, i as int);
                }
            },
            None => {
                let mut v: Vec<TimeRange> = Vec::new();
                v.push(range);
                self.schedule.push((day, v));
                proof {
                    lemma_add_schedule_new(pre, self@, day, range);
                }
            },
        }
    }
}

impl BookingSystem {
    /// Whether an interval of `dur` minutes starting at `slot` lies within
    /// some configured availability window for its day.
    fn day_fits(&self, slot: Slot, dur: u16) -> (r: bool)
        requires
            self@.wf(),
        ensures
            r == self@.day_can_fit(slot, dur),
    {
        let si = match self.sched_lookup(slot.day) {
            Some(i) => i,
            None => {
                return false;
            },
        };
        let ranges = &self.schedule[si].1;
        assert(ranges@ == self@.sched_ranges(slot.day));
        let mut fits = false;
        let mut j: usize = 0;
        while j < ranges.len() && !fits
            invariant
                j <= ranges@.len(),
                ranges@ == self@.sched_ranges(slot.day),
                self@.sched_has_day(slot.day),
                !fits ==> forall|k: int|
                    0 <= k < j ==> !(#[trigger] ranges@[k]).spec_can_fit(slot.time, dur),
                fits ==> self@.day_can_fit(slot, dur),
            decreases ranges@.len() - j + (if fits { 0int } else { 1int }),
        {
            if ranges[j].can_fit(slot.time, dur) {
                fits = true;
                assert(self@.sched_ranges(slot.day)[j as int].spec_can_fit(slot.time, dur));
            } else {
                j += 1;
            }
        }
        if !fits {
            assert(!self@.day_can_fit(slot, dur));
        }
        fits
    }

    /// Whether an appointment of `dur` minutes starting at `slot` can be
    /// booked: it fits a configured availability window and conflicts with
    /// no confirmed booking.
    pub fn is_available(&self, slot: Slot, dur: u16) -> (r: bool)
        requires
            self@.wf(),
        ensures
            r == self@.available(slot, dur),
    {
        if !self.day_fits(slot, dur) {
            return false;
        }
        let smins = slot.time.to_mins();
        let mut k: usize = 0;
        while k < self.bookings.len()
            invariant
                k <= self@.bookings.len(),
                smins == slot.time.spec_mins(),
                forall|t: int|
                    0 <= t < k ==> !BookingModel::entry_conflicts(
                        #[trigger] self@.bookings[t],
                        slot,
                        dur,
                    ),
            decreases self@.bookings.len() - k,
        {
            let booked = &self.bookings[k];
            if booked.0.day == slot.day {
                let bstart = booked.0.time.to_mins();
                let bend: u32 = bstart as u32 + booked.1.apt_type.dur() as u32;
                if (smins as u32) < bend && (bstart as u32) < smins as u32 + dur as u32 {
                    assert(BookingModel::entry_conflicts(self@.bookings[k as int], slot, dur));
                    return false;
                }
            }
            k += 1;
        }
        true
    }

    /// Whether `t` is a candidate start time on the day of calendar entry
    /// `si`: drawn from the overlap of one of the day's windows with one of
    /// the caller's preferred windows.
    fn qualifies_at(&self, si: usize, prefs: &[TimeRange], dur: u16, t: u16) -> (r: bool)
        requires
            self@.wf(),
            si < self@.schedule.len(),
            si as int == self@.sched_index(self@.schedule[si as int].0),
        ensures
            r == self@.qualifies(self@.schedule[si as int].0, prefs@, dur, t as int),
    {
        let ghost day = self@.schedule[si as int].0;
        let ranges = &self.schedule[si].1;
        assert(ranges@ == self@.sched_ranges(day));
        let mut j: usize = 0;
        while j < ranges.len()
            invariant
                si < self@.schedule.len(),
                day == self@.schedule[si as int].0,
                ranges@ == self@.sched_ranges(day),
                j <= ranges@.len(),
                forall|jj: int, k: int|
                    0 <= jj < j && 0 <= k < prefs@.len() ==> !BookingModel::pair_candidate(
                        #[trigger] ranges@[jj],
                        #[trigger] prefs@[k],
                        dur,
                        t as int,
                    ),
            decreases ranges@.len() - j,
        {
            let sr = ranges[j];
            let mut k: usize = 0;
            while k < prefs.len()
                invariant
                    si < self@.schedule.len(),
                    day == self@.schedule[si as int].0,
                    ranges@ == self@.sched_ranges(day),
                    j < ranges@.len(),
                    sr == ranges@[j as int],
                    k <= prefs@.len(),
                    forall|kk: int|
                        0 <= kk < k ==> !BookingModel::pair_candidate(
                            ranges@[j as int],
                            #[trigger] prefs@[kk],
                            dur,
                            t as int,
                        ),
                decreases prefs@.len() - k,
            {
                let pr = prefs[k];
                let srlo = sr.0.to_mins();
                let srhi = sr.1.to_mins();
                let prlo = pr.0.to_mins();
                let prhi = pr.1.to_mins();
                let lo: u16 = if srlo >= prlo {
                    srlo
                } else {
                    prlo
                };
                let hi: u16 = if srhi <= prhi {
                    srhi
                } else {
                    prhi
                };
                if lo <= t && t as u32 + dur as u32 <= hi as u32 && (t - lo) % 15 == 0 {
                    assert(BookingModel::pair_candidate(
                        self@.sched_ranges(day)[j as int],
                        prefs@[k as int],
                        dur,
                        t as int,
                    ));
                    return true;
                }
                k += 1;
            }
            j += 1;
        }
        false
    }

    /// The first available slot under the caller's preferences: days are
    /// tried in the given order, and within a day candidate start times
    /// ascend over the whole day, so the earliest qualifying time is found
    /// no matter in what order the preferred windows were given.
    pub fn find_slot(&self, days: &[Day], ranges: &[TimeRange], dur: u16) -> (r: Option<Slot>)
        requires
            self@.wf(),
        ensures
            r == self@.find_slot_spec(days@, ranges@, dur),
    {
        let ghost m = self@;
        let mut di: usize = 0;
        while di < days.len()
            invariant
                self@ == m,
                self@.wf(),
                di <= days@.len(),
                m.find_from(days@, ranges@, dur, 0) == m.find_from(days@, ranges@, dur, di as int),
            decreases days@.len() - di,
        {
            let day = days[di];
            match self.sched_lookup(day) {
                Some(si) => {
                    let mut t: u16 = 0;
                    while t < 1440
                        invariant
                            self@ == m,
                            self@.wf(),
                            di < days@.len(),
                            day == days@[di as int],
                            m.sched_has_day(day),
                            si < m.schedule.len(),
                            si as int == m.sched_index(day),
                            day == m.schedule[si as int].0,
                            t <= 1440,
                            m.find_from(days@, ranges@, dur, 0) == m.find_from(
                                days@,
                                ranges@,
                                dur,
                                di as int,
                            ),
                            m.day_first_fit(day, ranges@, dur, 0) == m.day_first_fit(
                                day,
                                ranges@,
                                dur,
                                t as int,
                            ),
                        decreases 1440 - t,
                    {
                        if self.qualifies_at(si, ranges, dur, t) {
                            let slot = Slot { day, time: Time::from_mins(t) };
                            if self.is_available(slot, dur) {
                                proof {
                                    assert(m.day_first_fit(day, ranges@, dur, t as int) == Some(
                                        t as int,
                                    ));
                                    assert(m.find_from(days@, ranges@, dur, di as int) == Some(
                                        slot,
                                    ));
                                }
                                return Some(slot);
                            }
                        }
                        proof {
                            assert(m.day_first_fit(day, ranges@, dur, t as int)
                                == m.day_first_fit(day, ranges@, dur, t as int + 1));
                        }
                        t += 1;
                    }
                    proof {
                        assert(m.day_first_fit(day, ranges@, dur, 1440) is None);
                        assert(m.find_from(days@, ranges@, dur, di as int) == m.find_from(
                            days@,
                            ranges@,
                            dur,
                            di as int + 1,
                        ));
                    }
                },
                None => {
                    assert(m.find_from(days@, ranges@, dur, di as int) == m.find_from(
                        days@,
                        ranges@,
                        dur,
                        di as int + 1,
                    ));
                },
            }
            di += 1;
        }
        None
    }
}

/// Appointment durations are never zero, so two bookings at the same slot
/// always overlap.
proof fn lemma_dur_positive(a: AptType)
    ensures
        a.spec_dur() >= 15,
{
}

/// Two models with the same calendar agree on everything the calendar
/// determines.
proof fn lemma_same_calendar(pre: BookingModel, post: BookingModel)
    requires
        post.schedule == pre.schedule,
        forall|a: int, b: int|
            0 <= a < b < pre.schedule.len() ==> (#[trigger] pre.schedule[a]).0 != (
            #[trigger] pre.schedule[b]).0,
    ensures
        forall|d: Day| #[trigger] post.sched_has_day(d) == pre.sched_has_day(d),
        forall|d: Day|
            pre.sched_has_day(d) ==> #[trigger] post.sched_ranges(d) == pre.sched_ranges(d),
        forall|slot: Slot, dur: u16|
            #[trigger] post.day_can_fit(slot, dur) == pre.day_can_fit(slot, dur),
{
    assert forall|d: Day| #[trigger] post.sched_has_day(d) == pre.sched_has_day(d) by {
        if pre.sched_has_day(d) {
            let i = pre.sched_index(d);
            assert(0 <= i < pre.schedule.len() && pre.schedule[i].0 == d);
            assert(post.schedule[i].0 == d);
        }
        if post.sched_has_day(d) {
            let i = post.sched_index(d);
            assert(0 <= i < post.schedule.len() && post.schedule[i].0 == d);
            assert(pre.schedule[i].0 == d);
        }
    }
    assert forall|d: Day| pre.sched_has_day(d) implies #[trigger] post.sched_ranges(d)
        == pre.sched_ranges(d) by {
        let i = pre.sched_index(d);
        assert(0 <= i < pre.schedule.len() && pre.schedule[i].0 == d);
        assert(post.sched_has_day(d));
        let j = post.sched_index(d);
        assert(0 <= j < post.schedule.len() && post.schedule[j].0 == d);
        assert(pre.schedule[j].0 == d);
        lemma_unique_key(pre.schedule, i, j);
    }
    assert forall|slot: Slot, dur: u16| #[trigger] post.day_can_fit(slot, dur)
        == pre.day_can_fit(slot, dur) by {
        if pre.day_can_fit(slot, dur) {
            assert(post.sched_has_day(slot.day));
            assert(post.sched_ranges(slot.day) == pre.sched_ranges(slot.day));
            let j = choose|j: int|
                0 <= j < pre.sched_ranges(slot.day).len() && (#[trigger] pre.sched_ranges(
                    slot.day,
                )[j]).spec_can_fit(slot.time, dur);
            assert(post.sched_ranges(slot.day)[j].spec_can_fit(slot.time, dur));
        }
        if post.day_can_fit(slot, dur) {
            assert(pre.sched_has_day(slot.day));
            assert(post.sched_ranges(slot.day) == pre.sched_ranges(slot.day));
            let j = choose|j: int|
                0 <= j < post.sched_ranges(slot.day).len() && (#[trigger] post.sched_ranges(
                    slot.day,
                )[j]).spec_can_fit(slot.time, dur);
            assert(pre.sched_ranges(slot.day)[j].spec_can_fit(slot.time, dur));
        }
    }
}

/// Accepting a request preserves the state invariant: the pending record is
/// keyed by a fresh identity drawn from the counter, and bookings are
/// untouched.
proof fn lemma_mint_preserves_inv(
    pre: BookingModel,
    user_id: u64,
    name: String,
    email: String,
    slot: Slot,
    apt_type: AptType,
)
    requires
        pre.inv(),
    ensures
        pre.mint_spec(user_id, name, email, slot, apt_type).0.inv(),
{
    if pre.next_id != u64::MAX {
        let post = pre.mint_spec(user_id, name, email, slot, apt_type).0;
        let n = pre.pending.len() as int;
        lemma_same_calendar(pre, post);
        assert forall|a: int, b: int| 0 <= a < b < post.pending.len() implies (
        #[trigger] post.pending[a]).0 != (#[trigger] post.pending[b]).0 by {
            if b == n {
                assert(pre.pending[a].0 < pre.next_id);
            }
        }
        assert forall|i: int| 0 <= i < post.pending.len() implies (#[trigger] post.pending[i]).0
            < post.next_id by {
            if i < n {
                assert(pre.pending[i].0 < pre.next_id);
            }
        }
        assert forall|k: int|
            0 <= k < post.pending.len() && (#[trigger] post.pending[k]).1.status
                is SlotConfirmed implies post.pending[k].1.slot is Some && post.has_booking(
            post.pending[k].1.slot.unwrap(),
        ) by {
            assert(k < n);
            assert(post.pending[k] == pre.pending[k]);
            assert(pre.has_booking(pre.pending[k].1.slot.unwrap()));
        }
        assert(post.inv());
    }
}

/// Resolving a successful authorization preserves the state invariant: a
/// booking is inserted only after the race check has re-validated that its
/// interval conflicts with nothing.
proof fn lemma_success_preserves_inv(pre: BookingModel, id: ReqId, amount_cents: u32)
    requires
        pre.inv(),
    ensures
        pre.success_spec(id, amount_cents).0.inv(),
{
    if pre.has_pending(id) {
        let idx = pre.pending_index(id);
        assert(0 <= idx < pre.pending.len() && pre.pending[idx].0 == id);
        let p = pre.pending[idx].1;
        match p.slot {
            Option::None => {},
            Option::Some(slot) => {
                let dur = p.apt_type.spec_dur();
                lemma_dur_positive(p.apt_type);
                if !pre.available(slot, dur) {
                    let post = pre.success_spec(id, amount_cents).0;
                    lemma_same_calendar(pre, post);
                    lemma_pending_update_keeps_keys(pre, post, idx);
                    assert forall|k: int|
                        0 <= k < post.pending.len() && (#[trigger] post.pending[k]).1.status
                            is SlotConfirmed implies post.pending[k].1.slot is Some
                        && post.has_booking(post.pending[k].1.slot.unwrap()) by {
                        assert(k != idx);
                        assert(post.pending[k] == pre.pending[k]);
                        assert(pre.has_booking(pre.pending[k].1.slot.unwrap()));
                    }
                    assert(post.inv());
                } else {
                    let post = pre.success_spec(id, amount_cents).0;
                    let nb = pre.bookings.len() as int;
                    lemma_same_calendar(pre, post);
                    lemma_pending_update_keeps_keys(pre, post, idx);
                    // the new booking's slot is distinct from every old one
                    assert forall|a: int, b: int| 0 <= a < b < post.bookings.len() implies (
                    #[trigger] post.bookings[a]).0 != (#[trigger] post.bookings[b]).0 by {
                        if b == nb {
                            lemma_dur_positive(pre.bookings[a].1.apt_type);
                            if pre.bookings[a].0 == slot {
                                assert(BookingModel::entry_conflicts(pre.bookings[a], slot, dur));
                            }
                        }
                    }
                    // no overlap with the new booking, thanks to the race check
                    assert forall|i: int, j: int|
                        0 <= i < post.bookings.len() && 0 <= j < post.bookings.len() && i != j && (
                        #[trigger] post.bookings[i]).0.day == (
                        #[trigger] post.bookings[j]).0.day implies {
                        let si = post.bookings[i].0.time.spec_mins();
                        let ei = si + post.bookings[i].1.apt_type.spec_dur();
                        let sj = post.bookings[j].0.time.spec_mins();
                        let ej = sj + post.bookings[j].1.apt_type.spec_dur();
                        ei <= sj || ej <= si
                    } by {
                        if i == nb {
                            assert(!BookingModel::entry_conflicts(pre.bookings[j], slot, dur));
                        } else if j == nb {
                            assert(!BookingModel::entry_conflicts(pre.bookings[i], slot, dur));
                        }
                    }
                    assert forall|k: int| 0 <= k < post.bookings.len() implies post.day_can_fit(
                        (#[trigger] post.bookings[k]).0,
                        post.bookings[k].1.apt_type.spec_dur(),
                    ) by {
                        if k < nb {
                            assert(pre.day_can_fit(
                                pre.bookings[k].0,
                                pre.bookings[k].1.apt_type.spec_dur(),
                            ));
                        } else {
                            assert(pre.day_can_fit(slot, dur));
                        }
                    }
                    assert forall|k: int|
                        0 <= k < post.pending.len() && (#[trigger] post.pending[k]).1.status
                            is SlotConfirmed implies post.pending[k].1.slot is Some
                        && post.has_booking(post.pending[k].1.slot.unwrap()) by {
                        if k == idx {
                            assert(post.bookings[nb].0 == slot);
                        } else {
                            assert(post.pending[k] == pre.pending[k]);
                            assert(pre.has_booking(pre.pending[k].1.slot.unwrap()));
                            let w = pre.booking_index(pre.pending[k].1.slot.unwrap());
                            assert(post.bookings[w].0 == pre.pending[k].1.slot.unwrap());
                        }
                    }
                    assert(post.inv());
                }
            },
        }
    }
}

/// Updating one pending record in place, keeping its key, preserves key
/// uniqueness and the identity bound.
proof fn lemma_pending_update_keeps_keys(pre: BookingModel, post: BookingModel, idx: int)
    requires
        pre.wf(),
        0 <= idx < pre.pending.len(),
        post.pending.len() == pre.pending.len(),
        post.pending[idx].0 == pre.pending[idx].0,
        forall|k: int| 0 <= k < pre.pending.len() && k != idx ==> post.pending[k] == pre.pending[k],
        post.next_id == pre.next_id,
    ensures
        forall|a: int, b: int|
            0 <= a < b < post.pending.len() ==> (#[trigger] post.pending[a]).0 != (
            #[trigger] post.pending[b]).0,
        forall|i: int| 0 <= i < post.pending.len() ==> (#[trigger] post.pending[i]).0 < post.next_id,
{
    assert forall|a: int, b: int| 0 <= a < b < post.pending.len() implies (
    #[trigger] post.pending[a]).0 != (#[trigger] post.pending[b]).0 by {
        assert(post.pending[a].0 == pre.pending[a].0);
        assert(post.pending[b].0 == pre.pending[b].0);
    }
    assert forall|i: int| 0 <= i < post.pending.len() implies (#[trigger] post.pending[i]).0
        < post.next_id by {
        assert(post.pending[i].0 == pre.pending[i].0);
    }
}

/// Resolving a failed authorization preserves the state invariant: only
/// the request's status changes, to a terminal non-booking one.
proof fn lemma_failed_preserves_inv(pre: BookingModel, id: ReqId)
    requires
        pre.inv(),
    ensures
        pre.failed_spec(id).0.inv(),
{
    if pre.has_pending(id) {
        let idx = pre.pending_index(id);
        assert(0 <= idx < pre.pending.len() && pre.pending[idx].0 == id);
        let post = pre.failed_spec(id).0;
        lemma_same_calendar(pre, post);
        lemma_pending_update_keeps_keys(pre, post, idx);
        assert forall|k: int|
            0 <= k < post.pending.len() && (#[trigger] post.pending[k]).1.status
                is SlotConfirmed implies post.pending[k].1.slot is Some && post.has_booking(
            post.pending[k].1.slot.unwrap(),
        ) by {
            assert(k != idx);
            assert(post.pending[k] == pre.pending[k]);
            assert(pre.has_booking(pre.pending[k].1.slot.unwrap()));
        }
        assert(post.inv());
    }
}

/// Every transition preserves the state invariant.
pub proof fn lemma_transition_preserves_inv(
    pre: BookingModel,
    input: Input<BookingTracked, BookingInput>,
)
    requires
        pre.inv(),
    ensures
        pre.transition_spec(input).0.inv(),
{
    match input {
        Input::Normal(req) => match req {
            BookingInput::RequestSlot { user_id, name, email, day, time, apt_type } => {
                if pre.available(Slot { day, time }, apt_type.spec_dur()) {
                    lemma_mint_preserves_inv(
                        pre,
                        user_id,
                        name,
                        email,
                        Slot { day, time },
                        apt_type,
                    );
                }
            },
            BookingInput::RequestAuto { user_id, name, email, days, times, apt_type } => {
                match pre.find_slot_spec(days@, times@, apt_type.spec_dur()) {
                    Option::None => {},
                    Option::Some(slot) => {
                        lemma_mint_preserves_inv(pre, user_id, name, email, slot, apt_type);
                    },
                }
            },
        },
        Input::TrackedActionCompleted { id, res } => match res {
            PaymentResult::Success { amount_cents } => {
                lemma_success_preserves_inv(pre, id, amount_cents);
            },
            PaymentResult::Failed { .. } => {
                lemma_failed_preserves_inv(pre, id);
            },
            _ => {},
        },
    }
}

/// Adding a window to an existing calendar entry changes exactly that day's
/// windows and preserves well-formedness and the state invariant.
proof fn lemma_add_schedule_existing(
    pre: BookingModel,
    post: BookingModel,
    day: Day,
    range: TimeRange,
    i: int,
)
    requires
        pre.wf(),
        range.wf(),
        0 <= i < pre.schedule.len(),
        pre.schedule[i].0 == day,
        i == pre.sched_index(day),
        post.schedule.len() == pre.schedule.len(),
        post.schedule[i].0 == day,
        post.schedule[i].1@ == pre.schedule[i].1@.push(range),
        forall|k: int| 0 <= k < pre.schedule.len() && k != i ==> post.schedule[k] == pre.schedule[k],
        post.bookings == pre.bookings,
        post.pending == pre.pending,
        post.next_id == pre.next_id,
    ensures
        post.wf(),
        post.sched_has_day(day),
        post.sched_ranges(day) == pre.sched_ranges(day).push(range),
        forall|d: Day| d != day ==> #[trigger] post.sched_has_day(d) == pre.sched_has_day(d),
        forall|d: Day|
            d != day && pre.sched_has_day(d) ==> #[trigger] post.sched_ranges(d)
                == pre.sched_ranges(d),
        pre.inv() ==> post.inv(),
{
    assert(forall|k: int|
        0 <= k < post.schedule.len() ==> (#[trigger] post.schedule[k]).0 == pre.schedule[k].0);
    assert(post.sched_has_day(day));
    lemma_unique_key(post.schedule, i, post.sched_index(day));
    assert(post.sched_ranges(day) == pre.schedule[i].1@.push(range));
    assert forall|d: Day| d != day implies #[trigger] post.sched_has_day(d) == pre.sched_has_day(
        d,
    ) by {
        if pre.sched_has_day(d) {
            let k = choose|k: int|
                0 <= k < pre.schedule.len() && (#[trigger] pre.schedule[k]).0 == d;
            assert(post.schedule[k].0 == d);
        }
        if post.sched_has_day(d) {
            let k = choose|k: int|
                0 <= k < post.schedule.len() && (#[trigger] post.schedule[k]).0 == d;
            assert(pre.schedule[k].0 == d);
        }
    }
    assert forall|d: Day| d != day && pre.sched_has_day(d) implies #[trigger] post.sched_ranges(d)
        == pre.sched_ranges(d) by {
        let kp = pre.sched_index(d);
        assert(0 <= kp < pre.schedule.len() && pre.schedule[kp].0 == d);
        let kq = post.sched_index(d);
        assert(post.sched_has_day(d));
        assert(0 <= kq < post.schedule.len() && post.schedule[kq].0 == d);
        assert(pre.schedule[kq].0 == d);
        lemma_unique_key(pre.schedule, kp, kq);
        assert(kq != i);
    }
    if pre.inv() {
        assert forall|k: int| 0 <= k < post.bookings.len() implies post.day_can_fit(
            (#[trigger] post.bookings[k]).0,
            post.bookings[k].1.apt_type.spec_dur(),
        ) by {
            let slot = pre.bookings[k].0;
            let dur = pre.bookings[k].1.apt_type.spec_dur();
            assert(pre.day_can_fit(slot, dur));
            if slot.day == day {
                let j = choose|j: int|
                    0 <= j < pre.sched_ranges(day).len() && (#[trigger] pre.sched_ranges(
                        day,
                    )[j]).spec_can_fit(slot.time, dur);
                assert(post.sched_ranges(day)[j].spec_can_fit(slot.time, dur));
            } else {
                let j = choose|j: int|
                    0 <= j < pre.sched_ranges(slot.day).len() && (#[trigger] pre.sched_ranges(
                        slot.day,
                    )[j]).spec_can_fit(slot.time, dur);
                assert(post.sched_ranges(slot.day)[j].spec_can_fit(slot.time, dur));
            }
        }
    }
}

/// Adding a window for a day the calendar does not know yet appends a fresh
/// entry and preserves well-formedness and the state invariant.
proof fn lemma_add_schedule_new(pre: BookingModel, post: BookingModel, day: Day, range: TimeRange)
    requires
        pre.wf(),
        range.wf(),
        !pre.sched_has_day(day),
        post.schedule.len() == pre.schedule.len() + 1,
        post.schedule[pre.schedule.len() as int].0 == day,
        post.schedule[pre.schedule.len() as int].1@ == seq![range],
        forall|k: int| 0 <= k < pre.schedule.len() ==> post.schedule[k] == pre.schedule[k],
        post.bookings == pre.bookings,
        post.pending == pre.pending,
        post.next_id == pre.next_id,
    ensures
        post.wf(),
        post.sched_has_day(day),
        post.sched_ranges(day) == seq![range],
        forall|d: Day| d != day ==> #[trigger] post.sched_has_day(d) == pre.sched_has_day(d),
        forall|d: Day|
            d != day && pre.sched_has_day(d) ==> #[trigger] post.sched_ranges(d)
                == pre.sched_ranges(d),
        pre.inv() ==> post.inv(),
{
    let n = pre.schedule.len() as int;
    assert(post.sched_has_day(day));
    assert forall|a: int, b: int| 0 <= a < b < post.schedule.len() implies (
    #[trigger] post.schedule[a]).0 != (#[trigger] post.schedule[b]).0 by {
        if b == n {
            if post.schedule[a].0 == day {
                assert(pre.schedule[a].0 == day);
                assert(pre.sched_has_day(day));
            }
        }
    }
    lemma_unique_key(post.schedule, n, post.sched_index(day));
    assert(post.sched_ranges(day) == seq![range]);
    assert forall|d: Day| d != day implies #[trigger] post.sched_has_day(d) == pre.sched_has_day(
        d,
    ) by {
        if pre.sched_has_day(d) {
            let k = choose|k: int|
                0 <= k < pre.schedule.len() && (#[trigger] pre.schedule[k]).0 == d;
            assert(post.schedule[k].0 == d);
        }
        if post.sched_has_day(d) {
            let k = choose|k: int|
                0 <= k < post.schedule.len() && (#[trigger] post.schedule[k]).0 == d;
            assert(k != n);
            assert(pre.schedule[k].0 == d);
        }
    }
    assert forall|d: Day| d != day && pre.sched_has_day(d) implies #[trigger] post.sched_ranges(d)
        == pre.sched_ranges(d) by {
        let kp = pre.sched_index(d);
        assert(0 <= kp < pre.schedule.len() && pre.schedule[kp].0 == d);
        assert(post.schedule[kp].0 == d);
        assert(post.sched_has_day(d));
        let kq = post.sched_index(d);
        assert(0 <= kq < post.schedule.len() && post.schedule[kq].0 == d);
        assert(kq != n);
        assert(pre.schedule[kq].0 == d);
        lemma_unique_key(pre.schedule, kp, kq);
    }
    if pre.inv() {
        assert forall|k: int| 0 <= k < post.bookings.len() implies post.day_can_fit(
            (#[trigger] post.bookings[k]).0,
            post.bookings[k].1.apt_type.spec_dur(),
        ) by {
            let slot = pre.bookings[k].0;
            let dur = pre.bookings[k].1.apt_type.spec_dur();
            assert(pre.day_can_fit(slot, dur));
            assert(slot.day != day);
            let j = choose|j: int|
                0 <= j < pre.sched_ranges(slot.day).len() && (#[trigger] pre.sched_ranges(
                    slot.day,
                )[j]).spec_can_fit(slot.time, dur);
            assert(post.sched_ranges(slot.day)[j].spec_can_fit(slot.time, dur));
        }
    }
}

impl BookingSystem {
    /// The index of the pending request with identity `id`, if one exists.
    fn pending_lookup(&self, id: ReqId) -> (r: Option<usize>)
        ensures
            r matches Some(i) ==> i < self@.pending.len() && self@.pending[i as int].0 == id && (
            self@.wf() ==> i as int == self@.pending_index(id)),
            r is None ==> !self@.has_pending(id),
    {
        let mut i: usize = 0;
        while i < self.pending.len()
            invariant
                i <= self@.pending.len(),
                forall|k: int| 0 <= k < i ==> (#[trigger] self@.pending[k]).0 != id,
            decreases self@.pending.len() - i,
        {
            if self.pending[i].0 == id {
                proof {
                    if self@.wf() {
                        assert(self@.has_pending(id));
                        let j = self@.pending_index(id);
                        lemma_unique_key(self@.pending, i as int, j);
                    }
                }
                return Some(i);
            }
            i += 1;
        }
        None
    }

    /// Handles a request for an exact slot: validates availability, records
    /// the pending request under a fresh identity, then emits the tracked
    /// payment authorization carrying the appointment's price.
    pub fn handle_slot(
        &mut self,
        user_id: u64,
        name: String,
        email: String,
        slot: Slot,
        apt_type: AptType,
        actions: &mut Vec<BookingAction>,
    ) -> (r: Result<(), BookingError>)
        requires
            old(self)@.inv(),
        ensures
            final(self)@ == old(self)@.slot_request_spec(user_id, name, email, slot, apt_type).0,
            final(actions)@ == old(actions)@ + old(self)@.slot_request_spec(
                user_id,
                name,
                email,
                slot,
                apt_type,
            ).1,
            r == old(self)@.slot_request_spec(user_id, name, email, slot, apt_type).2,
            final(self)@.inv(),
            r is Err ==> *final(self) == *old(self),
    {
        let ghost pre = self@;
        let ghost sres = pre.slot_request_spec(user_id, name, email, slot, apt_type);
        proof {
            lemma_mint_preserves_inv(pre, user_id, name, email, slot, apt_type);
            assert(old(actions)@ + Seq::<BookingAction>::empty() =~= old(actions)@);
        }
        if !self.is_available(slot, apt_type.dur()) {
            return Err(BookingError::SlotNotAvailable);
        }
        if self.next_id == u64::MAX {
            return Err(BookingError::InvalidRequest);
        }
        let id = self.next_id;
        self.next_id = self.next_id + 1;
        self.pending.push(
            (
                id,
                PendingReq {
                    user_id,
                    name,
                    email,
                    slot: Some(slot),
                    apt_type,
                    status: ReqStatus::AwaitingPreauth,
                },
            ),
        );
        actions.push(
            Action::TrackedAction(
                TrackedAction::new(
                    id,
                    PaymentReq::Preauth {
                        user_id,
                        amount_cents: apt_type.price_cents(),
                        req_id: id,
                    },
                ),
            ),
        );
        proof {
            assert(self@ =~= sres.0);
            assert(actions@ =~= old(actions)@ + sres.1);
        }
        Ok(())
    }

    /// Handles an auto-search request: finds the first slot fitting the
    /// caller's preferences, then proceeds as for an exact slot.
    pub fn handle_auto(
        &mut self,
        user_id: u64,
        name: String,
        email: String,
        days: Vec<Day>,
        times: Vec<TimeRange>,
        apt_type: AptType,
        actions: &mut Vec<BookingAction>,
    ) -> (r: Result<(), BookingError>)
        requires
            old(self)@.inv(),
        ensures
            final(self)@ == old(self)@.auto_request_spec(
                user_id,
                name,
                email,
                days@,
                times@,
                apt_type,
            ).0,
            final(actions)@ == old(actions)@ + old(self)@.auto_request_spec(
                user_id,
                name,
                email,
                days@,
                times@,
                apt_type,
            ).1,
            r == old(self)@.auto_request_spec(user_id, name, email, days@, times@, apt_type).2,
            final(self)@.inv(),
            r is Err ==> *final(self) == *old(self),
    {
        let ghost pre = self@;
        let ghost sres = pre.auto_request_spec(user_id, name, email, days@, times@, apt_type);
        proof {
            assert(old(actions)@ + Seq::<BookingAction>::empty() =~= old(actions)@);
        }
        let found = self.find_slot(days.as_slice(), times.as_slice(), apt_type.dur());
        let slot = match found {
            Some(s) => s,
            None => {
                return Err(BookingError::NoSlotFound);
            },
        };
        proof {
            lemma_mint_preserves_inv(pre, user_id, name, email, slot, apt_type);
        }
        if self.next_id == u64::MAX {
            return Err(BookingError::InvalidRequest);
        }
        let id = self.next_id;
        self.next_id = self.next_id + 1;
        self.pending.push(
            (
                id,
                PendingReq {
                    user_id,
                    name,
                    email,
                    slot: Some(slot),
                    apt_type,
                    status: ReqStatus::AwaitingPreauth,
                },
            ),
        );
        actions.push(
            Action::TrackedAction(
                TrackedAction::new(
                    id,
                    PaymentReq::Preauth {
                        user_id,
                        amount_cents: apt_type.price_cents(),
                        req_id: id,
                    },
                ),
            ),
        );
        proof {
            assert(self@ =~= sres.0);
            assert(actions@ =~= old(actions)@ + sres.1);
        }
        Ok(())
    }

    /// Handles a successful payment authorization: re-validates the slot
    /// (the race check); if it is still free, inserts the booking and
    /// confirms the request; if the race was lost, marks the request
    /// `SlotTaken` and emits a compensating release — returning `Ok`, since
    /// losing the race is a legitimate outcome.
    pub fn handle_success(
        &mut self,
        req_id: ReqId,
        amount_cents: u32,
        actions: &mut Vec<BookingAction>,
    ) -> (r: Result<(), BookingError>)
        requires
            old(self)@.inv(),
        ensures
            final(self)@ == old(self)@.success_spec(req_id, amount_cents).0,
            final(actions)@ == old(actions)@ + old(self)@.success_spec(req_id, amount_cents).1,
            r == old(self)@.success_spec(req_id, amount_cents).2,
            final(self)@.inv(),
            r is Err ==> *final(self) == *old(self),
    {
        let ghost pre = self@;
        let ghost sres = pre.success_spec(req_id, amount_cents);
        proof {
            lemma_success_preserves_inv(pre, req_id, amount_cents);
            assert(old(actions)@ + Seq::<BookingAction>::empty() =~= old(actions)@);
        }
        let idx = match self.pending_lookup(req_id) {
            Some(i) => i,
            None => {
                return Err(BookingError::InvalidRequest);
            },
        };
        let slot = match self.pending[idx].1.slot {
            Some(s) => s,
            None => {
                return Err(BookingError::InvalidRequest);
            },
        };
        let apt_type = self.pending[idx].1.apt_type;
        let user_id = self.pending[idx].1.user_id;
        if !self.is_available(slot, apt_type.dur()) {
            self.pending[idx].1.status = ReqStatus::SlotTaken;
            actions.push(
                Action::TrackedAction(
                    TrackedAction::new(req_id, PaymentReq::Release { req_id }),
                ),
            );
            proof {
                assert(self@ =~= sres.0);
                assert(actions@ =~= old(actions)@ + sres.1);
            }
            return Ok(());
        }
        let name = self.pending[idx].1.name.clone();
        let email = self.pending[idx].1.email.clone();
        self.pending[idx].1.status = ReqStatus::SlotConfirmed;
        self.bookings.push(
            (
                slot,
                ConfirmedBooking { user_id, name, email, apt_type, amount_paid_cents: amount_cents },
            ),
        );
        proof {
            assert(self@ =~= sres.0);
            assert(actions@ =~= old(actions)@ + sres.1);
        }
        Ok(())
    }

    /// Handles a failed payment authorization: the request reaches the
    /// terminal `NoSlot` status and no booking is created.
    pub fn handle_failed(
        &mut self,
        req_id: ReqId,
        _reason: String,
        actions: &mut Vec<BookingAction>,
    ) -> (r: Result<(), BookingError>)
        requires
            old(self)@.inv(),
        ensures
            final(self)@ == old(self)@.failed_spec(req_id).0,
            final(actions)@ == old(actions)@ + old(self)@.failed_spec(req_id).1,
            r == old(self)@.failed_spec(req_id).2,
            final(self)@.inv(),
            r is Err ==> *final(self) == *old(self),
    {
        let ghost pre = self@;
        proof {
            lemma_failed_preserves_inv(pre, req_id);
            assert(old(actions)@ + Seq::<BookingAction>::empty() =~= old(actions)@);
        }
        let idx = match self.pending_lookup(req_id) {
            Some(i) => i,
            None => {
                return Err(BookingError::InvalidRequest);
            },
        };
        self.pending[idx].1.status = ReqStatus::NoSlot;
        proof {
            assert(self@ =~= pre.failed_spec(req_id).0);
        }
        Ok(())
    }
}

/// A sequence is a prefix of itself followed by anything.
proof fn lemma_append_prefix<A>(s: Seq<A>, t: Seq<A>)
    ensures
        s.is_prefix_of(s + t),
{
    assert(s =~= (s + t).subrange(0, s.len() as int));
}

impl StateMachine for BookingSystem {
    type TrackedAction = BookingTracked;

    type UntrackedAction = UntrackedAction;

    type Actions = Vec<BookingAction>;

    type State = BookingSystem;

    type Input = BookingInput;

    type TransitionError = BookingError;

    type RestoreError = ();

    open spec fn state_inv(state: BookingSystem) -> bool {
        state@.inv()
    }

    open spec fn restore_spec(state: BookingSystem) -> Seq<BookingAction> {
        BookingModel::restore_actions(state@.pending)
    }

    fn stf(
        state: &mut BookingSystem,
        input: Input<BookingTracked, BookingInput>,
        actions: &mut Vec<BookingAction>,
    ) -> (r: Result<(), BookingError>)
        ensures
            final(state)@ == old(state)@.transition_spec(input).0,
            final(actions)@ == old(actions)@ + old(state)@.transition_spec(input).1,
            r == old(state)@.transition_spec(input).2,
    {
        let r = match input {
            Input::Normal(req) => match req {
                BookingInput::RequestSlot { user_id, name, email, day, time, apt_type } => state
                    .handle_slot(user_id, name, email, Slot { day, time }, apt_type, actions),
                BookingInput::RequestAuto { user_id, name, email, days, times, apt_type } => state
                    .handle_auto(user_id, name, email, days, times, apt_type, actions),
            },
            Input::TrackedActionCompleted { id, res } => match res {
                PaymentResult::Success { amount_cents } => state.handle_success(
                    id,
                    amount_cents,
                    actions,
                ),
                PaymentResult::Failed { reason } => state.handle_failed(id, reason, actions),
                _ => {
                    proof {
                        assert(old(actions)@ + Seq::<BookingAction>::empty() =~= old(actions)@);
                    }
                    match state.pending_lookup(id) {
                        Some(_) => Ok(()),
                        None => Err(BookingError::InvalidRequest),
                    }
                },
            },
        };
        proof {
            lemma_append_prefix(old(actions)@, old(state)@.transition_spec(input).1);
        }
        r
    }

    fn restore(state: &BookingSystem, actions: &mut Vec<BookingAction>) -> (r: Result<(), ()>)
        ensures
            r is Ok,
    {
        actions.clear();
        let mut i: usize = 0;
        while i < state.pending.len()
            invariant
                i <= state@.pending.len(),
                actions@ == BookingModel::restore_actions(state@.pending.take(i as int)),
            decreases state@.pending.len() - i,
        {
            if pending_awaiting_at(state, i) {
                let id = state.pending[i].0;
                actions.push(
                    Action::TrackedAction(
                        TrackedAction::new(id, PaymentReq::CheckStatus { req_id: id }),
                    ),
                );
            }
            proof {
                assert(state@.pending.take(i as int + 1).drop_last() =~= state@.pending.take(
                    i as int,
                ));
                assert(state@.pending.take(i as int + 1).last() == state@.pending[i as int]);
            }
            i += 1;
        }
        proof {
            assert(state@.pending.take(state@.pending.len() as int) =~= state@.pending);
        }
        Ok(())
    }
}

/// Whether the pending request at index `i` still awaits its authorization.
fn pending_awaiting_at(state: &BookingSystem, i: usize) -> (r: bool)
    requires
        i < state@.pending.len(),
    ensures
        r == (state@.pending[i as int].1.status is AwaitingPreauth),
{
    match state.pending[i].1.status {
        ReqStatus::AwaitingPreauth => true,
        _ => false,
    }
}

/// The availability window `[h1:m1, h2:m2)`.
pub open spec fn window(h1: u8, m1: u8, h2: u8, m2: u8) -> TimeRange {
    TimeRange(Time(h1, m1), Time(h2, m2))
}

/// Whether two confirmed bookings keep out of each other's way: on the same
/// day, their intervals must not intersect.
pub open spec fn pair_disjoint(x: (Slot, ConfirmedBooking), y: (Slot, ConfirmedBooking)) -> bool {
    x.0.day == y.0.day ==> (x.0.time.spec_mins() + x.1.apt_type.spec_dur() <= y.0.time.spec_mins()
        || y.0.time.spec_mins() + y.1.apt_type.spec_dur() <= x.0.time.spec_mins())
}

impl BookingSystem {
    /// A system with a ready-made working week:
    /// Monday 9-12 and 14-17, Tuesday 9-12 and 13-16, Wednesday 9-12 and
    /// 14-18, Thursday 10-13 and 14-17, Friday 9-15.
    pub fn with_default_schedule() -> (r: BookingSystem)
        ensures
            r@.inv(),
            r@.bookings == Seq::<(Slot, ConfirmedBooking)>::empty(),
            r@.pending == Seq::<(ReqId, PendingReq)>::empty(),
            r.next_id == 1,
            r@.sched_ranges(Day::Monday) == seq![window(9, 0, 12, 0), window(14, 0, 17, 0)],
            r@.sched_ranges(Day::Tuesday) == seq![window(9, 0, 12, 0), window(13, 0, 16, 0)],
            r@.sched_ranges(Day::Wednesday) == seq![window(9, 0, 12, 0), window(14, 0, 18, 0)],
            r@.sched_ranges(Day::Thursday) == seq![window(10, 0, 13, 0), window(14, 0, 17, 0)],
            r@.sched_ranges(Day::Friday) == seq![window(9, 0, 15, 0)],
            r@.sched_has_day(Day::Monday),
            r@.sched_has_day(Day::Tuesday),
            r@.sched_has_day(Day::Wednesday),
            r@.sched_has_day(Day::Thursday),
            r@.sched_has_day(Day::Friday),
            !r@.sched_has_day(Day::Saturday),
            !r@.sched_has_day(Day::Sunday),
    {
        let mut system = Self::new();

        system.add_schedule(Day::Monday, TimeRange::new(Time::new(9, 0), Time::new(12, 0)));
        system.add_schedule(Day::Monday, TimeRange::new(Time::new(14, 0), Time::new(17, 0)));
        assert(system@.sched_ranges(Day::Monday) =~= seq![window(9, 0, 12, 0), window(14, 0, 17, 0)]);

        system.add_schedule(Day::Tuesday, TimeRange::new(Time::new(9, 0), Time::new(12, 0)));
        system.add_schedule(Day::Tuesday, TimeRange::new(Time::new(13, 0), Time::new(16, 0)));
        assert(system@.sched_ranges(Day::Tuesday) =~= seq![window(9, 0, 12, 0), window(13, 0, 16, 0)]);

        system.add_schedule(Day::Wednesday, TimeRange::new(Time::new(9, 0), Time::new(12, 0)));
        system.add_schedule(Day::Wednesday, TimeRange::new(Time::new(14, 0), Time::new(18, 0)));
        assert(system@.sched_ranges(Day::Wednesday) =~= seq![window(9, 0, 12, 0), window(14, 0, 18, 0)]);

        system.add_schedule(Day::Thursday, TimeRange::new(Time::new(10, 0), Time::new(13, 0)));
        system.add_schedule(Day::Thursday, TimeRange::new(Time::new(14, 0), Time::new(17, 0)));
        assert(system@.sched_ranges(Day::Thursday) =~= seq![window(10, 0, 13, 0), window(14, 0, 17, 0)]);

        system.add_schedule(Day::Friday, TimeRange::new(Time::new(9, 0), Time::new(15, 0)));
        assert(system@.sched_ranges(Day::Friday) =~= seq![window(9, 0, 15, 0)]);

        system
    }

    /// The index of the confirmed booking at `slot`, if one exists.
    fn booking_lookup(&self, slot: Slot) -> (r: Option<usize>)
        ensures
            r matches Some(i) ==> i < self@.bookings.len() && self@.bookings[i as int].0 == slot,
            r is None ==> !self@.has_booking(slot),
    {
        let mut i: usize = 0;
        while i < self.bookings.len()
            invariant
                i <= self@.bookings.len(),
                forall|k: int| 0 <= k < i ==> (#[trigger] self@.bookings[k]).0 != slot,
            decreases self@.bookings.len() - i,
        {
            if self.bookings[i].0 == slot {
                return Some(i);
            }
            i += 1;
        }
        None
    }

    /// Checks the semantic invariants of the state: no two confirmed
    /// bookings on the same day overlap, every booking fits a configured
    /// window, and every confirmed pending request points at an existing
    /// booking.  Returns a description of the first violation found.
    pub fn check_invariants(&self) -> (r: Result<(), String>)
        requires
            self@.wf(),
        ensures
            r is Ok <==> (self@.bookings_disjoint() && self@.bookings_contained()
                && self@.confirmed_consistent()),
    {
        let ghost m = self@;
        let n = self.bookings.len();
        let mut i: usize = 0;
        while i < n
            invariant
                self@ == m,
                self@.wf(),
                n == m.bookings.len(),
                i <= n,
                forall|a: int, b: int|
                    0 <= a < b < n && a < i ==> pair_disjoint(
                        #[trigger] m.bookings[a],
                        #[trigger] m.bookings[b],
                    ),
            decreases n - i,
        {
            let mut j: usize = i + 1;
            while j < n
                invariant
                    self@ == m,
                    self@.wf(),
                    n == m.bookings.len(),
                    i < j,
                    i < n,
                    j <= n,
                    forall|b: int|
                        i < b < j ==> pair_disjoint(
                            m.bookings[i as int],
                            #[trigger] m.bookings[b],
                        ),
                decreases n - j,
            {
                let s1 = self.bookings[i].0;
                let s2 = self.bookings[j].0;
                if s1.day == s2.day {
                    let e1: u32 = s1.time.to_mins() as u32 + self.bookings[i].1.apt_type.dur() as u32;
                    let e2: u32 = s2.time.to_mins() as u32 + self.bookings[j].1.apt_type.dur() as u32;
                    if (s1.time.to_mins() as u32) < e2 && (s2.time.to_mins() as u32) < e1 {
                        proof {
                            assert(!pair_disjoint(m.bookings[i as int], m.bookings[j as int]));
                            assert(!m.bookings_disjoint());
                        }
                        return Err(String::from_str("overlapping confirmed bookings"));
                    }
                }
                j += 1;
            }
            i += 1;
        }
        proof {
            assert forall|a: int, b: int|
                0 <= a < m.bookings.len() && 0 <= b < m.bookings.len() && a != b && (
                #[trigger] m.bookings[a]).0.day == (#[trigger] m.bookings[b]).0.day implies {
                let sa = m.bookings[a].0.time.spec_mins();
                let ea = sa + m.bookings[a].1.apt_type.spec_dur();
                let sb = m.bookings[b].0.time.spec_mins();
                let eb = sb + m.bookings[b].1.apt_type.spec_dur();
                ea <= sb || eb <= sa
            } by {
                if a < b {
                    assert(pair_disjoint(m.bookings[a], m.bookings[b]));
                } else {
                    assert(pair_disjoint(m.bookings[b], m.bookings[a]));
                }
            }
        }

        let mut k: usize = 0;
        while k < self.bookings.len()
            invariant
                self@ == m,
                self@.wf(),
                k <= m.bookings.len(),
                forall|t: int|
                    0 <= t < k ==> m.day_can_fit(
                        (#[trigger] m.bookings[t]).0,
                        m.bookings[t].1.apt_type.spec_dur(),
                    ),
            decreases m.bookings.len() - k,
        {
            let slot = self.bookings[k].0;
            let dur = self.bookings[k].1.apt_type.dur();
            if !self.day_fits(slot, dur) {
                proof {
                    assert(!m.bookings_contained());
                }
                return Err(String::from_str("booking does not fit the configured schedule"));
            }
            k += 1;
        }

        let mut q: usize = 0;
        while q < self.pending.len()
            invariant
                self@ == m,
                self@.wf(),
                q <= m.pending.len(),
                forall|t: int|
                    0 <= t < q && (#[trigger] m.pending[t]).1.status is SlotConfirmed
                        ==> m.pending[t].1.slot is Some && m.has_booking(
                        m.pending[t].1.slot.unwrap(),
                    ),
            decreases m.pending.len() - q,
        {
            let confirmed = match self.pending[q].1.status {
                ReqStatus::SlotConfirmed => true,
                _ => false,
            };
            if confirmed {
                match self.pending[q].1.slot {
                    None => {
                        proof {
                            assert(!m.confirmed_consistent());
                        }
                        return Err(String::from_str("confirmed request has no slot"));
                    },
                    Some(slot) => {
                        match self.booking_lookup(slot) {
                            None => {
                                proof {
                                    assert(!m.confirmed_consistent());
                                }
                                return Err(
                                    String::from_str("confirmed request's slot has no booking"),
                                );
                            },
                            Some(w) => {
                                proof {
                                    assert(m.has_booking(slot));
                                }
                            },
                        }
                    },
                }
            }
            q += 1;
        }
        Ok(())
    }
}

impl Default for BookingSystem {
    /// The same empty system as [`BookingSystem::new`].
    fn default() -> (r: BookingSystem)
        ensures
            r@ =~= (BookingModel {
                schedule: Seq::empty(),
                bookings: Seq::empty(),
                pending: Seq::empty(),
                next_id: 1,
            }),
            r@.inv(),
    {
        BookingSystem::new()
    }
}

impl BookingSystem {
    /// Decides the structural well-formedness of the state, so that a
    /// state reloaded from storage can be audited before it is driven:
    /// calendar days, booking slots and pending identities must be unique
    /// keys, every pending identity must lie below the counter, and every
    /// configured availability window must be a well-formed time range.
    pub fn is_well_formed(&self) -> (r: bool)
        ensures
            r == self@.wf(),
    {
        let ns = self.schedule.len();
        let mut i: usize = 0;
        while i < ns
            invariant
                ns == self@.schedule.len(),
                i <= ns,
                forall|a: int, b: int|
                    0 <= a < b < ns && a < i ==> (#[trigger] self@.schedule[a]).0 != (
                    #[trigger] self@.schedule[b]).0,
            decreases ns - i,
        {
            let mut j: usize = i + 1;
            while j < ns
                invariant
                    ns == self@.schedule.len(),
                    i < j,
                    j <= ns,
                    i < ns,
                    forall|b: int|
                        i < b < j ==> (#[trigger] self@.schedule[b]).0 != self@.schedule[i as int].0,
                decreases ns - j,
            {
                if self.schedule[i].0 == self.schedule[j].0 {
                    assert(!self@.keys_unique());
                    return false;
                }
                j += 1;
            }
            i += 1;
        }

        let nb = self.bookings.len();
        let mut i: usize = 0;
        while i < nb
            invariant
                nb == self@.bookings.len(),
                i <= nb,
                forall|a: int, b: int|
                    0 <= a < b < nb && a < i ==> (#[trigger] self@.bookings[a]).0 != (
                    #[trigger] self@.bookings[b]).0,
            decreases nb - i,
        {
            let mut j: usize = i + 1;
            while j < nb
                invariant
                    nb == self@.bookings.len(),
                    i < j,
                    j <= nb,
                    i < nb,
                    forall|b: int|
                        i < b < j ==> (#[trigger] self@.bookings[b]).0 != self@.bookings[i as int].0,
                decreases nb - j,
            {
                if self.bookings[i].0 == self.bookings[j].0 {
                    assert(!self@.keys_unique());
                    return false;
                }
                j += 1;
            }
            i += 1;
        }

        let np = self.pending.len();
        let mut i: usize = 0;
        while i < np
            invariant
                np == self@.pending.len(),
                i <= np,
                forall|a: int, b: int|
                    0 <= a < b < np && a < i ==> (#[trigger] self@.pending[a]).0 != (
                    #[trigger] self@.pending[b]).0,
            decreases np - i,
        {
            let mut j: usize = i + 1;
            while j < np
                invariant
                    np == self@.pending.len(),
                    i < j,
                    j <= np,
                    i < np,
                    forall|b: int|
                        i < b < j ==> (#[trigger] self@.pending[b]).0 != self@.pending[i as int].0,
                decreases np - j,
            {
                if self.pending[i].0 == self.pending[j].0 {
                    assert(!self@.keys_unique());
                    return false;
                }
                j += 1;
            }
            i += 1;
        }

        let mut q: usize = 0;
        while q < self.pending.len()
            invariant
                q <= self@.pending.len(),
                forall|a: int| 0 <= a < q ==> (#[trigger] self@.pending[a]).0 < self@.next_id,
            decreases self@.pending.len() - q,
        {
            if self.pending[q].0 >= self.next_id {
                assert(!self@.ids_bounded());
                return false;
            }
            q += 1;
        }

        let mut e: usize = 0;
        while e < self.schedule.len()
            invariant
                e <= self@.schedule.len(),
                forall|a: int, b: int|
                    0 <= a < e && 0 <= b < self@.schedule[a].1@.len()
                        ==> (#[trigger] self@.schedule[a].1@[b]).wf(),
            decreases self@.schedule.len() - e,
        {
            let ranges = &self.schedule[e].1;
            let mut w: usize = 0;
            while w < ranges.len()
                invariant
                    e < self@.schedule.len(),
                    ranges@ == self@.schedule[e as int].1@,
                    w <= ranges@.len(),
                    forall|a: int, b: int|
                        0 <= a < e && 0 <= b < self@.schedule[a].1@.len()
                            ==> (#[trigger] self@.schedule[a].1@[b]).wf(),
                    forall|b: int| 0 <= b < w ==> (#[trigger] self@.schedule[e as int].1@[b]).wf(),
                decreases ranges@.len() - w,
            {
                if !ranges[w].is_wf() {
                    assert(!self@.sched_ranges_wf());
                    return false;
                }
                w += 1;
            }
            e += 1;
        }

        true
    }
}

} // verus!
