//! The global guarantees of the booking machine, stated and proved over the
//! mathematical model of its transition function.
//!
//! The invariant itself is established by the constructors
//! ([`crate::booking::BookingSystem::new`] and friends) and preserved by
//! every transition ([`crate::booking::lemma_transition_preserves_inv`]), so
//! what is proved here of states satisfying the invariant holds of every
//! reachable state.

use crate::actions::Action;
use crate::booking::{
    check_action, BookingAction, BookingInput, BookingModel, BookingTracked, ReqId,
};
use crate::types::{Day, PendingReq, Slot, Time, TimeRange};
use crate::Input;
use vstd::math::{max, min};
use vstd::prelude::*;

verus! {

/// **Atomicity.**  A transition that returns an error leaves the state
/// exactly as it was: every validation happens before any mutation, so
/// there is no partial-failure state.
pub proof fn lemma_transition_atomic(pre: BookingModel, input: Input<BookingTracked, BookingInput>)
    ensures
        pre.transition_spec(input).2 is Err ==> pre.transition_spec(input).0 == pre,
{
}

/// **Determinism.**  The transition is a pure function of the state and the
/// input: replaying an input on an identical state yields an identical new
/// state, identical actions in identical order, and an identical result.
pub proof fn lemma_transition_deterministic(
    s1: BookingModel,
    s2: BookingModel,
    i1: Input<BookingTracked, BookingInput>,
    i2: Input<BookingTracked, BookingInput>,
)
    requires
        s1 == s2,
        i1 == i2,
    ensures
        s1.transition_spec(i1) == s2.transition_spec(i2),
{
}

/// **No overlap.**  In every state satisfying the invariant, two distinct
/// confirmed bookings on the same day occupy disjoint intervals.
pub proof fn lemma_no_overlap(m: BookingModel, i: int, j: int)
    requires
        m.inv(),
        0 <= i < m.bookings.len(),
        0 <= j < m.bookings.len(),
        i != j,
        m.bookings[i].0.day == m.bookings[j].0.day,
    ensures
        m.bookings[i].0.time.spec_mins() + m.bookings[i].1.apt_type.spec_dur()
            <= m.bookings[j].0.time.spec_mins() || m.bookings[j].0.time.spec_mins()
            + m.bookings[j].1.apt_type.spec_dur() <= m.bookings[i].0.time.spec_mins(),
{
}

/// **Containment.**  In every state satisfying the invariant, every
/// confirmed booking's interval lies within a configured availability
/// window for its day.
pub proof fn lemma_containment(m: BookingModel, i: int)
    requires
        m.inv(),
        0 <= i < m.bookings.len(),
    ensures
        m.day_can_fit(m.bookings[i].0, m.bookings[i].1.apt_type.spec_dur()),
{
}

/// How many tracked actions in `acts` reference the identity `id`.
pub open spec fn tracked_count(acts: Seq<BookingAction>, id: ReqId) -> int
    decreases acts.len(),
{
    if acts.len() == 0 {
        0
    } else {
        tracked_count(acts.drop_last(), id) + (
        if acts.last() matches Action::TrackedAction(ta) && ta.action_id == id {
            1int
        } else {
            0int
        })
    }
}

/// Whether `pending` holds a record with identity `id` that still awaits
/// its authorization.
pub open spec fn has_awaiting(pending: Seq<(ReqId, PendingReq)>, id: ReqId) -> bool {
    exists|i: int|
        0 <= i < pending.len() && (#[trigger] pending[i]).0 == id && pending[i].1.status
            is AwaitingPreauth
}

/// **Tracked-action durability.**  For every pending record that still
/// awaits its authorization, restoration regenerates exactly one tracked
/// action referencing that record's identity — and none for any other
/// identity.
pub proof fn lemma_restore_covers_awaiting(pending: Seq<(ReqId, PendingReq)>, id: ReqId)
    requires
        forall|a: int, b: int|
            0 <= a < b < pending.len() ==> (#[trigger] pending[a]).0 != (#[trigger] pending[b]).0,
    ensures
        tracked_count(BookingModel::restore_actions(pending), id) == (
        if has_awaiting(pending, id) {
            1int
        } else {
            0int
        }),
    decreases pending.len(),
{
    if pending.len() == 0 {
    } else {
        let init = pending.drop_last();
        let last = pending.last();
        let n = pending.len() as int;
        assert forall|a: int, b: int| 0 <= a < b < init.len() implies (#[trigger] init[a]).0 != (
        #[trigger] init[b]).0 by {
            assert(init[a] == pending[a]);
            assert(init[b] == pending[b]);
        }
        lemma_restore_covers_awaiting(init, id);
        let acts = BookingModel::restore_actions(pending);
        let iacts = BookingModel::restore_actions(init);
        if last.1.status is AwaitingPreauth {
            assert(acts == iacts.push(check_action(last.0)));
            assert(acts.drop_last() =~= iacts);
            assert(acts.last() == check_action(last.0));
            if id == last.0 {
                if has_awaiting(init, id) {
                    let w = choose|i: int|
                        0 <= i < init.len() && (#[trigger] init[i]).0 == id && init[i].1.status
                            is AwaitingPreauth;
                    assert(init[w] == pending[w]);
                    assert(pending[w].0 == pending[n - 1].0);
                    assert(false);
                }
                assert(pending[n - 1].0 == id && pending[n - 1].1.status is AwaitingPreauth);
                assert(has_awaiting(pending, id));
            } else {
                if has_awaiting(pending, id) {
                    let w = choose|i: int|
                        0 <= i < pending.len() && (#[trigger] pending[i]).0 == id
                            && pending[i].1.status is AwaitingPreauth;
                    assert(w != n - 1);
                    assert(init[w] == pending[w]);
                    assert(has_awaiting(init, id));
                }
                if has_awaiting(init, id) {
                    let w = choose|i: int|
                        0 <= i < init.len() && (#[trigger] init[i]).0 == id && init[i].1.status
                            is AwaitingPreauth;
                    assert(pending[w] == init[w]);
                    assert(has_awaiting(pending, id));
                }
            }
        } else {
            assert(acts == iacts);
            if has_awaiting(pending, id) {
                let w = choose|i: int|
                    0 <= i < pending.len() && (#[trigger] pending[i]).0 == id && pending[i].1.status
                        is AwaitingPreauth;
                assert(w != n - 1);
                assert(init[w] == pending[w]);
                assert(has_awaiting(init, id));
            }
            if has_awaiting(init, id) {
                let w = choose|i: int|
                    0 <= i < init.len() && (#[trigger] init[i]).0 == id && init[i].1.status
                        is AwaitingPreauth;
                assert(pending[w] == init[w]);
                assert(has_awaiting(pending, id));
            }
        }
    }
}

/// **Idempotent restore.**  The restored action sequence is a pure function
/// of the state's pending table alone, so two restorations of the same
/// state produce identical action sequences.
pub proof fn lemma_restore_idempotent(
    pending: Seq<(ReqId, PendingReq)>,
    c1: Seq<BookingAction>,
    c2: Seq<BookingAction>,
)
    requires
        c1 == BookingModel::restore_actions(pending),
        c2 == BookingModel::restore_actions(pending),
    ensures
        c1 == c2,
{
}

/// A slot returned by the ascending scan of one day is its earliest
/// available candidate at or after `t`.
proof fn lemma_day_first_fit_sound(
    m: BookingModel,
    day: Day,
    prefs: Seq<TimeRange>,
    dur: u16,
    t: int,
    c: int,
)
    requires
        m.day_first_fit(day, prefs, dur, t) == Some(c),
    ensures
        t <= c < 1440,
        m.candidate_available(day, prefs, dur, c),
        forall|u: int| t <= u < c ==> !#[trigger] m.candidate_available(day, prefs, dur, u),
    decreases 1440 - t,
{
    assert(0 <= t < 1440);
    if m.candidate_available(day, prefs, dur, t) {
    } else {
        lemma_day_first_fit_sound(m, day, prefs, dur, t + 1, c);
        assert forall|u: int| t <= u < c implies !#[trigger] m.candidate_available(
            day,
            prefs,
            dur,
            u,
        ) by {
            if u > t {
                assert(!m.candidate_available(day, prefs, dur, u));
            }
        }
    }
}

/// When the ascending scan of one day reports nothing from `t` on, no
/// candidate at or after `t` is available.
proof fn lemma_day_first_fit_none(
    m: BookingModel,
    day: Day,
    prefs: Seq<TimeRange>,
    dur: u16,
    t: int,
    c: int,
)
    requires
        m.day_first_fit(day, prefs, dur, t) is None,
        0 <= t <= c < 1440,
    ensures
        !m.candidate_available(day, prefs, dur, c),
    decreases c - t,
{
    if c > t {
        lemma_day_first_fit_none(m, day, prefs, dur, t + 1, c);
    }
}

/// Under a well-formed calendar, every candidate start time of a
/// configured day lies on the 24-hour clock.
proof fn lemma_candidate_in_day(m: BookingModel, day: Day, prefs: Seq<TimeRange>, dur: u16, c: int)
    requires
        m.wf(),
        m.sched_has_day(day),
        m.qualifies(day, prefs, dur, c),
    ensures
        0 <= c < 1440,
{
    let (j, k) = choose|j: int, k: int|
        0 <= j < m.sched_ranges(day).len() && 0 <= k < prefs.len()
            && BookingModel::pair_candidate(
            #[trigger] m.sched_ranges(day)[j],
            #[trigger] prefs[k],
            dur,
            c,
        );
    assert(m.schedule[m.sched_index(day)].1@[j].wf());
    assert(m.sched_ranges(day)[j].1.spec_mins() <= 1439);
}

/// **Per-day exhaustion.**  When the ascending scan of a day finds
/// nothing, no candidate start time of that day is available.
pub proof fn lemma_day_candidates_exhausted(
    m: BookingModel,
    day: Day,
    prefs: Seq<TimeRange>,
    dur: u16,
    c: int,
)
    requires
        m.wf(),
        m.sched_has_day(day),
        m.day_first_fit(day, prefs, dur, 0) is None,
        m.qualifies(day, prefs, dur, c),
    ensures
        !m.available(Slot { day, time: Time::spec_from_mins(c) }, dur),
{
    lemma_candidate_in_day(m, day, prefs, dur, c);
    lemma_day_first_fit_none(m, day, prefs, dur, 0, c);
}

/// A slot found from day index `di` on comes from the first remaining day
/// with any available candidate, at that day's earliest candidate time.
proof fn lemma_find_from_sound(
    m: BookingModel,
    days: Seq<Day>,
    prefs: Seq<TimeRange>,
    dur: u16,
    di: int,
    s: Slot,
)
    requires
        0 <= di,
        m.find_from(days, prefs, dur, di) == Some(s),
    ensures
        exists|d: int|
            di <= d < days.len() && #[trigger] days[d] == s.day && m.day_first_fit(
                days[d],
                prefs,
                dur,
                0,
            ) == Some(s.time.spec_mins() as int) && (forall|d2: int|
                di <= d2 < d && m.sched_has_day(#[trigger] days[d2]) ==> m.day_first_fit(
                    days[d2],
                    prefs,
                    dur,
                    0,
                ) is None),
        m.candidate_available(s.day, prefs, dur, s.time.spec_mins()),
    decreases days.len() - di,
{
    if 0 <= di < days.len() {
        let day = days[di];
        if m.sched_has_day(day) && m.day_first_fit(day, prefs, dur, 0) is Some {
            let c = m.day_first_fit(day, prefs, dur, 0).unwrap();
            lemma_day_first_fit_sound(m, day, prefs, dur, 0, c);
            assert((c / 60) * 60 + (c % 60) == c);
            assert(s.time.spec_mins() == c);
            assert(days[di] == s.day && m.day_first_fit(days[di], prefs, dur, 0) == Some(
                s.time.spec_mins() as int,
            ) && (forall|d2: int|
                di <= d2 < di && m.sched_has_day(#[trigger] days[d2]) ==> m.day_first_fit(
                    days[d2],
                    prefs,
                    dur,
                    0,
                ) is None));
        } else {
            lemma_find_from_sound(m, days, prefs, dur, di + 1, s);
            let d = choose|d: int|
                di + 1 <= d < days.len() && #[trigger] days[d] == s.day && m.day_first_fit(
                    days[d],
                    prefs,
                    dur,
                    0,
                ) == Some(s.time.spec_mins() as int) && (forall|d2: int|
                    di + 1 <= d2 < d && m.sched_has_day(#[trigger] days[d2]) ==> m.day_first_fit(
                        days[d2],
                        prefs,
                        dur,
                        0,
                    ) is None);
            assert forall|d2: int|
                di <= d2 < d && m.sched_has_day(#[trigger] days[d2]) implies m.day_first_fit(
                days[d2],
                prefs,
                dur,
                0,
            ) is None by {
                if d2 == di {
                    assert(m.day_first_fit(days[di], prefs, dur, 0) is None);
                }
            }
        }
    }
}

/// When the search from day index `di` on reports nothing, every remaining
/// configured day's scan reports nothing.
proof fn lemma_find_from_none(
    m: BookingModel,
    days: Seq<Day>,
    prefs: Seq<TimeRange>,
    dur: u16,
    di: int,
    d: int,
)
    requires
        m.find_from(days, prefs, dur, di) is None,
        0 <= di <= d < days.len(),
        m.sched_has_day(days[d]),
    ensures
        m.day_first_fit(days[d], prefs, dur, 0) is None,
    decreases d - di,
{
    if d > di {
        lemma_find_from_none(m, days, prefs, dur, di + 1, d);
    }
}

/// **Auto-search soundness and first-fit order.**  Whatever the search
/// returns is an available slot on one of the requested days, starting and
/// ending within one of the caller's preferred windows; no earlier
/// candidate time of that day is available, and every requested day tried
/// before it had no available candidate at all.
pub proof fn lemma_find_slot_sound(
    m: BookingModel,
    days: Seq<Day>,
    prefs: Seq<TimeRange>,
    dur: u16,
    s: Slot,
)
    requires
        m.find_slot_spec(days, prefs, dur) == Some(s),
    ensures
        m.available(s, dur),
        m.qualifies(s.day, prefs, dur, s.time.spec_mins()),
        exists|k: int|
            0 <= k < prefs.len() && (#[trigger] prefs[k]).0.spec_mins() <= s.time.spec_mins()
                && s.time.spec_mins() + dur <= prefs[k].1.spec_mins(),
        forall|u: int|
            0 <= u < s.time.spec_mins() ==> !#[trigger] m.candidate_available(
                s.day,
                prefs,
                dur,
                u,
            ),
        exists|d: int|
            0 <= d < days.len() && #[trigger] days[d] == s.day && (forall|d2: int|
                0 <= d2 < d && m.sched_has_day(#[trigger] days[d2]) ==> m.day_first_fit(
                    days[d2],
                    prefs,
                    dur,
                    0,
                ) is None),
{
    lemma_find_from_sound(m, days, prefs, dur, 0, s);
    let d = choose|d: int|
        0 <= d < days.len() && #[trigger] days[d] == s.day && m.day_first_fit(
            days[d],
            prefs,
            dur,
            0,
        ) == Some(s.time.spec_mins() as int) && (forall|d2: int|
            0 <= d2 < d && m.sched_has_day(#[trigger] days[d2]) ==> m.day_first_fit(
                days[d2],
                prefs,
                dur,
                0,
            ) is None);
    lemma_day_first_fit_sound(m, days[d], prefs, dur, 0, s.time.spec_mins() as int);
    let (j, k) = choose|j: int, k: int|
        0 <= j < m.sched_ranges(s.day).len() && 0 <= k < prefs.len()
            && BookingModel::pair_candidate(
            #[trigger] m.sched_ranges(s.day)[j],
            #[trigger] prefs[k],
            dur,
            s.time.spec_mins() as int,
        );
    assert(prefs[k].0.spec_mins() <= s.time.spec_mins() && s.time.spec_mins() + dur
        <= prefs[k].1.spec_mins());
}

/// **Auto-search completeness.**  When the search reports that no slot
/// exists, then indeed no candidate is available: on every requested day
/// with a calendar entry, every start time drawn from the overlap of a
/// calendar window with a preferred window in 15-minute steps, whose
/// interval fits in the overlap, is unavailable.
pub proof fn lemma_find_slot_complete(
    m: BookingModel,
    days: Seq<Day>,
    prefs: Seq<TimeRange>,
    dur: u16,
    d: int,
    c: int,
)
    requires
        m.wf(),
        m.find_slot_spec(days, prefs, dur) is None,
        0 <= d < days.len(),
        m.sched_has_day(days[d]),
        m.qualifies(days[d], prefs, dur, c),
    ensures
        !m.available(Slot { day: days[d], time: Time::spec_from_mins(c) }, dur),
{
    lemma_find_from_none(m, days, prefs, dur, 0, d);
    lemma_day_candidates_exhausted(m, days[d], prefs, dur, c);
}

} // verus!
