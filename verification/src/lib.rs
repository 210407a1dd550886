//! A framework for deterministic, crash-recoverable state machines that
//! coordinate external side effects through tracked actions.
//!
//! A state machine is driven by a *state transition function* (STF): a pure,
//! atomic function from a state and an input to a new state and a list of
//! action descriptions.  Side effects never happen inside the STF; it only
//! emits descriptions of them.  A *tracked* action carries an identity and is
//! recorded in the state before it is emitted, so that after a crash the
//! outstanding work can be regenerated from the state alone (`restore`).

pub mod actions;
pub mod booking;
pub mod laws;
pub mod types;

use crate::actions::{Action, ActionsContainer, TrackedActionTypes};
use vstd::prelude::*;
use vstd::seq_lib::*;

verus! {

/// Input to a state machine's transition function.
///
/// All non-deterministic data (time, random identifiers, results of external
/// operations) must enter the machine through an `Input` value; the
/// transition function itself is a pure function of state and input.
pub enum Input<TA: TrackedActionTypes, T> {
    /// A regular request from a user or an external system.
    Normal(T),
    /// The delivered result of a tracked action emitted by an earlier
    /// transition, identified by the same identity it was emitted under.
    TrackedActionCompleted { id: TA::Id, res: TA::Result },
}

/// A deterministic, atomic, crash-recoverable state machine.
///
/// The contract every implementation must uphold:
///
/// * **Atomicity** — if `stf` returns an error, the state is unchanged.
/// * **State validity** — `stf` preserves the implementation's state
///   invariant `state_inv`.
/// * **Append-only actions** — `stf` never reads or drops actions that were
///   already in the container; it only appends.
/// * **Recoverability** — `restore` fills the container with exactly
///   `restore_spec(state)`, a pure function of the state alone; hence two
///   calls on the same state produce the same action sequence.
pub trait StateMachine {
    /// Type grouping for tracked actions: retryable, restorable actions
    /// whose result is delivered back to the machine after completion.
    type TrackedAction: TrackedActionTypes;

    /// Type of untracked, fire-and-forget actions.
    type UntrackedAction;

    /// The container that actions produced by a transition are placed in.
    type Actions: ActionsContainer<Self::UntrackedAction, Self::TrackedAction>;

    /// State of the machine, owned by the caller and mutated in place.
    type State;

    /// Domain-specific input of a single transition.
    type Input;

    /// An error that can occur during a transition.
    type TransitionError;

    /// An error that can occur during restoration.
    type RestoreError;

    /// The invariant of the machine's state.  It holds of every reachable
    /// state: callers establish it when they construct the initial state,
    /// and `stf` preserves it.
    spec fn state_inv(state: Self::State) -> bool;

    /// The actions that `restore` regenerates: a pure function of the state.
    spec fn restore_spec(state: Self::State) -> Seq<
        Action<Self::UntrackedAction, Self::TrackedAction>,
    >;

    /// The state transition function.
    ///
    /// Inspects `input`, validates it against `state`, then either commits a
    /// new state and appends descriptions of the side effects to perform, or
    /// fails leaving the state untouched.  Actions are not covered by the
    /// atomicity guarantee; diagnostic actions may be appended even before
    /// an error return.
    fn stf(
        state: &mut Self::State,
        input: Input<Self::TrackedAction, Self::Input>,
        actions: &mut Self::Actions,
    ) -> (r: Result<(), Self::TransitionError>)
        requires
            Self::state_inv(*old(state)),
        ensures
            Self::state_inv(*final(state)),
            r is Err ==> *final(state) == *old(state),
            (*old(actions)).contents().is_prefix_of((*final(actions)).contents()),
    ;

    /// Regenerates the tracked actions that are still outstanding, from the
    /// state alone.  Used once at startup, after the state has been reloaded
    /// from persistent storage, to re-dispatch exactly the operations whose
    /// results are still owed.  The container is cleared first, so on
    /// success it holds exactly `restore_spec(state)`.
    fn restore(state: &Self::State, actions: &mut Self::Actions) -> (r: Result<
        (),
        Self::RestoreError,
    >)
        ensures
            r is Ok ==> (*final(actions)).contents() == Self::restore_spec(*state),
    ;
}

} // verus!
