//! The action model: descriptions of external side effects that a state
//! transition emits, and the container they are collected in.
//!
//! A *tracked* action has an identity and an eventual result that is fed back
//! into the state machine; an *untracked* action is fire-and-forget.

use vstd::prelude::*;

verus! {

/// The type-level grouping of a kind of tracked action: its identity type,
/// its request payload type and its result type.
pub trait TrackedActionTypes {
    /// Identifies a tracked action within a given state machine.
    type Id: core::fmt::Debug + PartialEq + Eq + PartialOrd;

    /// The request payload describing the action to be performed.
    type Action: core::fmt::Debug + PartialEq + Eq;

    /// The result of the action, delivered back as a later input.
    type Result: core::fmt::Debug;
}

/// A tracked action: an identity paired with its request payload.
#[derive(Debug, PartialEq, Eq)]
pub struct TrackedAction<Types: TrackedActionTypes> {
    pub action_id: Types::Id,
    pub action: Types::Action,
}

impl<Types: TrackedActionTypes> TrackedAction<Types> {
    pub fn new(action_id: Types::Id, action: Types::Action) -> (r: Self)
        ensures
            r == (TrackedAction::<Types> { action_id, action }),
    {
        TrackedAction { action_id, action }
    }
}

/// One emitted side-effect description.
#[derive(Debug, PartialEq, Eq)]
pub enum Action<UA, TATypes: TrackedActionTypes> {
    TrackedAction(TrackedAction<TATypes>),
    Untracked(UA),
}

/// A fallible, ordered, append-only container for [`Action`]s.
///
/// The engine only ever clears the container or appends to it; it never reads
/// its prior contents.  `contents` is the abstract sequence of actions held.
/// `infallible` says, per container type, whether its operations can fail at
/// all: failure means an allocation or storage failure, never a domain
/// error, and an in-memory container never fails.
pub trait ActionsContainer<UA, TA: TrackedActionTypes>: Sized {
    type Error;

    /// The actions currently held, in the order they were added.
    spec fn contents(&self) -> Seq<Action<UA, TA>>;

    /// Whether this container type's operations always succeed.
    spec fn infallible() -> bool;

    /// Creates an empty container; failure indicates an initialization
    /// failure of the storage medium, not a domain error.
    fn new() -> (r: Result<Self, Self::Error>)
        ensures
            Self::infallible() ==> r is Ok,
            r matches Ok(c) ==> c.contents() =~= Seq::<Action<UA, TA>>::empty(),
    ;

    /// Creates an empty container with a capacity hint.
    fn with_capacity(capacity: usize) -> (r: Result<Self, Self::Error>)
        ensures
            Self::infallible() ==> r is Ok,
            r matches Ok(c) ==> c.contents() =~= Seq::<Action<UA, TA>>::empty(),
    ;

    /// Empties the container.
    fn clear(&mut self) -> (r: Result<(), Self::Error>)
        ensures
            Self::infallible() ==> r is Ok,
            r is Ok ==> final(self).contents() =~= Seq::<Action<UA, TA>>::empty(),
    ;

    /// Appends one action, preserving the order of earlier additions.
    fn add(&mut self, action: Action<UA, TA>) -> (r: Result<(), Self::Error>)
        ensures
            Self::infallible() ==> r is Ok,
            r is Ok ==> final(self).contents() =~= old(self).contents().push(action),
    ;
}

/// The in-memory container: a vector of actions.  None of its operations
/// can fail.
impl<UA, TA: TrackedActionTypes> ActionsContainer<UA, TA> for Vec<Action<UA, TA>> {
    type Error = ();

    open spec fn contents(&self) -> Seq<Action<UA, TA>> {
        self@
    }

    open spec fn infallible() -> bool {
        true
    }

    fn new() -> (res: Result<Self, Self::Error>) {
        Ok(Vec::new())
    }

    fn with_capacity(capacity: usize) -> (res: Result<Self, Self::Error>) {
        Ok(Vec::with_capacity(capacity))
    }

    fn clear(&mut self) -> (r: Result<(), Self::Error>) {
        self.clear();
        Ok(())
    }

    fn add(&mut self, action: Action<UA, TA>) -> (r: Result<(), Self::Error>) {
        self.push(action);
        Ok(())
    }
}

} // verus!
