//! Markers for the phases that a builder passes through.
//!
//! A builder's phase is part of its type, so that each phase offers only the
//! declarations that are in order there.
use vstd::prelude::*;

verus! {

/// A phase of a builder.
pub trait Phase {
    /// Whether a builder in this phase is defining a state that has
    /// transitions: the current state may then still be without one, and is
    /// the only state that may.
    spec fn defining() -> bool;

    /// Whether a builder in this phase has declared a start state.
    spec fn begun() -> bool;
}

/// Nothing is declared yet: a start state comes first.
pub struct InitialPhase;

/// A state that has transitions was declared: its first trigger, if any,
/// comes next.
pub struct TriggerPhase;

/// A state that has transitions defines further triggers.
pub struct TriggersPhase;

/// A state's triggers are defined: its first transition comes next.
pub struct TransitionPhase;

/// A state defines further transitions.
pub struct TransitionsPhase;

/// An end state was declared: its first trigger, if any, comes next.
pub struct EndTriggerPhase;

/// An end state defines further triggers.
pub struct EndTriggersPhase;

/// A state is fully defined: another state comes next, or the definition is
/// built.
pub struct BuilderPhase;

impl Phase for InitialPhase {
    open spec fn defining() -> bool {
        false
    }

    open spec fn begun() -> bool {
        false
    }
}

impl Phase for TriggerPhase {
    open spec fn defining() -> bool {
        true
    }

    open spec fn begun() -> bool {
        true
    }
}

impl Phase for TriggersPhase {
    open spec fn defining() -> bool {
        true
    }

    open spec fn begun() -> bool {
        true
    }
}

impl Phase for TransitionPhase {
    open spec fn defining() -> bool {
        true
    }

    open spec fn begun() -> bool {
        true
    }
}

impl Phase for TransitionsPhase {
    open spec fn defining() -> bool {
        true
    }

    open spec fn begun() -> bool {
        true
    }
}

impl Phase for EndTriggerPhase {
    open spec fn defining() -> bool {
        false
    }

    open spec fn begun() -> bool {
        true
    }
}

impl Phase for EndTriggersPhase {
    open spec fn defining() -> bool {
        false
    }

    open spec fn begun() -> bool {
        true
    }
}

impl Phase for BuilderPhase {
    open spec fn defining() -> bool {
        false
    }

    open spec fn begun() -> bool {
        true
    }
}

} // verus!
