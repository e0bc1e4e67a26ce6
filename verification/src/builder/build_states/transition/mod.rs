//! The phases in which a state's transitions are defined.
pub mod initial;
pub mod multi;

pub use initial::TransitionState;
pub use multi::TransitionsState;
