//! The phases in which a state's triggers are defined.
pub mod end;
pub mod end_multi;
pub mod initial;
pub mod multi;

pub use end::EndTriggerState;
pub use end_multi::EndTriggersState;
pub use initial::TriggerState;
pub use multi::TriggersState;
