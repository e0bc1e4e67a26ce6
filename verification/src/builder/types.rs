//! The kinds of state that a builder can declare.
use vstd::prelude::*;

verus! {

/// What a declared state is in the machine.
#[derive(Clone, Copy, Debug, PartialEq, Eq, Structural)]
pub enum NodeType {
    /// A state between start and end.
    State,
    /// A state that the initial marker leads to.
    Start,
    /// A state that ends the machine.
    End,
    /// A state that the initial marker leads to and that ends the machine.
    StartEnd,
}

impl NodeType {
    /// Whether a state of this kind starts the machine.
    pub open spec fn is_start(self) -> bool {
        self == NodeType::Start || self == NodeType::StartEnd
    }

    /// Whether a state of this kind ends the machine.
    pub open spec fn is_end(self) -> bool {
        self == NodeType::End || self == NodeType::StartEnd
    }

    /// Whether a state of this kind starts the machine.
    pub fn starts(self) -> (start: bool)
        ensures
            start == self.is_start(),
    {
        match self {
            NodeType::Start | NodeType::StartEnd => true,
            NodeType::State | NodeType::End => false,
        }
    }

    /// Whether a state of this kind ends the machine.
    pub fn ends(self) -> (end: bool)
        ensures
            end == self.is_end(),
    {
        match self {
            NodeType::End | NodeType::StartEnd => true,
            NodeType::State | NodeType::Start => false,
        }
    }
}

} // verus!
