//! Errors found while a program is assembled.

use vstd::prelude::*;
use vstd::string::StringExecFns;
use crate::debug::{decimal, decimal_string};
use crate::ports::PortId;

verus! {

/// An error in the structure of a reactor program. It is found before any
/// reaction runs, and it ends the program.
#[derive(Clone, Copy, Debug, PartialEq, Eq, Structural)]
pub enum AssemblyError {
    /// Binding the first port to the second would close a cycle: the first
    /// is already downstream of the second.
    CyclicDependency(PortId, PortId),
    /// The first port cannot be bound to the second: the second already has
    /// an upstream, a reaction writes to it, or their kinds and places do not
    /// allow a connection.
    CannotBind(PortId, PortId),
    /// The port cannot be written to: it takes its value from an upstream
    /// port, or the reaction has not declared the write.
    CannotSet(PortId),
    /// The reactor already holds a component of that name; the number is the
    /// position of the name among the names given so far.
    DuplicateName(usize),
}

impl AssemblyError {
    /// The message that goes with the error; ports and names are given by
    /// their numbers.
    pub open spec fn message_spec(self) -> Seq<char> {
        match self {
            AssemblyError::CyclicDependency(upstream, downstream) => "Port "@ + decimal(
                upstream.0 as nat,
            ) + " is already in the downstream of port "@ + decimal(downstream.0 as nat),
            AssemblyError::CannotBind(upstream, downstream) => "Cannot bind "@ + decimal(
                upstream.0 as nat,
            ) + " to "@ + decimal(downstream.0 as nat) + ", downstream is already bound"@,
            AssemblyError::CannotSet(port) => "Cannot set "@ + decimal(port.0 as nat)
                + " explicitly as it is bound"@,
            AssemblyError::DuplicateName(index) => "Name "@ + decimal(index as nat)
                + " is already used"@,
        }
    }

    /// The message that goes with the error.
    pub fn message(&self) -> (s: String)
        ensures
            s@ == self.message_spec(),
    {
        match self {
            AssemblyError::CyclicDependency(upstream, downstream) => {
                let mut s = String::from_str("Port ");
                s.append(decimal_string(upstream.0 as u64).as_str());
                s.append(" is already in the downstream of port ");
                s.append(decimal_string(downstream.0 as u64).as_str());
                s
            },
            AssemblyError::CannotBind(upstream, downstream) => {
                let mut s = String::from_str("Cannot bind ");
                s.append(decimal_string(upstream.0 as u64).as_str());
                s.append(" to ");
                s.append(decimal_string(downstream.0 as u64).as_str());
                s.append(", downstream is already bound");
                s
            },
            AssemblyError::CannotSet(port) => {
                let mut s = String::from_str("Cannot set ");
                s.append(decimal_string(port.0 as u64).as_str());
                s.append(" explicitly as it is bound");
                s
            },
            AssemblyError::DuplicateName(index) => {
                let mut s = String::from_str("Name ");
                s.append(decimal_string(*index as u64).as_str());
                s.append(" is already used");
                s
            },
        }
    }
}

} // verus!
