//! Operation names of the issue command-line front end.
//!
//! The issue front end itself — argument words, editor round trips,
//! rendering — lives at the edge, outside the node service core; the core
//! keeps only the operation vocabulary it is driven with.

use vstd::prelude::*;

verus! {

/// The operations the issue front end can be asked to perform.
#[derive(Default, Debug, PartialEq, Eq, Structural, Clone, Copy)]
pub enum OperationName {
    Create,
    Delete,
    #[default]
    List,
    React,
    Show,
    State,
}

impl OperationName {
    /// Whether this operation needs an issue identifier on the command line.
    pub fn needs_id(self) -> (r: bool)
        ensures
            r == !(self == OperationName::Create || self == OperationName::List),
    {
        match self {
            OperationName::Create => false,
            OperationName::List => false,
            _ => true,
        }
    }
}

} // verus!
