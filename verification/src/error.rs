//! The ways in which a lock graph can break the rules of its own model.

use vstd::prelude::*;

verus! {

/// A lock graph that contradicts itself or has a shape that is not
/// supported. Such a graph is never judged: the run that meets it ends.
#[derive(Clone, Copy, Debug, PartialEq, Eq, Structural)]
pub enum ModelError {
    /// The node that the graph names as its root is not among its nodes.
    MissingRoot,
    /// An input of the root refers to a node that is not among the nodes.
    DanglingReference,
    /// An input of the root follows another input instead of naming a node.
    RootInputFollows,
    /// An input follows a chain of no names at all.
    EmptyFollows,
    /// An input follows a chain of more than one name.
    TransitiveFollows,
}

impl ModelError {
    /// The text that `message` gives for this error.
    pub open spec fn message_text(self) -> Seq<char> {
        match self {
            ModelError::MissingRoot => "metadata locks should have root node"@,
            ModelError::DanglingReference => "metadata should have node referenced by root inputs"@,
            ModelError::RootInputFollows => "expected root node inputs to never follow"@,
            ModelError::EmptyFollows => "metadata has a follows attribute with 0 elements"@,
            ModelError::TransitiveFollows => "follow chains of depth greater than 1 are not supported"@,
        }
    }

    /// Whether the graph is well formed but of a shape that is not supported.
    pub fn is_unsupported(&self) -> (unsupported: bool)
        ensures
            unsupported == (*self == ModelError::TransitiveFollows),
    {
        match self {
            ModelError::TransitiveFollows => true,
            _ => false,
        }
    }

    /// A sentence that says what is wrong with the graph.
    pub fn message(&self) -> (text: String)
        ensures
            text@ == self.message_text(),
    {
        match self {
            ModelError::MissingRoot => "metadata locks should have root node".to_owned(),
            ModelError::DanglingReference => "metadata should have node referenced by root inputs".to_owned(),
            ModelError::RootInputFollows => "expected root node inputs to never follow".to_owned(),
            ModelError::EmptyFollows => "metadata has a follows attribute with 0 elements".to_owned(),
            ModelError::TransitiveFollows => "follow chains of depth greater than 1 are not supported".to_owned(),
        }
    }
}

} // verus!
