use vstd::prelude::*;
use crate::types::Location;

verus! {

/// Why a set of declarations does not form a valid module.
#[derive(Debug, Clone, PartialEq, Eq)]
pub enum ValidationError {
    /// A name is declared a second time.
    NameAlreadyExists { name: String, at_location: Location, previous_location: Location },
    /// A type reference names nothing that was declared.
    NameNotFound { name: String, use_location: Location },
    /// A struct or enum has no members.
    Empty { name: String, location: Location },
    /// A data type contains itself, directly or through other data types.
    Infinite { name: String, location: Location },
    /// A declaration has a shape that the module does not accept.
    Syntax { expected: &'static str, location: Location },
}

} // verus!
