//! The errors of the library.
use vstd::prelude::*;

verus! {

/// A type model that would print plausible but wrong source.
#[derive(Debug, PartialEq, Eq)]
pub enum ModelError {
    /// A record already holds a field with this label.
    DuplicateField(String),
    /// A batch of fields holds this label more than once.
    RepeatedField(String),
    /// The field or type of this name uses a type variable that its head does not declare.
    UndeclaredTypeVariable(String),
    /// An enum's constructors and their source values differ in number.
    MismatchedEnumValues,
}

} // verus!
