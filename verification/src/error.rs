//! Error taxonomy of the roster engine.

use vstd::prelude::*;

verus! {

/// The kinds of entity an identifier can refer to; used by [`VentError::NotFound`]
/// to say what was absent.
#[derive(Clone, Copy, Debug, PartialEq, Eq, Structural)]
pub enum Entity {
    Event,
    Person,
    ParticipantRelation,
    PrefectRelation,
    Photo,
}

/// The form fields that validation can reject.
#[derive(Clone, Copy, Debug, PartialEq, Eq, Structural)]
pub enum FormField {
    EventName,
    Date,
    Location,
    Teacher,
    FirstName,
    Surname,
}

/// Why a form field was rejected.
#[derive(Clone, Copy, Debug, PartialEq, Eq, Structural)]
pub enum ValidationReason {
    BadDateFormat,
    EmptyRequiredField,
}

/// The failures a roster operation can report.
///
/// Every kind aborts the operation that raised it; the non-fatal
/// filesystem condition of the photo-deletion policy is not an error and is
/// reported through [`crate::store::PhotoDeleteReport`] instead.
#[derive(Clone, Copy, Debug, PartialEq, Eq, Structural)]
pub enum VentError {
    /// The identified entity does not exist in the store.
    NotFound { entity: Entity, id: i32 },
    /// The (person, event) pair already has a relation of the requested kind.
    Conflict,
    /// A form field failed validation.
    Validation { field: FormField, reason: ValidationReason },
    /// The underlying store failed; raised only by store adapters outside
    /// this library, never by the in-memory store itself.
    Store,
}

impl VentError {
    /// A short stable label for each error kind, for logging and rendering.
    pub fn label(&self) -> (r: &'static str)
        ensures
            self is NotFound ==> r@ == "not found"@,
            self is Conflict ==> r@ == "conflict"@,
            self is Validation ==> r@ == "validation"@,
            self is Store ==> r@ == "store"@,
    {
        match self {
            VentError::NotFound { .. } => "not found",
            VentError::Conflict => "conflict",
            VentError::Validation { .. } => "validation",
            VentError::Store => "store",
        }
    }
}

} // verus!
