//! Outcomes of failed operations and their mapping to reply statuses.

use vstd::prelude::*;

verus! {

/// What was wrong with a request, found before any write.
#[derive(Clone, Copy, Debug, PartialEq, Eq, Structural)]
pub enum ValidationFault {
    /// The name is not 2 to 100 characters long.
    NameLength,
    /// The monthly cost is below zero.
    NegativeCost,
    /// The monthly cost does not fit the storage column.
    CostTooLarge,
    /// The number of active users is below zero.
    NegativeUsers,
    /// The department is not one of the known ones.
    UnknownDepartment,
    /// The status is not one of the known ones.
    UnknownStatus,
    /// A page size or a count limit is below zero.
    NegativeLimit,
    /// A page offset is below zero.
    NegativeSkip,
}

/// Failure of a repository or analytics operation.
#[derive(Debug, PartialEq, Eq)]
pub enum ApiError {
    /// No tool has this id.
    NotFound { id: i32 },
    /// The request was rejected before reaching storage.
    Validation(ValidationFault),
    /// No connection to storage could be had.
    StorageUnavailable(String),
    /// Storage could not carry out a statement.
    QueryFailure(String),
}

impl ApiError {
    /// Reply status: 404 for a missing tool, 400 for a bad request, 500 otherwise.
    pub fn status_code(&self) -> (r: u16)
        ensures
            self is NotFound ==> r == 404,
            self is Validation ==> r == 400,
            self is StorageUnavailable ==> r == 500,
            self is QueryFailure ==> r == 500,
    {
        match self {
            ApiError::NotFound { .. } => 404,
            ApiError::Validation(_) => 400,
            ApiError::StorageUnavailable(_) => 500,
            ApiError::QueryFailure(_) => 500,
        }
    }

    /// Short category shown in the `error` field of an error reply.
    pub fn category(&self) -> (r: &'static str)
        ensures
            self is NotFound ==> r@ == "Tool not found"@,
            self is Validation ==> r@ == "Invalid request"@,
            self is StorageUnavailable ==> r@ == "Database connection failed"@,
            self is QueryFailure ==> r@ == "Query failed"@,
    {
        match self {
            ApiError::NotFound { .. } => "Tool not found",
            ApiError::Validation(_) => "Invalid request",
            ApiError::StorageUnavailable(_) => "Database connection failed",
            ApiError::QueryFailure(_) => "Query failed",
        }
    }
}

impl ValidationFault {
    /// Human-readable description of the fault.
    pub fn describe(&self) -> (r: &'static str)
        ensures
            *self == ValidationFault::NameLength ==> r@ == "name must be 2 to 100 characters long"@,
            *self == ValidationFault::NegativeCost ==> r@ == "monthly_cost must not be negative"@,
            *self == ValidationFault::CostTooLarge ==> r@ == "monthly_cost is too large"@,
            *self == ValidationFault::NegativeUsers ==> r@ == "active_users_count must not be negative"@,
            *self == ValidationFault::UnknownDepartment ==> r@ == "owner_department is not a known department"@,
            *self == ValidationFault::UnknownStatus ==> r@ == "status must be active, deprecated or trial"@,
            *self == ValidationFault::NegativeLimit ==> r@ == "limit must not be negative"@,
            *self == ValidationFault::NegativeSkip ==> r@ == "skip must not be negative"@,
    {
        match self {
            ValidationFault::NameLength => "name must be 2 to 100 characters long",
            ValidationFault::NegativeCost => "monthly_cost must not be negative",
            ValidationFault::CostTooLarge => "monthly_cost is too large",
            ValidationFault::NegativeUsers => "active_users_count must not be negative",
            ValidationFault::UnknownDepartment => "owner_department is not a known department",
            ValidationFault::UnknownStatus => "status must be active, deprecated or trial",
            ValidationFault::NegativeLimit => "limit must not be negative",
            ValidationFault::NegativeSkip => "skip must not be negative",
        }
    }
}

} // verus!
