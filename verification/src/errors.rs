//! The error kinds of the flag store and its callers.

use vstd::prelude::*;

verus! {

/// What can go wrong while reading or writing a project's flag set.
///
/// A cache miss (`TokenValidationError`) and an unreachable cache
/// (`RedisUnavailable`) are recoverable by falling back to the
/// authoritative store; every other kind is surfaced to the caller.
#[derive(Debug, PartialEq, Eq)]
pub enum FlagError {
    /// The cache service could not be reached.
    RedisUnavailable,
    /// The cache has no entry for the project.
    TokenValidationError,
    /// The cache entry exists but does not decode to a flag list.
    RedisDataParsingError,
    /// The cache write failed, so readers may see stale data.
    CacheUpdateError,
    /// The authoritative store could not be reached.
    DatabaseUnavailable,
    /// The authoritative store failed while running a query.
    Internal(String),
    /// A row's filter document does not decode to a filter set.
    DeserializeFiltersError,
}

impl FlagError {
    /// A short stable name for the kind, for logs and messages.
    pub fn kind_name(&self) -> (r: &'static str)
        ensures
            match self {
                FlagError::RedisUnavailable => r@ == "redis_unavailable"@,
                FlagError::TokenValidationError => r@ == "token_validation_error"@,
                FlagError::RedisDataParsingError => r@ == "redis_data_parsing_error"@,
                FlagError::CacheUpdateError => r@ == "cache_update_error"@,
                FlagError::DatabaseUnavailable => r@ == "database_unavailable"@,
                FlagError::Internal(_) => r@ == "internal"@,
                FlagError::DeserializeFiltersError => r@ == "deserialize_filters_error"@,
            },
    {
        match self {
            FlagError::RedisUnavailable => "redis_unavailable",
            FlagError::TokenValidationError => "token_validation_error",
            FlagError::RedisDataParsingError => "redis_data_parsing_error",
            FlagError::CacheUpdateError => "cache_update_error",
            FlagError::DatabaseUnavailable => "database_unavailable",
            FlagError::Internal(_) => "internal",
            FlagError::DeserializeFiltersError => "deserialize_filters_error",
        }
    }
}

} // verus!
