//! An in-memory contact directory: a store of contact records with
//! unique, monotonically assigned identifiers, a case-insensitive
//! search over four text fields, pagination of the filtered view,
//! create/update/delete with default placeholders for missing form
//! fields, an email validation rule, and a full-page vs. row-fragment
//! render selection.

use vstd::prelude::*;

pub mod contact;
pub mod query;
pub mod render;
pub mod store;
pub mod text;
pub mod validate;

verus! {

/// Number of contacts shown on one page of the listing.
pub const PAGE_SIZE: usize = 10;

} // verus!
