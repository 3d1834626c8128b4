//! The closed set of sort orders a list request may name.

use vstd::prelude::*;
use crate::text::str_eq;

verus! {

/// Sort order options for list queries.
#[derive(Clone, Copy, PartialEq, Eq, Structural, Debug)]
pub enum SortOrder {
    KeyAsc,
    KeyDesc,
    CreatedAsc,
    CreatedDesc,
    UpdatedAsc,
    UpdatedDesc,
}

/// The fixed ORDER BY fragment each variant denotes.
pub open spec fn spec_order_fragment(s: SortOrder) -> Seq<char> {
    match s {
        SortOrder::KeyAsc => "id ASC"@,
        SortOrder::KeyDesc => "id DESC"@,
        SortOrder::CreatedAsc => "created_at ASC"@,
        SortOrder::CreatedDesc => "created_at DESC"@,
        SortOrder::UpdatedAsc => "updated_at ASC"@,
        SortOrder::UpdatedDesc => "updated_at DESC"@,
    }
}

/// The token that names each variant in a query string.
pub open spec fn spec_sort_of_token(s: Seq<char>) -> Option<SortOrder> {
    if s == "key_asc"@ {
        Some(SortOrder::KeyAsc)
    } else if s == "key_desc"@ {
        Some(SortOrder::KeyDesc)
    } else if s == "created_asc"@ {
        Some(SortOrder::CreatedAsc)
    } else if s == "created_desc"@ {
        Some(SortOrder::CreatedDesc)
    } else if s == "updated_asc"@ {
        Some(SortOrder::UpdatedAsc)
    } else if s == "updated_desc"@ {
        Some(SortOrder::UpdatedDesc)
    } else {
        None
    }
}

impl SortOrder {
    /// Converts to the SQL ORDER BY clause body.
    pub fn to_sql(self) -> (r: &'static str)
        ensures
            r@ == spec_order_fragment(self),
    {
        match self {
            SortOrder::KeyAsc => "id ASC",
            SortOrder::KeyDesc => "id DESC",
            SortOrder::CreatedAsc => "created_at ASC",
            SortOrder::CreatedDesc => "created_at DESC",
            SortOrder::UpdatedAsc => "updated_at ASC",
            SortOrder::UpdatedDesc => "updated_at DESC",
        }
    }

    /// Recognises exactly the six sort tokens, case-sensitively.
    pub fn parse(s: &str) -> (r: Option<SortOrder>)
        ensures
            r == spec_sort_of_token(s@),
    {
        if str_eq(s, "key_asc") {
            Some(SortOrder::KeyAsc)
        } else if str_eq(s, "key_desc") {
            Some(SortOrder::KeyDesc)
        } else if str_eq(s, "created_asc") {
            Some(SortOrder::CreatedAsc)
        } else if str_eq(s, "created_desc") {
            Some(SortOrder::CreatedDesc)
        } else if str_eq(s, "updated_asc") {
            Some(SortOrder::UpdatedAsc)
        } else if str_eq(s, "updated_desc") {
            Some(SortOrder::UpdatedDesc)
        } else {
            None
        }
    }
}

} // verus!
