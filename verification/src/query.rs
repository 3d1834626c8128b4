//! Construction of the SQL statements the service issues against its
//! single `kv_store` table: point read, health probe, count, and the
//! filtered / sorted / paginated data select.

use vstd::prelude::*;
use crate::sort::{spec_order_fragment, SortOrder};
use crate::text::{dec_of, u64_to_dec};

verus! {

/// The statement of a point read; the key is bound to `@id`.
pub fn read_query() -> (r: &'static str)
    ensures
        r@ == "SELECT data FROM kv_store WHERE id = @id"@,
{
    "SELECT data FROM kv_store WHERE id = @id"
}

/// The trivial round-trip probe of the health check.
pub fn health_query() -> (r: &'static str)
    ensures
        r@ == "SELECT 1"@,
{
    "SELECT 1"
}

/// The LIKE pattern that realises a starts-with filter: the prefix
/// followed by the wildcard.
pub open spec fn spec_like_pattern(p: Seq<char>) -> Seq<char> {
    p + "%"@
}

/// Builds the LIKE pattern bound to `@prefix`.
pub fn like_pattern(prefix: &str) -> (r: String)
    ensures
        r@ == spec_like_pattern(prefix@),
{
    let r = String::from_str(prefix).concat("%");
    r
}

/// The count statement: how many keys match the filter, ignoring
/// pagination.
pub open spec fn spec_count_query(has_prefix: bool) -> Seq<char> {
    if has_prefix {
        "SELECT COUNT(*) as count FROM kv_store WHERE id LIKE @prefix"@
    } else {
        "SELECT COUNT(*) as count FROM kv_store"@
    }
}

/// Builds the count statement.
pub fn count_query(has_prefix: bool) -> (r: String)
    ensures
        r@ == spec_count_query(has_prefix),
{
    if has_prefix {
        String::from_str("SELECT COUNT(*) as count FROM kv_store WHERE id LIKE @prefix")
    } else {
        String::from_str("SELECT COUNT(*) as count FROM kv_store")
    }
}

/// The data statement: filter, sort order, then pagination. A limit is
/// rendered before the offset; an offset without a limit forces the
/// largest representable limit, since the query language ties OFFSET to
/// LIMIT.
pub open spec fn spec_data_query(
    has_prefix: bool,
    sort: SortOrder,
    limit: Option<i64>,
    offset: i64,
) -> Seq<char> {
    let base = if has_prefix {
        "SELECT id, data, created_at, updated_at FROM kv_store WHERE id LIKE @prefix"@
    } else {
        "SELECT id, data, created_at, updated_at FROM kv_store"@
    };
    let ordered = base + " ORDER BY "@ + spec_order_fragment(sort);
    match limit {
        Some(l) => {
            let limited = ordered + " LIMIT "@ + dec_of(l as int);
            if offset > 0 {
                limited + " OFFSET "@ + dec_of(offset as int)
            } else {
                limited
            }
        },
        None => {
            if offset > 0 {
                ordered + " LIMIT "@ + dec_of(i64::MAX as int) + " OFFSET "@ + dec_of(
                    offset as int,
                )
            } else {
                ordered
            }
        },
    }
}

/// Builds the data statement.
pub fn data_query(has_prefix: bool, sort: SortOrder, limit: Option<i64>, offset: i64) -> (r:
    String)
    requires
        limit is Some ==> limit->0 >= 0,
        offset >= 0,
    ensures
        r@ == spec_data_query(has_prefix, sort, limit, offset),
{
    let mut q = if has_prefix {
        String::from_str("SELECT id, data, created_at, updated_at FROM kv_store WHERE id LIKE @prefix")
    } else {
        String::from_str("SELECT id, data, created_at, updated_at FROM kv_store")
    };
    q.append(" ORDER BY ");
    q.append(sort.to_sql());
    match limit {
        Some(l) => {
            q.append(" LIMIT ");
            let ln = u64_to_dec(l as u64);
            q.append(ln.as_str());
            if offset > 0 {
                q.append(" OFFSET ");
                let on = u64_to_dec(offset as u64);
                q.append(on.as_str());
            }
        },
        None => {
            if offset > 0 {
                q.append(" LIMIT ");
                let mx = u64_to_dec(0x7fff_ffff_ffff_ffff_u64);
                q.append(mx.as_str());
                q.append(" OFFSET ");
                let on = u64_to_dec(offset as u64);
                q.append(on.as_str());
            }
        },
    }
    proof {
        assert(q@ =~= spec_data_query(has_prefix, sort, limit, offset));
    }
    q
}

} // verus!
