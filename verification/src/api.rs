//! The request/response logic of the four endpoints, on plain values:
//! validation, error taxonomy with its status codes and messages, and
//! response shaping. The HTTP framing around these functions only moves
//! bytes.

use vstd::prelude::*;
use crate::key::{canonical_of, is_uuid_text, UuidKey};
use crate::sort::{spec_sort_of_token, SortOrder};
use crate::store::{models, row_wf, KvEntry, ListResult, MAX_TIMESTAMP_MICROS};

verus! {

/// Error response body.
pub struct ErrorResponse {
    pub error: String,
}

/// Body of the health endpoint when the store answers.
pub struct HealthResponse {
    pub status: String,
}

/// Body of the health endpoint when the store does not answer.
pub struct UnhealthyResponse {
    pub status: String,
    pub error: String,
}

/// Body of a successful put.
pub struct PutResponse {
    pub id: String,
}

/// Body of a successful get.
pub struct GetResponse {
    pub id: String,
    pub data: String,
}

/// Query parameters of the list endpoint, as the request carries them.
pub struct ListQuery {
    pub limit: Option<u32>,
    pub offset: Option<u32>,
    pub prefix: Option<String>,
    pub sort: Option<String>,
}

/// One entry of the list response, timestamps rendered as RFC 3339.
pub struct KvEntryResponse {
    pub key: String,
    pub value: String,
    pub created_at: String,
    pub updated_at: String,
}

/// Body of the list response.
pub struct ListResponse {
    pub data: Vec<KvEntryResponse>,
    pub total_count: i64,
}

/// The error taxonomy of the API, each variant carrying the text it
/// reports.
#[derive(Debug)]
pub enum ApiError {
    /// Invalid UUID format in a path parameter.
    InvalidUuid(String),
    /// No entry under the requested key.
    KeyNotFound(String),
    /// A failure of the backing store.
    DatabaseError(String),
    /// The request body is not valid JSON.
    JsonError(String),
    /// A malformed or unsupported query parameter.
    InvalidQueryParam(String),
}

/// The status code each error maps to.
pub open spec fn spec_status(e: ApiError) -> int {
    match e {
        ApiError::InvalidUuid(_) => 400,
        ApiError::KeyNotFound(_) => 404,
        ApiError::DatabaseError(_) => 500,
        ApiError::JsonError(_) => 400,
        ApiError::InvalidQueryParam(_) => 400,
    }
}

/// The message each error reports.
pub open spec fn spec_message(e: ApiError) -> Seq<char> {
    match e {
        ApiError::InvalidUuid(id) =>
            "Invalid UUID format: expected format like '550e8400-e29b-41d4-a716-446655440000', got '"@
            + id@ + "'"@,
        ApiError::KeyNotFound(id) => "Key not found: "@ + id@,
        ApiError::DatabaseError(m) => "Database error: "@ + m@,
        ApiError::JsonError(m) => "JSON parse error: "@ + m@,
        ApiError::InvalidQueryParam(m) => "Invalid query parameter: "@ + m@,
    }
}

impl ApiError {
    /// The HTTP status code of this error.
    pub fn status_code(&self) -> (r: u16)
        ensures
            r as int == spec_status(*self),
    {
        match self {
            ApiError::InvalidUuid(_) => 400,
            ApiError::KeyNotFound(_) => 404,
            ApiError::DatabaseError(_) => 500,
            ApiError::JsonError(_) => 400,
            ApiError::InvalidQueryParam(_) => 400,
        }
    }

    /// The message of this error.
    pub fn message(&self) -> (r: String)
        ensures
            r@ == spec_message(*self),
    {
        match self {
            ApiError::InvalidUuid(id) => {
                let mut m = String::from_str(
                    "Invalid UUID format: expected format like '550e8400-e29b-41d4-a716-446655440000', got '",
                );
                m.append(id.as_str());
                m.append("'");
                m
            },
            ApiError::KeyNotFound(id) => {
                let mut m = String::from_str("Key not found: ");
                m.append(id.as_str());
                m
            },
            ApiError::DatabaseError(t) => {
                let mut m = String::from_str("Database error: ");
                m.append(t.as_str());
                m
            },
            ApiError::JsonError(t) => {
                let mut m = String::from_str("JSON parse error: ");
                m.append(t.as_str());
                m
            },
            ApiError::InvalidQueryParam(t) => {
                let mut m = String::from_str("Invalid query parameter: ");
                m.append(t.as_str());
                m
            },
        }
    }

    /// The error body this error renders to.
    pub fn body(&self) -> (r: ErrorResponse)
        ensures
            r.error@ == spec_message(*self),
    {
        ErrorResponse { error: self.message() }
    }
}

/// Validates a path identifier: the canonical key on success, the
/// `InvalidUuid` error carrying the offending input otherwise; no store
/// access happens either way.
pub fn validate_key(id_str: &str) -> (r: Result<UuidKey, ApiError>)
    ensures
        r is Ok <==> is_uuid_text(id_str@),
        r is Ok ==> r->Ok_0@ == canonical_of(id_str@) && r->Ok_0.wf(),
        r is Err ==> (r->Err_0 matches ApiError::InvalidUuid(s) && s@ == id_str@),
{
    match UuidKey::parse(id_str) {
        Some(key) => Ok(key),
        None => Err(ApiError::InvalidUuid(String::from_str(id_str))),
    }
}

/// The body of a successful put: it echoes the canonical identifier.
pub fn put_response(key: &UuidKey) -> (r: PutResponse)
    ensures
        r.id@ == key@,
{
    PutResponse { id: key.key_string() }
}

/// Turns the value read for `key` into the get outcome: the document
/// when present, `KeyNotFound` when absent.
pub fn get_response(key: &UuidKey, data: Option<String>) -> (r: Result<GetResponse, ApiError>)
    ensures
        data is Some ==> r is Ok && r->Ok_0.id@ == key@ && r->Ok_0.data@ == data->0@,
        data is None ==> (r is Err && (r->Err_0 matches ApiError::KeyNotFound(s) && s@ == key@)),
{
    match data {
        Some(value) => Ok(GetResponse { id: key.key_string(), data: value }),
        None => Err(ApiError::KeyNotFound(key.key_string())),
    }
}

/// The validated parameters of a list request.
#[derive(Debug)]
pub struct ListParams {
    pub prefix: Option<String>,
    pub sort: SortOrder,
    pub limit: Option<i64>,
    pub offset: i64,
}

/// Parses and validates the query parameters of a list request: an
/// absent sort defaults to `KeyAsc`; any other token than the six is
/// rejected with a message listing them and the offending input; limit
/// and offset pass through, the offset defaulting to zero.
pub fn list_params(q: ListQuery) -> (r: Result<ListParams, ApiError>)
    ensures
        match q.sort {
            Some(s) => {
                &&& (r is Ok <==> spec_sort_of_token(s@) is Some)
                &&& (r is Ok ==> Some(r->Ok_0.sort) == spec_sort_of_token(s@))
                &&& (r is Err ==> (r->Err_0 matches ApiError::InvalidQueryParam(m) && m@
                    == "sort must be one of: key_asc, key_desc, created_asc, created_desc, updated_asc, updated_desc, got '"@
                    + s@ + "'"@))
            },
            None => r is Ok && r->Ok_0.sort == SortOrder::KeyAsc,
        },
        r is Ok ==> r->Ok_0.limit == match q.limit {
            Some(l) => Some(l as i64),
            None => None::<i64>,
        },
        r is Ok ==> r->Ok_0.offset == match q.offset {
            Some(o) => o as i64,
            None => 0i64,
        },
        r is Ok ==> r->Ok_0.prefix == q.prefix,
        r is Ok ==> (r->Ok_0.limit is Some ==> r->Ok_0.limit->0 >= 0) && r->Ok_0.offset >= 0,
{
    let sort = match &q.sort {
        Some(s) => {
            match SortOrder::parse(s.as_str()) {
                Some(v) => v,
                None => {
                    let mut m = String::from_str(
                        "sort must be one of: key_asc, key_desc, created_asc, created_desc, updated_asc, updated_desc, got '",
                    );
                    m.append(s.as_str());
                    m.append("'");
                    return Err(ApiError::InvalidQueryParam(m));
                },
            }
        },
        None => SortOrder::KeyAsc,
    };
    let limit: Option<i64> = match q.limit {
        Some(l) => Some(l as i64),
        None => None,
    };
    let offset: i64 = match q.offset {
        Some(o) => o as i64,
        None => 0,
    };
    Ok(ListParams { prefix: q.prefix, sort, limit, offset })
}

/// What an instant renders to as RFC 3339 text in UTC; a function of
/// the instant alone.
pub uninterp spec fn rfc3339_of(t: int) -> Seq<char>;

/// Relies on chrono's `DateTime::<Utc>::from_timestamp_micros` and
/// `DateTime::to_rfc3339`: the UTC rendering of an instant depends on
/// the instant alone, and every instant up to the end of year 9999 has
/// one.
#[verifier::external_body]
fn rfc3339_utc(t: i64) -> (r: String)
    requires
        0 <= t <= MAX_TIMESTAMP_MICROS,
    ensures
        r@ == rfc3339_of(t as int),
{
    match chrono::DateTime::<chrono::Utc>::from_timestamp_micros(t) {
        Some(dt) => dt.to_rfc3339(),
        None => String::new(),
    }
}

/// Renders one entry as the list response carries it.
pub fn entry_response(e: &KvEntry) -> (r: KvEntryResponse)
    requires
        row_wf(e@),
    ensures
        r.key@ == e@.key,
        r.value@ == e@.value,
        r.created_at@ == rfc3339_of(e@.created_at),
        r.updated_at@ == rfc3339_of(e@.updated_at),
{
    KvEntryResponse {
        key: e.key.clone(),
        value: e.value.clone(),
        created_at: rfc3339_utc(e.created_at),
        updated_at: rfc3339_utc(e.updated_at),
    }
}

/// Renders a list result as the response body.
pub fn list_response(res: &ListResult) -> (r: ListResponse)
    requires
        forall|i: int|
            0 <= i < res.entries@.len() ==> row_wf(#[trigger] models(res.entries@)[i]),
    ensures
        r.total_count == res.total_count,
        r.data@.len() == res.entries@.len(),
        forall|i: int|
            0 <= i < r.data@.len() ==> {
                &&& (#[trigger] r.data@[i]).key@ == models(res.entries@)[i].key
                &&& r.data@[i].value@ == models(res.entries@)[i].value
                &&& r.data@[i].created_at@ == rfc3339_of(models(res.entries@)[i].created_at)
                &&& r.data@[i].updated_at@ == rfc3339_of(models(res.entries@)[i].updated_at)
            },
{
    let n = res.entries.len();
    let mut data: Vec<KvEntryResponse> = Vec::new();
    let mut i: usize = 0;
    while i < n
        invariant
            i <= n,
            n == res.entries@.len(),
            data@.len() == i,
            forall|k: int|
                0 <= k < res.entries@.len() ==> row_wf(#[trigger] models(res.entries@)[k]),
            forall|k: int|
                0 <= k < i ==> {
                    &&& (#[trigger] data@[k]).key@ == models(res.entries@)[k].key
                    &&& data@[k].value@ == models(res.entries@)[k].value
                    &&& data@[k].created_at@ == rfc3339_of(models(res.entries@)[k].created_at)
                    &&& data@[k].updated_at@ == rfc3339_of(models(res.entries@)[k].updated_at)
                },
        decreases n - i,
    {
        proof {
            assert(models(res.entries@)[i as int] == res.entries@[i as int]@);
        }
        data.push(entry_response(&res.entries[i]));
        i += 1;
    }
    ListResponse { data, total_count: res.total_count }
}

/// The healthy body of the health endpoint.
pub fn health_success() -> (r: HealthResponse)
    ensures
        r.status@ == "healthy"@,
{
    HealthResponse { status: String::from_str("healthy") }
}

/// The degraded body of the health endpoint, wrapping the cause.
pub fn health_failure(cause: &str) -> (r: UnhealthyResponse)
    ensures
        r.status@ == "unhealthy"@,
        r.error@ == "Cannot connect to database: "@ + cause@,
{
    let mut error = String::from_str("Cannot connect to database: ");
    error.append(cause);
    UnhealthyResponse { status: String::from_str("unhealthy"), error }
}

/// The status code of the health endpoint.
pub fn health_status(ok: bool) -> (r: u16)
    ensures
        r == if ok {
            200int
        } else {
            503int
        },
{
    if ok {
        200
    } else {
        503
    }
}

/// The health probe succeeds exactly when its query returned a row.
pub fn health_probe_outcome(row_present: bool) -> (r: Result<(), String>)
    ensures
        row_present <==> r is Ok,
        r is Err ==> r->Err_0@ == "Health check query returned no results"@,
{
    if row_present {
        Ok(())
    } else {
        Err(String::from_str("Health check query returned no results"))
    }
}

} // verus!
