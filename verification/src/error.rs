//! How requests are refused: a status and what is said of the reason.
use vstd::prelude::*;

use crate::database::fault_message;
use crate::database::Fault;
use crate::database::StoreError;
use crate::number::decimal;
use crate::number::show_i64;
use crate::text::cat2;
use crate::text::cat4;

verus! {

/// A refusal.
#[derive(Debug)]
pub struct ApiError {
    /// The HTTP status code.
    pub status: u16,
    pub detail: String,
}

/// What a refusal is.
pub struct Refusal {
    pub status: u16,
    pub detail: Seq<char>,
}

impl ApiError {
    pub open spec fn view(&self) -> Refusal {
        Refusal { status: self.status, detail: self.detail@ }
    }

    /// A refusal.
    pub fn new(status: u16, detail: &str) -> (r: ApiError)
        ensures
            r@ == (Refusal { status, detail: detail@ }),
    {
        ApiError { status, detail: detail.to_owned() }
    }
}

pub const BAD_REQUEST: u16 = 400;

pub const NOT_FOUND: u16 = 404;

pub const UNPROCESSABLE_ENTITY: u16 = 422;

pub const INTERNAL_SERVER_ERROR: u16 = 500;

pub const NOT_IMPLEMENTED: u16 = 501;

pub const BAD_GATEWAY: u16 = 502;

/// The request is at fault.
pub open spec fn bad_request(detail: Seq<char>) -> Refusal {
    Refusal { status: BAD_REQUEST, detail }
}

/// The service is at fault.
pub open spec fn internal(detail: Seq<char>) -> Refusal {
    Refusal { status: INTERNAL_SERVER_ERROR, detail }
}

/// There is no `kind` with this number.
pub open spec fn missing(kind: Seq<char>, id: int) -> Refusal {
    Refusal { status: NOT_FOUND, detail: kind + " "@ + decimal(id) + " not found"@ }
}

/// There is no `kind` with this number.
pub fn not_found(kind: &str, id: i64) -> (r: ApiError)
    ensures
        r@ == missing(kind@, id as int),
{
    ApiError { status: NOT_FOUND, detail: cat4(kind, " ", show_i64(id).as_str(), " not found") }
}

/// Something went wrong inside the service.
pub fn internal_error(error: &str) -> (r: ApiError)
    ensures
        r@ == internal(error@),
{
    ApiError::new(INTERNAL_SERVER_ERROR, error)
}

/// A file could not be read or written.
pub fn io_error(error: &str) -> (r: ApiError)
    ensures
        r@ == internal(error@),
{
    ApiError::new(INTERNAL_SERVER_ERROR, error)
}

/// A multipart form could not be read.
pub fn bad_multipart(error: &str) -> (r: ApiError)
    ensures
        r@ == bad_request("invalid multipart form: "@ + error@),
{
    ApiError { status: BAD_REQUEST, detail: cat2("invalid multipart form: ", error) }
}

/// A document to be rendered does not have the shape of its kind.
pub fn bad_render_data(error: &str) -> (r: ApiError)
    ensures
        r@ == bad_request("Invalid document data: "@ + error@),
{
    ApiError { status: BAD_REQUEST, detail: cat2("Invalid document data: ", error) }
}

/// Text could not be embedded.
pub fn embedding_failed(error: &str) -> (r: ApiError)
    ensures
        r@ == (Refusal { status: BAD_GATEWAY, detail: "embedding failed: "@ + error@ }),
{
    ApiError { status: BAD_GATEWAY, detail: cat2("embedding failed: ", error) }
}

/// A scan could not be read.
pub fn ocr_failed(error: &str) -> (r: ApiError)
    ensures
        r@ == (Refusal { status: BAD_GATEWAY, detail: "OCR failed: "@ + error@ }),
{
    ApiError { status: BAD_GATEWAY, detail: cat2("OCR failed: ", error) }
}

/// A document could not be generated.
pub fn generation_failed(error: &str) -> (r: ApiError)
    ensures
        r@ == (Refusal { status: UNPROCESSABLE_ENTITY, detail: error@ }),
{
    ApiError::new(UNPROCESSABLE_ENTITY, error)
}

/// A document could not be edited.
pub fn edit_failed(error: &str) -> (r: ApiError)
    ensures
        r@ == bad_request(error@),
{
    ApiError::new(BAD_REQUEST, error)
}

/// A file that a request names could not be read.
pub fn unreadable_file(path: &str, error: &str) -> (r: ApiError)
    ensures
        r@ == bad_request("cannot read "@ + path@ + ": "@ + error@),
{
    ApiError { status: BAD_REQUEST, detail: cat4("cannot read ", path, ": ", error) }
}

/// How a request is refused for a failure of the store: with what is said of it.
pub open spec fn blame(fault: Fault) -> Refusal {
    internal(fault_message(fault))
}

/// Whether a request was refused for a failure of the store.
pub open spec fn refused<T>(r: Result<T, ApiError>, fault: Fault) -> bool {
    r matches Err(e) && e@ == blame(fault)
}

/// Whether a request was refused in this way.
pub open spec fn refused_with<T>(r: Result<T, ApiError>, refusal: Refusal) -> bool {
    r matches Err(e) && e@ == refusal
}

/// The store has failed.
pub fn store_error(error: &StoreError) -> (r: ApiError)
    ensures
        r@ == blame(error@),
{
    internal_error(error.message().as_str())
}

/// What came of asking the store, with its failure as a refusal.
pub fn store_result<T>(r: Result<T, StoreError>) -> (out: Result<T, ApiError>)
    ensures
        match r {
            Ok(v) => out == Ok::<T, ApiError>(v),
            Err(e) => refused(out, e@),
        },
{
    match r {
        Ok(v) => Ok(v),
        Err(e) => Err(store_error(&e)),
    }
}

} // verus!
