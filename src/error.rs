use vstd::prelude::*;

verus! {

/// Every way a lookup can fail. Transport, body and JSON failures carry the
/// underlying cause as text.
#[derive(Debug)]
pub enum RequestError {
    UreqError(String),
    ResponseBodyError(String),
    InvalidJson(String),
    FallbackAddress,
    SpecialUse,
    InvalidIpFormat,
    NoIpInformation,
}

} // verus!
