//! Error taxonomy of the bucket: every failing operation reports one of these
//! variants, and each variant carries a fixed human-readable message.

use vstd::prelude::*;

verus! {

/// Everything that can go wrong in the upload, administration and read paths.
///
/// `NoTokenProvided` and `InvalidToken` are the two unauthorized cases
/// (no access token supplied at all, or a wrong one). `BatchNotFound` is a
/// chunk upload against an unknown or expired batch; `NoBatch` is a commit
/// against an unknown batch. `SerializationFailure` names the case of a
/// witness that cannot be encoded; the certification path proves that the
/// encoding always succeeds, so the variant is never produced here.
#[derive(Clone, Copy, Debug, PartialEq, Eq, Structural)]
pub enum BucketError {
    BadRequest,
    NotFound,
    NoTokenProvided,
    InvalidToken,
    BatchNotFound,
    NoBatch,
    BatchExpired,
    ChunkNotFound,
    ChunkBatchMismatch,
    EmptyCommit,
    NoAttestation,
    SerializationFailure,
    ArithmeticOverflow,
}

impl BucketError {
    /// The fixed message reported for this error.
    pub open spec fn spec_message(self) -> Seq<char> {
        match self {
            BucketError::BadRequest => "No url provided."@,
            BucketError::NotFound => "No asset."@,
            BucketError::NoTokenProvided => "No token provided."@,
            BucketError::InvalidToken => "Invalid token."@,
            BucketError::BatchNotFound => "Batch not found."@,
            BucketError::NoBatch => "No batch to commit."@,
            BucketError::BatchExpired => "Batch did not complete in time. Chunks cannot be committed."@,
            BucketError::ChunkNotFound => "Chunk does not exist."@,
            BucketError::ChunkBatchMismatch => "Chunk not included in the provided batch."@,
            BucketError::EmptyCommit => "No chunk to commit."@,
            BucketError::NoAttestation => "No certificate found."@,
            BucketError::SerializationFailure => "failed to serialize hash tree"@,
            BucketError::ArithmeticOverflow => "Failed to convert chunk length to u128"@,
        }
    }

    pub fn message(&self) -> (r: &'static str)
        ensures
            r@ == self.spec_message(),
    {
        match self {
            BucketError::BadRequest => "No url provided.",
            BucketError::NotFound => "No asset.",
            BucketError::NoTokenProvided => "No token provided.",
            BucketError::InvalidToken => "Invalid token.",
            BucketError::BatchNotFound => "Batch not found.",
            BucketError::NoBatch => "No batch to commit.",
            BucketError::BatchExpired => "Batch did not complete in time. Chunks cannot be committed.",
            BucketError::ChunkNotFound => "Chunk does not exist.",
            BucketError::ChunkBatchMismatch => "Chunk not included in the provided batch.",
            BucketError::EmptyCommit => "No chunk to commit.",
            BucketError::NoAttestation => "No certificate found.",
            BucketError::SerializationFailure => "failed to serialize hash tree",
            BucketError::ArithmeticOverflow => "Failed to convert chunk length to u128",
        }
    }
}

/// Error from assembling an asset encoding; carries a human-readable
/// description. Today the only failure is overflow of the total length.
#[derive(Debug)]
pub struct AssetEncodingError {
    pub description: String,
}

impl AssetEncodingError {
    pub fn overflow() -> (r: Self)
        ensures
            r.description@ == "Failed to convert chunk length to u128"@,
    {
        AssetEncodingError { description: "Failed to convert chunk length to u128".to_owned() }
    }
}

/// Classification used by the container-level administration interface.
#[derive(Clone, Copy, Debug, PartialEq, Eq, Structural)]
pub enum ApiErrorType {
    Unauthorized,
    BadRequest,
    NotFound,
}

/// A typed administration error together with its message.
#[derive(Clone, Debug)]
pub struct ApiError {
    pub err_type: ApiErrorType,
    pub err_msg: String,
}

#[must_use]
pub fn api_error(err_type: ApiErrorType, err_msg: String) -> (r: ApiError)
    ensures
        r.err_type == err_type,
        r.err_msg == err_msg,
{
    ApiError { err_type, err_msg }
}

} // verus!
