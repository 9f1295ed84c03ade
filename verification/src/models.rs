//! Plain records and lifecycle statuses shared by the services.

use vstd::prelude::*;

verus! {

#[derive(Debug, Clone, Copy, PartialEq, Eq, Structural)]
pub enum ExtractionStatus {
    Pending,
    Processing,
    Completed,
    Failed,
}

impl ExtractionStatus {
    pub open spec fn as_str_spec(self) -> Seq<char> {
        match self {
            ExtractionStatus::Pending => "pending"@,
            ExtractionStatus::Processing => "processing"@,
            ExtractionStatus::Completed => "completed"@,
            ExtractionStatus::Failed => "failed"@,
        }
    }

    /// The status's display text (snake case, as stored).
    pub fn as_str(self) -> (s: &'static str)
        ensures
            s@ == self.as_str_spec(),
    {
        match self {
            ExtractionStatus::Pending => "pending",
            ExtractionStatus::Processing => "processing",
            ExtractionStatus::Completed => "completed",
            ExtractionStatus::Failed => "failed",
        }
    }
}

#[derive(Debug, Clone, Copy, PartialEq, Eq, Structural)]
pub enum BatchStatus {
    Pending,
    Processing,
    Completed,
    PartiallyCompleted,
    Failed,
}

impl BatchStatus {
    pub open spec fn as_str_spec(self) -> Seq<char> {
        match self {
            BatchStatus::Pending => "pending"@,
            BatchStatus::Processing => "processing"@,
            BatchStatus::Completed => "completed"@,
            BatchStatus::PartiallyCompleted => "partially_completed"@,
            BatchStatus::Failed => "failed"@,
        }
    }

    /// The status's display text (snake case, as stored).
    pub fn as_str(self) -> (s: &'static str)
        ensures
            s@ == self.as_str_spec(),
    {
        match self {
            BatchStatus::Pending => "pending",
            BatchStatus::Processing => "processing",
            BatchStatus::Completed => "completed",
            BatchStatus::PartiallyCompleted => "partially_completed",
            BatchStatus::Failed => "failed",
        }
    }
}

/// A client's question whether a document with this digest is already stored.
#[derive(Debug, Clone)]
pub struct CheckDocumentRequest {
    pub md5_hash: String,
    pub file_name: String,
    pub file_type: String,
    pub size_bytes: i64,
}

/// A client's confirmation that it uploaded a document to `s3_key`.
#[derive(Debug, Clone)]
pub struct ConfirmUploadRequest {
    pub s3_key: String,
    pub md5_hash: String,
    pub file_name: String,
    pub file_type: String,
    pub size_bytes: i64,
}

} // verus!
