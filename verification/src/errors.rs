//! Error taxonomy of the summarization pipeline.

use vstd::prelude::*;

verus! {

/// Every failure the pipeline distinguishes.
///
/// `Transient` covers retryable transport faults (timeouts, 5xx statuses,
/// connection resets). `Auth` is a 401/403 and is fatal to the run.
/// `EmptyPlan` means the model returned a blank summary plan, which leaves the
/// chapter work without grounding. `MalformedResponse` means the transport
/// succeeded but the completion envelope could not be decoded.
/// `FatalParse` is a schema violation in a strict-JSON section reply and
/// aborts the run. `Encoding` is a tokenizer failure while chunking.
///
/// The variants carry the classification only; the raw status and reply
/// body behind a transport failure are surfaced verbatim through
/// `crate::client::describe_failure`, which the driver writes to its logs
/// beside the classified error.
#[derive(Clone, Copy, Debug, PartialEq, Eq, Structural)]
pub enum SummaryError {
    Transient,
    Auth,
    EmptyPlan,
    MalformedResponse,
    FatalParse,
    Encoding,
}

impl SummaryError {
    /// Whether a section-level retry loop may try again after this error.
    /// Transient transport faults and malformed replies are retried at
    /// section granularity; everything else aborts the document.
    pub fn is_section_retryable(&self) -> (r: bool)
        ensures
            r == (*self == SummaryError::Transient || *self == SummaryError::MalformedResponse),
    {
        match self {
            SummaryError::Transient => true,
            SummaryError::MalformedResponse => true,
            _ => false,
        }
    }

    /// Whether this error ends the whole document run immediately.
    pub fn is_fatal(&self) -> (r: bool)
        ensures
            r == (*self == SummaryError::Auth || *self == SummaryError::EmptyPlan || *self
                == SummaryError::FatalParse),
    {
        match self {
            SummaryError::Auth => true,
            SummaryError::EmptyPlan => true,
            SummaryError::FatalParse => true,
            _ => false,
        }
    }

    /// A short human-readable description of the error.
    pub fn describe(&self) -> (r: &'static str)
        ensures
            self is Transient ==> r@ == "transient transport failure"@,
            self is Auth ==> r@ == "authentication rejected"@,
            self is EmptyPlan ==> r@ == "model returned an empty summary plan"@,
            self is MalformedResponse ==> r@ == "completion envelope could not be decoded"@,
            self is FatalParse ==> r@ == "section reply violated the expected schema"@,
            self is Encoding ==> r@ == "chapter text could not be tokenized"@,
    {
        match self {
            SummaryError::Transient => "transient transport failure",
            SummaryError::Auth => "authentication rejected",
            SummaryError::EmptyPlan => "model returned an empty summary plan",
            SummaryError::MalformedResponse => "completion envelope could not be decoded",
            SummaryError::FatalParse => "section reply violated the expected schema",
            SummaryError::Encoding => "chapter text could not be tokenized",
        }
    }
}

/// The error that an HTTP status signifies, if any: success statuses (2xx)
/// none, 401 and 403 an authentication failure, 408, 429 and every 5xx a
/// transient fault, and any other status a malformed response, which the
/// section retry budget absorbs.
pub open spec fn status_error(status: u16) -> Option<SummaryError> {
    if 200 <= status < 300 {
        None
    } else if status == 401 || status == 403 {
        Some(SummaryError::Auth)
    } else if status == 408 || status == 429 || 500 <= status {
        Some(SummaryError::Transient)
    } else {
        Some(SummaryError::MalformedResponse)
    }
}

/// Classifies an HTTP status into the pipeline's error taxonomy, as
/// `status_error` describes.
pub fn classify_status(status: u16) -> (r: Option<SummaryError>)
    ensures
        r == status_error(status),
{
    if 200 <= status && status < 300 {
        None
    } else if status == 401 || status == 403 {
        Some(SummaryError::Auth)
    } else if status == 408 || status == 429 || status >= 500 {
        Some(SummaryError::Transient)
    } else {
        Some(SummaryError::MalformedResponse)
    }
}

} // verus!
