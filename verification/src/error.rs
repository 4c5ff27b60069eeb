use vstd::prelude::*;

verus! {

/// Everything that can end a fetch job short of success. Every error is
/// fatal for its own job: nothing is retried, sibling jobs are unaffected.
#[derive(Clone, Copy, Debug, PartialEq, Eq, Structural)]
pub enum FetchError {
    /// The server answered HTTP 429 on the first request.
    RateLimited,
    /// The rate-limit header was absent from the first response.
    MissingHeader,
    /// The rate-limit header was not a non-negative integer that fits.
    MalformedHeader,
    /// The response body did not decode as a `Page`.
    DecodeError,
    /// More page requests are needed than the server says remain.
    QuotaExceeded,
    /// The output file could not be created or written.
    IoError,
    /// The transport failed (connection, DNS, and the like).
    NetworkError,
}

impl FetchError {
    /// The text reported for this error, word for word.
    pub open spec fn message_spec(self) -> Seq<char> {
        match self {
            FetchError::RateLimited => "Status Code 429: Too many requests. Wait one hour."@,
            FetchError::MissingHeader => "No matching header found"@,
            FetchError::MalformedHeader => "Rate-limit header is not a non-negative integer"@,
            FetchError::DecodeError => "Response body did not match the expected page schema"@,
            FetchError::QuotaExceeded => "Not enough requests remaining to complete task. Wait one hour."@,
            FetchError::IoError => "Could not create or write the output file"@,
            FetchError::NetworkError => "Request failed before a response arrived"@,
        }
    }

    /// The user-visible text for this error.
    pub fn message(&self) -> (r: String)
        ensures
            r@ == self.message_spec(),
    {
        match self {
            FetchError::RateLimited => "Status Code 429: Too many requests. Wait one hour.".to_owned(),
            FetchError::MissingHeader => "No matching header found".to_owned(),
            FetchError::MalformedHeader => "Rate-limit header is not a non-negative integer".to_owned(),
            FetchError::DecodeError => "Response body did not match the expected page schema".to_owned(),
            FetchError::QuotaExceeded => "Not enough requests remaining to complete task. Wait one hour.".to_owned(),
            FetchError::IoError => "Could not create or write the output file".to_owned(),
            FetchError::NetworkError => "Request failed before a response arrived".to_owned(),
        }
    }
}

} // verus!
