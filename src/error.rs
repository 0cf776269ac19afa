use vstd::prelude::*;

verus! {

/// Errors that end one request/response exchange.
#[derive(Debug, PartialEq, Eq)]
pub enum OpenAIError {
    /// The transport failed (network or HTTP error).
    RequestAPIError(String),
    /// The raw bytes of the stream were not valid text.
    ParseChunkError(String),
}

impl OpenAIError {
    /// The error rendered as `<kind>: <message>`.
    pub fn describe(&self) -> (r: String)
        ensures
            r@ == self.kind_name()@ + ": "@ + self.message()@,
    {
        let (kind, msg) = match self {
            OpenAIError::ParseChunkError(m) => ("ParseChunkError", m),
            OpenAIError::RequestAPIError(m) => ("RequestAPIError", m),
        };
        let r = String::from_str(kind);
        let r = r.concat(": ");
        r.concat(msg.as_str())
    }

    pub open spec fn kind_name(&self) -> &'static str {
        match self {
            OpenAIError::ParseChunkError(_) => "ParseChunkError",
            OpenAIError::RequestAPIError(_) => "RequestAPIError",
        }
    }

    pub open spec fn message(&self) -> String {
        match self {
            OpenAIError::ParseChunkError(m) => *m,
            OpenAIError::RequestAPIError(m) => *m,
        }
    }
}

} // verus!
