use vstd::prelude::*;

verus! {

use vstd::string::StringExecFns;

/// The failure kinds of the conversion engine. Each variant but
/// `InvalidDocument` carries the full human-readable message.
#[derive(Debug)]
pub enum ConvertError {
    /// The tag container could not be opened or parsed.
    TagRead(String),
    /// The tag container could not be serialized or written.
    TagWrite(String),
    /// A sidecar or art file could not be read, created or written.
    Io(String),
    /// The sidecar text is not well-formed JSON.
    JsonParse(String),
    /// The parsed sidecar's root is not an object.
    InvalidDocument,
    /// An explicitly supplied art path does not exist on disk.
    MissingArt(String),
}

impl ConvertError {
    /// The error's message, as surfaced to the user.
    pub fn message(&self) -> (r: String)
        ensures
            (self matches ConvertError::TagRead(m) ==> r@ == m@),
            (self matches ConvertError::TagWrite(m) ==> r@ == m@),
            (self matches ConvertError::Io(m) ==> r@ == m@),
            (self matches ConvertError::JsonParse(m) ==> r@ == m@),
            (self is InvalidDocument ==> r@ == "No root object found"@),
            (self matches ConvertError::MissingArt(m) ==> r@ == m@),
    {
        match self {
            ConvertError::TagRead(m) => m.clone(),
            ConvertError::TagWrite(m) => m.clone(),
            ConvertError::Io(m) => m.clone(),
            ConvertError::JsonParse(m) => m.clone(),
            ConvertError::InvalidDocument => "No root object found".to_owned(),
            ConvertError::MissingArt(m) => m.clone(),
        }
    }
}

/// A message made of a fixed prefix and a detail.
pub(crate) fn prefixed(prefix: &str, detail: &str) -> (r: String)
    ensures
        r@ == prefix@ + detail@,
{
    let mut r = prefix.to_owned();
    r.append(detail);
    r
}

} // verus!
