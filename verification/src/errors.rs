use vstd::prelude::*;

verus! {

/// The kinds of failure that the byte-editing and signing operations report.
/// Each operation's contract says exactly which variant it returns and when.
#[derive(Clone, Copy, Debug, PartialEq, Eq, Structural)]
pub enum SigningError {
    /// Mutually-exclusive or missing parameters, or a zero-length range.
    ArgumentError,
    /// A path cannot be opened or created.
    OpeningError,
    /// A file cannot be read, or holds fewer bytes than a range asks for.
    ReadingError,
    /// A file cannot be written.
    WritingError,
    /// A start offset lies beyond the addressable range of the source.
    SeekError,
    /// Two placed files claim overlapping spans of the output.
    OverlapError,
    /// A key blob is malformed, or no key material is present.
    ParseKeyError,
    /// A signature does not match the message under the given public key.
    SignatureVerificationError,
    /// A file is too short to contain both a payload and a signature trailer.
    ContentError,
}

} // verus!
