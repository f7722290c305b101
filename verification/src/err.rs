use vstd::prelude::*;

verus! {

/// The kind of a failure surfaced by the library.
#[derive(Clone, Copy, Debug, PartialEq, Eq, Structural)]
pub enum TrustChainErrorKind {
    ArtifactFolderReadError,
    ArtifactNotFound,
    ArtifactReadError,
    ClaimNotFound,
    Claims,
    ExpiredSignature,
    ExpiredKeySignature,
    Generic,
    Gpg,
    InvalidArtifactId,
    InvalidSignature,
    Io,
}

/// An error: its kind plus a human-readable description of what went wrong.
#[derive(Debug)]
pub struct TrustChainError {
    pub kind: TrustChainErrorKind,
    pub description: String,
}

impl TrustChainError {
    pub fn new(kind: TrustChainErrorKind, description: String) -> (r: TrustChainError)
        ensures
            r.kind == kind,
            r.description@ == description@,
    {
        TrustChainError { kind, description }
    }
}

} // verus!
