use vstd::prelude::*;

verus! {

/// What went wrong, without the detail text.
#[derive(Clone, Copy, Debug, PartialEq, Eq, Structural)]
pub enum FailureKind {
    /// The pattern string is not valid in the pattern language.
    InvalidPattern,
    /// The path does not exist.
    PathNotFound,
    /// Access to the path was refused.
    PermissionDenied,
    /// Any other failure to resolve what kind of entry a path is.
    Metadata,
    /// Reading a regular file's bytes failed.
    ReadFailure,
    /// Listing a directory's entries failed.
    ListFailure,
}

/// A failure with the detail that the user is shown.
#[derive(Clone, Debug)]
pub struct Failure {
    pub kind: FailureKind,
    pub detail: String,
}

impl Failure {
    pub fn new(kind: FailureKind, detail: String) -> (r: Failure)
        ensures
            r.kind == kind,
            r.detail@ == detail@,
    {
        Failure { kind, detail }
    }

    /// The text shown to the user: the kind, then the detail.
    pub fn describe(&self) -> (r: String)
        ensures
            r@ == self.kind.label() + self.detail@,
    {
        let mut s = String::from_str(self.kind.name());
        s.append(self.detail.as_str());
        s
    }
}

impl FailureKind {
    pub open spec fn label(self) -> Seq<char> {
        match self {
            FailureKind::InvalidPattern => "invalid pattern: "@,
            FailureKind::PathNotFound => "path not found: "@,
            FailureKind::PermissionDenied => "permission denied: "@,
            FailureKind::Metadata => "cannot resolve metadata: "@,
            FailureKind::ReadFailure => "cannot read file: "@,
            FailureKind::ListFailure => "cannot list directory: "@,
        }
    }

    /// The prefix with which a failure of this kind is shown.
    pub fn name(&self) -> (r: &'static str)
        ensures
            r@ == self.label(),
    {
        match self {
            FailureKind::InvalidPattern => "invalid pattern: ",
            FailureKind::PathNotFound => "path not found: ",
            FailureKind::PermissionDenied => "permission denied: ",
            FailureKind::Metadata => "cannot resolve metadata: ",
            FailureKind::ReadFailure => "cannot read file: ",
            FailureKind::ListFailure => "cannot list directory: ",
        }
    }
}

} // verus!
