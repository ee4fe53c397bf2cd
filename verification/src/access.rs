//! Who may ask the service for a report.

use vstd::prelude::*;

verus! {

/// How the service decides whether a request may be answered.
#[derive(Clone, Copy, Debug, PartialEq, Eq, Structural)]
pub enum AuthMode {
    /// Every request is answered.
    Open,
    /// A request is answered where it names the IAM identity that made it.
    Iam,
}

/// Whether a request may be answered: always where the service is open, and otherwise
/// where the request names the IAM identity that made it.
pub fn authorize(mode: AuthMode, names_iam_identity: bool) -> (r: bool)
    ensures
        r == (mode == AuthMode::Open || names_iam_identity),
{
    match mode {
        AuthMode::Open => true,
        AuthMode::Iam => names_iam_identity,
    }
}

} // verus!
