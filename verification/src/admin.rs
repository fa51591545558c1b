//! The admin guard: a static bearer-token check in front of the admin
//! operations, selected once at startup.
//!
//! With no token configured the guard is [`AdminGuard::Disabled`] and every
//! admin request is answered as an unknown path would be; with a token, a
//! request passes exactly when its credential is `Bearer ` followed by that
//! token, byte for byte.

use vstd::prelude::*;
use vstd::string::StringExecFns;

verus! {

/// The guard's configuration, decided once at startup from the presence of an
/// admin token.
pub enum AdminGuard {
    Disabled,
    Enabled { token: String },
}

/// What the guard answers for one request.
#[derive(Clone, Copy, PartialEq, Eq, Structural, Debug)]
pub enum AdminAccess {
    /// The credential matches the configured token.
    Granted,
    /// The guard is enabled and the credential is absent or differs from the
    /// configured token.
    Unauthorized,
    /// The guard is disabled: admin paths answer like any unrecognized path.
    NotFound,
}

/// The exact credential an enabled guard accepts for `token`.
pub open spec fn bearer_credential(token: Seq<char>) -> Seq<char> {
    "Bearer "@ + token
}

/// An `Authorization` header as the guard sees it, if one was presented.
pub open spec fn credential_view(credential: Option<&String>) -> Option<Seq<char>> {
    match credential {
        Some(c) => Some(c@),
        None => None,
    }
}

impl AdminGuard {
    /// The guard's full decision table.
    pub open spec fn spec_check(&self, credential: Option<Seq<char>>) -> AdminAccess {
        match self {
            AdminGuard::Disabled => AdminAccess::NotFound,
            AdminGuard::Enabled { token } => match credential {
                Some(c) => if c == bearer_credential(token@) {
                    AdminAccess::Granted
                } else {
                    AdminAccess::Unauthorized
                },
                None => AdminAccess::Unauthorized,
            },
        }
    }

    /// Selects the guard from the configured token: absence disables the
    /// admin surface entirely.
    pub fn from_config(token: Option<String>) -> (r: AdminGuard)
        ensures
            r == (match token {
                Some(t) => AdminGuard::Enabled { token: t },
                None => AdminGuard::Disabled,
            }),
    {
        match token {
            Some(t) => AdminGuard::Enabled { token: t },
            None => AdminGuard::Disabled,
        }
    }

    /// Answers one request's credential per the decision table: `Granted`
    /// exactly when the guard is enabled and the credential is `Bearer `
    /// followed by the configured token.
    pub fn check(&self, credential: Option<&String>) -> (r: AdminAccess)
        ensures
            r == self.spec_check(credential_view(credential)),
    {
        match self {
            AdminGuard::Disabled => AdminAccess::NotFound,
            AdminGuard::Enabled { token } => match credential {
                None => AdminAccess::Unauthorized,
                Some(c) => {
                    let expected = "Bearer ".to_owned().concat(token.as_str());
                    if *c == expected {
                        AdminAccess::Granted
                    } else {
                        AdminAccess::Unauthorized
                    }
                },
            },
        }
    }
}

} // verus!
