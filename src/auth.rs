//! Authorization of new subscriptions: which ones a caller may
//! open, and which need a look into the credential store.

use vstd::prelude::*;
use crate::kinds::same_text;
use crate::query::{WsWatchFor, DataType};

verus! {

/// The signed cookie of a caller.
#[derive(Debug, Clone)]
pub struct AuthCookie {
    pub user_id: String,
}

/// Who the caller is.
#[derive(Debug, Clone)]
pub struct AuthInfo {
    pub is_admin: bool,
    pub auth_cookie: Option<AuthCookie>,
}

/// The authorization outcome.
#[derive(Debug, Clone)]
pub enum AuthDecision {
    /// Allowed.
    Allow,
    /// Refused as a bad request: no filter, no cookie, or a list filter.
    Invalid,
    /// Refused: the filter is on no column the caller may use.
    Forbidden,
    /// Allowed if the caller owns the host with this identifier.
    CheckHost { user_id: String, value: String },
    /// Allowed if the caller owns this API key.
    CheckKey { user_id: String, value: String },
}

/// The authorization outcome, as values.
pub enum AuthOutcome {
    Allow,
    Invalid,
    Forbidden,
    CheckHost { user_id: Seq<char>, value: Seq<char> },
    CheckKey { user_id: Seq<char>, value: Seq<char> },
}

impl AuthDecision {
    pub open spec fn spec_of(&self) -> AuthOutcome {
        match self {
            AuthDecision::Allow => AuthOutcome::Allow,
            AuthDecision::Invalid => AuthOutcome::Invalid,
            AuthDecision::Forbidden => AuthOutcome::Forbidden,
            AuthDecision::CheckHost { user_id, value } => AuthOutcome::CheckHost { user_id: user_id@, value: value@ },
            AuthDecision::CheckKey { user_id, value } => AuthOutcome::CheckKey { user_id: user_id@, value: value@ },
        }
    }
}

/// Authorization: an admin passes; any other caller needs a cookie and a filter
/// with one literal, on `host_uuid` or `uuid` (checked against the hosts it
/// owns), on `customer_id` equal to its own id, or on `key` (checked against
/// its API keys).
pub open spec fn auth_spec(is_admin: bool, user: Option<Seq<char>>, filter: Option<(Seq<char>, Option<Seq<char>>)>) -> AuthOutcome {
    if is_admin {
        AuthOutcome::Allow
    } else {
        match (filter, user) {
            (Some((col, Some(v))), Some(u)) => if col == "host_uuid"@ || col == "uuid"@ {
                AuthOutcome::CheckHost { user_id: u, value: v }
            } else if col == "customer_id"@ && v == u {
                AuthOutcome::Allow
            } else if col == "key"@ {
                AuthOutcome::CheckKey { user_id: u, value: v }
            } else {
                AuthOutcome::Forbidden
            },
            _ => AuthOutcome::Invalid,
        }
    }
}

/// The caller's id, as a value.
pub open spec fn user_of(auth: AuthInfo) -> Option<Seq<char>> {
    match auth.auth_cookie {
        Some(c) => Some(c.user_id@),
        None => None,
    }
}

/// The filter's column and its one literal, as values.
pub open spec fn filter_of_watch(w: WsWatchFor) -> Option<(Seq<char>, Option<Seq<char>>)> {
    match w.specific {
        None => None,
        Some(f) => Some(
            (
                f.column@,
                match f.value {
                    DataType::String(v) => Some(v@),
                    DataType::Array(_) => None,
                },
            ),
        ),
    }
}

/// Decides whether a caller may open a subscription.
pub fn auth_decision(auth: &AuthInfo, watch_for: &WsWatchFor) -> (r: AuthDecision)
    ensures
        r.spec_of() == auth_spec(auth.is_admin, user_of(*auth), filter_of_watch(*watch_for)),
{
    if auth.is_admin {
        return AuthDecision::Allow;
    }
    let f = match &watch_for.specific {
        None => return AuthDecision::Invalid,
        Some(f) => f,
    };
    let user = match &auth.auth_cookie {
        None => return AuthDecision::Invalid,
        Some(c) => &c.user_id,
    };
    let value = match &f.value {
        DataType::String(v) => v,
        DataType::Array(_) => return AuthDecision::Invalid,
    };
    let col = f.column.as_str();
    if same_text(col, "host_uuid") || same_text(col, "uuid") {
        AuthDecision::CheckHost { user_id: user.clone(), value: value.clone() }
    } else if same_text(col, "customer_id") && same_text(value.as_str(), user.as_str()) {
        AuthDecision::Allow
    } else if same_text(col, "key") {
        AuthDecision::CheckKey { user_id: user.clone(), value: value.clone() }
    } else {
        AuthDecision::Forbidden
    }
}

} // verus!
