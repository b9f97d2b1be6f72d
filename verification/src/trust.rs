//! How far an agent is trusted.
use vstd::prelude::*;
use vstd::string::*;
use crate::parse::{lowercase, to_lowercase};
use crate::text::str_eq;

verus! {

/// How far an agent is trusted.
#[derive(Debug, Clone, Copy, PartialEq, Eq, Structural)]
pub enum TrustLevel {
    Verified,
    Provisional,
    Unknown,
}

/// The trust level a name stands for, compared case-insensitively.
pub open spec fn trust_named(s: Seq<char>) -> Option<TrustLevel> {
    let l = lowercase(s);
    if l == "verified"@ {
        Some(TrustLevel::Verified)
    } else if l == "provisional"@ {
        Some(TrustLevel::Provisional)
    } else if l == "unknown"@ {
        Some(TrustLevel::Unknown)
    } else {
        None
    }
}

/// The message for a name that is no trust level.
pub open spec fn bad_trust_text(s: Seq<char>) -> Seq<char> {
    "Invalid trust level '"@ + s + "'. Expected: verified, provisional, unknown"@
}

/// Parse `verified`, `provisional` or `unknown`, in any case.
pub fn parse_trust_level(s: &str) -> (r: Result<TrustLevel, String>)
    ensures
        match r {
            Ok(t) => trust_named(s@) == Some(t),
            Err(m) => trust_named(s@) is None && m@ == bad_trust_text(s@),
        },
{
    let l = to_lowercase(s);
    proof {
        reveal_strlit("verified");
        reveal_strlit("provisional");
        reveal_strlit("unknown");
    }
    if str_eq(l.as_str(), "verified") {
        Ok(TrustLevel::Verified)
    } else if str_eq(l.as_str(), "provisional") {
        Ok(TrustLevel::Provisional)
    } else if str_eq(l.as_str(), "unknown") {
        Ok(TrustLevel::Unknown)
    } else {
        let mut m = "Invalid trust level '".to_string();
        m.append(s);
        m.append("'. Expected: verified, provisional, unknown");
        Err(m)
    }
}

} // verus!
