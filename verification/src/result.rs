//! The outcome of a verification: `Pass` with the canonicalization that
//! succeeded, `Neutral` when no signature matched the From-domain, or
//! `Fail` with the last error any candidate produced.

use vstd::prelude::*;

use crate::canonicalization::Type;
use crate::errors::DKIMError;

verus! {

/// The outcome of verifying one message against one From-domain.
#[derive(Debug, Clone)]
pub enum DKIMResult {
    /// A signature of the domain verified.
    Pass { domain: String, header_canonicalization: Type, body_canonicalization: Type },
    /// No signature matched the From-domain.
    Neutral { domain: String },
    /// At least one signature was tried; none passed, and this was the
    /// last error.
    Fail { error: DKIMError, domain: String },
}

impl DKIMResult {
    /// A passing outcome.
    pub fn pass(
        domain: String,
        header_canonicalization: Type,
        body_canonicalization: Type,
    ) -> (r: DKIMResult)
        ensures
            (r matches DKIMResult::Pass {
                domain: d,
                header_canonicalization: h,
                body_canonicalization: b,
            } && d == domain && h == header_canonicalization && b == body_canonicalization),
    {
        DKIMResult::Pass { domain, header_canonicalization, body_canonicalization }
    }

    /// A neutral outcome.
    pub fn neutral(domain: String) -> (r: DKIMResult)
        ensures
            (r matches DKIMResult::Neutral { domain: d } && d == domain),
    {
        DKIMResult::Neutral { domain }
    }

    /// A failing outcome carrying the last error.
    pub fn fail(error: DKIMError, domain: String) -> (r: DKIMResult)
        ensures
            (r matches DKIMResult::Fail { error: e, domain: d } && e == error && d == domain),
    {
        DKIMResult::Fail { error, domain }
    }

    /// A one-word summary: `pass`, `neutral` or `fail`.
    pub fn summary(&self) -> (r: String)
        ensures
            (self is Pass ==> r@ == "pass"@),
            (self is Neutral ==> r@ == "neutral"@),
            (self is Fail ==> r@ == "fail"@),
    {
        match self {
            DKIMResult::Pass { .. } => "pass".to_owned(),
            DKIMResult::Neutral { .. } => "neutral".to_owned(),
            DKIMResult::Fail { .. } => "fail".to_owned(),
        }
    }

    /// The domain the outcome speaks of.
    pub fn domain_used(&self) -> (r: &String)
        ensures
            (match self {
                DKIMResult::Pass { domain, .. } => r == domain,
                DKIMResult::Neutral { domain } => r == domain,
                DKIMResult::Fail { domain, .. } => r == domain,
            }),
    {
        match self {
            DKIMResult::Pass { domain, .. } => domain,
            DKIMResult::Neutral { domain } => domain,
            DKIMResult::Fail { domain, .. } => domain,
        }
    }

    /// The error of a failing outcome.
    pub fn error(&self) -> (r: Option<&DKIMError>)
        ensures
            (match self {
                DKIMResult::Fail { error, .. } => r == Some(error),
                _ => r is None,
            }),
    {
        match self {
            DKIMResult::Fail { error, .. } => Some(error),
            _ => None,
        }
    }
}

} // verus!
