//! The injected DNS capability: the verifier asks an implementation of
//! `Lookup` for the TXT records of `<selector>._domainkey.<domain>`, and
//! never opens a socket itself.

use vstd::prelude::*;

use crate::errors::DKIMError;
use crate::strutil;

verus! {

/// A TXT-record lookup capability.  Implementations wrap a real stub
/// resolver, a DNS-over-HTTPS client, or a dictionary of fixtures; the
/// verifier assumes nothing about the strings an implementation hands
/// back.
pub trait Lookup {
    /// The TXT records published at `name`, each record's character
    /// strings already concatenated.
    fn lookup_txt(&self, name: &str) -> Result<Vec<String>, DKIMError>;
}

/// A dictionary-backed resolver for offline use: maps DNS names to the
/// TXT records they would yield.
pub struct MapLookup {
    pub entries: Vec<(String, Vec<String>)>,
}

impl Lookup for MapLookup {
    fn lookup_txt(&self, name: &str) -> Result<Vec<String>, DKIMError> {
        let n = self.entries.len();
        let mut k: usize = 0;
        while k < n
            invariant
                n == self.entries@.len(),
                k <= n,
            decreases n - k,
        {
            if strutil::str_eq(self.entries[k].0.as_str(), name) {
                return Ok(self.entries[k].1.clone());
            }
            k = k + 1;
        }
        Err(DKIMError::KeyUnavailable(String::from_str("no TXT record")))
    }
}

/// What the `data` strings of the `Answer` array of a DNS-over-HTTPS
/// JSON response are, or `None` when the response does not parse or
/// carries no such array.
pub uninterp spec fn spec_google_answer_datas(s: Seq<char>) -> Option<Seq<Seq<char>>>;

/// Relies on serde_json (from_str, Value::get, Value::as_array and the
/// Display form of Value) to project the `data` strings out of the
/// `Answer` array of a DNS-over-HTTPS response; the projection depends
/// on the response text alone.
#[verifier::external_body]
pub(crate) fn google_answer_datas(response: &str) -> (r: Option<Vec<String>>)
    ensures
        (match r {
            Some(v) => spec_google_answer_datas(response@) == Some(
                v@.map_values(|x: String| x@),
            ),
            None => spec_google_answer_datas(response@) is None,
        }),
{
    let value: serde_json::Value = match serde_json::from_str(response) {
        Ok(v) => v,
        Err(_) => return None,
    };
    let answers = value.get("Answer")?.as_array()?;
    Some(answers.iter().map(|a| a["data"].to_string()).collect())
}

} // verus!
