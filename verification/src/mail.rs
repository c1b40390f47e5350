//! The library's view of a parsed message: the headers in document
//! order, each with its raw (pre-unfolding) value bytes, and the raw
//! body bytes that follow the first empty line.

use vstd::prelude::*;

use crate::errors::DKIMError;

verus! {

use vstd::string::StringExecFns;
use vstd::string::StringSliceAdditionalSpecFns;

/// One message header: its name and its raw value bytes (everything
/// after the colon and one optional space, folding line breaks included,
/// without the terminating line break).
#[derive(Debug, Clone)]
pub struct Header {
    pub name: String,
    pub value: Vec<u8>,
}

impl View for Header {
    type V = (Seq<char>, Seq<u8>);

    open spec fn view(&self) -> (Seq<char>, Seq<u8>) {
        (self.name@, self.value@)
    }
}

/// A message split into its headers and its body.
#[derive(Debug, Clone)]
pub struct ParsedEmail {
    pub headers: Vec<Header>,
    pub body: Vec<u8>,
}

impl ParsedEmail {
    /// The `(name, value)` pairs of the headers, in document order.
    pub open spec fn spec_headers(&self) -> Seq<(Seq<char>, Seq<u8>)> {
        self.headers@.map_values(|h: Header| h@)
    }
}

/// What splitting a raw message yields: its header `(name, value)` pairs
/// in document order and its body bytes, or `None` for bytes the mail
/// parser rejects.
pub uninterp spec fn spec_parsed_mail(bytes: Seq<u8>) -> Option<(Seq<(Seq<char>, Seq<u8>)>, Seq<u8>)>;

/// Relies on mailparse::parse_headers to split a message into headers
/// and body; the split depends on the input bytes alone.
#[verifier::external_body]
pub(crate) fn parse_email(bytes: &[u8]) -> (r: Result<ParsedEmail, DKIMError>)
    ensures
        (match r {
            Ok(email) => spec_parsed_mail(bytes@) == Some(
                (email.spec_headers(), email.body@),
            ),
            Err(e) => (spec_parsed_mail(bytes@) is None) && (e is SignatureSyntaxError),
        }),
{
    let (parsed, ix) = match mailparse::parse_headers(bytes) {
        Ok(p) => p,
        Err(e) => {
            return Err(DKIMError::SignatureSyntaxError(e.to_string()));
        },
    };
    let headers = parsed
        .iter()
        .map(|h| Header { name: h.get_key(), value: h.get_value_raw().to_vec() })
        .collect();
    Ok(ParsedEmail { headers, body: bytes[ix..].to_vec() })
}

/// Relies on str::from_utf8: it succeeds exactly on valid UTF-8 and
/// hands the same bytes back as text.
#[verifier::external_body]
pub(crate) fn utf8_to_str(b: &[u8]) -> (r: Option<&str>)
    ensures
        (match r {
            Some(s) => vstd::utf8::valid_utf8(b@) && s.spec_bytes() == b@,
            None => !vstd::utf8::valid_utf8(b@),
        }),
{
    std::str::from_utf8(b).ok()
}

} // verus!
