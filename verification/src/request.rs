//! Request validation and wire encoding: a request is one URI of at most
//! 1024 bytes, with a host and no userinfo, sent as `<uri>\r\n`.
use crate::text::starts_with_char;
use crate::uri::{spec_parse_uri, Uri};
use vstd::prelude::*;
use vstd::string::*;
use vstd::utf8::encode_utf8;

verus! {

#[derive(Debug)]
pub enum RequestError {
    UrlTooLong,
    InvalidUrl,
}

/// What a URI must look like to be sent as a request: no leading
/// byte-order mark, a host present, no credentials.
pub open spec fn acceptable_request_uri(s: Seq<char>) -> bool {
    &&& !(s.len() > 0 && s[0] == '\u{FEFF}')
    &&& spec_parse_uri(s).host is Some
    &&& spec_parse_uri(s).userinfo is None
}

/// A validated request: the URI text held verbatim, within the length
/// bound, known to carry a host and no userinfo.
#[derive(Debug, Clone)]
pub struct Request {
    uri: String,
}

impl Request {
    /// The stored URI text.
    pub closed spec fn spec_url(&self) -> Seq<char> {
        self.uri@
    }

    /// Every constructed request holds an acceptable URI of at most 1024
    /// bytes.
    pub open spec fn wf(&self) -> bool {
        encode_utf8(self.spec_url()).len() <= 1024 && acceptable_request_uri(self.spec_url())
    }

    /// Validates a URI for sending: refuses one over 1024 bytes, then one
    /// with a leading byte-order mark, without a host, or with userinfo;
    /// stores the text verbatim otherwise.
    pub fn new(uri: &str) -> (r: Result<Request, RequestError>)
        ensures
            encode_utf8(uri@).len() > 1024 ==> (r matches Err(e) && e matches
                RequestError::UrlTooLong),
            encode_utf8(uri@).len() <= 1024 && !acceptable_request_uri(uri@) ==> (r matches Err(e)
                && e matches RequestError::InvalidUrl),
            encode_utf8(uri@).len() <= 1024 && acceptable_request_uri(uri@) ==> (r matches Ok(rq)
                && rq.spec_url() == uri@ && rq.wf()),
    {
        if uri.as_bytes().len() > 1024 {
            return Err(RequestError::UrlTooLong);
        }
        let view = match Uri::new(uri) {
            Ok(v) => v,
            Err(_) => {
                return Err(RequestError::UrlTooLong);
            },
        };
        if starts_with_char(uri, '\u{FEFF}') || view.host.is_none() || view.userinfo.is_some() {
            return Err(RequestError::InvalidUrl);
        }
        Ok(Request { uri: String::from_str(uri) })
    }

    /// The stored URI, freshly decomposed.
    pub fn url(&self) -> (r: Uri<'_>)
        ensures
            r@ == spec_parse_uri(self.spec_url()),
    {
        let parsed = Uri::new(self.uri.as_str());
        parsed.unwrap()
    }

    /// The stored URI text.
    pub fn url_as_str(&self) -> (r: &str)
        ensures
            r@ == self.spec_url(),
    {
        self.uri.as_str()
    }

    /// Appends the wire form of the request: the URI text followed by
    /// CR LF, and nothing else.
    pub fn write(&self, out: &mut Vec<u8>)
        ensures
            final(out)@ == old(out)@ + encode_utf8(self.spec_url()) + seq![13u8, 10u8],
    {
        out.extend_from_slice(self.uri.as_str().as_bytes());
        out.push(13);
        out.push(10);
        proof {
            assert(out@ =~= old(out)@ + encode_utf8(self.spec_url()) + seq![13u8, 10u8]);
        }
    }
}

} // verus!
