//! The Gemini status-code taxonomy: a closed mapping from two-digit numeric
//! codes to a category plus sub-reason.
use vstd::prelude::*;

verus! {

/// The status code was not one of the values the protocol defines.
#[derive(Debug, Clone, Copy, PartialEq)]
pub struct InvalidStatusError(pub u8);

/// A response status: one of six categories, each refined by a sub-reason
/// drawn from the second digit of the wire code.
#[derive(Debug, Clone, Copy, PartialEq)]
pub enum Status {
    Input(Input),
    Success,
    Redirect(Redirect),
    TemporaryFailure(TemporaryFailure),
    PermanentFailure(PermanentFailure),
    ClientCertificateRequired(ClientCertificateRequired),
}

#[derive(Debug, Clone, Copy, PartialEq)]
pub enum Input {
    Input,
    Sensitive,
}

#[derive(Debug, Clone, Copy, PartialEq)]
pub enum Redirect {
    Temporary,
    /// The requested resource should be consistently requested from the new
    /// URL provided in future.
    Permanent,
}

#[derive(Debug, Clone, Copy, PartialEq)]
pub enum TemporaryFailure {
    TemporaryFailure,
    /// The server is unavailable due to overload or maintenance.
    ServerUnavailable,
    /// A CGI process, or similar system for generating dynamic content,
    /// died unexpectedly or timed out.
    CgiError,
    /// A proxy request failed because the server was unable to successfully
    /// complete a transaction with the remote host.
    ProxyError,
    /// Rate limiting is in effect.
    SlowDown,
}

#[derive(Debug, Clone, Copy, PartialEq)]
pub enum PermanentFailure {
    PermanentFailure,
    /// The requested resource could not be found but may be available in
    /// the future.
    NotFound,
    /// The resource requested is no longer available and will not be
    /// available again.
    Gone,
    /// The request was for a resource at a domain not served by the server
    /// and the server does not accept proxy requests.
    ProxyRequestRefused,
    /// The server was unable to parse the client's request, presumably due
    /// to a malformed request.
    BadRequest,
}

#[derive(Debug, Clone, Copy, PartialEq)]
pub enum ClientCertificateRequired {
    ClientCertificateRequired,
    /// The supplied client certificate is not authorised for accessing the
    /// particular requested resource.
    CertificateNotAuthorized,
    /// The supplied client certificate was not accepted because it is not
    /// valid.
    CertificateNotValid,
}

/// The codes the protocol defines; every other byte value is invalid.
pub open spec fn valid_status_code(code: u8) -> bool {
    ||| code == 10
    ||| code == 11
    ||| code == 20
    ||| code == 30
    ||| code == 31
    ||| code == 40
    ||| code == 41
    ||| code == 42
    ||| code == 43
    ||| code == 44
    ||| code == 50
    ||| code == 51
    ||| code == 52
    ||| code == 53
    ||| code == 59
    ||| code == 60
    ||| code == 61
    ||| code == 62
}

/// The category and sub-reason each valid code denotes.
pub open spec fn status_of(code: u8) -> Status
    recommends
        valid_status_code(code),
{
    if code == 10 {
        Status::Input(Input::Input)
    } else if code == 11 {
        Status::Input(Input::Sensitive)
    } else if code == 20 {
        Status::Success
    } else if code == 30 {
        Status::Redirect(Redirect::Temporary)
    } else if code == 31 {
        Status::Redirect(Redirect::Permanent)
    } else if code == 40 {
        Status::TemporaryFailure(TemporaryFailure::TemporaryFailure)
    } else if code == 41 {
        Status::TemporaryFailure(TemporaryFailure::ServerUnavailable)
    } else if code == 42 {
        Status::TemporaryFailure(TemporaryFailure::CgiError)
    } else if code == 43 {
        Status::TemporaryFailure(TemporaryFailure::ProxyError)
    } else if code == 44 {
        Status::TemporaryFailure(TemporaryFailure::SlowDown)
    } else if code == 50 {
        Status::PermanentFailure(PermanentFailure::PermanentFailure)
    } else if code == 51 {
        Status::PermanentFailure(PermanentFailure::NotFound)
    } else if code == 52 {
        Status::PermanentFailure(PermanentFailure::Gone)
    } else if code == 53 {
        Status::PermanentFailure(PermanentFailure::ProxyRequestRefused)
    } else if code == 59 {
        Status::PermanentFailure(PermanentFailure::BadRequest)
    } else if code == 60 {
        Status::ClientCertificateRequired(ClientCertificateRequired::ClientCertificateRequired)
    } else if code == 61 {
        Status::ClientCertificateRequired(ClientCertificateRequired::CertificateNotAuthorized)
    } else {
        Status::ClientCertificateRequired(ClientCertificateRequired::CertificateNotValid)
    }
}

impl Status {
    /// Maps a wire code to its status: succeeds for exactly the codes
    /// `valid_status_code` lists and reports every other value back inside
    /// the error.
    pub fn try_from(code: u8) -> (r: Result<Status, InvalidStatusError>)
        ensures
            valid_status_code(code) ==> r == Ok::<Status, InvalidStatusError>(status_of(code)),
            !valid_status_code(code) ==> r == Err::<Status, InvalidStatusError>(
                InvalidStatusError(code),
            ),
    {
        let x = match code {
            10 => Status::Input(Input::Input),
            11 => Status::Input(Input::Sensitive),
            20 => Status::Success,
            30 => Status::Redirect(Redirect::Temporary),
            31 => Status::Redirect(Redirect::Permanent),
            40 => Status::TemporaryFailure(TemporaryFailure::TemporaryFailure),
            41 => Status::TemporaryFailure(TemporaryFailure::ServerUnavailable),
            42 => Status::TemporaryFailure(TemporaryFailure::CgiError),
            43 => Status::TemporaryFailure(TemporaryFailure::ProxyError),
            44 => Status::TemporaryFailure(TemporaryFailure::SlowDown),
            50 => Status::PermanentFailure(PermanentFailure::PermanentFailure),
            51 => Status::PermanentFailure(PermanentFailure::NotFound),
            52 => Status::PermanentFailure(PermanentFailure::Gone),
            53 => Status::PermanentFailure(PermanentFailure::ProxyRequestRefused),
            59 => Status::PermanentFailure(PermanentFailure::BadRequest),
            60 => Status::ClientCertificateRequired(
                ClientCertificateRequired::ClientCertificateRequired,
            ),
            61 => Status::ClientCertificateRequired(
                ClientCertificateRequired::CertificateNotAuthorized,
            ),
            62 => Status::ClientCertificateRequired(
                ClientCertificateRequired::CertificateNotValid,
            ),
            _ => {
                return Err(InvalidStatusError(code));
            },
        };
        Ok(x)
    }
}

} // verus!
