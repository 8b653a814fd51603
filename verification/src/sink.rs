//! The sink dispatcher's decision: which delivery a destination URL calls
//! for.  The delivery itself — appending to a file, or an HTTP POST — is
//! outside work that the caller performs; this module only plans it, and an
//! unsupported scheme is rejected before any I/O could be attempted.

use vstd::prelude::*;

use crate::text::str_eq_exec;

verus! {

/// Whether `url::Url::parse` accepts this text.
pub uninterp spec fn url_valid(s: Seq<char>) -> bool;

/// The scheme component of a parsed URL, lower-cased.
pub uninterp spec fn url_scheme(s: Seq<char>) -> Seq<char>;

/// The path component of a parsed URL.
pub uninterp spec fn url_path(s: Seq<char>) -> Seq<char>;

/// Relies on url's `Url::parse`, `Url::scheme` and `Url::path`: success and
/// both components depend on the URL text alone; `scheme` returns the
/// lower-cased scheme and `path` the path component.
#[verifier::external_body]
fn parse_url_parts(s: &str) -> (r: Option<(String, String)>)
    ensures
        (r is Some) == url_valid(s@),
        r is Some ==> r.unwrap().0@ == url_scheme(s@) && r.unwrap().1@ == url_path(s@),
{
    match url::Url::parse(s) {
        Ok(u) => Some((u.scheme().to_string(), u.path().to_string())),
        Err(_) => None,
    }
}

/// A planned delivery, for the caller to perform.
#[derive(Debug, PartialEq)]
pub enum SinkAction {
    /// Open the file in append mode, creating it if absent and never
    /// truncating it, and write the payload followed by a newline.
    AppendFile { path: String, payload: String },
    /// POST the payload to the URL with a JSON content type, bounded by the
    /// timeout.
    HttpPost { url: String, payload: String, timeout_seconds: u64 },
}

pub enum SinkActionV {
    AppendFile { path: Seq<char>, payload: Seq<char> },
    HttpPost { url: Seq<char>, payload: Seq<char>, timeout_seconds: u64 },
}

impl View for SinkAction {
    type V = SinkActionV;

    open spec fn view(&self) -> SinkActionV {
        match self {
            SinkAction::AppendFile { path, payload } => SinkActionV::AppendFile {
                path: path@,
                payload: payload@,
            },
            SinkAction::HttpPost { url, payload, timeout_seconds } => SinkActionV::HttpPost {
                url: url@,
                payload: payload@,
                timeout_seconds: *timeout_seconds,
            },
        }
    }
}

/// A destination that no delivery can serve.
#[derive(Debug, Clone, Copy, PartialEq, Eq, Structural)]
pub enum DispatchError {
    /// The destination is not a URL.
    InvalidUrl,
    /// The URL's scheme is neither `file`, `http` nor `https`.
    UnsupportedScheme,
}

/// The delivery a destination URL calls for: `file` URLs append to the path,
/// `http` and `https` URLs are POST targets, anything else is rejected
/// outright.
pub open spec fn spec_plan_delivery(dest: Seq<char>, payload: Seq<char>, timeout: u64) -> Result<
    SinkActionV,
    DispatchError,
> {
    if !url_valid(dest) {
        Err(DispatchError::InvalidUrl)
    } else if url_scheme(dest) == "file"@ {
        Ok(SinkActionV::AppendFile { path: url_path(dest), payload })
    } else if url_scheme(dest) == "http"@ || url_scheme(dest) == "https"@ {
        Ok(SinkActionV::HttpPost { url: dest, payload, timeout_seconds: timeout })
    } else {
        Err(DispatchError::UnsupportedScheme)
    }
}

/// Plans the delivery of a payload to a destination URL.
pub fn plan_delivery(dest: &String, payload: String, timeout_seconds: u64) -> (r: Result<
    SinkAction,
    DispatchError,
>)
    ensures
        (match r {
            Ok(a) => Ok(a@),
            Err(e) => Err::<SinkActionV, DispatchError>(e),
        }) == spec_plan_delivery(dest@, payload@, timeout_seconds),
{
    match parse_url_parts(dest.as_str()) {
        None => Err(DispatchError::InvalidUrl),
        Some((scheme, path)) => {
            if str_eq_exec(scheme.as_str(), "file") {
                Ok(SinkAction::AppendFile { path, payload })
            } else if str_eq_exec(scheme.as_str(), "http") || str_eq_exec(
                scheme.as_str(),
                "https",
            ) {
                Ok(
                    SinkAction::HttpPost {
                        url: dest.clone(),
                        payload,
                        timeout_seconds,
                    },
                )
            } else {
                Err(DispatchError::UnsupportedScheme)
            }
        },
    }
}

/// A destination whose scheme is not `file`, `http` or `https` is rejected
/// outright, with no delivery planned — so no I/O is ever attempted for it.
pub proof fn lemma_unsupported_scheme_rejected(dest: Seq<char>, payload: Seq<char>, timeout: u64)
    requires
        url_valid(dest),
        url_scheme(dest) != "file"@,
        url_scheme(dest) != "http"@,
        url_scheme(dest) != "https"@,
    ensures
        spec_plan_delivery(dest, payload, timeout) == Err::<SinkActionV, DispatchError>(
            DispatchError::UnsupportedScheme,
        ),
{
}

} // verus!
