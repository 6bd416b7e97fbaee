//! How the requests of a run are to be made. The client is set up once and
//! shared by all fetchers.

use vstd::prelude::*;

verus! {

/// How many seconds a request may take before it counts as failed.
pub const REQUEST_TIMEOUT_SECS: u64 = 20;

/// The settings of the client that sends the requests.
#[derive(Debug, Clone, Copy, PartialEq, Eq)]
pub struct ClientSettings {
    /// Whether a certificate that does not validate is accepted.
    pub accept_invalid_certs: bool,
    /// What the client calls itself.
    pub user_agent: &'static str,
    /// Whether the client follows a redirection by itself.
    pub follow_redirects: bool,
    /// How many seconds a request may take.
    pub timeout_secs: u64,
    /// The `Accept` header of each request.
    pub accept: &'static str,
}

/// The settings of a run: certificates are not validated, since many sites
/// let theirs lapse; the client calls itself by the name of a common
/// command-line tool, since some sites turn unknown clients away; it follows
/// no redirection by itself, so that the fetcher sees the status; and a
/// request may take [`REQUEST_TIMEOUT_SECS`] seconds.
pub fn client_settings() -> (settings: ClientSettings)
    ensures
        settings.accept_invalid_certs,
        settings.user_agent@ == "curl/7.54.0"@,
        !settings.follow_redirects,
        settings.timeout_secs == REQUEST_TIMEOUT_SECS,
        settings.accept@ == "text/html, */*;q=0.8"@,
{
    ClientSettings {
        accept_invalid_certs: true,
        user_agent: "curl/7.54.0",
        follow_redirects: false,
        timeout_secs: REQUEST_TIMEOUT_SECS,
        accept: "text/html, */*;q=0.8",
    }
}

} // verus!
