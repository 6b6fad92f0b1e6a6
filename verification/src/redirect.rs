//! The HTTP-to-HTTPS redirect switch and the redirect decision the plain
//! listener runs for every request once TLS is live.

use vstd::prelude::*;

verus! {

/// The process-wide switch that turns on permanent redirects to HTTPS.
/// It can only ever be raised: no operation lowers it, so once set it
/// stays set for the process lifetime.
#[derive(Debug, Clone, Copy, PartialEq, Eq, Structural)]
pub struct HttpsRedirectFlag {
    forced: bool,
}

impl HttpsRedirectFlag {
    /// Whether redirects are forced.
    pub closed spec fn is_forced(&self) -> bool {
        self.forced
    }

    /// The flag as a process starts: lowered.
    pub fn new() -> (r: HttpsRedirectFlag)
        ensures
            !r.is_forced(),
    {
        HttpsRedirectFlag { forced: false }
    }

    /// Raises the flag. This is the only operation that writes it, and it
    /// never lowers it.
    pub fn force(&mut self)
        ensures
            final(self).is_forced(),
    {
        self.forced = true;
    }

    /// Reads the flag.
    pub fn get(&self) -> (r: bool)
        ensures
            r == self.is_forced(),
    {
        self.forced
    }
}

/// What one operation of the type does to the flag: `get` leaves it as it
/// is, and `force` leaves it raised.
pub open spec fn flag_step(before: HttpsRedirectFlag, after: HttpsRedirectFlag) -> bool {
    after == before || after.is_forced()
}

/// Once raised, the flag stays raised under every operation the type
/// offers, for the process lifetime.
pub proof fn lemma_force_is_monotone(before: HttpsRedirectFlag, after: HttpsRedirectFlag)
    requires
        before.is_forced(),
        flag_step(before, after),
    ensures
        after.is_forced(),
{
}

/// What the redirect URL reads for a given host and request target.
pub open spec fn redirect_url(host: Seq<char>, uri: Seq<char>) -> Seq<char> {
    "https://"@ + host + uri
}

/// The preprocessing step of the plain-HTTP listener: when redirects are
/// forced and the request came in over plain HTTP, answer immediately
/// with a permanent redirect to the same host and target over HTTPS;
/// otherwise let the request pass.
pub fn check_https_redirect(flag: &HttpsRedirectFlag, scheme_is_http: bool, host: &str, uri: &str)
    -> (r: Option<String>)
    ensures
        match r {
            Some(url) => flag.is_forced() && scheme_is_http && url@ == redirect_url(host@, uri@),
            None => !(flag.is_forced() && scheme_is_http),
        },
{
    if flag.get() && scheme_is_http {
        let mut url = String::from_str("https://");
        url.append(host);
        url.append(uri);
        proof {
            assert(url@ =~= redirect_url(host@, uri@));
        }
        Some(url)
    } else {
        None
    }
}

} // verus!
