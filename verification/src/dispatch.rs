//! The per-request dispatcher: decides, for one inbound request, which
//! upstream serves it, whether a version cookie is set, and whether a
//! request log is recorded.
//!
//! The decision order is fixed: a reverse-proxy prefix match wins outright
//! and neither sets a cookie nor logs; otherwise a request whose version
//! cookie names a known version goes back to that version, logged but
//! without a new cookie; otherwise the split policy selects a version,
//! the response carries a fresh cookie, and the request is logged.

use vstd::prelude::*;

use crate::fingerprint::VisitorHash;
use crate::pipeline::RequestLog;
use crate::registry::has_url_match;
use crate::registry::is_first_url_match;
use crate::registry::is_weight_pick;
use crate::registry::sum_weights;
use crate::registry::upstream_url_chars;
use crate::registry::VersionRegistry;
use crate::routes::forwarded_path;
use crate::routes::has_rule_match;
use crate::routes::is_first_rule_match;
use crate::routes::url_parses;
use crate::routes::ProxyDestination;
use crate::routes::ReverseProxies;
use crate::version::VersionName;

verus! {

/// The cookie that remembers which version a visitor was served.
pub fn version_cookie_name() -> (s: &'static str)
    ensures
        s@ == "QPACKT_VERSION"@,
{
    "QPACKT_VERSION"
}

/// How long a freshly set version cookie lives, in seconds.
pub const COOKIE_MAX_AGE_SECONDS: u64 = 7 * 24 * 60 * 60;

/// What the dispatcher decides for one request.
#[derive(Debug)]
pub enum RouteDecision {
    /// Stream from a reverse-proxy target. No cookie is set and no
    /// request log is recorded.
    Reverse(ProxyDestination),
    /// Stream from the version the request's cookie names. No new cookie
    /// is set; the log is recorded.
    Previous { url: String, version: VersionName, log: RequestLog },
    /// Stream from a freshly selected version; the response sets the
    /// version cookie to the selected name, and the log is recorded.
    New { url: String, version: VersionName, log: RequestLog },
    /// No upstream can serve the request: answer with a server error.
    Unroutable,
}

/// The cookie value names no registered version (or there is no cookie).
pub open spec fn cookie_unknown(registry: &VersionRegistry, cookie: Option<&str>) -> bool {
    match cookie {
        Some(c) => forall|i: int|
            0 <= i < registry.entries_seq().len() ==> (#[trigger] registry.entries_seq()[i]).version.name@
                != c@,
        None => true,
    }
}

/// Decides how one request is served. `path` is the request path,
/// `query` the raw query string if one came, `uri` the full request line
/// target kept for the log, and `cookie` the version cookie's value if
/// the request carried one.
pub fn route_request(
    proxies: &ReverseProxies,
    registry: &VersionRegistry,
    path: &str,
    query: Option<&str>,
    uri: &str,
    cookie: Option<&str>,
    visitor: VisitorHash,
    now: u64,
) -> (d: RouteDecision)
    requires
        registry.wf(),
    ensures
        ({
            let rules = proxies.rules();
            let entries = registry.entries_seq();
            let qv = match query {
                Some(q) => q@,
                None => Seq::<char>::empty(),
            };
            match d {
                RouteDecision::Reverse(dest) => exists|i: int|
                    {
                        &&& #[trigger] is_first_rule_match(rules, path@, i)
                        &&& url_parses(rules[i].target@)
                        &&& dest.target@ == rules[i].target@
                        &&& dest.path@ == forwarded_path(
                            rules[i].target@,
                            path@,
                            rules[i].prefix@.len() as int,
                        )
                        &&& match (query, &dest.query) {
                            (Some(q), Some(dq)) => dq@ == q@,
                            (None, None) => true,
                            _ => false,
                        }
                    },
                RouteDecision::Previous { url, version, log } => {
                    &&& !has_rule_match(rules, path@)
                    &&& cookie matches Some(c) && version@ == c@
                    &&& exists|i: int|
                        0 <= i < entries.len() && (#[trigger] entries[i]).version.name@ == version@
                            && url@ == upstream_url_chars(entries[i].port)
                    &&& log.visitor == visitor
                    &&& log.time == now
                    &&& log.version@ == version@
                    &&& log.uri@ == uri@
                },
                RouteDecision::New { url, version, log } => {
                    &&& !has_rule_match(rules, path@)
                    &&& cookie_unknown(registry, cookie)
                    &&& exists|i: int|
                        {
                            &&& 0 <= i < entries.len()
                            &&& version@ == (#[trigger] entries[i]).version.name@
                            &&& url@ == upstream_url_chars(entries[i].port)
                            &&& if has_url_match(entries, qv) {
                                is_first_url_match(entries, qv, i)
                            } else {
                                exists|r: u64| r <= sum_weights(entries) && is_weight_pick(entries, r, i)
                            }
                        }
                    &&& log.visitor == visitor
                    &&& log.time == now
                    &&& log.version@ == version@
                    &&& log.uri@ == uri@
                },
                RouteDecision::Unroutable => {
                    ||| exists|i: int|
                        #[trigger] is_first_rule_match(rules, path@, i) && !url_parses(
                            rules[i].target@,
                        )
                    ||| {
                        &&& !has_rule_match(rules, path@)
                        &&& cookie_unknown(registry, cookie)
                        &&& !has_url_match(entries, qv)
                        &&& !crate::registry::has_weighted(entries)
                    }
                },
            }
        }),
{
    match proxies.find_by_path(path) {
        Some(rule) => {
            proof {
                let i = choose|i: int|
                    is_first_rule_match(proxies.rules(), path@, i) && rule.id
                        == proxies.rules()[i].id && rule.prefix@ == proxies.rules()[i].prefix@
                        && rule.target@ == proxies.rules()[i].target@;
                assert(rule.prefix@.is_prefix_of(path@));
            }
            match crate::routes::build_destination(&rule, path, query) {
                Some(dest) => RouteDecision::Reverse(dest),
                None => RouteDecision::Unroutable,
            }
        },
        None => {
            match cookie {
                Some(c) => {
                    match registry.get_url_for_cookie(c) {
                        Some((url, version)) => {
                            let log = RequestLog {
                                time: now,
                                visitor,
                                version: version.clone(),
                                uri: String::from_str(uri),
                            };
                            return RouteDecision::Previous { url, version, log };
                        },
                        None => {},
                    }
                },
                None => {},
            }
            let q: &str = match query {
                Some(q) => q,
                None => "",
            };
            proof {
                reveal_strlit("");
                assert(""@ =~= Seq::<char>::empty());
            }
            match registry.pick_upstream(q) {
                Ok((url, version)) => {
                    let log = RequestLog {
                        time: now,
                        visitor,
                        version: version.clone(),
                        uri: String::from_str(uri),
                    };
                    RouteDecision::New { url, version, log }
                },
                Err(_) => RouteDecision::Unroutable,
            }
        },
    }
}

} // verus!
