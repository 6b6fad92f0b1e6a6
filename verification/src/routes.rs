//! Reverse-proxy rules: an ordered list of `(prefix, target)` pairs
//! consulted before any version routing. The list is read from the store
//! ordered by prefix, longest first, and republished wholesale on every
//! change; the snapshot swap itself is the embedding binary's concern.

use vstd::prelude::*;

use crate::text::starts_with;

verus! {

/// One reverse-proxy rule: requests whose path starts with `prefix` are
/// forwarded to `target`, an absolute URL.
#[derive(Debug)]
pub struct ReverseProxy {
    pub id: i32,
    pub prefix: String,
    pub target: String,
}

impl Clone for ReverseProxy {
    fn clone(&self) -> (r: Self)
        ensures
            r.id == self.id,
            r.prefix@ == self.prefix@,
            r.target@ == self.target@,
    {
        ReverseProxy { id: self.id, prefix: self.prefix.clone(), target: self.target.clone() }
    }
}

/// The rule applies to the path.
pub open spec fn rule_matches(r: ReverseProxy, path: Seq<char>) -> bool {
    r.prefix@.is_prefix_of(path)
}

/// `i` is the first rule in the list that applies to the path.
pub open spec fn is_first_rule_match(rules: Seq<ReverseProxy>, path: Seq<char>, i: int) -> bool {
    &&& 0 <= i < rules.len()
    &&& rule_matches(rules[i], path)
    &&& forall|j: int| 0 <= j < i ==> !rule_matches(rules[j], path)
}

/// Some rule in the list applies to the path.
pub open spec fn has_rule_match(rules: Seq<ReverseProxy>, path: Seq<char>) -> bool {
    exists|i: int| 0 <= i < rules.len() && rule_matches(rules[i], path)
}

/// The current reverse-proxy table: scanned in stored order, first
/// matching prefix wins.
#[derive(Debug)]
pub struct ReverseProxies {
    list: Vec<ReverseProxy>,
}

impl ReverseProxies {
    /// The rules, in scan order.
    pub closed spec fn rules(&self) -> Seq<ReverseProxy> {
        self.list@
    }

    /// An empty table.
    pub fn new() -> (r: ReverseProxies)
        ensures
            r.rules().len() == 0,
    {
        ReverseProxies { list: Vec::new() }
    }

    /// Replaces the whole table, as every store change does.
    pub fn set(&mut self, list: Vec<ReverseProxy>)
        ensures
            final(self).rules() == list@,
    {
        self.list = list;
    }

    /// The first rule whose prefix starts the given path, if any.
    pub fn find_by_path(&self, path: &str) -> (r: Option<ReverseProxy>)
        ensures
            match r {
                Some(rule) => exists|i: int|
                    {
                        &&& #[trigger] is_first_rule_match(self.rules(), path@, i)
                        &&& rule.id == self.rules()[i].id
                        &&& rule.prefix@ == self.rules()[i].prefix@
                        &&& rule.target@ == self.rules()[i].target@
                    },
                None => !has_rule_match(self.rules(), path@),
            },
    {
        let n = self.list.len();
        let mut i: usize = 0;
        while i < n
            invariant
                n == self.rules().len(),
                i <= n,
                forall|k: int| 0 <= k < i ==> !rule_matches(#[trigger] self.rules()[k], path@),
            decreases n - i,
        {
            if starts_with(path, self.list[i].prefix.as_str()) {
                let rule = self.list[i].clone();
                proof {
                    assert(is_first_rule_match(self.rules(), path@, i as int));
                }
                return Some(rule);
            }
            i += 1;
        }
        None
    }
}

/// Parsing succeeds on the text of a well-formed absolute URL.
pub uninterp spec fn url_parses(s: Seq<char>) -> bool;

/// The path component of a well-formed absolute URL's text.
pub uninterp spec fn url_path_of(s: Seq<char>) -> Seq<char>;

/// Relies on `url::Url::parse` and `url::Url::path`: parsing an absolute
/// URL is deterministic in its text, and `path` hands back the URL's path
/// component.
#[verifier::external_body]
fn parse_url_path(target: &str) -> (r: Option<String>)
    ensures
        r is Some <==> url_parses(target@),
        r matches Some(p) ==> p@ == url_path_of(target@),
{
    match url::Url::parse(target) {
        Ok(u) => Some(u.path().to_string()),
        Err(_) => None,
    }
}

/// Whether the text parses as an absolute URL; rule targets are checked
/// with this before they are stored.
pub fn is_valid_url(target: &str) -> (r: bool)
    ensures
        r == url_parses(target@),
{
    parse_url_path(target).is_some()
}

/// Where a reverse-proxied request is sent: the rule's target, the rebuilt
/// path, and the preserved query.
#[derive(Debug)]
pub struct ProxyDestination {
    pub target: String,
    pub path: String,
    pub query: Option<String>,
}

/// The rebuilt path of a forwarded request: the target URL's own path
/// with the request path's remainder after the matched prefix appended.
pub open spec fn forwarded_path(target: Seq<char>, path: Seq<char>, prefix_len: int) -> Seq<char> {
    url_path_of(target) + path.skip(prefix_len)
}

/// Builds the destination for a request that matched a reverse-proxy
/// rule: the prefix is stripped, the remainder is appended to the target's
/// path, and the query is preserved. Fails only when the stored target
/// does not parse as a URL.
pub fn build_destination(rule: &ReverseProxy, path: &str, query: Option<&str>) -> (r: Option<
    ProxyDestination,
>)
    requires
        rule.prefix@.is_prefix_of(path@),
    ensures
        match r {
            Some(d) => {
                &&& url_parses(rule.target@)
                &&& d.target@ == rule.target@
                &&& d.path@ == forwarded_path(rule.target@, path@, rule.prefix@.len() as int)
                &&& match (query, &d.query) {
                    (Some(q), Some(dq)) => dq@ == q@,
                    (None, None) => true,
                    _ => false,
                }
            },
            None => !url_parses(rule.target@),
        },
{
    let mut base = match parse_url_path(rule.target.as_str()) {
        Some(p) => p,
        None => {
            return None;
        },
    };
    let p_len = rule.prefix.unicode_len();
    let len = path.unicode_len();
    let rest = path.substring_char(p_len, len);
    base.append(rest);
    proof {
        assert(rest@ =~= path@.skip(rule.prefix@.len() as int));
    }
    let q = match query {
        Some(q) => Some(String::from_str(q)),
        None => None,
    };
    Some(ProxyDestination { target: rule.target.clone(), path: base, query: q })
}

} // verus!
