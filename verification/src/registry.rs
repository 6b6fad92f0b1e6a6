//! The in-memory registry of deployed site versions and the policy that
//! picks one for a cookieless request.
//!
//! Each version owns a loopback TCP port; the file server bound to that
//! port is spawned and aborted by the embedding binary, which is handed the
//! port by the methods here. Picking a version follows the split policy:
//! url-param strategies are consulted first, in list order; otherwise a
//! random draw over the weight strategies decides, first match on the
//! running subtotal winning.

use vstd::prelude::*;

use crate::error::QpacktError;
use crate::rng::random_u64_in;
use crate::strategy::Strategy;
use crate::strategy::StrategyView;
use crate::text::contains_seq;
use crate::text::contains_str;
use crate::text::dec_rep;
use crate::text::format_u64;
use crate::version::Version;
use crate::version::VersionName;

verus! {

/// The first loopback port handed to a version at startup.
pub const START_PORT: u16 = 9000;

/// One registered version together with the loopback port its file server
/// listens on.
#[derive(Debug)]
pub struct VersionEntry {
    pub version: Version,
    pub port: u16,
}

/// The weight a version contributes to the draw: its `Weight` value, or
/// zero for a url-param version.
pub open spec fn weight_of(e: VersionEntry) -> nat {
    match e.version.strategy@ {
        StrategyView::Weight(w) => w as nat,
        StrategyView::UrlParam(_) => 0,
    }
}

/// Whether the entry carries a `Weight` strategy at all.
pub open spec fn is_weighted(e: VersionEntry) -> bool {
    e.version.strategy@ is Weight
}

/// Whether the entry carries a url-param strategy whose needle occurs in
/// the raw query string.
pub open spec fn matches_query(e: VersionEntry, query: Seq<char>) -> bool {
    match e.version.strategy@ {
        StrategyView::UrlParam(p) => contains_seq(query, p),
        StrategyView::Weight(_) => false,
    }
}

/// The sum of the weights of the first `n` entries.
pub open spec fn sum_weights_prefix(s: Seq<VersionEntry>, n: int) -> nat
    decreases n,
{
    if n <= 0 {
        0
    } else {
        sum_weights_prefix(s, n - 1) + weight_of(s[n - 1])
    }
}

/// The sum of all weights in the list.
pub open spec fn sum_weights(s: Seq<VersionEntry>) -> nat {
    sum_weights_prefix(s, s.len() as int)
}

/// `i` is the first entry whose url-param needle occurs in the query.
pub open spec fn is_first_url_match(s: Seq<VersionEntry>, query: Seq<char>, i: int) -> bool {
    &&& 0 <= i < s.len()
    &&& matches_query(s[i], query)
    &&& forall|j: int| 0 <= j < i ==> !matches_query(s[j], query)
}

/// Some entry's url-param needle occurs in the query.
pub open spec fn has_url_match(s: Seq<VersionEntry>, query: Seq<char>) -> bool {
    exists|i: int| 0 <= i < s.len() && matches_query(s[i], query)
}

/// Some entry carries a weight strategy.
pub open spec fn has_weighted(s: Seq<VersionEntry>) -> bool {
    exists|i: int| 0 <= i < s.len() && is_weighted(s[i])
}

/// `i` is the entry the draw `r` lands on: the first weighted entry whose
/// running subtotal reaches `r`.
pub open spec fn is_weight_pick(s: Seq<VersionEntry>, r: u64, i: int) -> bool {
    &&& 0 <= i < s.len()
    &&& is_weighted(s[i])
    &&& sum_weights_prefix(s, i + 1) >= r
    &&& forall|j: int| 0 <= j < i && is_weighted(s[j]) ==> sum_weights_prefix(s, j + 1) < r
}

/// If every weighted entry's subtotal stays below `r`, yet `r` is at most
/// the total, there is no weighted entry among the first `n` at all.
proof fn lemma_all_subtotals_short(s: Seq<VersionEntry>, r: u64, n: int)
    requires
        0 <= n <= s.len(),
        r <= sum_weights_prefix(s, n),
        forall|j: int| 0 <= j < n && is_weighted(s[j]) ==> sum_weights_prefix(s, j + 1) < r,
    ensures
        forall|j: int| 0 <= j < n ==> !is_weighted(s[j]),
    decreases n,
{
    if n > 0 {
        if is_weighted(s[n - 1]) {
            assert(sum_weights_prefix(s, n) < r);
            assert(false);
        }
        assert(weight_of(s[n - 1]) == 0);
        lemma_all_subtotals_short(s, r, n - 1);
    }
}

/// The subtotal never exceeds one maximal weight per entry.
proof fn lemma_sum_weights_bound(s: Seq<VersionEntry>, n: int)
    requires
        0 <= n <= s.len(),
    ensures
        sum_weights_prefix(s, n) <= n * 65535,
    decreases n,
{
    if n > 0 {
        lemma_sum_weights_bound(s, n - 1);
        assert((n - 1) * 65535 + 65535 == n * 65535) by (nonlinear_arith);
    }
}

/// Picks the version for a cookieless request, given the raw query string
/// and a draw `r` over the weights: the first url-param match wins;
/// otherwise the draw walks the weighted entries. Fails exactly when
/// neither a url-param matches nor, for this draw, a weighted subtotal
/// reaches `r`.
pub fn pick_version(entries: &Vec<VersionEntry>, query: &str, r: u64) -> (result: Result<
    usize,
    QpacktError,
>)
    requires
        entries@.len() <= 0x10000,
        r <= sum_weights(entries@),
    ensures
        match result {
            Ok(i) => {
                if has_url_match(entries@, query@) {
                    is_first_url_match(entries@, query@, i as int)
                } else {
                    is_weight_pick(entries@, r, i as int)
                }
            },
            Err(e) => {
                &&& e is ProxyError
                &&& !has_url_match(entries@, query@)
                &&& !has_weighted(entries@)
            },
        },
{
    let n = entries.len();
    let mut i: usize = 0;
    while i < n
        invariant
            n == entries@.len(),
            i <= n,
            forall|j: int| 0 <= j < i ==> !matches_query(entries@[j], query@),
        decreases n - i,
    {
        match &entries[i].version.strategy {
            Strategy::UrlParam(p) => {
                if contains_str(query, p.as_str()) {
                    return Ok(i);
                }
            },
            Strategy::Weight(_) => {},
        }
        i += 1;
    }
    let mut cut: u64 = r;
    let mut picked = false;
    let mut i: usize = 0;
    while i < n
        invariant
            n == entries@.len(),
            i <= n,
            !picked,
            cut == r - sum_weights_prefix(entries@, i as int),
            sum_weights_prefix(entries@, i as int) < r || (r == 0 && cut == 0),
            forall|j: int| 0 <= j < n ==> !matches_query(entries@[j], query@),
            forall|j: int|
                0 <= j < i && is_weighted(entries@[j]) ==> sum_weights_prefix(entries@, j + 1) < r,
        decreases n - i,
    {
        match &entries[i].version.strategy {
            Strategy::Weight(w) => {
                let w64 = *w as u64;
                if cut <= w64 {
                    return Ok(i);
                }
                cut = cut - w64;
            },
            Strategy::UrlParam(_) => {},
        }
        i += 1;
    }
    proof {
        lemma_all_subtotals_short(entries@, r, n as int);
    }
    Err(QpacktError::ProxyError)
}

/// The loopback address a version's file server listens on.
pub open spec fn upstream_url_chars(port: u16) -> Seq<char> {
    "http://localhost:"@ + dec_rep(port as nat)
}

/// Builds the loopback URL for a version's port.
pub fn upstream_url(port: u16) -> (r: String)
    ensures
        r@ == upstream_url_chars(port),
{
    let mut s = String::from_str("http://localhost:");
    let digits = format_u64(port as u64);
    s.append(digits.as_str());
    proof {
        assert(s@ =~= upstream_url_chars(port));
    }
    s
}

/// The registered versions, each on its own loopback port, in the order
/// the store listed them.
#[derive(Debug)]
pub struct VersionRegistry {
    entries: Vec<VersionEntry>,
}

impl VersionRegistry {
    /// The registry's contents.
    pub closed spec fn entries_seq(&self) -> Seq<VersionEntry> {
        self.entries@
    }

    /// Well-formedness: ports start at the configured base and rise
    /// strictly in list order, and version names are unique.
    pub open spec fn wf(&self) -> bool {
        &&& forall|i: int|
            0 <= i < self.entries_seq().len() ==> (#[trigger] self.entries_seq()[i]).port
                >= START_PORT
        &&& forall|i: int, j: int|
            0 <= i < j < self.entries_seq().len() ==> (#[trigger] self.entries_seq()[i]).port < (
            #[trigger] self.entries_seq()[j]).port
        &&& forall|i: int, j: int|
            0 <= i < j < self.entries_seq().len() ==> (#[trigger] self.entries_seq()[i]).version.name@
                != (#[trigger] self.entries_seq()[j]).version.name@
    }

    /// Ports rise at least as fast as the index.
    proof fn lemma_port_floor(&self, i: int)
        requires
            self.wf(),
            0 <= i < self.entries_seq().len(),
        ensures
            self.entries_seq()[i].port >= START_PORT + i,
        decreases i,
    {
        if i > 0 {
            self.lemma_port_floor(i - 1);
        }
    }

    /// A well-formed registry fits in the port space.
    pub proof fn lemma_len_bound(&self)
        requires
            self.wf(),
        ensures
            self.entries_seq().len() <= 0x10000,
    {
        if self.entries_seq().len() > 0x10000 {
            self.lemma_port_floor(0x10000);
        }
    }

    /// Whether the stored version list can open a registry: the names
    /// must be pairwise distinct and the list must fit in the port space.
    /// Callers check this before `start`.
    pub fn can_start(versions: &Vec<Version>) -> (r: bool)
        ensures
            r <==> versions@.len() + START_PORT <= 65536 && (forall|i: int, j: int|
                0 <= i < j < versions@.len() ==> (#[trigger] versions@[i]).name@ != (
                #[trigger] versions@[j]).name@),
    {
        let n = versions.len();
        if n > 65536 - (START_PORT as usize) {
            return false;
        }
        let mut i: usize = 0;
        while i < n
            invariant
                n == versions@.len(),
                i <= n,
                forall|a: int, b: int|
                    0 <= a < b < versions@.len() && a < i ==> (#[trigger] versions@[a]).name@ != (
                    #[trigger] versions@[b]).name@,
            decreases n - i,
        {
            let mut j: usize = i + 1;
            while j < n
                invariant
                    n == versions@.len(),
                    i < n,
                    i < j,
                    j <= n,
                    forall|b: int|
                        i < b < j ==> (#[trigger] versions@[b]).name@ != versions@[i as int].name@,
                decreases n - j,
            {
                if versions[i].name.matches(versions[j].name.as_str()) {
                    return false;
                }
                j += 1;
            }
            i += 1;
        }
        true
    }

    /// Whether a version of this name can be registered now: no version
    /// of the same name exists, and the next port is still free in the
    /// port space. Callers check this before `add_version`.
    pub fn can_add_version(&self, name: &VersionName) -> (r: bool)
        ensures
            r <==> (forall|i: int|
                0 <= i < self.entries_seq().len() ==> (#[trigger] self.entries_seq()[i]).version.name@
                    != name@) && (forall|i: int|
                0 <= i < self.entries_seq().len() ==> (#[trigger] self.entries_seq()[i]).port
                    < 65535),
    {
        let n = self.entries.len();
        let mut i: usize = 0;
        while i < n
            invariant
                n == self.entries_seq().len(),
                i <= n,
                forall|k: int|
                    0 <= k < i ==> (#[trigger] self.entries_seq()[k]).version.name@ != name@
                        && self.entries_seq()[k].port < 65535,
            decreases n - i,
        {
            if self.entries[i].version.name.matches(name.as_str()) {
                return false;
            }
            if self.entries[i].port >= 65535 {
                return false;
            }
            i += 1;
        }
        true
    }

    /// Builds the registry from the stored version list, handing out
    /// consecutive ports from the base. The caller spawns one file server
    /// per entry on the returned ports.
    pub fn start(versions: Vec<Version>) -> (r: VersionRegistry)
        requires
            versions@.len() + START_PORT <= 65536,
            forall|i: int, j: int|
                0 <= i < j < versions@.len() ==> (#[trigger] versions@[i]).name@ != (
                #[trigger] versions@[j]).name@,
        ensures
            r.wf(),
            r.entries_seq().len() == versions@.len(),
            forall|i: int|
                0 <= i < versions@.len() ==> (#[trigger] r.entries_seq()[i]).version == versions@[i]
                    && r.entries_seq()[i].port == START_PORT + i,
    {
        let n = versions.len();
        let mut entries: Vec<VersionEntry> = Vec::new();
        let mut rest = versions;
        let mut i: usize = 0;
        let ghost all = rest@;
        while i < n
            invariant
                n == all.len(),
                n + START_PORT <= 65536,
                i <= n,
                rest@ =~= all.subrange(i as int, n as int),
                entries@.len() == i,
                forall|k: int|
                    0 <= k < i ==> (#[trigger] entries@[k]).version == all[k] && entries@[k].port
                        == START_PORT + k,
            decreases n - i,
        {
            let v = rest.remove(0);
            let port: u16 = START_PORT + (i as u16);
            entries.push(VersionEntry { version: v, port });
            i += 1;
        }
        let r = VersionRegistry { entries };
        proof {
            assert forall|i: int, j: int|
                0 <= i < j < r.entries_seq().len() implies (#[trigger] r.entries_seq()[i]).version.name@
                != (#[trigger] r.entries_seq()[j]).version.name@ by {
                assert(r.entries_seq()[i].version == all[i]);
                assert(r.entries_seq()[j].version == all[j]);
            }
        }
        r
    }

    /// How many versions are registered.
    pub fn len(&self) -> (n: usize)
        ensures
            n == self.entries_seq().len(),
    {
        self.entries.len()
    }

    /// A copy of the registered versions, in order.
    pub fn list(&self) -> (r: Vec<Version>)
        ensures
            r@.len() == self.entries_seq().len(),
            forall|i: int|
                0 <= i < r@.len() ==> (#[trigger] r@[i]).name@ == self.entries_seq()[i].version.name@
                    && r@[i].web_root@ == self.entries_seq()[i].version.web_root@ && r@[i].strategy@
                    == self.entries_seq()[i].version.strategy@,
    {
        let mut out: Vec<Version> = Vec::new();
        let n = self.entries.len();
        let mut i: usize = 0;
        while i < n
            invariant
                n == self.entries_seq().len(),
                i <= n,
                out@.len() == i,
                forall|k: int|
                    0 <= k < i ==> (#[trigger] out@[k]).name@ == self.entries_seq()[k].version.name@
                        && out@[k].web_root@ == self.entries_seq()[k].version.web_root@
                        && out@[k].strategy@ == self.entries_seq()[k].version.strategy@,
            decreases n - i,
        {
            out.push(self.entries[i].version.clone());
            i += 1;
        }
        out
    }

    /// The upstream URL and name for the version a cookie names, if the
    /// cookie value is a registered version's name.
    pub fn get_url_for_cookie(&self, cookie: &str) -> (r: Option<(String, VersionName)>)
        ensures
            match r {
                Some((url, name)) => {
                    &&& name@ == cookie@
                    &&& exists|i: int|
                        0 <= i < self.entries_seq().len() && (#[trigger] self.entries_seq()[i]).version.name@
                            == cookie@ && url@ == upstream_url_chars(self.entries_seq()[i].port)
                },
                None => forall|i: int|
                    0 <= i < self.entries_seq().len() ==> (#[trigger] self.entries_seq()[i]).version.name@
                        != cookie@,
            },
    {
        let n = self.entries.len();
        let mut i: usize = 0;
        while i < n
            invariant
                n == self.entries_seq().len(),
                i <= n,
                forall|k: int|
                    0 <= k < i ==> (#[trigger] self.entries_seq()[k]).version.name@ != cookie@,
            decreases n - i,
        {
            if self.entries[i].version.name.matches(cookie) {
                let url = upstream_url(self.entries[i].port);
                let name = self.entries[i].version.name.clone();
                return Some((url, name));
            }
            i += 1;
        }
        None
    }

    /// Picks an upstream for a cookieless request: the first url-param
    /// match if any, else a uniform draw over the weights. Succeeds if and
    /// only if a url-param matches or some version carries a weight.
    pub fn pick_upstream(&self, query: &str) -> (result: Result<(String, VersionName), QpacktError>)
        requires
            self.wf(),
        ensures
            match result {
                Ok((url, name)) => exists|i: int|
                    {
                        &&& 0 <= i < self.entries_seq().len()
                        &&& name@ == (#[trigger] self.entries_seq()[i]).version.name@
                        &&& url@ == upstream_url_chars(self.entries_seq()[i].port)
                        &&& if has_url_match(self.entries_seq(), query@) {
                            is_first_url_match(self.entries_seq(), query@, i)
                        } else {
                            exists|r: u64|
                                r <= sum_weights(self.entries_seq()) && is_weight_pick(
                                    self.entries_seq(),
                                    r,
                                    i,
                                )
                        }
                    },
                Err(e) => {
                    &&& e is ProxyError
                    &&& !has_url_match(self.entries_seq(), query@)
                    &&& !has_weighted(self.entries_seq())
                },
            },
    {
        proof {
            self.lemma_len_bound();
        }
        let n = self.entries.len();
        let mut sum: u64 = 0;
        let mut i: usize = 0;
        while i < n
            invariant
                n == self.entries_seq().len(),
                n <= 0x10000,
                i <= n,
                sum == sum_weights_prefix(self.entries_seq(), i as int),
                sum <= i * 65535,
            decreases n - i,
        {
            match &self.entries[i].version.strategy {
                Strategy::Weight(w) => {
                    proof {
                        assert((i as int) * 65535 + 65535 == (i + 1) * 65535) by (nonlinear_arith);
                    }
                    sum = sum + (*w as u64);
                },
                Strategy::UrlParam(_) => {
                    proof {
                        assert((i as int) * 65535 + 65535 == (i + 1) * 65535) by (nonlinear_arith);
                    }
                },
            }
            i += 1;
        }
        let r = random_u64_in(0, sum);
        match pick_version(&self.entries, query, r) {
            Ok(i) => {
                let url = upstream_url(self.entries[i].port);
                let name = self.entries[i].version.name.clone();
                Ok((url, name))
            },
            Err(e) => Err(e),
        }
    }

    /// Replaces the strategy of every registered version that the given
    /// list names, taking each version's first occurrence in the list.
    /// Names, ports, roots and order stay as they are; versions the list
    /// does not name keep their strategy.
    pub fn update_strategies(&mut self, new: &Vec<Version>)
        ensures
            final(self).entries_seq().len() == old(self).entries_seq().len(),
            forall|i: int|
                0 <= i < old(self).entries_seq().len() ==> {
                    let e_old = #[trigger] old(self).entries_seq()[i];
                    let e_new = final(self).entries_seq()[i];
                    &&& e_new.version.name@ == e_old.version.name@
                    &&& e_new.version.web_root@ == e_old.version.web_root@
                    &&& e_new.port == e_old.port
                    &&& e_new.version.strategy@ == match first_strategy_for(
                        new@,
                        e_old.version.name@,
                    ) {
                        Some(s) => s,
                        None => e_old.version.strategy@,
                    }
                },
            old(self).wf() ==> final(self).wf(),
    {
        let n = self.entries.len();
        let mut out: Vec<VersionEntry> = Vec::new();
        let mut i: usize = 0;
        while i < n
            invariant
                n == self.entries_seq().len(),
                i <= n,
                self.entries_seq() == old(self).entries_seq(),
                out@.len() == i,
                forall|k: int|
                    0 <= k < i ==> {
                        let e_old = #[trigger] old(self).entries_seq()[k];
                        let e_new = out@[k];
                        &&& e_new.version.name@ == e_old.version.name@
                        &&& e_new.version.web_root@ == e_old.version.web_root@
                        &&& e_new.port == e_old.port
                        &&& e_new.version.strategy@ == match first_strategy_for(
                            new@,
                            e_old.version.name@,
                        ) {
                            Some(s) => s,
                            None => e_old.version.strategy@,
                        }
                    },
            decreases n - i,
        {
            let strategy = match find_strategy_for(new, self.entries[i].version.name.as_str()) {
                Some(s) => s,
                None => self.entries[i].version.strategy.clone(),
            };
            out.push(
                VersionEntry {
                    version: Version {
                        name: self.entries[i].version.name.clone(),
                        web_root: self.entries[i].version.web_root.clone(),
                        strategy,
                    },
                    port: self.entries[i].port,
                },
            );
            i += 1;
        }
        self.entries = out;
        proof {
            if old(self).wf() {
                assert forall|a: int|
                    0 <= a < self.entries_seq().len() implies (
                #[trigger] self.entries_seq()[a]).port >= START_PORT by {
                    assert(self.entries_seq()[a].port == old(self).entries_seq()[a].port);
                }
                assert forall|a: int, b: int|
                    0 <= a < b < self.entries_seq().len() implies (
                #[trigger] self.entries_seq()[a]).port < (#[trigger] self.entries_seq()[b]).port
                    && self.entries_seq()[a].version.name@
                    != self.entries_seq()[b].version.name@ by {
                    assert(self.entries_seq()[a].port == old(self).entries_seq()[a].port);
                    assert(self.entries_seq()[b].port == old(self).entries_seq()[b].port);
                    assert(self.entries_seq()[a].version.name@ == old(
                        self,
                    ).entries_seq()[a].version.name@);
                    assert(self.entries_seq()[b].version.name@ == old(
                        self,
                    ).entries_seq()[b].version.name@);
                }
            }
        }
    }

    /// Removes the version of the given name, handing back the port whose
    /// file server the caller must abort. `None` if no version bears the
    /// name; the registry is then unchanged.
    pub fn delete_version(&mut self, name: &VersionName) -> (r: Option<u16>)
        ensures
            match r {
                Some(port) => exists|i: int|
                    {
                        &&& 0 <= i < old(self).entries_seq().len()
                        &&& (#[trigger] old(self).entries_seq()[i]).version.name@ == name@
                        &&& port == old(self).entries_seq()[i].port
                        &&& final(self).entries_seq() == old(self).entries_seq().remove(i)
                    },
                None => {
                    &&& final(self).entries_seq() == old(self).entries_seq()
                    &&& forall|i: int|
                        0 <= i < old(self).entries_seq().len() ==> (#[trigger] old(
                            self,
                        ).entries_seq()[i]).version.name@ != name@
                },
            },
            old(self).wf() ==> final(self).wf(),
    {
        let n = self.entries.len();
        let mut i: usize = 0;
        while i < n
            invariant
                n == self.entries_seq().len(),
                i <= n,
                self.entries_seq() == old(self).entries_seq(),
                forall|k: int|
                    0 <= k < i ==> (#[trigger] self.entries_seq()[k]).version.name@ != name@,
            decreases n - i,
        {
            if self.entries[i].version.name.matches(name.as_str()) {
                let removed = self.entries.remove(i);
                proof {
                    if old(self).wf() {
                        let s_old = old(self).entries_seq();
                        let s_new = self.entries_seq();
                        assert forall|a: int, b: int| 0 <= a < b < s_new.len() implies (
                        #[trigger] s_new[a]).port < (#[trigger] s_new[b]).port && s_new[a].version.name@
                            != s_new[b].version.name@ by {
                            let a_old: int = if a < i { a } else { a + 1 };
                            let b_old: int = if b < i { b } else { b + 1 };
                            assert(s_new[a] == s_old[a_old]);
                            assert(s_new[b] == s_old[b_old]);
                        }
                    }
                }
                return Some(removed.port);
            }
            i += 1;
        }
        None
    }

    /// Registers a freshly uploaded version on the next free port, one
    /// above the highest port handed out so far. Returns that port for the
    /// caller to bind the version's file server to.
    pub fn add_version(&mut self, version: Version) -> (port: u16)
        requires
            old(self).wf(),
            forall|i: int|
                0 <= i < old(self).entries_seq().len() ==> (#[trigger] old(
                    self,
                ).entries_seq()[i]).port < 65535,
            forall|i: int|
                0 <= i < old(self).entries_seq().len() ==> (#[trigger] old(
                    self,
                ).entries_seq()[i]).version.name@ != version.name@,
        ensures
            final(self).wf(),
            final(self).entries_seq().len() == old(self).entries_seq().len() + 1,
            final(self).entries_seq().last().version == version,
            final(self).entries_seq().last().port == port,
            forall|i: int|
                0 <= i < old(self).entries_seq().len() ==> final(self).entries_seq()[i] == (
                #[trigger] old(self).entries_seq()[i]),
            port == if old(self).entries_seq().len() == 0 {
                (START_PORT + 1) as int
            } else {
                old(self).entries_seq().last().port + 1
            },
    {
        let n = self.entries.len();
        let port: u16 = if n == 0 {
            START_PORT + 1
        } else {
            self.entries[n - 1].port + 1
        };
        proof {
            assert forall|i: int| 0 <= i < self.entries_seq().len() implies (
            #[trigger] self.entries_seq()[i]).port < port by {
                if i < self.entries_seq().len() - 1 {
                    assert(self.entries_seq()[i].port < self.entries_seq()[self.entries_seq().len()
                        - 1].port);
                }
            }
        }
        self.entries.push(VersionEntry { version, port });
        port
    }
}

/// The strategy the update list assigns to `name`: the strategy of the
/// first listed version bearing that name, if any.
pub open spec fn first_strategy_for(updates: Seq<Version>, name: Seq<char>) -> Option<StrategyView>
    decreases updates.len(),
{
    if updates.len() == 0 {
        None
    } else if updates[0].name@ == name {
        Some(updates[0].strategy@)
    } else {
        first_strategy_for(updates.drop_first(), name)
    }
}

/// When the first occurrence of `name` in the list is at `j`, the list
/// assigns that occurrence's strategy.
pub proof fn lemma_first_strategy_some(updates: Seq<Version>, name: Seq<char>, j: int)
    requires
        0 <= j < updates.len(),
        updates[j].name@ == name,
        forall|k: int| 0 <= k < j ==> (#[trigger] updates[k]).name@ != name,
    ensures
        first_strategy_for(updates, name) == Some(updates[j].strategy@),
    decreases j,
{
    if j > 0 {
        lemma_first_strategy_some(updates.drop_first(), name, j - 1);
    }
}

/// When no listed version bears `name`, the list assigns nothing.
pub proof fn lemma_first_strategy_none(updates: Seq<Version>, name: Seq<char>)
    requires
        forall|k: int| 0 <= k < updates.len() ==> (#[trigger] updates[k]).name@ != name,
    ensures
        first_strategy_for(updates, name) is None,
    decreases updates.len(),
{
    if updates.len() > 0 {
        lemma_first_strategy_none(updates.drop_first(), name);
    }
}

/// The strategy the update list assigns to the named version: a clone of
/// the first listed strategy under that name.
pub fn find_strategy_for(updates: &Vec<Version>, name: &str) -> (r: Option<Strategy>)
    ensures
        match r {
            Some(s) => first_strategy_for(updates@, name@) == Some(s@),
            None => first_strategy_for(updates@, name@) is None,
        },
{
    let m = updates.len();
    let mut j: usize = 0;
    while j < m
        invariant
            m == updates@.len(),
            j <= m,
            forall|k: int| 0 <= k < j ==> (#[trigger] updates@[k]).name@ != name@,
        decreases m - j,
    {
        if updates[j].name.matches(name) {
            proof {
                lemma_first_strategy_some(updates@, name@, j as int);
            }
            return Some(updates[j].strategy.clone());
        }
        j += 1;
    }
    proof {
        lemma_first_strategy_none(updates@, name@);
    }
    None
}

/// Applies a strategy-update list to a stored version list: every version
/// keeps its name and root, and takes the strategy of its first occurrence
/// in the update list, if it occurs there at all.
pub fn merge_strategies(current: &Vec<Version>, updates: &Vec<Version>) -> (r: Vec<Version>)
    ensures
        r@.len() == current@.len(),
        forall|i: int|
            0 <= i < current@.len() ==> {
                let c = #[trigger] current@[i];
                let v = r@[i];
                &&& v.name@ == c.name@
                &&& v.web_root@ == c.web_root@
                &&& v.strategy@ == match first_strategy_for(updates@, c.name@) {
                    Some(s) => s,
                    None => c.strategy@,
                }
            },
{
    let n = current.len();
    let mut out: Vec<Version> = Vec::new();
    let mut i: usize = 0;
    while i < n
        invariant
            n == current@.len(),
            i <= n,
            out@.len() == i,
            forall|k: int|
                0 <= k < i ==> {
                    let c = #[trigger] current@[k];
                    let v = out@[k];
                    &&& v.name@ == c.name@
                    &&& v.web_root@ == c.web_root@
                    &&& v.strategy@ == match first_strategy_for(updates@, c.name@) {
                        Some(s) => s,
                        None => c.strategy@,
                    }
                },
        decreases n - i,
    {
        let strategy = match find_strategy_for(updates, current[i].name.as_str()) {
            Some(s) => s,
            None => current[i].strategy.clone(),
        };
        out.push(
            Version { name: current[i].name.clone(), web_root: current[i].web_root.clone(), strategy },
        );
        i += 1;
    }
    out
}

/// Updating a uniquely named list with its own contents assigns every
/// version its own strategy: the update is a no-op on store and registry
/// alike.
pub proof fn lemma_update_with_current_is_noop(vs: Seq<Version>)
    requires
        forall|a: int, b: int|
            0 <= a < b < vs.len() ==> (#[trigger] vs[a]).name@ != (#[trigger] vs[b]).name@,
    ensures
        forall|i: int|
            0 <= i < vs.len() ==> first_strategy_for(vs, (#[trigger] vs[i]).name@) == Some(
                vs[i].strategy@,
            ),
{
    assert forall|i: int| 0 <= i < vs.len() implies first_strategy_for(vs, (#[trigger] vs[i]).name@)
        == Some(vs[i].strategy@) by {
        lemma_first_strategy_some(vs, vs[i].name@, i);
    }
}

} // verus!
