//! The server's configuration: a line-oriented `key: value` file with
//! CRLF line endings, written once at setup and read back at startup.
//! Writing and parsing are inverse to one another.

use vstd::prelude::*;

use crate::auth::hash_password;
use crate::auth::phc_parses;
use crate::auth::scrypt_verify;
use crate::error::QpacktError;
use crate::text::find_char;
use crate::text::first_index;
use crate::text::lemma_first_index_is;
use crate::text::lemma_first_index_none;
use crate::text::str_eq;

verus! {

/// The mathematical shape of a configuration.
pub struct ConfigView {
    pub domain: Seq<char>,
    pub http_proxy: Seq<char>,
    pub https_proxy: Option<Seq<char>>,
    pub password: Seq<char>,
    pub run_directory: Seq<char>,
}

/// The server's configuration: the domain served, the public listener
/// addresses, the admin password's scrypt hash, and the run directory.
#[derive(Debug)]
pub struct QpacktConfig {
    domain: String,
    http_proxy: String,
    https_proxy: Option<String>,
    password: String,
    run_directory: String,
}

impl View for QpacktConfig {
    type V = ConfigView;

    closed spec fn view(&self) -> ConfigView {
        ConfigView {
            domain: self.domain@,
            http_proxy: self.http_proxy@,
            https_proxy: match &self.https_proxy {
                Some(h) => Some(h@),
                None => None,
            },
            password: self.password@,
            run_directory: self.run_directory@,
        }
    }
}

/// Hands the value back unless it is empty; an empty value falls back to
/// the default.
pub fn if_empty_then(value: String, default: &str) -> (r: String)
    ensures
        r@ == if value@.len() == 0 {
            default@
        } else {
            value@
        },
{
    if value.as_str().is_empty() {
        String::from_str(default)
    } else {
        value
    }
}

/// What must be done about the configured run directory, given what the
/// file system says of it: create it when it is missing, leave it alone
/// when it is a directory, and refuse the configuration when something
/// else sits at its path. The caller performs the creation.
pub fn ensure_app_dir_exists(exists: bool, is_dir: bool) -> (r: Result<bool, QpacktError>)
    ensures
        match r {
            Ok(create) => create == !exists && (exists ==> is_dir),
            Err(e) => exists && !is_dir && e is InvalidConfig,
        },
{
    if !exists {
        Ok(true)
    } else if is_dir {
        Ok(false)
    } else {
        Err(QpacktError::InvalidConfig(String::from_str("App dir is not a directory")))
    }
}

impl QpacktConfig {
    /// Builds a configuration from already-settled parts, the password
    /// given as its stored scrypt hash.
    pub fn from_parts(
        domain: String,
        http_proxy: String,
        https_proxy: Option<String>,
        password_hash: String,
        run_directory: String,
    ) -> (r: QpacktConfig)
        ensures
            r@.domain == domain@,
            r@.http_proxy == http_proxy@,
            r@.https_proxy == match https_proxy {
                Some(h) => Some(h@),
                None => None::<Seq<char>>,
            },
            r@.password == password_hash@,
            r@.run_directory == run_directory@,
    {
        QpacktConfig { domain, http_proxy, https_proxy, password: password_hash, run_directory }
    }

    /// Builds a configuration from setup answers: empty listener and
    /// directory answers fall back to their defaults, an empty HTTPS
    /// answer means no HTTPS listener, and the password is stored as its
    /// scrypt hash. Fails only when hashing the password fails.
    pub fn new(
        domain: String,
        http_proxy: String,
        https_proxy: String,
        password: String,
        run_directory: String,
    ) -> (r: Result<QpacktConfig, QpacktError>)
        ensures
            r matches Ok(c) ==> {
                &&& c@.domain == domain@
                &&& c@.http_proxy == if http_proxy@.len() == 0 {
                    "0.0.0.0:8080"@
                } else {
                    http_proxy@
                }
                &&& c@.https_proxy == if https_proxy@.len() == 0 {
                    None::<Seq<char>>
                } else {
                    Some(https_proxy@)
                }
                &&& phc_parses(c@.password) && scrypt_verify(password@, c@.password)
                &&& c@.run_directory == if run_directory@.len() == 0 {
                    "/var/run/qpackt"@
                } else {
                    run_directory@
                }
            },
            r matches Err(e) ==> e is UnableToHashPassword,
    {
        let hashed = match hash_password(password) {
            Ok(h) => h,
            Err(e) => {
                return Err(e);
            },
        };
        Ok(
            QpacktConfig {
                domain,
                http_proxy: if_empty_then(http_proxy, "0.0.0.0:8080"),
                https_proxy: if https_proxy.as_str().is_empty() {
                    None
                } else {
                    Some(https_proxy)
                },
                password: hashed,
                run_directory: if_empty_then(run_directory, "/var/run/qpackt"),
            },
        )
    }

    /// The domain traffic is accepted for.
    pub fn domain(&self) -> (r: &str)
        ensures
            r@ == self@.domain,
    {
        self.domain.as_str()
    }

    /// The address of the plain-HTTP listener.
    pub fn http_proxy_addr(&self) -> (r: &str)
        ensures
            r@ == self@.http_proxy,
    {
        self.http_proxy.as_str()
    }

    /// The address of the HTTPS listener, if one is configured.
    pub fn https_proxy_addr(&self) -> (r: Option<&String>)
        ensures
            match r {
                Some(h) => self@.https_proxy == Some(h@),
                None => self@.https_proxy is None,
            },
    {
        match &self.https_proxy {
            Some(h) => Some(h),
            None => None,
        }
    }

    /// The stored scrypt hash of the admin password.
    pub fn password(&self) -> (r: &str)
        ensures
            r@ == self@.password,
    {
        self.password.as_str()
    }

    /// The directory the store, the unpacked versions and the ACME files
    /// live under.
    pub fn app_run_directory(&self) -> (r: &str)
        ensures
            r@ == self@.run_directory,
    {
        self.run_directory.as_str()
    }
}

/// One line of the configuration file.
pub open spec fn config_line(key: Seq<char>, value: Seq<char>) -> Seq<char> {
    key + ": "@ + value + "\r\n"@
}

/// The whole configuration file's text: one line per key, the HTTPS
/// listener's line only when one is configured.
pub open spec fn config_text(c: ConfigView) -> Seq<char> {
    config_line("domain"@, c.domain) + config_line("http_proxy"@, c.http_proxy) + (
    match c.https_proxy {
        Some(h) => config_line("https_proxy"@, h),
        None => Seq::<char>::empty(),
    }) + config_line("password"@, c.password) + config_line("run_directory"@, c.run_directory)
}

impl QpacktConfig {
    /// Writes the configuration as its file text.
    pub fn to_config_text(&self) -> (r: String)
        ensures
            r@ == config_text(self@),
    {
        let mut out = String::new();
        out.append("domain");
        out.append(": ");
        out.append(self.domain.as_str());
        out.append("\r\n");
        out.append("http_proxy");
        out.append(": ");
        out.append(self.http_proxy.as_str());
        out.append("\r\n");
        match &self.https_proxy {
            Some(h) => {
                out.append("https_proxy");
                out.append(": ");
                out.append(h.as_str());
                out.append("\r\n");
            },
            None => {},
        }
        out.append("password");
        out.append(": ");
        out.append(self.password.as_str());
        out.append("\r\n");
        out.append("run_directory");
        out.append(": ");
        out.append(self.run_directory.as_str());
        out.append("\r\n");
        proof {
            assert(out@ =~= config_text(self@));
        }
        out
    }
}

/// One parsed `key: value` line: the key runs to the first colon, a
/// single space follows it, and the value is the rest of the line.
pub open spec fn parse_config_line(line: Seq<char>) -> Option<(Seq<char>, Seq<char>)> {
    match first_index(line, ':') {
        Some(ci) => {
            if 0 <= ci && ci + 1 < line.len() && line[ci + 1] == ' ' {
                Some((line.subrange(0, ci), line.skip(ci + 2)))
            } else {
                None
            }
        },
        None => None,
    }
}

/// The file split into parsed lines: each line ends in CRLF, and each
/// parses as `key: value`.
pub open spec fn parse_kv_lines(s: Seq<char>) -> Option<Seq<(Seq<char>, Seq<char>)>>
    decreases s.len(),
{
    if s.len() == 0 {
        Some(Seq::empty())
    } else {
        match first_index(s, '\r') {
            Some(i) => {
                if 0 <= i && i + 2 <= s.len() && s[i + 1] == '\n' {
                    match parse_config_line(s.subrange(0, i)) {
                        Some(kv) => match parse_kv_lines(s.skip(i + 2)) {
                            Some(rest) => Some(seq![kv] + rest),
                            None => None,
                        },
                        None => None,
                    }
                } else {
                    None
                }
            },
            None => None,
        }
    }
}

/// The value of the first line bearing the key, if any line does.
pub open spec fn lookup(kvs: Seq<(Seq<char>, Seq<char>)>, key: Seq<char>) -> Option<Seq<char>>
    decreases kvs.len(),
{
    if kvs.len() == 0 {
        None
    } else if kvs[0].0 == key {
        Some(kvs[0].1)
    } else {
        lookup(kvs.drop_first(), key)
    }
}

/// What the configuration parser accepts: a file of CRLF-ended
/// `key: value` lines holding at least the four required keys; the HTTPS
/// listener's key is optional.
pub open spec fn parse_config_spec(s: Seq<char>) -> Option<ConfigView> {
    match parse_kv_lines(s) {
        Some(kvs) => match lookup(kvs, "domain"@) {
            Some(d) => match lookup(kvs, "http_proxy"@) {
                Some(hp) => match lookup(kvs, "password"@) {
                    Some(pw) => match lookup(kvs, "run_directory"@) {
                        Some(rd) => Some(
                            ConfigView {
                                domain: d,
                                http_proxy: hp,
                                https_proxy: lookup(kvs, "https_proxy"@),
                                password: pw,
                                run_directory: rd,
                            },
                        ),
                        None => None,
                    },
                    None => None,
                },
                None => None,
            },
            None => None,
        },
        None => None,
    }
}

/// The five configuration keys hold neither a colon nor a carriage
/// return, and their lengths are pairwise distinct.
proof fn lemma_keys_wf()
    ensures
        forall|j: int|
            0 <= j < "domain"@.len() ==> "domain"@[j] != ':' && "domain"@[j] != '\r',
        forall|j: int|
            0 <= j < "http_proxy"@.len() ==> "http_proxy"@[j] != ':' && "http_proxy"@[j] != '\r',
        forall|j: int|
            0 <= j < "https_proxy"@.len() ==> "https_proxy"@[j] != ':' && "https_proxy"@[j]
                != '\r',
        forall|j: int|
            0 <= j < "password"@.len() ==> "password"@[j] != ':' && "password"@[j] != '\r',
        forall|j: int|
            0 <= j < "run_directory"@.len() ==> "run_directory"@[j] != ':' && "run_directory"@[j]
                != '\r',
        "domain"@.len() == 6,
        "http_proxy"@.len() == 10,
        "https_proxy"@.len() == 11,
        "password"@.len() == 8,
        "run_directory"@.len() == 13,
{
    reveal_strlit("domain");
    reveal_strlit("http_proxy");
    reveal_strlit("https_proxy");
    reveal_strlit("password");
    reveal_strlit("run_directory");
}

/// Peeling one well-formed line off the front of the file text parses it
/// to its pair and leaves the rest of the text.
proof fn lemma_peel_line(key: Seq<char>, value: Seq<char>, rest: Seq<char>)
    requires
        forall|j: int| 0 <= j < key.len() ==> key[j] != ':' && key[j] != '\r',
        forall|j: int| 0 <= j < value.len() ==> value[j] != '\r',
    ensures
        parse_kv_lines(config_line(key, value) + rest) == match parse_kv_lines(rest) {
            Some(r) => Some(seq![(key, value)] + r),
            None => None::<Seq<(Seq<char>, Seq<char>)>>,
        },
{
    reveal_strlit(": ");
    reveal_strlit("\r\n");
    let s = config_line(key, value) + rest;
    let k = key.len() as int;
    let v = value.len() as int;
    let p = k + 2 + v;
    assert(s.len() == p + 2 + rest.len());
    assert forall|j: int| 0 <= j < p implies s[j] != '\r' by {
        if j < k {
            assert(s[j] == key[j]);
        } else if j == k {
            assert(s[j] == ": "@[0]);
        } else if j == k + 1 {
            assert(s[j] == ": "@[1]);
        } else {
            assert(s[j] == value[j - k - 2]);
        }
    }
    assert(s[p] == "\r\n"@[0]);
    assert(s[p + 1] == "\r\n"@[1]);
    lemma_first_index_is(s, '\r', p);
    let line = s.subrange(0, p);
    assert(line =~= key + ": "@ + value);
    assert forall|j: int| 0 <= j < k implies line[j] != ':' by {
        assert(line[j] == key[j]);
    }
    assert(line[k] == ": "@[0]);
    assert(line[k + 1] == ": "@[1]);
    lemma_first_index_is(line, ':', k);
    assert(line.subrange(0, k) =~= key);
    assert(line.skip(k + 2) =~= value);
    assert(parse_config_line(line) == Some((key, value)));
    assert(s.skip(p + 2) =~= rest);
}

/// The key/value pairs the file text of a configuration carries, in
/// line order.
pub open spec fn config_kvs(c: ConfigView) -> Seq<(Seq<char>, Seq<char>)> {
    match c.https_proxy {
        Some(h) => seq![
            ("domain"@, c.domain),
            ("http_proxy"@, c.http_proxy),
            ("https_proxy"@, h),
            ("password"@, c.password),
            ("run_directory"@, c.run_directory),
        ],
        None => seq![
            ("domain"@, c.domain),
            ("http_proxy"@, c.http_proxy),
            ("password"@, c.password),
            ("run_directory"@, c.run_directory),
        ],
    }
}

/// Key/value lines rendered one after the other.
pub open spec fn render_kvs(kvs: Seq<(Seq<char>, Seq<char>)>) -> Seq<char>
    decreases kvs.len(),
{
    if kvs.len() == 0 {
        Seq::empty()
    } else {
        config_line(kvs[0].0, kvs[0].1) + render_kvs(kvs.drop_first())
    }
}

/// Rendered well-formed lines split back into exactly the pairs they
/// were rendered from.
proof fn lemma_render_parses(kvs: Seq<(Seq<char>, Seq<char>)>)
    requires
        forall|i: int, j: int|
            0 <= i < kvs.len() && 0 <= j < kvs[i].0.len() ==> #[trigger] kvs[i].0[j] != ':'
                && kvs[i].0[j] != '\r',
        forall|i: int, j: int|
            0 <= i < kvs.len() && 0 <= j < kvs[i].1.len() ==> #[trigger] kvs[i].1[j] != '\r',
    ensures
        parse_kv_lines(render_kvs(kvs)) == Some(kvs),
    decreases kvs.len(),
{
    if kvs.len() > 0 {
        lemma_render_parses(kvs.drop_first());
        lemma_peel_line(kvs[0].0, kvs[0].1, render_kvs(kvs.drop_first()));
        assert(seq![(kvs[0].0, kvs[0].1)] + kvs.drop_first() =~= kvs);
    }
}

/// The written file text is the rendering of its lines.
proof fn lemma_text_is_render(c: ConfigView)
    ensures
        config_text(c) == render_kvs(config_kvs(c)),
{
    let kvs = config_kvs(c);
    let e = Seq::<(Seq<char>, Seq<char>)>::empty();
    assert(render_kvs(e) == Seq::<char>::empty());
    match c.https_proxy {
        Some(h) => {
            let t4 = kvs.subrange(4, 5);
            let t3 = kvs.subrange(3, 5);
            let t2 = kvs.subrange(2, 5);
            let t1 = kvs.subrange(1, 5);
            assert(t4.drop_first() =~= e);
            assert(t3.drop_first() =~= t4);
            assert(t2.drop_first() =~= t3);
            assert(t1.drop_first() =~= t2);
            assert(kvs.drop_first() =~= t1);
            assert(render_kvs(t4) == config_line(t4[0].0, t4[0].1) + render_kvs(e));
            assert(render_kvs(t3) == config_line(t3[0].0, t3[0].1) + render_kvs(t4));
            assert(render_kvs(t2) == config_line(t2[0].0, t2[0].1) + render_kvs(t3));
            assert(render_kvs(t1) == config_line(t1[0].0, t1[0].1) + render_kvs(t2));
            assert(render_kvs(kvs) == config_line(kvs[0].0, kvs[0].1) + render_kvs(t1));
            assert(config_text(c) =~= render_kvs(kvs));
        },
        None => {
            let t3 = kvs.subrange(3, 4);
            let t2 = kvs.subrange(2, 4);
            let t1 = kvs.subrange(1, 4);
            assert(t3.drop_first() =~= e);
            assert(t2.drop_first() =~= t3);
            assert(t1.drop_first() =~= t2);
            assert(kvs.drop_first() =~= t1);
            assert(render_kvs(t3) == config_line(t3[0].0, t3[0].1) + render_kvs(e));
            assert(render_kvs(t2) == config_line(t2[0].0, t2[0].1) + render_kvs(t3));
            assert(render_kvs(t1) == config_line(t1[0].0, t1[0].1) + render_kvs(t2));
            assert(render_kvs(kvs) == config_line(kvs[0].0, kvs[0].1) + render_kvs(t1));
            assert(config_text(c) =~= render_kvs(kvs));
        },
    }
}

/// The written file text splits back into exactly the lines that were
/// written.
proof fn lemma_text_parses(c: ConfigView)
    requires
        forall|j: int| 0 <= j < c.domain.len() ==> c.domain[j] != '\r',
        forall|j: int| 0 <= j < c.http_proxy.len() ==> c.http_proxy[j] != '\r',
        c.https_proxy matches Some(h) ==> forall|j: int| 0 <= j < h.len() ==> h[j] != '\r',
        forall|j: int| 0 <= j < c.password.len() ==> c.password[j] != '\r',
        forall|j: int| 0 <= j < c.run_directory.len() ==> c.run_directory[j] != '\r',
    ensures
        parse_kv_lines(config_text(c)) == Some(config_kvs(c)),
{
    lemma_keys_wf();
    let kvs = config_kvs(c);
    assert forall|i: int, j: int|
        0 <= i < kvs.len() && 0 <= j < kvs[i].0.len() implies #[trigger] kvs[i].0[j] != ':'
        && kvs[i].0[j] != '\r' by {
        assert(kvs[i].0 == "domain"@ || kvs[i].0 == "http_proxy"@ || kvs[i].0 == "https_proxy"@
            || kvs[i].0 == "password"@ || kvs[i].0 == "run_directory"@);
    }
    assert forall|i: int, j: int|
        0 <= i < kvs.len() && 0 <= j < kvs[i].1.len() implies #[trigger] kvs[i].1[j] != '\r' by {
        assert(kvs[i].1 == c.domain || kvs[i].1 == c.http_proxy || (c.https_proxy matches Some(h)
            && kvs[i].1 == h) || kvs[i].1 == c.password || kvs[i].1 == c.run_directory);
    }
    lemma_render_parses(kvs);
    lemma_text_is_render(c);
}

/// Looking the keys up in the written lines hands each field back.
proof fn lemma_config_lookups(c: ConfigView)
    ensures
        lookup(config_kvs(c), "domain"@) == Some(c.domain),
        lookup(config_kvs(c), "http_proxy"@) == Some(c.http_proxy),
        lookup(config_kvs(c), "https_proxy"@) == c.https_proxy,
        lookup(config_kvs(c), "password"@) == Some(c.password),
        lookup(config_kvs(c), "run_directory"@) == Some(c.run_directory),
{
    lemma_keys_wf();
    let kvs = config_kvs(c);
    match c.https_proxy {
        Some(h) => {
            lemma_lookup_is(kvs, "domain"@, 0);
            lemma_lookup_is(kvs, "http_proxy"@, 1);
            lemma_lookup_is(kvs, "https_proxy"@, 2);
            lemma_lookup_is(kvs, "password"@, 3);
            lemma_lookup_is(kvs, "run_directory"@, 4);
        },
        None => {
            lemma_lookup_is(kvs, "domain"@, 0);
            lemma_lookup_is(kvs, "http_proxy"@, 1);
            lemma_lookup_is(kvs, "password"@, 2);
            lemma_lookup_is(kvs, "run_directory"@, 3);
            lemma_lookup_none(kvs, "https_proxy"@);
        },
    }
}

/// Reading the written file text back gives the configuration that was
/// written. No field may hold a carriage return: values run to the line
/// ending, so one would cut its line short.
pub proof fn lemma_config_round_trip(c: ConfigView)
    requires
        forall|j: int| 0 <= j < c.domain.len() ==> c.domain[j] != '\r',
        forall|j: int| 0 <= j < c.http_proxy.len() ==> c.http_proxy[j] != '\r',
        c.https_proxy matches Some(h) ==> forall|j: int| 0 <= j < h.len() ==> h[j] != '\r',
        forall|j: int| 0 <= j < c.password.len() ==> c.password[j] != '\r',
        forall|j: int| 0 <= j < c.run_directory.len() ==> c.run_directory[j] != '\r',
    ensures
        parse_config_spec(config_text(c)) == Some(c),
{
    lemma_text_parses(c);
    lemma_config_lookups(c);
}

/// The views of collected key/value pairs.
pub open spec fn kv_views(v: Seq<(String, String)>) -> Seq<(Seq<char>, Seq<char>)> {
    Seq::new(v.len(), |i: int| (v[i].0@, v[i].1@))
}

/// The first line bearing the key determines `lookup`.
proof fn lemma_lookup_is(kvs: Seq<(Seq<char>, Seq<char>)>, key: Seq<char>, j: int)
    requires
        0 <= j < kvs.len(),
        kvs[j].0 == key,
        forall|k: int| 0 <= k < j ==> (#[trigger] kvs[k]).0 != key,
    ensures
        lookup(kvs, key) == Some(kvs[j].1),
    decreases j,
{
    if j > 0 {
        lemma_lookup_is(kvs.drop_first(), key, j - 1);
    }
}

/// A key no line bears looks up to nothing.
proof fn lemma_lookup_none(kvs: Seq<(Seq<char>, Seq<char>)>, key: Seq<char>)
    requires
        forall|k: int| 0 <= k < kvs.len() ==> (#[trigger] kvs[k]).0 != key,
    ensures
        lookup(kvs, key) is None,
    decreases kvs.len(),
{
    if kvs.len() > 0 {
        lemma_lookup_none(kvs.drop_first(), key);
    }
}

/// The value of the first line bearing the key, as the parser finds it.
fn lookup_value(kvs: &Vec<(String, String)>, key: &str) -> (r: Option<String>)
    ensures
        match r {
            Some(v) => lookup(kv_views(kvs@), key@) == Some(v@),
            None => lookup(kv_views(kvs@), key@) is None,
        },
{
    let n = kvs.len();
    let mut i: usize = 0;
    while i < n
        invariant
            n == kvs@.len(),
            i <= n,
            forall|k: int| 0 <= k < i ==> (#[trigger] kv_views(kvs@)[k]).0 != key@,
        decreases n - i,
    {
        if str_eq(kvs[i].0.as_str(), key) {
            proof {
                lemma_lookup_is(kv_views(kvs@), key@, i as int);
            }
            return Some(kvs[i].1.clone());
        }
        proof {
            assert(kv_views(kvs@)[i as int].0 == kvs@[i as int].0@);
        }
        i += 1;
    }
    proof {
        lemma_lookup_none(kv_views(kvs@), key@);
    }
    None
}

/// Reads a configuration back from its file text. Returns the
/// configuration exactly when the text is a well-formed `key: value`
/// file holding the four required keys.
pub fn parse_config(content: &str) -> (r: Result<QpacktConfig, QpacktError>)
    ensures
        match r {
            Ok(c) => parse_config_spec(content@) == Some(c@),
            Err(e) => parse_config_spec(content@) is None && e is InvalidConfig,
        },
{
    let len = content.unicode_len();
    let mut kvs: Vec<(String, String)> = Vec::new();
    let mut pos: usize = 0;
    proof {
        assert(content@.skip(0) =~= content@);
        match parse_kv_lines(content@) {
            Some(tail) => {
                assert(kv_views(kvs@) + tail =~= tail);
            },
            None => {},
        }
    }
    while pos < len
        invariant
            len == content@.len(),
            pos <= len,
            match parse_kv_lines(content@.skip(pos as int)) {
                Some(tail) => parse_kv_lines(content@) == Some(kv_views(kvs@) + tail),
                None => parse_kv_lines(content@) is None,
            },
        decreases len - pos,
    {
        let sub = content.substring_char(pos, len);
        proof {
            assert(sub@ =~= content@.skip(pos as int));
        }
        let sub_len = len - pos;
        let ghost old_kvs = kvs@;
        match find_char(sub, '\r') {
            Some(i) => {
                proof {
                    lemma_first_index_is(sub@, '\r', i as int);
                }
                if i >= sub_len - 1 {
                    return Err(QpacktError::InvalidConfig(String::from_str("truncated line")));
                }
                if sub.get_char(i + 1) != '\n' {
                    return Err(QpacktError::InvalidConfig(String::from_str("bare carriage return")));
                }
                let line = sub.substring_char(0, i);
                proof {
                    assert(line@ =~= sub@.subrange(0, i as int));
                }
                let line_len = i;
                match find_char(line, ':') {
                    Some(ci) => {
                        proof {
                            lemma_first_index_is(line@, ':', ci as int);
                        }
                        if ci + 1 >= line_len {
                            return Err(
                                QpacktError::InvalidConfig(String::from_str("line without value")),
                            );
                        }
                        if line.get_char(ci + 1) != ' ' {
                            return Err(
                                QpacktError::InvalidConfig(String::from_str("no space after key")),
                            );
                        }
                        let key = String::from_str(line.substring_char(0, ci));
                        let value = String::from_str(line.substring_char(ci + 2, line_len));
                        proof {
                            assert(key@ =~= line@.subrange(0, ci as int));
                            assert(value@ =~= line@.skip(ci + 2));
                            assert(parse_config_line(line@) == Some((key@, value@)));
                        }
                        kvs.push((key, value));
                        proof {
                            assert(content@.skip(pos as int).skip(i + 2) =~= content@.skip(
                                pos + i + 2,
                            ));
                            assert(kv_views(kvs@) =~= kv_views(old_kvs).push(
                                (kvs@.last().0@, kvs@.last().1@),
                            ));
                            match parse_kv_lines(content@.skip(pos + i + 2)) {
                                Some(tail2) => {
                                    assert(parse_kv_lines(content@.skip(pos as int)) == Some(
                                        seq![(key@, value@)] + tail2,
                                    ));
                                    assert(kv_views(kvs@) + tail2 =~= kv_views(old_kvs) + (
                                    seq![(key@, value@)] + tail2));
                                },
                                None => {},
                            }
                        }
                        pos = pos + i + 2;
                    },
                    None => {
                        proof {
                            lemma_first_index_none(line@, ':');
                        }
                        return Err(QpacktError::InvalidConfig(String::from_str("line without key")));
                    },
                }
            },
            None => {
                proof {
                    lemma_first_index_none(sub@, '\r');
                }
                return Err(QpacktError::InvalidConfig(String::from_str("unterminated line")));
            },
        }
    }
    proof {
        assert(content@.skip(len as int) =~= Seq::<char>::empty());
        assert(kv_views(kvs@) + Seq::<(Seq<char>, Seq<char>)>::empty() =~= kv_views(kvs@));
    }
    let domain = match lookup_value(&kvs, "domain") {
        Some(v) => v,
        None => {
            return Err(QpacktError::InvalidConfig(String::from_str("missing domain")));
        },
    };
    let http_proxy = match lookup_value(&kvs, "http_proxy") {
        Some(v) => v,
        None => {
            return Err(QpacktError::InvalidConfig(String::from_str("missing http_proxy")));
        },
    };
    let password = match lookup_value(&kvs, "password") {
        Some(v) => v,
        None => {
            return Err(QpacktError::InvalidConfig(String::from_str("missing password")));
        },
    };
    let run_directory = match lookup_value(&kvs, "run_directory") {
        Some(v) => v,
        None => {
            return Err(QpacktError::InvalidConfig(String::from_str("missing run_directory")));
        },
    };
    let https_proxy = lookup_value(&kvs, "https_proxy");
    Ok(QpacktConfig { domain, http_proxy, https_proxy, password, run_directory })
}

} // verus!
