//! Capability policy: what a script may require, read from the environment,
//! and send over HTTP.
//!
//! Orthogonal to `ExecMode`: a policy narrows what is reachable, the mode
//! decides whether a mutating operation runs, suspends, or is refused. With
//! no policy loaded every check passes and behaviour is unchanged.
//!
//! The policy file itself is YAML; it arrives here already decoded into a
//! [`PolicyFile`], and [`Policy::parse`] applies the version and rule checks
//! before building the policy.

use vstd::prelude::*;

use crate::glob::{glob_match, host_match_spec, host_matches, path_matches};
use crate::text::{
    chars_of, dec, dec_chars, eq_ignore_case, has_str, lower, push_chars, push_str, string_of, trim,
    trim_chars, upper, upper_chars, contains_str, chars_eq,
};

verus! {

/// The one policy file version this build understands.
pub const SUPPORTED_VERSION: u32 = 1;

/// How a request is treated by the read-only and approval gates.
#[derive(Debug, Clone, Copy, PartialEq, Eq, Structural)]
pub enum Classification {
    Read,
    Write,
}

/// A classification declared in the policy file.
#[derive(Debug, Clone, Copy, PartialEq, Eq, Structural)]
pub enum Classify {
    Read,
    Write,
}

/// `modules:` — which modules `require` may load.
#[derive(Debug, Clone, PartialEq, Eq)]
pub struct ModuleSection {
    pub allow: Option<Vec<String>>,
}

/// `env:` — which environment variables a script may read.
#[derive(Debug, Clone, PartialEq, Eq)]
pub struct EnvSection {
    pub allow: Vec<String>,
}

/// `http:` — the request allowlist, the response cap and the keys to redact.
#[derive(Debug, Clone, PartialEq, Eq)]
pub struct HttpSection {
    pub max_response_bytes: Option<usize>,
    pub redact: Vec<String>,
    pub rules: Option<Vec<HttpRule>>,
}

/// One allowlist rule. Empty `methods` or `paths` admit every method or path.
#[derive(Debug, Clone, PartialEq, Eq)]
pub struct HttpRule {
    pub hosts: Vec<String>,
    pub methods: Vec<String>,
    pub paths: Vec<String>,
    pub classify: Option<Classify>,
}

/// One declared credential: each field names the environment variable its
/// value is read from when a request is sent.
#[derive(Debug, Clone, PartialEq, Eq)]
pub struct CredentialEntry {
    pub name: String,
    pub fields: Vec<(String, String)>,
}

/// The decoded policy file. `credentials` is in name order, as the file's
/// map is.
#[derive(Debug, Clone, PartialEq, Eq)]
pub struct PolicyFile {
    pub version: u32,
    pub modules: Option<ModuleSection>,
    pub env: Option<EnvSection>,
    pub http: Option<HttpSection>,
    pub credentials: Vec<CredentialEntry>,
}

/// A loaded policy. `None` in a field means that dimension is unrestricted.
#[derive(Debug, Clone, PartialEq, Eq)]
pub struct Policy {
    pub module_allow: Option<Vec<String>>,
    pub env_allow: Option<Vec<String>>,
    pub http_rules: Option<Vec<HttpRule>>,
    pub max_response_bytes: Option<usize>,
    pub redact: Vec<String>,
    pub credentials: Vec<CredentialEntry>,
}

// ── the policy file's checks ────────────────────────────────────────────

/// The methods a rule may name, compared after trimming and upper-casing.
pub open spec fn known_method(m: Seq<char>) -> bool {
    let u = upper(trim(m));
    ||| u == seq!['G', 'E', 'T']
    ||| u == seq!['P', 'O', 'S', 'T']
    ||| u == seq!['P', 'U', 'T']
    ||| u == seq!['P', 'A', 'T', 'C', 'H']
    ||| u == seq!['D', 'E', 'L', 'E', 'T', 'E']
    ||| u == seq!['H', 'E', 'A', 'D']
    ||| u == seq!['O', 'P', 'T', 'I', 'O', 'N', 'S']
}

pub open spec fn msg_version(v: u32) -> Seq<char> {
    "policy: unsupported version "@ + dec(v as nat) + " (this build understands 1)"@
}

pub open spec fn msg_no_host(i: nat) -> Seq<char> {
    "policy: http.rules["@ + dec(i) + "] needs at least one host"@
}

pub open spec fn msg_unknown_method(i: nat, m: Seq<char>) -> Seq<char> {
    "policy: http.rules["@ + dec(i) + "] has unknown method '"@ + m + "'"@
}

/// The first method from position `j` on that is not a known one.
pub open spec fn first_unknown_method(ms: Seq<String>, j: int) -> Option<int>
    decreases ms.len() - j,
{
    if j < 0 || j >= ms.len() {
        None
    } else if !known_method(ms[j]@) {
        Some(j)
    } else {
        first_unknown_method(ms, j + 1)
    }
}

/// What is wrong with rule number `i`, if anything.
pub open spec fn rule_error(rule: HttpRule, i: nat) -> Option<Seq<char>> {
    if rule.hosts@.len() == 0 {
        Some(msg_no_host(i))
    } else {
        match first_unknown_method(rule.methods@, 0) {
            Some(j) => Some(msg_unknown_method(i, rule.methods@[j]@)),
            None => None,
        }
    }
}

/// The error of the first faulty rule from position `i` on.
pub open spec fn rules_error(rules: Seq<HttpRule>, i: int) -> Option<Seq<char>>
    decreases rules.len() - i,
{
    if i < 0 || i >= rules.len() {
        None
    } else {
        match rule_error(rules[i], i as nat) {
            Some(e) => Some(e),
            None => rules_error(rules, i + 1),
        }
    }
}

/// The error `validate` reports for a file, if any.
pub open spec fn http_error(http: Option<HttpSection>) -> Option<Seq<char>> {
    match http {
        Some(h) => match h.rules {
            Some(r) => rules_error(r@, 0),
            None => None,
        },
        None => None,
    }
}

/// The error loading a file reports, if any: the version first, then the rules.
pub open spec fn file_error(f: PolicyFile) -> Option<Seq<char>> {
    if f.version != SUPPORTED_VERSION {
        Some(msg_version(f.version))
    } else {
        http_error(f.http)
    }
}

/// Whether a rule may name this method.
pub fn is_known_method(method: &str) -> (r: bool)
    ensures
        r == known_method(method@),
{
    let m = chars_of(method);
    let t = trim_chars(&m);
    let u = upper_chars(&t);
    let get = ['G', 'E', 'T'];
    let post = ['P', 'O', 'S', 'T'];
    let put = ['P', 'U', 'T'];
    let patch = ['P', 'A', 'T', 'C', 'H'];
    let delete = ['D', 'E', 'L', 'E', 'T', 'E'];
    let head = ['H', 'E', 'A', 'D'];
    let options = ['O', 'P', 'T', 'I', 'O', 'N', 'S'];
    assert(get@ =~= seq!['G', 'E', 'T']);
    assert(post@ =~= seq!['P', 'O', 'S', 'T']);
    assert(put@ =~= seq!['P', 'U', 'T']);
    assert(patch@ =~= seq!['P', 'A', 'T', 'C', 'H']);
    assert(delete@ =~= seq!['D', 'E', 'L', 'E', 'T', 'E']);
    assert(head@ =~= seq!['H', 'E', 'A', 'D']);
    assert(options@ =~= seq!['O', 'P', 'T', 'I', 'O', 'N', 'S']);
    chars_eq(&u, &get) || chars_eq(&u, &post) || chars_eq(&u, &put) || chars_eq(&u, &patch)
        || chars_eq(&u, &delete) || chars_eq(&u, &head) || chars_eq(&u, &options)
}

fn msg_for_rule(i: usize, tail: &str) -> (r: Vec<char>)
    ensures
        r@ == "policy: http.rules["@ + dec(i as nat) + tail@,
{
    let mut v: Vec<char> = Vec::new();
    push_str(&mut v, "policy: http.rules[");
    let d = dec_chars(i as u64);
    push_chars(&mut v, &d);
    push_str(&mut v, tail);
    v
}

/// The first method from position `j` on that is not a known one.
fn find_unknown_method(ms: &[String], j: usize) -> (r: Option<usize>)
    requires
        j <= ms@.len(),
    ensures
        match r {
            Some(k) => k < ms@.len() && first_unknown_method(ms@, j as int) == Some(k as int),
            None => first_unknown_method(ms@, j as int) is None,
        },
    decreases ms@.len() - j,
{
    if j == ms.len() {
        return None;
    }
    if !is_known_method(ms[j].as_str()) {
        return Some(j);
    }
    find_unknown_method(ms, j + 1)
}

impl HttpSection {
    /// The error of the first faulty rule, if any.
    fn rules_check(rules: &Vec<HttpRule>) -> (r: Result<(), String>)
        ensures
            match r {
                Ok(()) => rules_error(rules@, 0) is None,
                Err(e) => rules_error(rules@, 0) == Some(e@),
            },
    {
        let mut i: usize = 0;
        while i < rules.len()
            invariant
                i <= rules.len(),
                rules_error(rules@, 0) == rules_error(rules@, i as int),
            decreases rules.len() - i,
        {
            let rule = &rules[i];
            if rule.hosts.len() == 0 {
                let v = msg_for_rule(i, "] needs at least one host");
                return Err(string_of(&v));
            }
            match find_unknown_method(&rule.methods, 0) {
                Some(j) => {
                    let mut v = msg_for_rule(i, "] has unknown method '");
                    push_str(&mut v, rule.methods[j].as_str());
                    push_str(&mut v, "'");
                    return Err(string_of(&v));
                },
                None => {},
            }
            i += 1;
        }
        Ok(())
    }
}

impl PolicyFile {
    /// Check every rule: each names at least one host and only known methods.
    pub fn validate(&self) -> (r: Result<(), String>)
        ensures
            match r {
                Ok(()) => http_error(self.http) is None,
                Err(e) => http_error(self.http) == Some(e@),
            },
    {
        match &self.http {
            None => Ok(()),
            Some(http) => match &http.rules {
                None => Ok(()),
                Some(rules) => HttpSection::rules_check(rules),
            },
        }
    }
}

// ── checking a request against the rules ────────────────────────────────

/// A request is a read when its method is `GET`, whatever its case.
pub open spec fn default_class(method: Seq<char>) -> Classification {
    if lower(method) == seq!['g', 'e', 't'] {
        Classification::Read
    } else {
        Classification::Write
    }
}

/// Whether one of `hosts` admits `host`.
pub open spec fn host_listed(hosts: Seq<String>, host: Seq<char>) -> bool {
    exists|k: int| 0 <= k < hosts.len() && host_match_spec((#[trigger] hosts[k])@, host)
}

/// Whether `methods` is empty or names `method`, trimmed and ignoring case.
pub open spec fn method_listed(methods: Seq<String>, method: Seq<char>) -> bool {
    methods.len() == 0 || exists|k: int|
        0 <= k < methods.len() && lower(trim((#[trigger] methods[k])@)) == lower(method)
}

/// Whether `paths` is empty or holds a pattern matching `path`.
pub open spec fn path_listed(paths: Seq<String>, path: Seq<char>) -> bool {
    paths.len() == 0 || exists|k: int| 0 <= k < paths.len() && glob_match((#[trigger] paths[k])@, path)
}

/// Whether a rule admits the request.
pub open spec fn rule_admits(rule: HttpRule, host: Seq<char>, method: Seq<char>, path: Seq<char>) -> bool {
    host_listed(rule.hosts@, host) && method_listed(rule.methods@, method) && path_listed(
        rule.paths@,
        path,
    )
}

/// The first rule from position `i` on that admits the request.
pub open spec fn first_admitting(
    rules: Seq<HttpRule>,
    host: Seq<char>,
    method: Seq<char>,
    path: Seq<char>,
    i: int,
) -> Option<int>
    decreases rules.len() - i,
{
    if i < 0 || i >= rules.len() {
        None
    } else if rule_admits(rules[i], host, method, path) {
        Some(i)
    } else {
        first_admitting(rules, host, method, path, i + 1)
    }
}

/// The classification a matching rule gives a request.
pub open spec fn rule_class(rule: HttpRule, method: Seq<char>) -> Classification {
    match rule.classify {
        Some(Classify::Read) => Classification::Read,
        Some(Classify::Write) => Classification::Write,
        None => default_class(method),
    }
}

/// Whether `url::Url::parse` accepts the text as an absolute URL.
pub uninterp spec fn spec_url_parses(url: Seq<char>) -> bool;

/// `host_str()` of the URL `url::Url::parse` reads from the text.
pub uninterp spec fn spec_url_host(url: Seq<char>) -> Option<Seq<char>>;

/// `path()` of the URL `url::Url::parse` reads from the text.
pub uninterp spec fn spec_url_path(url: Seq<char>) -> Seq<char>;

/// The text of the error `url::Url::parse` returns for the text.
pub uninterp spec fn spec_url_error(url: Seq<char>) -> Seq<char>;

pub open spec fn msg_bad_url(url: Seq<char>) -> Seq<char> {
    "policy: cannot parse request URL '"@ + url + "': "@ + spec_url_error(url)
}

pub open spec fn msg_url_no_host(url: Seq<char>) -> Seq<char> {
    "policy: request URL '"@ + url + "' has no host"@
}

pub open spec fn msg_denied(method: Seq<char>, host: Seq<char>, path: Seq<char>) -> Seq<char> {
    "policy: "@ + upper(method) + " "@ + host + path + " is not allowed by any http rule"@
}

/// What `check_http` decides for a request.
pub open spec fn check_http_spec(p: Policy, method: Seq<char>, url: Seq<char>) -> Result<
    Classification,
    Seq<char>,
> {
    match p.http_rules {
        None => Ok(default_class(method)),
        Some(rules) => if !spec_url_parses(url) {
            Err(msg_bad_url(url))
        } else {
            match spec_url_host(url) {
                None => Err(msg_url_no_host(url)),
                Some(host) => {
                    let path = spec_url_path(url);
                    match first_admitting(rules@, host, method, path, 0) {
                        Some(i) => Ok(rule_class(rules@[i], method)),
                        None => Err(msg_denied(method, host, path)),
                    }
                },
            }
        },
    }
}

/// `url::Url::parse`, then `host_str()` and `path()` of the result; the
/// error's text when the parse fails. The contract names each of these
/// results and says nothing more of them.
#[verifier::external_body]
fn url_parts(url: &str) -> (r: Result<(Option<String>, String), String>)
    ensures
        r is Ok <==> spec_url_parses(url@),
        r matches Ok((h, p)) ==> p@ == spec_url_path(url@) && match h {
            Some(h) => spec_url_host(url@) == Some(h@),
            None => spec_url_host(url@) is None,
        },
        r matches Err(e) ==> e@ == spec_url_error(url@),
{
    match url::Url::parse(url) {
        Ok(parsed) => Ok((parsed.host_str().map(|h| h.to_string()), parsed.path().to_string())),
        Err(e) => Err(e.to_string()),
    }
}

/// A request is a read when its method is `GET`, whatever its case.
pub fn default_classification(method: &str) -> (c: Classification)
    ensures
        c == default_class(method@),
{
    let m = chars_of(method);
    let get = ['g', 'e', 't'];
    assert(get@ =~= seq!['g', 'e', 't']);
    assert(lower(get@) =~= get@);
    if eq_ignore_case(&m, &get) {
        Classification::Read
    } else {
        Classification::Write
    }
}

fn any_host_matches(hosts: &[String], host: &str) -> (r: bool)
    ensures
        r == host_listed(hosts@, host@),
{
    let mut i: usize = 0;
    while i < hosts.len()
        invariant
            i <= hosts.len(),
            forall|k: int| 0 <= k < i ==> !host_match_spec((#[trigger] hosts@[k])@, host@),
        decreases hosts.len() - i,
    {
        if host_matches(hosts[i].as_str(), host) {
            return true;
        }
        i += 1;
    }
    false
}

fn any_method_matches(methods: &[String], method: &str) -> (r: bool)
    ensures
        r == method_listed(methods@, method@),
{
    if methods.len() == 0 {
        return true;
    }
    let want = chars_of(method);
    let mut i: usize = 0;
    while i < methods.len()
        invariant
            i <= methods.len(),
            want@ == method@,
            forall|k: int| 0 <= k < i ==> lower(trim((#[trigger] methods@[k])@)) != lower(method@),
        decreases methods.len() - i,
    {
        let m = chars_of(methods[i].as_str());
        let t = trim_chars(&m);
        if eq_ignore_case(&t, &want) {
            return true;
        }
        i += 1;
    }
    false
}

fn any_path_matches(paths: &[String], path: &str) -> (r: bool)
    ensures
        r == path_listed(paths@, path@),
{
    if paths.len() == 0 {
        return true;
    }
    let mut i: usize = 0;
    while i < paths.len()
        invariant
            i <= paths.len(),
            forall|k: int| 0 <= k < i ==> !glob_match((#[trigger] paths@[k])@, path@),
        decreases paths.len() - i,
    {
        if path_matches(paths[i].as_str(), path) {
            return true;
        }
        i += 1;
    }
    false
}

/// Whether a rule admits a request to `host` with `method` and `path`.
fn rule_matches(rule: &HttpRule, host: &str, method: &str, path: &str) -> (r: bool)
    ensures
        r == rule_admits(*rule, host@, method@, path@),
{
    let host_ok = any_host_matches(&rule.hosts, host);
    let method_ok = any_method_matches(&rule.methods, method);
    let path_ok = any_path_matches(&rule.paths, path);
    host_ok && method_ok && path_ok
}

/// The spec form of `Policy::default()`: nothing restricted.
pub open spec fn unrestricted(p: Policy) -> bool {
    &&& p.module_allow is None
    &&& p.env_allow is None
    &&& p.http_rules is None
    &&& p.max_response_bytes is None
    &&& p.redact@.len() == 0
    &&& p.credentials@.len() == 0
}

impl Default for Policy {
    fn default() -> (p: Self)
        ensures
            unrestricted(p),
    {
        Policy {
            module_allow: None,
            env_allow: None,
            http_rules: None,
            max_response_bytes: None,
            redact: Vec::new(),
            credentials: Vec::new(),
        }
    }
}

/// Whether a module may be required under the policy.
pub open spec fn module_allowed_spec(p: Policy, module: Seq<char>) -> bool {
    match p.module_allow {
        Some(allow) => has_str(allow@, module),
        None => true,
    }
}

/// Whether an environment variable is visible under the policy.
pub open spec fn env_visible_spec(p: Policy, key: Seq<char>) -> bool {
    match p.env_allow {
        Some(allow) => has_str(allow@, key),
        None => true,
    }
}

impl Policy {
    /// Build the policy from a decoded file, after the version check and the
    /// rule checks. A file that fails either is refused with its message.
    pub fn parse(file: PolicyFile) -> (r: Result<Policy, String>)
        ensures
            match r {
                Err(e) => file_error(file) == Some(e@),
                Ok(p) => {
                    &&& file_error(file) is None
                    &&& p.module_allow == match file.modules {
                        Some(m) => m.allow,
                        None => None,
                    }
                    &&& p.env_allow == match file.env {
                        Some(e) => Some(e.allow),
                        None => None,
                    }
                    &&& p.max_response_bytes == match file.http {
                        Some(h) => h.max_response_bytes,
                        None => None,
                    }
                    &&& p.redact@ == match file.http {
                        Some(h) => h.redact@,
                        None => Seq::empty(),
                    }
                    &&& p.http_rules == match file.http {
                        Some(h) => h.rules,
                        None => None,
                    }
                    &&& p.credentials == file.credentials
                },
            },
    {
        if file.version != SUPPORTED_VERSION {
            let mut v: Vec<char> = Vec::new();
            push_str(&mut v, "policy: unsupported version ");
            let d = dec_chars(file.version as u64);
            push_chars(&mut v, &d);
            push_str(&mut v, " (this build understands 1)");
            return Err(string_of(&v));
        }
        match file.validate() {
            Err(e) => return Err(e),
            Ok(()) => {},
        }
        let PolicyFile { version: _, modules, env, http, credentials } = file;
        let module_allow = match modules {
            Some(m) => m.allow,
            None => None,
        };
        let env_allow = match env {
            Some(e) => Some(e.allow),
            None => None,
        };
        let (max_response_bytes, redact, http_rules) = match http {
            Some(h) => (h.max_response_bytes, h.redact, h.rules),
            None => (None, Vec::new(), None),
        };
        Ok(Policy { module_allow, env_allow, http_rules, max_response_bytes, redact, credentials })
    }

    /// Whether `require(module)` may load this module.
    pub fn module_allowed(&self, module: &str) -> (r: bool)
        ensures
            r == module_allowed_spec(*self, module@),
    {
        match &self.module_allow {
            Some(allow) => contains_str(allow, module),
            None => true,
        }
    }

    /// Whether the script may read this environment variable.
    pub fn env_visible(&self, key: &str) -> (r: bool)
        ensures
            r == env_visible_spec(*self, key@),
    {
        match &self.env_allow {
            Some(allow) => contains_str(allow, key),
            None => true,
        }
    }

    /// The response body cap, if one is set.
    pub fn max_response_bytes(&self) -> (r: Option<usize>)
        ensures
            r == self.max_response_bytes,
    {
        self.max_response_bytes
    }

    /// The keys stripped from responses.
    pub fn redact_keys(&self) -> (r: &[String])
        ensures
            r@ == self.redact@,
    {
        self.redact.as_slice()
    }

    /// Decide a request: allowed and how it is classified, or refused with
    /// the reason. Without rules every request passes, classified by its
    /// method; with rules the first rule that admits the request decides.
    pub fn check_http(&self, method: &str, url: &str) -> (r: Result<Classification, String>)
        ensures
            match (r, check_http_spec(*self, method@, url@)) {
                (Ok(c), Ok(d)) => c == d,
                (Err(e), Err(f)) => e@ == f,
                _ => false,
            },
    {
        let rules = match &self.http_rules {
            None => {
                return Ok(default_classification(method));
            },
            Some(rules) => rules,
        };
        let (host, path) = match url_parts(url) {
            Err(e) => {
                let mut v: Vec<char> = Vec::new();
                push_str(&mut v, "policy: cannot parse request URL '");
                push_str(&mut v, url);
                push_str(&mut v, "': ");
                push_str(&mut v, e.as_str());
                return Err(string_of(&v));
            },
            Ok((None, _)) => {
                let mut v: Vec<char> = Vec::new();
                push_str(&mut v, "policy: request URL '");
                push_str(&mut v, url);
                push_str(&mut v, "' has no host");
                return Err(string_of(&v));
            },
            Ok((Some(h), p)) => (h, p),
        };
        let mut i: usize = 0;
        while i < rules.len()
            invariant
                i <= rules.len(),
                spec_url_parses(url@),
                spec_url_host(url@) == Some(host@),
                spec_url_path(url@) == path@,
                self.http_rules == Some(*rules),
                first_admitting(rules@, host@, method@, path@, 0) == first_admitting(
                    rules@,
                    host@,
                    method@,
                    path@,
                    i as int,
                ),
            decreases rules.len() - i,
        {
            let rule = &rules[i];
            if rule_matches(rule, host.as_str(), method, path.as_str()) {
                assert(first_admitting(rules@, host@, method@, path@, i as int) == Some(i as int));
                let c = match rule.classify {
                    Some(Classify::Read) => Classification::Read,
                    Some(Classify::Write) => Classification::Write,
                    None => default_classification(method),
                };
                return Ok(c);
            }
            i += 1;
        }
        let mut v: Vec<char> = Vec::new();
        push_str(&mut v, "policy: ");
        let m = chars_of(method);
        let um = upper_chars(&m);
        push_chars(&mut v, &um);
        push_str(&mut v, " ");
        push_str(&mut v, host.as_str());
        push_str(&mut v, path.as_str());
        push_str(&mut v, " is not allowed by any http rule");
        Err(string_of(&v))
    }
}

// ── the guards builtins call, with or without a loaded policy ──────────

/// The policy behind an optional reference.
pub open spec fn loaded(policy: Option<&Policy>) -> Option<Policy> {
    match policy {
        Some(p) => Some(*p),
        None => None,
    }
}

/// What `guard_require` answers.
pub open spec fn guard_require_spec(policy: Option<Policy>, module: Seq<char>) -> Result<(), Seq<char>> {
    match policy {
        Some(p) => if module_allowed_spec(p, module) {
            Ok(())
        } else {
            Err("policy: module '"@ + module + "' is not in the allowed set"@)
        },
        None => Ok(()),
    }
}

/// What `guard_http` answers.
pub open spec fn guard_http_spec(policy: Option<Policy>, method: Seq<char>, url: Seq<char>) -> Result<
    (),
    Seq<char>,
> {
    match policy {
        Some(p) => match check_http_spec(p, method, url) {
            Ok(_) => Ok(()),
            Err(e) => Err(e),
        },
        None => Ok(()),
    }
}

/// What `is_read` answers.
pub open spec fn is_read_spec(policy: Option<Policy>, method: Seq<char>, url: Seq<char>) -> bool {
    match policy {
        Some(p) => check_http_spec(p, method, url) == Ok::<Classification, Seq<char>>(
            Classification::Read,
        ),
        None => false,
    }
}

/// Whether an environment variable is visible; always, when no policy is loaded.
pub fn env_visible(policy: Option<&Policy>, key: &str) -> (r: bool)
    ensures
        r == match policy {
            Some(p) => env_visible_spec(*p, key@),
            None => true,
        },
{
    match policy {
        Some(p) => p.env_visible(key),
        None => true,
    }
}

/// Refuse a `require` of a module outside the policy's allowed set.
pub fn guard_require(policy: Option<&Policy>, module: &str) -> (r: Result<(), String>)
    ensures
        match (r, guard_require_spec(loaded(policy), module@)) {
            (Ok(()), Ok(())) => true,
            (Err(e), Err(f)) => e@ == f,
            _ => false,
        },
{
    match policy {
        Some(p) => if p.module_allowed(module) {
            Ok(())
        } else {
            let mut v: Vec<char> = Vec::new();
            push_str(&mut v, "policy: module '");
            push_str(&mut v, module);
            push_str(&mut v, "' is not in the allowed set");
            Err(string_of(&v))
        },
        None => Ok(()),
    }
}

/// Refuse a request the policy does not allow.
pub fn guard_http(policy: Option<&Policy>, method: &str, url: &str) -> (r: Result<(), String>)
    ensures
        match (r, guard_http_spec(loaded(policy), method@, url@)) {
            (Ok(()), Ok(())) => true,
            (Err(e), Err(f)) => e@ == f,
            _ => false,
        },
{
    match policy {
        Some(p) => match p.check_http(method, url) {
            Ok(_) => Ok(()),
            Err(e) => Err(e),
        },
        None => Ok(()),
    }
}

/// Whether the policy treats this request as a read. Drives the gates, so a
/// declared authentication POST can proceed under read-only mode.
pub fn is_read(policy: Option<&Policy>, method: &str, url: &str) -> (r: bool)
    ensures
        r == is_read_spec(loaded(policy), method@, url@),
{
    match policy {
        Some(p) => match p.check_http(method, url) {
            Ok(Classification::Read) => true,
            _ => false,
        },
        None => false,
    }
}

/// The response body cap of the loaded policy, if any.
pub fn response_limit(policy: Option<&Policy>) -> (r: Option<usize>)
    ensures
        r == match policy {
            Some(p) => p.max_response_bytes,
            None => None,
        },
{
    match policy {
        Some(p) => p.max_response_bytes(),
        None => None,
    }
}

/// The keys the loaded policy redacts; none without a policy.
pub fn redact_keys(policy: Option<&Policy>) -> (r: Vec<String>)
    ensures
        r@ == match policy {
            Some(p) => p.redact@,
            None => Seq::empty(),
        },
{
    let mut out: Vec<String> = Vec::new();
    match policy {
        Some(p) => {
            let keys = p.redact_keys();
            let mut i: usize = 0;
            while i < keys.len()
                invariant
                    i <= keys.len(),
                    out@ == keys@.take(i as int),
                decreases keys.len() - i,
            {
                out.push(keys[i].clone());
                i += 1;
                assert(out@ =~= keys@.take(i as int));
            }
            assert(keys@.take(keys.len() as int) =~= keys@);
        },
        None => {},
    }
    out
}

/// With no policy loaded every check passes: every module may be required,
/// every variable read and every request sent.
pub proof fn law_no_policy_passes_everything(
    module: Seq<char>,
    key: Seq<char>,
    method: Seq<char>,
    url: Seq<char>,
)
    ensures
        guard_require_spec(None, module) == Ok::<(), Seq<char>>(()),
        guard_http_spec(None, method, url) == Ok::<(), Seq<char>>(()),
        !is_read_spec(None, method, url),
{
}

/// The default policy restricts nothing: it admits what no policy admits,
/// and classifies every request by its method alone.
pub proof fn law_default_policy_restricts_nothing(
    p: Policy,
    module: Seq<char>,
    key: Seq<char>,
    method: Seq<char>,
    url: Seq<char>,
)
    requires
        unrestricted(p),
    ensures
        module_allowed_spec(p, module),
        env_visible_spec(p, key),
        check_http_spec(p, method, url) == Ok::<Classification, Seq<char>>(default_class(method)),
        guard_http_spec(Some(p), method, url) == Ok::<(), Seq<char>>(()),
{
}

/// Without rules, only `GET` (in any case) is a read; every other method
/// is a write.
pub proof fn law_only_get_reads_without_rules(p: Policy, method: Seq<char>, url: Seq<char>)
    requires
        p.http_rules is None,
    ensures
        (check_http_spec(p, method, url) == Ok::<Classification, Seq<char>>(Classification::Read))
            <==> lower(method) == seq!['g', 'e', 't'],
        check_http_spec(p, method, url) is Ok,
{
}

/// With rules, a request no rule admits is always refused, and an admitted
/// request takes the classification of the first rule that admits it.
pub proof fn law_first_admitting_rule_decides(p: Policy, method: Seq<char>, url: Seq<char>)
    requires
        p.http_rules is Some,
        spec_url_parses(url),
        spec_url_host(url) is Some,
    ensures
        ({
            let rules = p.http_rules->Some_0@;
            let host = spec_url_host(url)->Some_0;
            let path = spec_url_path(url);
            match first_admitting(rules, host, method, path, 0) {
                Some(i) => check_http_spec(p, method, url) == Ok::<Classification, Seq<char>>(
                    rule_class(rules[i], method),
                ),
                None => check_http_spec(p, method, url) is Err,
            }
        }),
{
}

/// Whether a rule names methods and `method` is none of them (each
/// trimmed, compared ignoring ASCII case).
pub open spec fn names_other_methods(rule: HttpRule, method: Seq<char>) -> bool {
    rule.methods@.len() > 0 && forall|k: int|
        0 <= k < rule.methods@.len() ==> lower(trim((#[trigger] rule.methods@[k])@)) != lower(method)
}

proof fn lemma_none_admits(rules: Seq<HttpRule>, host: Seq<char>, method: Seq<char>, path: Seq<char>, i: int)
    requires
        0 <= i,
        forall|j: int| 0 <= j < rules.len() ==> !rule_admits(#[trigger] rules[j], host, method, path),
    ensures
        first_admitting(rules, host, method, path, i) is None,
    decreases rules.len() - i,
{
    if i < rules.len() {
        lemma_none_admits(rules, host, method, path, i + 1);
    }
}

/// A rule that lists methods admits a request only if one of them, trimmed,
/// is the request's method, whatever the case: a rule listing `GET` never
/// admits a `DELETE`, whatever its hosts and paths.
pub proof fn law_a_rule_admits_only_its_methods(rule: HttpRule, host: Seq<char>, method: Seq<char>, path: Seq<char>)
    requires
        names_other_methods(rule, method),
    ensures
        !rule_admits(rule, host, method, path),
{
}

/// With rules, a request whose method every rule excludes by listing other
/// methods is refused, whatever its URL.
pub proof fn law_unlisted_method_is_refused(p: Policy, method: Seq<char>, url: Seq<char>)
    requires
        p.http_rules matches Some(rules) && forall|j: int|
            0 <= j < rules@.len() ==> names_other_methods(#[trigger] rules@[j], method),
    ensures
        check_http_spec(p, method, url) is Err,
{
    let rules = p.http_rules->Some_0@;
    if spec_url_parses(url) {
        if let Some(host) = spec_url_host(url) {
            let path = spec_url_path(url);
            assert forall|j: int| 0 <= j < rules.len() implies !rule_admits(#[trigger] rules[j], host, method, path) by {
                law_a_rule_admits_only_its_methods(rules[j], host, method, path);
            }
            lemma_none_admits(rules, host, method, path, 0);
        }
    }
}

} // verus!
