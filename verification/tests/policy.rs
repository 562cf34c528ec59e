use assay::credential::{contains_placeholder, expand, placeholder, reject_in_url};
use assay::policy::{
    default_classification, guard_http, guard_require, is_known_method, is_read, redact_keys,
    response_limit, Classification, Classify, CredentialEntry, EnvSection, HttpRule, HttpSection,
    ModuleSection, Policy, PolicyFile,
};

fn rule(hosts: &[&str], methods: &[&str], paths: &[&str], classify: Option<Classify>) -> HttpRule {
    HttpRule {
        hosts: hosts.iter().map(|s| s.to_string()).collect(),
        methods: methods.iter().map(|s| s.to_string()).collect(),
        paths: paths.iter().map(|s| s.to_string()).collect(),
        classify,
    }
}

fn file(rules: Option<Vec<HttpRule>>) -> PolicyFile {
    PolicyFile {
        version: 1,
        modules: Some(ModuleSection { allow: Some(vec!["json".to_string()]) }),
        env: Some(EnvSection { allow: vec!["HOME".to_string()] }),
        http: Some(HttpSection { max_response_bytes: Some(1024), redact: vec!["token".to_string()], rules }),
        credentials: vec![CredentialEntry {
            name: "keystone".to_string(),
            fields: vec![("password".to_string(), "OS_PASSWORD".to_string())],
        }],
    }
}

#[test]
fn without_a_policy_everything_passes() {
    assert!(guard_require(None, "os").is_ok());
    assert!(guard_http(None, "delete", "https://x/y").is_ok());
    assert!(!is_read(None, "get", "https://x/y"));
    assert_eq!(response_limit(None), None);
    assert!(redact_keys(None).is_empty());
}

#[test]
fn a_policy_narrows_modules_and_environment() {
    let p = Policy::parse(file(None)).unwrap();
    assert!(p.module_allowed("json"));
    assert!(!p.module_allowed("os"));
    assert!(p.env_visible("HOME"));
    assert!(!p.env_visible("SECRET"));
    assert_eq!(p.max_response_bytes(), Some(1024));
    assert_eq!(p.redact_keys(), &["token".to_string()]);
    assert_eq!(
        guard_require(Some(&p), "os").unwrap_err(),
        "policy: module 'os' is not in the allowed set"
    );
}

#[test]
fn the_first_matching_rule_decides_and_classifies() {
    let rules = vec![
        rule(&["*.example.com"], &["post"], &["/v3/auth/tokens"], Some(Classify::Read)),
        rule(&["api.example.com"], &[], &["/v3/**"], None),
    ];
    let p = Policy::parse(file(Some(rules))).unwrap();
    assert_eq!(
        p.check_http("POST", "https://id.example.com/v3/auth/tokens"),
        Ok(Classification::Read)
    );
    assert_eq!(p.check_http("get", "https://api.example.com/v3/x/y"), Ok(Classification::Read));
    assert_eq!(p.check_http("put", "https://api.example.com/v3/x"), Ok(Classification::Write));
    assert_eq!(
        p.check_http("delete", "https://other.org/v3/x").unwrap_err(),
        "policy: DELETE other.org/v3/x is not allowed by any http rule"
    );
    assert!(p.check_http("get", "not a url").is_err());
    assert!(is_read(Some(&p), "post", "https://id.example.com/v3/auth/tokens"));
}

#[test]
fn rules_are_checked_when_the_file_is_read() {
    let mut f = file(Some(vec![rule(&[], &[], &[], None)]));
    assert_eq!(Policy::parse(f.clone()).unwrap_err(), "policy: http.rules[0] needs at least one host");
    f = file(Some(vec![rule(&["h"], &["fetch"], &[], None)]));
    assert_eq!(Policy::parse(f).unwrap_err(), "policy: http.rules[0] has unknown method 'fetch'");
    let mut v2 = file(None);
    v2.version = 2;
    assert_eq!(
        Policy::parse(v2).unwrap_err(),
        "policy: unsupported version 2 (this build understands 1)"
    );
}

#[test]
fn methods_are_known_whatever_their_case() {
    assert!(is_known_method(" get "));
    assert!(is_known_method("Options"));
    assert!(!is_known_method("TRACE"));
    assert_eq!(default_classification("GET"), Classification::Read);
    assert_eq!(default_classification("post"), Classification::Write);
}

#[test]
fn a_placeholder_is_replaced_only_where_declared() {
    let p = Policy::parse(file(None)).unwrap();
    let token = placeholder("keystone", "password");
    assert!(contains_placeholder(&token));
    assert!(!contains_placeholder("plain"));
    let env = vec![("OS_PASSWORD".to_string(), "s3cret".to_string())];
    assert_eq!(expand(&p, &format!("pw={token}!"), &env), "pw=s3cret!");
    assert_eq!(expand(&p, &format!("pw={token}"), &[]), "pw=");
    let other = placeholder("other", "password");
    assert_eq!(expand(&p, &other, &env), other);
}

#[test]
fn a_placeholder_in_a_url_is_refused() {
    let token = placeholder("keystone", "password");
    assert_eq!(
        reject_in_url(&format!("https://x/?p={token}")).unwrap_err(),
        "credential: a credential handle cannot be used in a URL"
    );
    assert!(reject_in_url("https://x/").is_ok());
}
