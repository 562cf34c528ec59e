use assay::apt::{
    install_args, parse_dpkg_lines, parse_upgradable_lines, query_answer, remove_args, source_files, validate_source,
    QueryAnswer,
};

#[test]
fn dpkg_lines_give_version_and_install_state() {
    let out = "curl\t7.88.1-10\tinstall ok installed\n\nvim\t2:9.0\tdeinstall ok config-files\nbroken line\n";
    let entries = parse_dpkg_lines(out);
    assert_eq!(entries.len(), 2);
    assert_eq!(entries[0].name, "curl");
    assert_eq!(entries[0].version, "7.88.1-10");
    assert!(entries[0].installed);
    assert_eq!(entries[1].name, "vim");
    assert!(!entries[1].installed);
}

#[test]
fn upgradable_lines_give_name_suite_and_versions() {
    let out = "Listing... Done\n\
curl/stable-security 7.88.1-10+deb12u5 amd64 [upgradable from: 7.88.1-10]\n\
WARNING: apt does not have a stable CLI interface.\n\
vim/stable 2:9.0.1378-2 amd64\n\
local 1.1 all [upgradable from: 1.0]\n";
    let ups = parse_upgradable_lines(out);
    assert_eq!(ups.len(), 2);
    assert_eq!(ups[0].name, "curl");
    assert_eq!(ups[0].suite, "stable-security");
    assert_eq!(ups[0].candidate, "7.88.1-10+deb12u5");
    assert_eq!(ups[0].current, "7.88.1-10");
    assert_eq!(ups[1].name, "local");
    assert_eq!(ups[1].suite, "");
    assert_eq!(ups[1].current, "1.0");
}

#[test]
fn a_source_needs_a_plain_id_and_one_line() {
    assert!(validate_source("docker-ce", "deb https://x stable main").is_ok());
    assert_eq!(
        validate_source("Docker", "deb x").unwrap_err(),
        "apt.add_source: id \"Docker\" must match [a-z0-9-]+"
    );
    assert!(validate_source("", "deb x").is_err());
    assert_eq!(
        validate_source("ok", "deb x\nmalicious").unwrap_err(),
        "apt.add_source: source_list must be a single line (no \\n or \\r)"
    );
    let (list, key, body) = source_files("docker", "deb https://x stable  \t", "/etc/apt/sources.list.d", "/usr/share/keyrings");
    assert_eq!(list, "/etc/apt/sources.list.d/docker.list");
    assert_eq!(key, "/usr/share/keyrings/docker.gpg");
    assert_eq!(body, "deb https://x stable\n");
}

fn strings(v: &[&str]) -> Vec<String> {
    v.iter().map(|s| s.to_string()).collect()
}

#[test]
fn install_and_remove_name_their_packages_after_the_flags() {
    assert_eq!(
        install_args(&strings(&["curl", "jq"]), false),
        Ok(strings(&["install", "-y", "--no-install-recommends", "curl", "jq"]))
    );
    assert_eq!(
        install_args(&strings(&["curl"]), true),
        Ok(strings(&["install", "-y", "--no-install-recommends", "--only-upgrade", "curl"]))
    );
    assert_eq!(install_args(&[], false), Err("apt.install: names array is empty".to_string()));
    assert_eq!(remove_args(&strings(&["vim"])), Ok(strings(&["remove", "-y", "vim"])));
    assert_eq!(remove_args(&[]), Err("apt.remove: names array is empty".to_string()));
}

#[test]
fn a_query_reports_the_version_only_of_an_installed_package() {
    let entries = parse_dpkg_lines("curl\t7.88.1-10\tinstall ok installed\nvim\t2:9.0\tdeinstall ok config-files\n");
    assert_eq!(
        query_answer(0, &entries, "curl"),
        QueryAnswer { installed: true, version: Some("7.88.1-10".to_string()) }
    );
    assert_eq!(query_answer(0, &entries, "vim"), QueryAnswer { installed: false, version: None });
    assert_eq!(query_answer(0, &entries, "nano"), QueryAnswer { installed: false, version: None });
    assert_eq!(query_answer(1, &entries, "curl"), QueryAnswer { installed: false, version: None });
}
