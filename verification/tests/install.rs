use assay::install::{
    fetch_start, fetch_step, FetchAction, FetchEvent, FetchStage,
    default_bin_dir, default_cache_dir, default_extension_url, default_lib_dir, default_lib_url,
    join_path_exec, offline_missing, plan_all, sha256_hex, status_error, status_ok, verify_sha256,
    Extension, FetchError, FetchPlan, Lib, Manifest,
};

fn ext() -> Extension {
    Extension {
        name: "assay-engine".to_string(),
        version: "0.4.1".to_string(),
        sha256: vec![("x86_64".to_string(), "aa".to_string()), ("aarch64".to_string(), "bb".to_string())],
        source: None,
    }
}

#[test]
fn an_extension_plan_follows_the_release_convention() {
    let p = FetchPlan::for_extension(&ext(), "aarch64", "/var/cache/assay").unwrap();
    assert_eq!(p.display_name, "assay-engine 0.4.1");
    assert_eq!(p.expected_sha256, "bb");
    assert_eq!(
        p.url,
        "https://github.com/developerinlondon/assay/releases/download/v0.4.1/assay-engine-0.4.1-aarch64.tar.gz"
    );
    assert_eq!(p.cache_path, "/var/cache/assay/assay-engine-0.4.1-aarch64.tar.gz");
}

#[test]
fn an_arch_without_a_hash_is_refused_with_what_is_there() {
    match FetchPlan::for_extension(&ext(), "riscv64", "/c") {
        Err(FetchError::NoArchHash { name, arch, available }) => {
            assert_eq!(name, "assay-engine 0.4.1");
            assert_eq!(arch, "riscv64");
            assert_eq!(available, vec!["x86_64".to_string(), "aarch64".to_string()]);
        }
        other => panic!("unexpected {other:?}"),
    }
}

#[test]
fn a_source_replaces_the_release_url() {
    let mut e = ext();
    e.source = Some("https://mirror/x.tgz".to_string());
    let p = FetchPlan::for_extension(&e, "x86_64", "/c/").unwrap();
    assert_eq!(p.url, "https://mirror/x.tgz");
    assert_eq!(p.cache_path, "/c/assay-engine-0.4.1-x86_64.tar.gz");
}

#[test]
fn a_lib_plan_is_the_same_for_every_arch() {
    let lib = Lib { name: "sysops".to_string(), version: "1.2.0".to_string(), sha256: "cc".to_string(), source: None };
    let p = FetchPlan::for_lib(&lib, "/cache");
    assert_eq!(p.display_name, "sysops 1.2.0");
    assert_eq!(p.expected_sha256, "cc");
    assert_eq!(p.url, default_lib_url("sysops", "1.2.0"));
    assert_eq!(
        p.url,
        "https://github.com/developerinlondon/assay/releases/download/assay-lib-sysops-v1.2.0/assay-lib-sysops-1.2.0.tar.gz"
    );
    assert_eq!(p.cache_path, "/cache/assay-lib-sysops-1.2.0.tar.gz");
    let m = Manifest { assay: None, extensions: vec![ext()], libs: vec![lib] };
    let (e, l) = plan_all(&m, "x86_64", "/cache").unwrap();
    assert_eq!(e.len(), 1);
    assert_eq!(l.len(), 1);
    assert!(plan_all(&m, "mips", "/cache").is_err());
    assert_eq!(
        default_extension_url("n", "1", "a"),
        "https://github.com/developerinlondon/assay/releases/download/v1/n-1-a.tar.gz"
    );
}

#[test]
fn paths_join_like_path_join() {
    assert_eq!(join_path_exec("/a", "b"), "/a/b");
    assert_eq!(join_path_exec("/a/", "b"), "/a/b");
    assert_eq!(join_path_exec("", "b"), "b");
    assert_eq!(join_path_exec("/a", "/b"), "/b");
}

#[test]
fn the_sha256_of_known_input_is_checked() {
    assert_eq!(sha256_hex(b"abc"), "ba7816bf8f01cfea414140de5dae2223b00361a396177a9cb410ff61f20015ad");
    let plan = FetchPlan {
        display_name: "x 1".to_string(),
        url: "u".to_string(),
        cache_path: "p".to_string(),
        expected_sha256: "ba7816bf8f01cfea414140de5dae2223b00361a396177a9cb410ff61f20015ad".to_string(),
    };
    assert!(verify_sha256(&plan, b"abc").is_ok());
    match verify_sha256(&plan, b"abd") {
        Err(FetchError::Sha256Mismatch { name, expected, actual }) => {
            assert_eq!(name, "x 1");
            assert_eq!(expected, plan.expected_sha256);
            assert_ne!(actual, expected);
        }
        other => panic!("unexpected {other:?}"),
    }
}

#[test]
fn default_directories_depend_on_root_and_the_environment() {
    assert_eq!(default_cache_dir(true, Some("/x"), Some("/h")), "/var/cache/assay");
    assert_eq!(default_cache_dir(false, Some("/x"), Some("/h")), "/x/assay");
    assert_eq!(default_cache_dir(false, None, Some("/h")), "/h/.cache/assay");
    assert_eq!(default_cache_dir(false, None, None), "/tmp/assay-cache");
    assert_eq!(default_bin_dir(false, Some("/h")), "/h/.local/bin");
    assert_eq!(default_bin_dir(true, Some("/h")), "/usr/local/bin");
    assert_eq!(default_lib_dir(Some("/libs"), true, None, None), "/libs");
    assert_eq!(default_lib_dir(None, false, Some("/d"), None), "/d/assay/libs");
    assert_eq!(default_lib_dir(None, false, None, Some("/h")), "/h/.local/share/assay/libs");
    assert_eq!(default_lib_dir(None, false, None, None), "/opt/assay/libs");
}

#[test]
fn only_2xx_statuses_succeed_and_others_name_the_download() {
    assert!(status_ok(200));
    assert!(status_ok(299));
    assert!(!status_ok(199));
    assert!(!status_ok(304));
    assert!(!status_ok(404));
    let plan = FetchPlan {
        display_name: "lib x 1.0".to_string(),
        url: "https://example.test/x.tar.gz".to_string(),
        expected_sha256: "aa".to_string(),
        cache_path: "/cache/x.tar.gz".to_string(),
    };
    assert_eq!(
        status_error(&plan, 404),
        FetchError::Status {
            name: "lib x 1.0".to_string(),
            url: "https://example.test/x.tar.gz".to_string(),
            status: 404
        }
    );
    assert_eq!(
        offline_missing(&plan),
        FetchError::OfflineMissing {
            name: "lib x 1.0".to_string(),
            cache_path: "/cache/x.tar.gz".to_string()
        }
    );
}

fn fetch_plan_for(sha: &str) -> assay::install::FetchPlan {
    assay::install::FetchPlan {
        display_name: "lib 1.0".to_string(),
        url: "https://example.com/lib.tar.gz".to_string(),
        cache_path: "/cache/lib.tar.gz".to_string(),
        expected_sha256: sha.to_string(),
    }
}

const ABC_HEX: &str = "ba7816bf8f01cfea414140de5dae2223b00361a396177a9cb410ff61f20015ad";

#[test]
fn a_good_cache_entry_ends_the_fetch() {
    let plan = fetch_plan_for(ABC_HEX);
    let (stage, action) = fetch_start();
    assert_eq!((stage, action), (FetchStage::Probing, FetchAction::ReadCache));
    let (stage, action) = fetch_step(&plan, false, stage, FetchEvent::Cached(b"abc".to_vec()));
    assert_eq!((stage, action), (FetchStage::Finished, FetchAction::Done(Ok(()))));
}

#[test]
fn a_bad_cache_entry_is_discarded_and_offline_then_fails() {
    let plan = fetch_plan_for(ABC_HEX);
    let (stage, action) = fetch_step(&plan, true, FetchStage::Probing, FetchEvent::Cached(b"abd".to_vec()));
    assert_eq!((stage, action), (FetchStage::Discarding, FetchAction::DiscardCache));
    let (stage, action) = fetch_step(&plan, true, stage, FetchEvent::Discarded);
    assert_eq!(stage, FetchStage::Finished);
    assert_eq!(
        action,
        FetchAction::Done(Err(FetchError::OfflineMissing {
            name: "lib 1.0".to_string(),
            cache_path: "/cache/lib.tar.gz".to_string()
        }))
    );
}

#[test]
fn downloaded_bytes_reach_the_cache_only_when_their_sha256_matches() {
    let plan = fetch_plan_for(ABC_HEX);
    let (stage, action) = fetch_step(&plan, false, FetchStage::Probing, FetchEvent::NotCached);
    assert_eq!((stage, action), (FetchStage::Downloading, FetchAction::Download));
    let (stage, action) = fetch_step(&plan, false, stage, FetchEvent::Responded(404));
    assert_eq!(stage, FetchStage::Finished);
    assert_eq!(
        action,
        FetchAction::Done(Err(FetchError::Status {
            name: "lib 1.0".to_string(),
            url: "https://example.com/lib.tar.gz".to_string(),
            status: 404
        }))
    );
    let (stage, action) = fetch_step(&plan, false, FetchStage::Downloading, FetchEvent::Responded(200));
    assert_eq!((stage, action), (FetchStage::Receiving, FetchAction::ReadBody));
    let (stage, action) = fetch_step(&plan, false, stage, FetchEvent::Received(b"abc".to_vec()));
    assert_eq!(
        (stage, action),
        (
            FetchStage::Writing,
            FetchAction::WriteCache { tmp_path: "/cache/lib.tar.gz.tmp".to_string(), bytes: b"abc".to_vec() }
        )
    );
    let (_, action) = fetch_step(&plan, false, FetchStage::Receiving, FetchEvent::Received(b"abd".to_vec()));
    assert!(matches!(action, FetchAction::Done(Err(FetchError::Sha256Mismatch { .. }))));
    let (stage, action) = fetch_step(&plan, false, FetchStage::Writing, FetchEvent::Written);
    assert_eq!((stage, action), (FetchStage::Finished, FetchAction::Done(Ok(()))));
}
